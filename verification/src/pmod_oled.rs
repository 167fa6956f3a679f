//! The Pmod OLED display: which GPIO lines drive its data/command select,
//! reset, battery and logic power inputs. Driving the lines and the SPI bus is
//! the application's.
use vstd::prelude::*;

verus! {

/// The GPIO lines of a Pmod OLED.
pub struct PmodOled {
    dc: u32,
    reset: u32,
    vbatc: u32,
    vddc: u32,
}

impl View for PmodOled {
    /// The data/command, reset, battery-power and logic-power lines, in order.
    type V = (u32, u32, u32, u32);

    closed spec fn view(&self) -> (u32, u32, u32, u32) {
        (self.dc, self.reset, self.vbatc, self.vddc)
    }
}

impl PmodOled {
    /// A display wired to the given lines.
    pub fn new(dc: u32, reset: u32, vbatc: u32, vddc: u32) -> (r: PmodOled)
        ensures
            r@ == (dc, reset, vbatc, vddc),
    {
        PmodOled { dc, reset, vbatc, vddc }
    }

    /// The lines to request, in the order the power-on sequence uses them:
    /// data/command, reset, battery power, logic power.
    pub fn gpio_line_numbers(&self) -> (r: [u32; 4])
        ensures
            r@ == seq![self@.0, self@.1, self@.2, self@.3],
    {
        let r = [self.dc, self.reset, self.vbatc, self.vddc];
        assert(r@ =~= seq![self@.0, self@.1, self@.2, self@.3]);
        r
    }
}

} // verus!
