//! Identifiers of everything that sends or receives a message; each message
//! header carries one for its source and one for its destination.
use vstd::prelude::*;
use crate::text::str_eq;

verus! {

pub const OBC: u8 = 0;
pub const EPS: u8 = 1;
pub const ADCS: u8 = 2;
pub const DFGM: u8 = 3;
pub const IRIS: u8 = 4;
pub const GPS: u8 = 5;
pub const GS: u8 = 7;
pub const COMS: u8 = 8;

/// The component identifiers; `TEST` stands for test tooling and for any
/// unknown number.
#[derive(PartialEq, Eq, Structural, Debug, Clone, Copy)]
pub enum ComponentIds {
    OBC,
    EPS,
    ADCS,
    DFGM,
    IRIS,
    GPS,
    GS,
    COMS,
    TEST,
}

/// The number that stands for each component in a message header.
pub open spec fn component_number(c: ComponentIds) -> u8 {
    match c {
        ComponentIds::OBC => 0,
        ComponentIds::EPS => 1,
        ComponentIds::ADCS => 2,
        ComponentIds::DFGM => 3,
        ComponentIds::IRIS => 4,
        ComponentIds::GPS => 5,
        ComponentIds::GS => 7,
        ComponentIds::COMS => 8,
        ComponentIds::TEST => 99,
    }
}

/// The component that a header number names; every number that names none
/// stands for `TEST`.
pub open spec fn component_of_number(v: u8) -> ComponentIds {
    if v == 0 { ComponentIds::OBC }
    else if v == 1 { ComponentIds::EPS }
    else if v == 2 { ComponentIds::ADCS }
    else if v == 3 { ComponentIds::DFGM }
    else if v == 4 { ComponentIds::IRIS }
    else if v == 5 { ComponentIds::GPS }
    else if v == 7 { ComponentIds::GS }
    else if v == 8 { ComponentIds::COMS }
    else { ComponentIds::TEST }
}

/// The printed name of each component.
pub open spec fn component_name(c: ComponentIds) -> Seq<char> {
    match c {
        ComponentIds::OBC => "OBC"@,
        ComponentIds::EPS => "EPS"@,
        ComponentIds::ADCS => "ADCS"@,
        ComponentIds::DFGM => "DFGM"@,
        ComponentIds::IRIS => "IRIS"@,
        ComponentIds::GPS => "GPS"@,
        ComponentIds::GS => "GS"@,
        ComponentIds::COMS => "COMS"@,
        ComponentIds::TEST => "TEST"@,
    }
}

/// The component whose printed name is exactly `s`, if any.
pub open spec fn component_of_name(s: Seq<char>) -> Option<ComponentIds> {
    if s == "OBC"@ { Some(ComponentIds::OBC) }
    else if s == "EPS"@ { Some(ComponentIds::EPS) }
    else if s == "ADCS"@ { Some(ComponentIds::ADCS) }
    else if s == "DFGM"@ { Some(ComponentIds::DFGM) }
    else if s == "IRIS"@ { Some(ComponentIds::IRIS) }
    else if s == "GPS"@ { Some(ComponentIds::GPS) }
    else if s == "GS"@ { Some(ComponentIds::GS) }
    else if s == "COMS"@ { Some(ComponentIds::COMS) }
    else if s == "TEST"@ { Some(ComponentIds::TEST) }
    else { None }
}

impl ComponentIds {
    /// The header number of this component.
    pub fn id(&self) -> (r: u8)
        ensures
            r == component_number(*self),
    {
        match self {
            ComponentIds::OBC => 0,
            ComponentIds::EPS => 1,
            ComponentIds::ADCS => 2,
            ComponentIds::DFGM => 3,
            ComponentIds::IRIS => 4,
            ComponentIds::GPS => 5,
            ComponentIds::GS => 7,
            ComponentIds::COMS => 8,
            ComponentIds::TEST => 99,
        }
    }

    /// The component with the printed name `s`; any other text is refused.
    pub fn from_str(s: &str) -> (r: Result<ComponentIds, ()>)
        ensures
            r == (match component_of_name(s@) {
                Some(c) => Ok::<ComponentIds, ()>(c),
                None => Err(()),
            }),
    {
        if str_eq(s, "OBC") { Ok(ComponentIds::OBC) }
        else if str_eq(s, "EPS") { Ok(ComponentIds::EPS) }
        else if str_eq(s, "ADCS") { Ok(ComponentIds::ADCS) }
        else if str_eq(s, "DFGM") { Ok(ComponentIds::DFGM) }
        else if str_eq(s, "IRIS") { Ok(ComponentIds::IRIS) }
        else if str_eq(s, "GPS") { Ok(ComponentIds::GPS) }
        else if str_eq(s, "GS") { Ok(ComponentIds::GS) }
        else if str_eq(s, "COMS") { Ok(ComponentIds::COMS) }
        else if str_eq(s, "TEST") { Ok(ComponentIds::TEST) }
        else { Err(()) }
    }

    /// The printed name of this component.
    pub fn to_string(&self) -> (r: String)
        ensures
            r@ == component_name(*self),
    {
        let name: &str = match self {
            ComponentIds::OBC => "OBC",
            ComponentIds::EPS => "EPS",
            ComponentIds::ADCS => "ADCS",
            ComponentIds::DFGM => "DFGM",
            ComponentIds::IRIS => "IRIS",
            ComponentIds::GPS => "GPS",
            ComponentIds::GS => "GS",
            ComponentIds::COMS => "COMS",
            ComponentIds::TEST => "TEST",
        };
        String::from_str(name)
    }
}

impl core::str::FromStr for ComponentIds {
    type Err = ();

    fn from_str(s: &str) -> (r: Result<ComponentIds, ()>)
        ensures
            r == (match component_of_name(s@) {
                Some(c) => Ok::<ComponentIds, ()>(c),
                None => Err(()),
            }),
    {
        ComponentIds::from_str(s)
    }
}

/// The component with header number `value`; an unknown number gives `TEST`.
/// The conversion only computes: it reports nothing on an unknown number.
impl From<u8> for ComponentIds {
    fn from(value: u8) -> (r: ComponentIds) {
        if value == 0 { ComponentIds::OBC }
        else if value == 1 { ComponentIds::EPS }
        else if value == 2 { ComponentIds::ADCS }
        else if value == 3 { ComponentIds::DFGM }
        else if value == 4 { ComponentIds::IRIS }
        else if value == 5 { ComponentIds::GPS }
        else if value == 7 { ComponentIds::GS }
        else if value == 8 { ComponentIds::COMS }
        else { ComponentIds::TEST }
    }
}

impl vstd::std_specs::convert::FromSpecImpl<u8> for ComponentIds {
    open spec fn obeys_from_spec() -> bool {
        true
    }

    open spec fn from_spec(v: u8) -> ComponentIds {
        component_of_number(v)
    }
}

/// Reading back the header number of a component gives that component.
pub proof fn lemma_number_round_trip(c: ComponentIds)
    ensures
        component_of_number(component_number(c)) == c,
{
}

/// Reading back the printed name of a component gives that component.
pub proof fn lemma_name_round_trip(c: ComponentIds)
    ensures
        component_of_name(component_name(c)) == Some(c),
{
    reveal_strlit("OBC");
    reveal_strlit("EPS");
    reveal_strlit("ADCS");
    reveal_strlit("DFGM");
    reveal_strlit("IRIS");
    reveal_strlit("GPS");
    reveal_strlit("GS");
    reveal_strlit("COMS");
    reveal_strlit("TEST");
    let o = "OBC"@;
    let e = "EPS"@;
    let a = "ADCS"@;
    let d = "DFGM"@;
    let i = "IRIS"@;
    let g = "GPS"@;
    let s = "GS"@;
    let m = "COMS"@;
    let t = "TEST"@;
    assert(o[0] == 'O' && e[0] == 'E' && a[0] == 'A' && d[0] == 'D' && i[0] == 'I');
    assert(g[0] == 'G' && g[1] == 'P' && s[0] == 'G' && s[1] == 'S' && m[0] == 'C' && t[0] == 'T');
}

} // verus!
