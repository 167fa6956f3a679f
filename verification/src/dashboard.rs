//! The ground-station dashboard's data: its pages and the command records it
//! lists and searches. Rendering is the application's.
use vstd::prelude::*;
use crate::text::{contains, contains_text, lowercase, to_lowercase};

verus! {

/// The pages of the dashboard.
#[derive(PartialEq, Eq, Structural, Debug, Clone, Copy)]
pub enum Route {
    Home,
    SendCommand,
    CommandHistory,
}

/// The path of each page.
pub open spec fn route_path(r: Route) -> Seq<char> {
    match r {
        Route::Home => "/"@,
        Route::SendCommand => "/send_command"@,
        Route::CommandHistory => "/command_history"@,
    }
}

impl Route {
    /// The path that the page is served at.
    pub fn to_path(&self) -> (r: &'static str)
        ensures
            r@ == route_path(*self),
    {
        match self {
            Route::Home => "/",
            Route::SendCommand => "/send_command",
            Route::CommandHistory => "/command_history",
        }
    }
}

/// A command as the dashboard sends and lists it.
#[derive(Debug)]
pub struct Command {
    pub payload: String,
    pub cmd: String,
    pub data: String,
    pub timestamp: Option<String>,
}

/// The text shown for each column of a command; `None` for an unknown column.
pub open spec fn field_text_of(c: Command, field_name: Seq<char>) -> Option<Seq<char>> {
    if field_name == "payload"@ {
        Some(c.payload@)
    } else if field_name == "cmd"@ {
        Some(c.cmd@)
    } else if field_name == "data"@ {
        Some(c.data@)
    } else if field_name == "timestamp"@ {
        Some(
            match c.timestamp {
                Some(ts) => ts@,
                None => "No timestamp"@,
            },
        )
    } else {
        None
    }
}

impl Default for Command {
    fn default() -> (r: Command)
        ensures
            r.payload@ == Seq::<char>::empty(),
            r.cmd@ == Seq::<char>::empty(),
            r.data@ == Seq::<char>::empty(),
            r.timestamp is None,
    {
        Command { payload: String::new(), cmd: String::new(), data: String::new(), timestamp: None }
    }
}

impl Clone for Command {
    fn clone(&self) -> (r: Command)
        ensures
            r == *self,
    {
        let timestamp = match &self.timestamp {
            Some(ts) => Some(ts.clone()),
            None => None,
        };
        Command {
            payload: self.payload.clone(),
            cmd: self.cmd.clone(),
            data: self.data.clone(),
            timestamp,
        }
    }
}

impl Command {
    /// The text shown in the column `field_name`.
    pub fn field_text(&self, field_name: &str) -> (r: Option<String>)
        ensures
            match field_text_of(*self, field_name@) {
                Some(t) => r matches Some(x) && x@ == t,
                None => r is None,
            },
    {
        if crate::text::str_eq(field_name, "payload") {
            Some(self.payload.clone())
        } else if crate::text::str_eq(field_name, "cmd") {
            Some(self.cmd.clone())
        } else if crate::text::str_eq(field_name, "data") {
            Some(self.data.clone())
        } else if crate::text::str_eq(field_name, "timestamp") {
            match &self.timestamp {
                Some(ts) => Some(ts.clone()),
                None => Some(String::from_str("No timestamp")),
            }
        } else {
            None
        }
    }

    /// The command as it stands after the form's input field `name` was set
    /// to `value`: the field of that name takes the value, the others and the
    /// timestamp stay as they were. An unknown name changes nothing.
    pub fn with_input(&self, name: &str, value: String) -> (r: Command)
        ensures
            r.payload@ == (if name@ == "payload"@ { value@ } else { self.payload@ }),
            r.cmd@ == (if name@ == "cmd"@ { value@ } else { self.cmd@ }),
            r.data@ == (if name@ == "data"@ { value@ } else { self.data@ }),
            r.timestamp == self.timestamp,
    {
        let is_payload = crate::text::str_eq(name, "payload");
        let is_cmd = crate::text::str_eq(name, "cmd");
        let is_data = crate::text::str_eq(name, "data");
        let payload = if is_payload { value.clone() } else { self.payload.clone() };
        let cmd = if is_cmd { value.clone() } else { self.cmd.clone() };
        let data = if is_data { value.clone() } else { self.data.clone() };
        let timestamp = match &self.timestamp {
            Some(ts) => Some(ts.clone()),
            None => None,
        };
        Command { payload, cmd, data, timestamp }
    }

    /// Whether the command matches a search: every command matches no search;
    /// otherwise the needle must occur in the command text, both lower-cased.
    pub fn matches_search(&self, needle: Option<String>) -> (r: bool)
        ensures
            r == match needle {
                Some(n) => contains_text(lowercase(self.cmd@), lowercase(n@)),
                None => true,
            },
    {
        match needle {
            Some(needle) => {
                let hay = to_lowercase(self.cmd.as_str());
                let pat = to_lowercase(needle.as_str());
                contains(hay.as_str(), pat.as_str())
            },
            None => true,
        }
    }
}

} // verus!
