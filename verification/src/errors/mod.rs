//! Violations and reports, and the one-line description of an exception of the host.

use vstd::prelude::*;
use vstd::string::StringExecFns;

pub mod kinds;
pub mod location;
pub mod violation;

pub use self::kinds::ErrorKind;
pub use self::location::{LocItem, LocItemModel, Location};
pub use self::violation::{ErrorContext, ErrorContextModel, Report, ReportModel, Violation, ViolationModel};

verus! {

/// The one-line description of an exception, given the qualified name of its
/// class and its text, each `None` where the host could not supply it:
/// "Unknown Error" without a class name; the class name alone where the text
/// is empty; the class name, a colon and the text otherwise; and the class
/// name with a note that the text could not be had where it could not.
pub open spec fn err_string_of(class_name: Option<Seq<char>>, text: Option<Seq<char>>) -> Seq<char> {
    match class_name {
        None => "Unknown Error"@,
        Some(name) => match text {
            None => name + ": <exception str() failed>"@,
            Some(t) => if t.len() == 0 { name } else { name + ": "@ + t },
        },
    }
}

/// The characters of an optional string.
pub open spec fn text_of(s: Option<String>) -> Option<Seq<char>> {
    match s {
        Some(t) => Some(t@),
        None => None,
    }
}

/// Builds the description of an exception from its parts: the qualified
/// name of its class and its text, as the host gave them.
pub fn err_string(class_name: Option<String>, text: Option<String>) -> (s: String)
    ensures
        s@ == err_string_of(text_of(class_name), text_of(text)),
{
    match class_name {
        None => String::from_str("Unknown Error"),
        Some(name) => match text {
            None => name.concat(": <exception str() failed>"),
            Some(t) => {
                if t.as_str().is_empty() {
                    name
                } else {
                    let head = name.concat(": ");
                    head.concat(t.as_str())
                }
            },
        },
    }
}

} // verus!
