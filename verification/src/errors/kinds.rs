//! The kinds of violation.

use vstd::prelude::*;
use vstd::string::StringExecFns;

verus! {

/// What was wrong with a value: the closed list of the kinds of violation.
#[derive(Clone, Copy, Debug, PartialEq, Eq, Structural)]
pub enum ErrorKind {
    /// The value is not null.
    NoneRequired,
    /// The value is no boolean, nor anything that stands for one.
    BoolType,
    /// The value is a text or a number that stands for no boolean.
    BoolParsing,
    /// The value is no integer, nor anything that stands for one.
    IntType,
    /// The value is a text that is no integer numeral.
    IntParsing,
    /// The value is an integer numeral too large or too small to be held.
    IntOverflow,
    /// The value is no number, nor anything that stands for one.
    FloatType,
    /// The value is a text or a numeral that writes no number.
    FloatParsing,
    /// The integer is below the least that is allowed.
    GreaterThanEqual,
    /// The integer is above the greatest that is allowed.
    LessThanEqual,
    /// The value is no text.
    StringType,
    /// The text has fewer characters than are asked for.
    StringTooShort,
    /// The text has more characters than are allowed.
    StringTooLong,
    /// The value is no byte string, nor anything that stands for one.
    BytesType,
    /// The value is no sequence, nor anything that stands for one.
    ListType,
    /// The value is no set, nor anything that stands for one.
    SetType,
    /// The value is no mapping.
    DictType,
    /// The value is no mapping, where a record is asked for.
    RecordType,
    /// A required field of a record is absent.
    Missing,
    /// A record that rejects undeclared keys has one.
    ExtraForbidden,
    /// The value is none of the constants allowed.
    LiteralError,
    /// A value holds itself, or definitions are nested too deeply.
    RecursionLoop,
    /// The text is no well-formed document.
    JsonInvalid,
    /// A check of the application's own failed; the record names it.
    Custom,
    /// A check asked to leave the value out, with nothing above it to do so.
    OmitUncaught,
    /// A check asked for the default, with nothing above it that has one.
    UseDefaultUncaught,
}

/// The kind that goes by a name, for the kinds that a schema may name. The
/// kinds that stand for a check's own error, or for a signal that nothing
/// caught, have no name.
pub open spec fn kind_named(name: Seq<char>) -> Option<ErrorKind> {
    if name == "none_required"@ {
        Some(ErrorKind::NoneRequired)
    } else if name == "bool_type"@ {
        Some(ErrorKind::BoolType)
    } else if name == "bool_parsing"@ {
        Some(ErrorKind::BoolParsing)
    } else if name == "int_type"@ {
        Some(ErrorKind::IntType)
    } else if name == "int_parsing"@ {
        Some(ErrorKind::IntParsing)
    } else if name == "int_overflow"@ {
        Some(ErrorKind::IntOverflow)
    } else if name == "float_type"@ {
        Some(ErrorKind::FloatType)
    } else if name == "float_parsing"@ {
        Some(ErrorKind::FloatParsing)
    } else if name == "greater_than_equal"@ {
        Some(ErrorKind::GreaterThanEqual)
    } else if name == "less_than_equal"@ {
        Some(ErrorKind::LessThanEqual)
    } else if name == "string_type"@ {
        Some(ErrorKind::StringType)
    } else if name == "string_too_short"@ {
        Some(ErrorKind::StringTooShort)
    } else if name == "string_too_long"@ {
        Some(ErrorKind::StringTooLong)
    } else if name == "bytes_type"@ {
        Some(ErrorKind::BytesType)
    } else if name == "list_type"@ {
        Some(ErrorKind::ListType)
    } else if name == "set_type"@ {
        Some(ErrorKind::SetType)
    } else if name == "dict_type"@ {
        Some(ErrorKind::DictType)
    } else if name == "record_type"@ {
        Some(ErrorKind::RecordType)
    } else if name == "missing"@ {
        Some(ErrorKind::Missing)
    } else if name == "extra_forbidden"@ {
        Some(ErrorKind::ExtraForbidden)
    } else if name == "literal_error"@ {
        Some(ErrorKind::LiteralError)
    } else if name == "recursion_loop"@ {
        Some(ErrorKind::RecursionLoop)
    } else if name == "json_invalid"@ {
        Some(ErrorKind::JsonInvalid)
    } else {
        None
    }
}

impl ErrorKind {
    /// The kind that goes by `name`, if there is one.
    pub fn from_name(name: &str) -> (kind: Option<ErrorKind>)
        ensures
            kind == kind_named(name@),
    {
        let name = String::from_str(name);
        if name == String::from_str("none_required") {
            Some(ErrorKind::NoneRequired)
        } else if name == String::from_str("bool_type") {
            Some(ErrorKind::BoolType)
        } else if name == String::from_str("bool_parsing") {
            Some(ErrorKind::BoolParsing)
        } else if name == String::from_str("int_type") {
            Some(ErrorKind::IntType)
        } else if name == String::from_str("int_parsing") {
            Some(ErrorKind::IntParsing)
        } else if name == String::from_str("int_overflow") {
            Some(ErrorKind::IntOverflow)
        } else if name == String::from_str("float_type") {
            Some(ErrorKind::FloatType)
        } else if name == String::from_str("float_parsing") {
            Some(ErrorKind::FloatParsing)
        } else if name == String::from_str("greater_than_equal") {
            Some(ErrorKind::GreaterThanEqual)
        } else if name == String::from_str("less_than_equal") {
            Some(ErrorKind::LessThanEqual)
        } else if name == String::from_str("string_type") {
            Some(ErrorKind::StringType)
        } else if name == String::from_str("string_too_short") {
            Some(ErrorKind::StringTooShort)
        } else if name == String::from_str("string_too_long") {
            Some(ErrorKind::StringTooLong)
        } else if name == String::from_str("bytes_type") {
            Some(ErrorKind::BytesType)
        } else if name == String::from_str("list_type") {
            Some(ErrorKind::ListType)
        } else if name == String::from_str("set_type") {
            Some(ErrorKind::SetType)
        } else if name == String::from_str("dict_type") {
            Some(ErrorKind::DictType)
        } else if name == String::from_str("record_type") {
            Some(ErrorKind::RecordType)
        } else if name == String::from_str("missing") {
            Some(ErrorKind::Missing)
        } else if name == String::from_str("extra_forbidden") {
            Some(ErrorKind::ExtraForbidden)
        } else if name == String::from_str("literal_error") {
            Some(ErrorKind::LiteralError)
        } else if name == String::from_str("recursion_loop") {
            Some(ErrorKind::RecursionLoop)
        } else if name == String::from_str("json_invalid") {
            Some(ErrorKind::JsonInvalid)
        } else {
            None
        }
    }
}

} // verus!
