//! The names of the CDDL prelude and what each of them accepts.
use crate::text::str_eq;
use vstd::prelude::*;

verus! {

/// The prelude types that validation tells apart.
#[derive(Debug, Clone, Copy, PartialEq, Eq, Structural)]
pub enum Prelude {
    Any,
    Bool,
    True,
    False,
    Null,
    Uint,
    Nint,
    Int,
    Number,
    Float,
    Text,
    Bytes,
    Tdate,
    Time,
    Uri,
    B64url,
}

/// The prelude type that a name stands for, if it stands for one.
pub open spec fn prelude_of(name: Seq<char>) -> Option<Prelude> {
    if name == "any"@ {
        Some(Prelude::Any)
    } else if name == "bool"@ {
        Some(Prelude::Bool)
    } else if name == "true"@ {
        Some(Prelude::True)
    } else if name == "false"@ {
        Some(Prelude::False)
    } else if name == "null"@ || name == "nil"@ {
        Some(Prelude::Null)
    } else if name == "uint"@ || name == "unsigned"@ {
        Some(Prelude::Uint)
    } else if name == "nint"@ {
        Some(Prelude::Nint)
    } else if name == "int"@ || name == "integer"@ {
        Some(Prelude::Int)
    } else if name == "number"@ {
        Some(Prelude::Number)
    } else if is_float_name(name) {
        Some(Prelude::Float)
    } else if name == "tstr"@ || name == "text"@ {
        Some(Prelude::Text)
    } else if name == "bstr"@ || name == "bytes"@ {
        Some(Prelude::Bytes)
    } else if name == "tdate"@ {
        Some(Prelude::Tdate)
    } else if name == "time"@ {
        Some(Prelude::Time)
    } else if name == "uri"@ {
        Some(Prelude::Uri)
    } else if name == "b64url"@ {
        Some(Prelude::B64url)
    } else {
        None
    }
}

pub open spec fn is_float_name(name: Seq<char>) -> bool {
    ||| name == "float"@
    ||| name == "float16"@
    ||| name == "float32"@
    ||| name == "float64"@
    ||| name == "float16-32"@
    ||| name == "float32-64"@
}

/// The groups of prelude names that the `is_ident_*` predicates ask about.
#[derive(Debug, Clone, Copy, PartialEq, Eq, Structural)]
pub enum Class {
    Null,
    Bool,
    Uri,
    B64url,
    Tdate,
    Time,
    Numeric,
    Uint,
    Nint,
    Integer,
    Float,
    Text,
    Any,
    Bytes,
    True,
    False,
}

/// Whether a prelude name belongs to a class.
pub open spec fn in_class(name: Seq<char>, class: Class) -> bool {
    match class {
        Class::Null => name == "null"@ || name == "nil"@,
        Class::Bool => name == "bool"@ || name == "true"@ || name == "false"@,
        Class::Uri => name == "uri"@,
        Class::B64url => name == "b64url"@,
        Class::Tdate => name == "tdate"@,
        Class::Time => name == "time"@,
        Class::Numeric => {
            ||| name == "uint"@
            ||| name == "nint"@
            ||| name == "integer"@
            ||| name == "int"@
            ||| name == "number"@
            ||| name == "unsigned"@
            ||| is_float_name(name)
        },
        Class::Uint => name == "uint"@,
        Class::Nint => name == "nint"@,
        Class::Integer => {
            ||| name == "int"@
            ||| name == "integer"@
            ||| name == "nint"@
            ||| name == "uint"@
            ||| name == "number"@
            ||| name == "unsigned"@
        },
        Class::Float => is_float_name(name),
        Class::Text => name == "text"@ || name == "tstr"@,
        Class::Any => name == "any"@,
        Class::Bytes => name == "bstr"@ || name == "bytes"@,
        Class::True => name == "true"@,
        Class::False => name == "false"@,
    }
}

fn is_float_str(name: &str) -> (r: bool)
    ensures
        r == is_float_name(name@),
{
    str_eq(name, "float") || str_eq(name, "float16") || str_eq(name, "float32") || str_eq(
        name,
        "float64",
    ) || str_eq(name, "float16-32") || str_eq(name, "float32-64")
}

/// The prelude type that a name stands for.
pub fn prelude_from_str(name: &str) -> (r: Option<Prelude>)
    ensures
        r == prelude_of(name@),
{
    if str_eq(name, "any") {
        Some(Prelude::Any)
    } else if str_eq(name, "bool") {
        Some(Prelude::Bool)
    } else if str_eq(name, "true") {
        Some(Prelude::True)
    } else if str_eq(name, "false") {
        Some(Prelude::False)
    } else if str_eq(name, "null") || str_eq(name, "nil") {
        Some(Prelude::Null)
    } else if str_eq(name, "uint") || str_eq(name, "unsigned") {
        Some(Prelude::Uint)
    } else if str_eq(name, "nint") {
        Some(Prelude::Nint)
    } else if str_eq(name, "int") || str_eq(name, "integer") {
        Some(Prelude::Int)
    } else if str_eq(name, "number") {
        Some(Prelude::Number)
    } else if is_float_str(name) {
        Some(Prelude::Float)
    } else if str_eq(name, "tstr") || str_eq(name, "text") {
        Some(Prelude::Text)
    } else if str_eq(name, "bstr") || str_eq(name, "bytes") {
        Some(Prelude::Bytes)
    } else if str_eq(name, "tdate") {
        Some(Prelude::Tdate)
    } else if str_eq(name, "time") {
        Some(Prelude::Time)
    } else if str_eq(name, "uri") {
        Some(Prelude::Uri)
    } else if str_eq(name, "b64url") {
        Some(Prelude::B64url)
    } else {
        None
    }
}

/// Whether a prelude name belongs to a class.
pub fn name_in_class(name: &str, class: Class) -> (r: bool)
    ensures
        r == in_class(name@, class),
{
    match class {
        Class::Null => str_eq(name, "null") || str_eq(name, "nil"),
        Class::Bool => str_eq(name, "bool") || str_eq(name, "true") || str_eq(name, "false"),
        Class::Uri => str_eq(name, "uri"),
        Class::B64url => str_eq(name, "b64url"),
        Class::Tdate => str_eq(name, "tdate"),
        Class::Time => str_eq(name, "time"),
        Class::Numeric => {
            str_eq(name, "uint") || str_eq(name, "nint") || str_eq(name, "integer") || str_eq(
                name,
                "int",
            ) || str_eq(name, "number") || str_eq(name, "unsigned") || is_float_str(name)
        },
        Class::Uint => str_eq(name, "uint"),
        Class::Nint => str_eq(name, "nint"),
        Class::Integer => {
            str_eq(name, "int") || str_eq(name, "integer") || str_eq(name, "nint") || str_eq(
                name,
                "uint",
            ) || str_eq(name, "number") || str_eq(name, "unsigned")
        },
        Class::Float => is_float_str(name),
        Class::Text => str_eq(name, "text") || str_eq(name, "tstr"),
        Class::Any => str_eq(name, "any"),
        Class::Bytes => str_eq(name, "bstr") || str_eq(name, "bytes"),
        Class::True => str_eq(name, "true"),
        Class::False => str_eq(name, "false"),
    }
}

} // verus!
