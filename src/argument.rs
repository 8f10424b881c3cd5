//! Placeholders and their positions, errors, and argument sources.
use vstd::prelude::*;
use crate::value::{Value, ValueMap};

verus! {

/// How a placeholder selects its argument.
#[derive(Debug)]
pub enum Position {
    /// The next argument that no other `Auto` placeholder has taken.
    Auto,
    /// The argument at this zero-based index.
    Index(usize),
    /// The argument under this name.
    Key(String),
}

/// What a `Position` denotes.
pub enum Slot {
    Auto,
    Index(nat),
    Key(Seq<char>),
}

impl View for Position {
    type V = Slot;

    open spec fn view(&self) -> Slot {
        match self {
            Position::Auto => Slot::Auto,
            Position::Index(n) => Slot::Index(*n as nat),
            Position::Key(k) => Slot::Key(k@),
        }
    }
}

/// How a value turns into text.
#[derive(Debug, Clone, Copy, PartialEq, Eq, Structural)]
pub enum Conversion {
    Display,
    Repr,
    Octal,
    LowerHex,
    UpperHex,
    LowerExp,
    UpperExp,
}

/// Where a field width comes from.
#[derive(Debug, Clone, Copy, PartialEq, Eq, Structural)]
pub enum Width {
    /// A width written in the placeholder.
    Literal(usize),
    /// A width taken from the next positional argument, an integer.
    FromArgument,
}

/// How a placeholder renders its value.
#[derive(Debug, Clone, Copy, PartialEq, Eq, Structural)]
pub struct Directive {
    pub conversion: Conversion,
    pub width: Option<Width>,
    pub zero_pad: bool,
    pub left_align: bool,
    pub alternate: bool,
}

impl Directive {
    /// Display conversion, no width, no flags.
    pub fn plain() -> (d: Directive)
        ensures
            d == Directive::plain_spec(),
    {
        Directive {
            conversion: Conversion::Display,
            width: None,
            zero_pad: false,
            left_align: false,
            alternate: false,
        }
    }

    pub open spec fn plain_spec() -> Directive {
        Directive {
            conversion: Conversion::Display,
            width: None,
            zero_pad: false,
            left_align: false,
            alternate: false,
        }
    }
}

/// One placeholder of a template: the byte span `start..end` that it takes,
/// delimiters included, which argument it selects and how it renders it.
#[derive(Debug)]
pub struct ArgumentSpec {
    pub start: usize,
    pub end: usize,
    pub position: Position,
    pub directive: Directive,
}

/// A placeholder as the scanners model it: its span in characters, which
/// argument it selects and how it renders it.
pub struct Placeholder {
    pub first: nat,
    pub last: nat,
    pub slot: Slot,
    pub directive: Directive,
}

/// A placeholder found in a template's characters.
#[derive(Debug)]
pub struct Found {
    pub first: usize,
    pub last: usize,
    pub position: Position,
    pub directive: Directive,
}

impl View for Found {
    type V = Placeholder;

    open spec fn view(&self) -> Placeholder {
        Placeholder {
            first: self.first as nat,
            last: self.last as nat,
            slot: self.position@,
            directive: self.directive,
        }
    }
}

/// Why a placeholder could not be read.
#[derive(Debug, Clone, Copy, PartialEq, Eq, Structural)]
pub enum ParseReason {
    /// The template ends inside the placeholder.
    Unterminated,
    /// A name in parentheses is not closed by `)`.
    UnclosedName,
    /// The conversion character is none of the known ones.
    UnknownConversion,
    /// The literal width does not fit in a `usize`.
    WidthTooLarge,
}

/// The kinds of values.
#[derive(Debug, Clone, Copy, PartialEq, Eq, Structural)]
pub enum ValueKind {
    Str,
    Bool,
    Int,
    Float,
    List,
    Object,
}

pub open spec fn kind_of(v: Value) -> ValueKind {
    match v {
        Value::Str(_) => ValueKind::Str,
        Value::Bool(_) => ValueKind::Bool,
        Value::Int(_) => ValueKind::Int,
        Value::Float(_) => ValueKind::Float,
        Value::List(_) => ValueKind::List,
        Value::Object(_) => ValueKind::Object,
    }
}

pub fn value_kind(v: &Value) -> (k: ValueKind)
    ensures
        k == kind_of(*v),
{
    match v {
        Value::Str(_) => ValueKind::Str,
        Value::Bool(_) => ValueKind::Bool,
        Value::Int(_) => ValueKind::Int,
        Value::Float(_) => ValueKind::Float,
        Value::List(_) => ValueKind::List,
        Value::Object(_) => ValueKind::Object,
    }
}

/// Why formatting failed.
#[derive(Debug)]
pub enum Error {
    /// The placeholder starting at byte `offset` is malformed.
    Parse { offset: usize, reason: ParseReason },
    /// No argument stands at this position.
    MissingArgument(Position),
    /// The position cannot select from this kind of argument source.
    UnsupportedPosition,
    /// A value of one kind was needed, one of another kind was found.
    TypeMismatch { expected: ValueKind, found: ValueKind },
}

/// What an `Error` denotes.
pub enum Fault {
    Parse { offset: nat, reason: ParseReason },
    Missing(Slot),
    UnsupportedPosition,
    TypeMismatch { expected: ValueKind, found: ValueKind },
}

impl View for Error {
    type V = Fault;

    open spec fn view(&self) -> Fault {
        match self {
            Error::Parse { offset, reason } => Fault::Parse { offset: *offset as nat, reason: *reason },
            Error::MissingArgument(p) => Fault::Missing(p@),
            Error::UnsupportedPosition => Fault::UnsupportedPosition,
            Error::TypeMismatch { expected, found } => Fault::TypeMismatch {
                expected: *expected,
                found: *found,
            },
        }
    }
}

/// The arguments of one formatting call: a list, which `Auto` and `Index`
/// positions select from, or a named mapping, which `Key` positions select
/// from.
#[derive(Debug)]
pub enum Arguments {
    List(Vec<Value>),
    Named(ValueMap),
}

/// The value under `key` among `entries`, the first such from the `n`-th on.
pub open spec fn lookup_from(entries: Seq<(String, Value)>, key: Seq<char>, n: int) -> Option<
    Value,
>
    decreases entries.len() - n,
{
    if 0 <= n < entries.len() {
        if entries[n].0@ == key {
            Some(entries[n].1)
        } else {
            lookup_from(entries, key, n + 1)
        }
    } else {
        None
    }
}

/// The argument that `slot` selects, and the `Auto` cursor after it.
pub open spec fn resolve(slot: Slot, args: Arguments, cursor: nat) -> Result<(Value, nat), Fault> {
    match args {
        Arguments::List(items) => match slot {
            Slot::Auto => if cursor < items@.len() {
                Ok((items@[cursor as int], cursor + 1))
            } else {
                Err(Fault::Missing(Slot::Index(cursor)))
            },
            Slot::Index(n) => if n < items@.len() {
                Ok((items@[n as int], cursor))
            } else {
                Err(Fault::Missing(Slot::Index(n)))
            },
            Slot::Key(_) => Err(Fault::UnsupportedPosition),
        },
        Arguments::Named(m) => match slot {
            Slot::Key(k) => match lookup_from(m.entries(), k, 0) {
                Some(v) => Ok((v, cursor)),
                None => Err(Fault::Missing(Slot::Key(k))),
            },
            _ => Err(Fault::UnsupportedPosition),
        },
    }
}

/// Selects the argument that `position` denotes, advancing `cursor` past an
/// `Auto` position.
pub fn resolve_position<'a>(position: &Position, args: &'a Arguments, cursor: &mut usize) -> (r:
    Result<&'a Value, Error>)
    ensures
        match resolve(position@, *args, *old(cursor) as nat) {
            Ok((v, c)) => r matches Ok(w) && *w == v && *final(cursor) as nat == c,
            Err(f) => r matches Err(e) && e@ == f && *final(cursor) == *old(cursor),
        },
{
    match args {
        Arguments::List(items) => match position {
            Position::Auto => {
                if *cursor < items.len() {
                    let v = &items[*cursor];
                    *cursor = *cursor + 1;
                    Ok(v)
                } else {
                    Err(Error::MissingArgument(Position::Index(*cursor)))
                }
            },
            Position::Index(n) => {
                if *n < items.len() {
                    Ok(&items[*n])
                } else {
                    Err(Error::MissingArgument(Position::Index(*n)))
                }
            },
            Position::Key(_) => Err(Error::UnsupportedPosition),
        },
        Arguments::Named(m) => match position {
            Position::Key(k) => match m.get(k) {
                Some(v) => Ok(v),
                None => Err(Error::MissingArgument(Position::Key(k.clone()))),
            },
            _ => Err(Error::UnsupportedPosition),
        },
    }
}

} // verus!
