//! Turning a resolved value into the text that replaces a placeholder.
use vstd::prelude::*;
use crate::argument::{
    kind_of, resolve, resolve_position, value_kind, Arguments, Conversion, Directive, Error,
    Fault, Found, Placeholder, Position, Slot, ValueKind, Width,
};
use crate::text::{digits, magnitude, push_all, push_digits, push_repeat, repeat};
use crate::value::{display, exp_text, push_display, push_exp, push_repr, repr, Value};

verus! {

/// The prefix that the alternate form puts before the digits of a number in
/// `base`.
pub open spec fn radix_prefix(conversion: Conversion) -> Seq<char> {
    match conversion {
        Conversion::Octal => seq!['0', 'o'],
        Conversion::UpperHex => seq!['0', 'X'],
        _ => seq!['0', 'x'],
    }
}

pub open spec fn radix_of(conversion: Conversion) -> nat {
    match conversion {
        Conversion::Octal => 8,
        _ => 16,
    }
}

/// An integer in the base of `conversion`: a minus sign for negative values,
/// the prefix in the alternate form, then the digits of the magnitude.
pub open spec fn radix_text(i: int, conversion: Conversion, alternate: bool) -> Seq<char> {
    (if i < 0 {
        seq!['-']
    } else {
        Seq::empty()
    }) + (if alternate {
        radix_prefix(conversion)
    } else {
        Seq::empty()
    }) + digits(magnitude(i), radix_of(conversion), conversion == Conversion::UpperHex)
}

/// The text of `v` under the conversion of `d`, before any padding.
pub open spec fn base_text(d: Directive, v: Value) -> Result<Seq<char>, Fault> {
    match d.conversion {
        Conversion::Display => Ok(display(v)),
        Conversion::Repr => Ok(repr(v, d.alternate, Seq::empty())),
        Conversion::Octal | Conversion::LowerHex | Conversion::UpperHex => match v {
            Value::Int(i) => Ok(radix_text(i as int, d.conversion, d.alternate)),
            _ => Err(Fault::TypeMismatch { expected: ValueKind::Int, found: kind_of(v) }),
        },
        Conversion::LowerExp | Conversion::UpperExp => match v {
            Value::Float(x) => Ok(exp_text(x, d.conversion == Conversion::UpperExp)),
            _ => Err(Fault::TypeMismatch { expected: ValueKind::Float, found: kind_of(v) }),
        },
    }
}

/// `t` padded to `width`: spaces after it when left-aligned, else zeros or
/// spaces before it; unchanged when it is already that long.
pub open spec fn pad(t: Seq<char>, width: nat, zero_pad: bool, left_align: bool) -> Seq<char> {
    if t.len() >= width {
        t
    } else if left_align {
        t + repeat(' ', (width - t.len()) as nat)
    } else if zero_pad {
        repeat('0', (width - t.len()) as nat) + t
    } else {
        repeat(' ', (width - t.len()) as nat) + t
    }
}

/// The replacement text of `v` under `d`, padded to `width`.
pub open spec fn render(d: Directive, v: Value, width: nat) -> Result<Seq<char>, Fault> {
    match base_text(d, v) {
        Ok(t) => Ok(pad(t, width, d.zero_pad, d.left_align)),
        Err(f) => Err(f),
    }
}

/// The width that `d` asks for, and the `Auto` cursor after reading it: a
/// width from the arguments is the next positional argument, an integer; a
/// negative one counts as none, and one past `usize::MAX` as `usize::MAX`.
pub open spec fn width_of(d: Directive, args: Arguments, cursor: nat) -> Result<(nat, nat), Fault> {
    match d.width {
        None => Ok((0, cursor)),
        Some(Width::Literal(n)) => Ok((n as nat, cursor)),
        Some(Width::FromArgument) => match resolve(Slot::Auto, args, cursor) {
            Err(f) => Err(f),
            Ok((v, c)) => match v {
                Value::Int(i) => Ok((if i < 0 {
                    0
                } else if i > usize::MAX {
                    usize::MAX as nat
                } else {
                    i as nat
                }, c)),
                _ => Err(Fault::TypeMismatch { expected: ValueKind::Int, found: kind_of(v) }),
            },
        },
    }
}

/// The replacement text of placeholder `p` and the `Auto` cursor after it:
/// first its width is read, then its value is selected and rendered.
pub open spec fn fill(p: Placeholder, args: Arguments, cursor: nat) -> Result<(Seq<char>, nat), Fault> {
    match width_of(p.directive, args, cursor) {
        Err(f) => Err(f),
        Ok((width, c1)) => match resolve(p.slot, args, c1) {
            Err(f) => Err(f),
            Ok((v, c2)) => match render(p.directive, v, width) {
                Err(f) => Err(f),
                Ok(t) => Ok((t, c2)),
            },
        },
    }
}

/// Appends the digits of `i` in the base of `conversion`, with its sign and,
/// in the alternate form, its prefix.
fn push_radix(i: i64, conversion: Conversion, alternate: bool, out: &mut Vec<char>)
    requires
        conversion == Conversion::Octal || conversion == Conversion::LowerHex || conversion
            == Conversion::UpperHex,
    ensures
        final(out)@ == old(out)@ + radix_text(i as int, conversion, alternate),
{
    if i < 0 {
        out.push('-');
    }
    if alternate {
        out.push('0');
        match conversion {
            Conversion::Octal => out.push('o'),
            Conversion::UpperHex => out.push('X'),
            _ => out.push('x'),
        }
    }
    let m: u64 = if i < 0 {
        (-(i as i128)) as u64
    } else {
        i as u64
    };
    let base: u64 = match conversion {
        Conversion::Octal => 8,
        _ => 16,
    };
    let upper = match conversion {
        Conversion::UpperHex => true,
        _ => false,
    };
    push_digits(m, base, upper, out);
    assert(out@ =~= old(out)@ + radix_text(i as int, conversion, alternate));
}

/// Renders `v` under `d`, padded to `width`.
pub fn render_value(d: Directive, v: &Value, width: usize) -> (r: Result<Vec<char>, Error>)
    ensures
        match render(d, *v, width as nat) {
            Ok(t) => r matches Ok(x) && x@ == t,
            Err(f) => r matches Err(e) && e@ == f,
        },
{
    let mut base: Vec<char> = Vec::new();
    match d.conversion {
        Conversion::Display => push_display(v, &mut base),
        Conversion::Repr => {
            let indent: Vec<char> = Vec::new();
            push_repr(v, d.alternate, &indent, &mut base);
            assert(indent@ =~= Seq::<char>::empty());
        },
        Conversion::Octal | Conversion::LowerHex | Conversion::UpperHex => match v {
            Value::Int(i) => push_radix(*i, d.conversion, d.alternate, &mut base),
            _ => {
                return Err(Error::TypeMismatch { expected: ValueKind::Int, found: value_kind(v) });
            },
        },
        Conversion::LowerExp | Conversion::UpperExp => match v {
            Value::Float(x) => push_exp(x, d.conversion == Conversion::UpperExp, &mut base),
            _ => {
                return Err(Error::TypeMismatch { expected: ValueKind::Float, found: value_kind(v) });
            },
        },
    }
    assert(base_text(d, *v) == Ok::<Seq<char>, Fault>(base@));
    let len = base.len();
    if len >= width {
        return Ok(base);
    }
    let fill = width - len;
    if d.left_align {
        push_repeat(' ', fill, &mut base);
        Ok(base)
    } else {
        let mut out: Vec<char> = Vec::new();
        push_repeat(if d.zero_pad {
            '0'
        } else {
            ' '
        }, fill, &mut out);
        push_all(&base, &mut out);
        assert(out@ =~= pad(base_text(d, *v)->Ok_0, width as nat, d.zero_pad, d.left_align));
        Ok(out)
    }
}

/// Reads the width that `d` asks for, advancing `cursor` past an argument
/// that supplies it.
fn read_width(d: Directive, args: &Arguments, cursor: &mut usize) -> (r: Result<usize, Error>)
    ensures
        match width_of(d, *args, *old(cursor) as nat) {
            Ok((w, c)) => r matches Ok(x) && x as nat == w && *final(cursor) as nat == c,
            Err(f) => r matches Err(e) && e@ == f,
        },
{
    match d.width {
        None => Ok(0),
        Some(Width::Literal(n)) => Ok(n),
        Some(Width::FromArgument) => {
            let auto = Position::Auto;
            match resolve_position(&auto, args, cursor) {
                Err(e) => Err(e),
                Ok(v) => match v {
                    Value::Int(i) => {
                        if *i < 0 {
                            Ok(0)
                        } else if *i as u128 > usize::MAX as u128 {
                            Ok(usize::MAX)
                        } else {
                            Ok(*i as usize)
                        }
                    },
                    _ => Err(Error::TypeMismatch { expected: ValueKind::Int, found: value_kind(v) }),
                },
            }
        },
    }
}

/// The replacement text of `p`, advancing `cursor` past the arguments it
/// takes.
pub fn fill_placeholder(p: &Found, args: &Arguments, cursor: &mut usize) -> (r: Result<
    Vec<char>,
    Error,
>)
    ensures
        match fill(p@, *args, *old(cursor) as nat) {
            Ok((t, c)) => r matches Ok(x) && x@ == t && *final(cursor) as nat == c,
            Err(f) => r matches Err(e) && e@ == f,
        },
{
    let width = match read_width(p.directive, args, cursor) {
        Ok(w) => w,
        Err(e) => {
            return Err(e);
        },
    };
    let v = match resolve_position(&p.position, args, cursor) {
        Ok(v) => v,
        Err(e) => {
            return Err(e);
        },
    };
    render_value(p.directive, v, width)
}

} // verus!
