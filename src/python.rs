//! The printf dialect: `%` [`(name)`] [flags `#`, `0`, `-`] [width: digits or
//! `*`] conversion (`s`, `r`, `o`, `x`, `X`, `e`, `E`).
use vstd::prelude::*;
use crate::curly::{decimal_value, is_digit};
use crate::format::{describes, format_in, format_text, next_argument, Dialect};
use crate::argument::{ArgumentSpec, Arguments, Conversion, Directive, Error, Fault, Found, ParseReason, Placeholder, Position, Slot, Width};
use crate::text::{byte_offset, chars_of, find_word_end, lemma_word_end, substring, utf8_len, word_end};

verus! {

pub open spec fn is_flag(c: char) -> bool {
    c == '#' || c == '0' || c == '-'
}

/// The end of the run of flag characters that starts at `j`.
pub open spec fn flags_end(s: Seq<char>, j: int) -> int
    decreases s.len() - j,
{
    if 0 <= j < s.len() && is_flag(s[j]) {
        flags_end(s, j + 1)
    } else {
        j
    }
}

/// The end of the run of decimal digits that starts at `j`.
pub open spec fn digits_end(s: Seq<char>, j: int) -> int
    decreases s.len() - j,
{
    if 0 <= j < s.len() && is_digit(s[j]) {
        digits_end(s, j + 1)
    } else {
        j
    }
}

/// Whether `c` occurs in `s` from `from` up to `to`.
pub open spec fn occurs(s: Seq<char>, from: int, to: int, c: char) -> bool {
    exists|k: int| from <= k < to && s[k] == c
}

pub open spec fn conversion_of(c: char) -> Option<Conversion> {
    if c == 's' {
        Some(Conversion::Display)
    } else if c == 'r' {
        Some(Conversion::Repr)
    } else if c == 'o' {
        Some(Conversion::Octal)
    } else if c == 'x' {
        Some(Conversion::LowerHex)
    } else if c == 'X' {
        Some(Conversion::UpperHex)
    } else if c == 'e' {
        Some(Conversion::LowerExp)
    } else if c == 'E' {
        Some(Conversion::UpperExp)
    } else {
        None
    }
}

/// The error for the placeholder that starts at character `i`.
pub open spec fn parse_fault(s: Seq<char>, i: int, reason: ParseReason) -> Fault {
    Fault::Parse { offset: utf8_len(s.subrange(0, i)), reason }
}

/// Where the name of the placeholder at `i` ends (just past its `)`), and the
/// name; or, with no name, `i + 1`.
pub open spec fn name_part(s: Seq<char>, i: int) -> Result<(int, Option<Seq<char>>), ParseReason> {
    if i + 1 < s.len() && s[i + 1] == '(' {
        let e = word_end(s, i + 2);
        if e > i + 2 && e < s.len() && s[e] == ')' {
            Ok((e + 1, Some(s.subrange(i + 2, e))))
        } else {
            Err(ParseReason::UnclosedName)
        }
    } else {
        Ok((i + 1, None))
    }
}

/// The placeholder that starts with the `%` at character `i`.
pub open spec fn printf_at(s: Seq<char>, i: int) -> Result<Placeholder, Fault> {
    match name_part(s, i) {
        Err(reason) => Err(parse_fault(s, i, reason)),
        Ok((j, name)) => {
            let f = flags_end(s, j);
            let d = digits_end(s, f);
            let star = f < s.len() && s[f] == '*';
            let c = if star {
                f + 1
            } else {
                d
            };
            if !star && d > f && decimal_value(s.subrange(f, d)) > usize::MAX {
                Err(parse_fault(s, i, ParseReason::WidthTooLarge))
            } else if c >= s.len() {
                Err(parse_fault(s, i, ParseReason::Unterminated))
            } else {
                match conversion_of(s[c]) {
                    None => Err(parse_fault(s, i, ParseReason::UnknownConversion)),
                    Some(conversion) => Ok(
                        Placeholder {
                            first: i as nat,
                            last: (c + 1) as nat,
                            slot: match name {
                                Some(k) => Slot::Key(k),
                                None => Slot::Auto,
                            },
                            directive: Directive {
                                conversion,
                                width: if star {
                                    Some(Width::FromArgument)
                                } else if d > f {
                                    Some(Width::Literal(decimal_value(s.subrange(f, d)) as usize))
                                } else {
                                    None
                                },
                                zero_pad: occurs(s, j, f, '0'),
                                left_align: occurs(s, j, f, '-'),
                                alternate: occurs(s, j, f, '#'),
                            },
                        },
                    ),
                }
            }
        },
    }
}

/// The first placeholder, or the first malformed one, that starts at
/// character `i` or later.
pub open spec fn printf_next(s: Seq<char>, i: int) -> Option<Result<Placeholder, Fault>>
    decreases s.len() - i,
{
    if 0 <= i < s.len() {
        if s[i] == '%' {
            Some(printf_at(s, i))
        } else {
            printf_next(s, i + 1)
        }
    } else {
        None
    }
}

proof fn lemma_flags_end(s: Seq<char>, j: int)
    requires
        0 <= j <= s.len(),
    ensures
        j <= flags_end(s, j) <= s.len(),
        forall|k: int| j <= k < flags_end(s, j) ==> is_flag(#[trigger] s[k]),
    decreases s.len() - j,
{
    if j < s.len() && is_flag(s[j]) {
        lemma_flags_end(s, j + 1);
    }
}

proof fn lemma_digits_end(s: Seq<char>, j: int)
    requires
        0 <= j <= s.len(),
    ensures
        j <= digits_end(s, j) <= s.len(),
        forall|k: int| j <= k < digits_end(s, j) ==> is_digit(#[trigger] s[k]),
    decreases s.len() - j,
{
    if j < s.len() && is_digit(s[j]) {
        lemma_digits_end(s, j + 1);
    }
}

pub proof fn lemma_printf_next(s: Seq<char>, i: int)
    requires
        0 <= i <= s.len(),
    ensures
        printf_next(s, i) matches Some(Ok(p)) ==> i <= p.first < p.last <= s.len(),
    decreases s.len() - i,
{
    if i < s.len() {
        if s[i] == '%' {
            if i + 2 <= s.len() {
                lemma_word_end(s, i + 2);
            }
            if let Ok((j, _)) = name_part(s, i) {
                lemma_flags_end(s, j);
                lemma_digits_end(s, flags_end(s, j));
            }
        } else {
            lemma_printf_next(s, i + 1);
        }
    }
}

pub(crate) fn parse_error(s: &Vec<char>, i: usize, reason: ParseReason) -> (e: Error)
    requires
        i <= s@.len(),
        utf8_len(s@) <= usize::MAX,
    ensures
        e@ == parse_fault(s@, i as int, reason),
{
    Error::Parse { offset: byte_offset(s, i), reason }
}

/// Reads the run of decimal digits that starts at `f`: where it ends, and the
/// number it denotes if that fits in a `usize`.
fn read_digits(s: &Vec<char>, f: usize) -> (r: (usize, Option<usize>))
    requires
        f <= s@.len(),
    ensures
        r.0 == digits_end(s@, f as int),
        match r.1 {
            Some(v) => v == decimal_value(s@.subrange(f as int, r.0 as int)),
            None => decimal_value(s@.subrange(f as int, r.0 as int)) > usize::MAX,
        },
{
    let n = s.len();
    let mut d = f;
    let mut value: usize = 0;
    let mut fits = true;
    while d < n && is_digit_char(s[d])
        invariant
            n == s@.len(),
            f <= d <= n,
            digits_end(s@, f as int) == digits_end(s@, d as int),
            fits ==> value == decimal_value(s@.subrange(f as int, d as int)),
            !fits ==> decimal_value(s@.subrange(f as int, d as int)) > usize::MAX,
        decreases n - d,
    {
        let u = s[d] as u32;
        assert(s@.subrange(f as int, d + 1).drop_last() =~= s@.subrange(f as int, d as int));
        if fits {
            let nv: u128 = value as u128 * 10 + (u - 48) as u128;
            if nv <= usize::MAX as u128 {
                value = nv as usize;
            } else {
                fits = false;
            }
        }
        d = d + 1;
    }
    if fits {
        (d, Some(value))
    } else {
        (d, None)
    }
}

fn is_digit_char(c: char) -> (r: bool)
    ensures
        r == is_digit(c),
{
    let u = c as u32;
    48 <= u && u <= 57
}

fn conversion_char(c: char) -> (r: Option<Conversion>)
    ensures
        r == conversion_of(c),
{
    if c == 's' {
        Some(Conversion::Display)
    } else if c == 'r' {
        Some(Conversion::Repr)
    } else if c == 'o' {
        Some(Conversion::Octal)
    } else if c == 'x' {
        Some(Conversion::LowerHex)
    } else if c == 'X' {
        Some(Conversion::UpperHex)
    } else if c == 'e' {
        Some(Conversion::LowerExp)
    } else if c == 'E' {
        Some(Conversion::UpperExp)
    } else {
        None
    }
}

/// Reads the placeholder that starts with the `%` at character `i`.
fn read_printf_at(s: &Vec<char>, i: usize) -> (r: Result<Found, Error>)
    requires
        i < s@.len(),
        s@[i as int] == '%',
        utf8_len(s@) <= usize::MAX,
    ensures
        match printf_at(s@, i as int) {
            Ok(p) => r matches Ok(f) && f@ == p,
            Err(e) => r matches Err(x) && x@ == e,
        },
{
    let n = s.len();
    let mut j = i + 1;
    let mut name: Option<String> = None;
    if i + 1 < n && s[i + 1] == '(' {
        let e = find_word_end(s, i + 2);
        proof {
            lemma_word_end(s@, i + 2);
        }
        if e > i + 2 && e < n && s[e] == ')' {
            name = Some(substring(s, i + 2, e));
            j = e + 1;
        } else {
            return Err(parse_error(s, i, ParseReason::UnclosedName));
        }
    }
    assert(name_part(s@, i as int) matches Ok((jj, nm)) && jj == j && match nm {
        Some(k) => name matches Some(x) && x@ == k,
        None => name is None,
    });
    let mut f = j;
    let mut zero_pad = false;
    let mut left_align = false;
    let mut alternate = false;
    while f < n && (s[f] == '#' || s[f] == '0' || s[f] == '-')
        invariant
            n == s@.len(),
            j <= f <= n,
            flags_end(s@, j as int) == flags_end(s@, f as int),
            zero_pad == occurs(s@, j as int, f as int, '0'),
            left_align == occurs(s@, j as int, f as int, '-'),
            alternate == occurs(s@, j as int, f as int, '#'),
        decreases n - f,
    {
        let c = s[f];
        if c == '0' {
            zero_pad = true;
        } else if c == '-' {
            left_align = true;
        } else {
            alternate = true;
        }
        f = f + 1;
        assert forall|x: char| #[trigger] occurs(s@, j as int, f as int, x) == (occurs(
            s@,
            j as int,
            f - 1,
            x,
        ) || s@[f - 1] == x) by {
            if occurs(s@, j as int, f as int, x) && !(s@[f - 1] == x) {
                let k = choose|k: int| j <= k < f && s@[k] == x;
                assert(j <= k < f - 1 && s@[k] == x);
            }
            if s@[f - 1] == x {
                assert(j <= f - 1 < f && s@[f - 1] == x);
            }
        }
    }
    let star = f < n && s[f] == '*';
    let mut width: Option<Width> = None;
    let c: usize;
    let (d, value) = read_digits(s, f);
    if star {
        width = Some(Width::FromArgument);
        c = f + 1;
    } else {
        if d > f {
            match value {
                Some(v) => {
                    width = Some(Width::Literal(v));
                },
                None => {
                    return Err(parse_error(s, i, ParseReason::WidthTooLarge));
                },
            }
        }
        c = d;
    }
    if c >= n {
        return Err(parse_error(s, i, ParseReason::Unterminated));
    }
    match conversion_char(s[c]) {
        None => Err(parse_error(s, i, ParseReason::UnknownConversion)),
        Some(conversion) => {
            let position = match name {
                Some(k) => Position::Key(k),
                None => Position::Auto,
            };
            Ok(
                Found {
                    first: i,
                    last: c + 1,
                    position,
                    directive: Directive { conversion, width, zero_pad, left_align, alternate },
                },
            )
        },
    }
}

/// Finds the first placeholder, or the first malformed one, that starts at
/// character `i` or later.
pub fn find_printf(s: &Vec<char>, i: usize) -> (r: Option<Result<Found, Error>>)
    requires
        i <= s@.len(),
        utf8_len(s@) <= usize::MAX,
    ensures
        match printf_next(s@, i as int) {
            Some(Ok(p)) => r matches Some(Ok(f)) && f@ == p,
            Some(Err(e)) => r matches Some(Err(x)) && x@ == e,
            None => r is None,
        },
{
    let mut k = i;
    while k < s.len()
        invariant
            i <= k <= s@.len(),
            utf8_len(s@) <= usize::MAX,
            printf_next(s@, i as int) == printf_next(s@, k as int),
        decreases s.len() - k,
    {
        if s[k] == '%' {
            return Some(read_printf_at(s, k));
        }
        k = k + 1;
    }
    None
}

/// The printf dialect: `%s` renders the next positional argument in its
/// display text, `%(name)r` the one named `name` in its repr text; flags
/// (`#` alternate form, `0` zero padding, `-` left alignment) and a width
/// (digits, or `*` for one taken from the arguments) may stand before the
/// conversion (`s`, `r`, `o`, `x`, `X`, `e`, `E`).
#[derive(Debug)]
pub struct PythonFormat;

impl PythonFormat {
    /// Formats `format` with `args`.
    pub fn format(&self, format: &str, args: &Arguments) -> (r: Result<String, Error>)
        requires
            utf8_len(format@) <= usize::MAX,
        ensures
            match format_text(Dialect::Printf, format@, *args) {
                Ok(t) => r matches Ok(x) && x@ == t,
                Err(f) => r matches Err(e) && e@ == f,
            },
    {
        format_in(Dialect::Printf, format, args)
    }

    /// The placeholders of `format`, one at a time.
    pub fn iter_args(&self, format: &str) -> (r: Result<PythonIter, Error>)
        requires
            utf8_len(format@) <= usize::MAX,
        ensures
            r matches Ok(it) && it.wf() && it.text() == format@ && it.at() == 0,
    {
        Ok(PythonIter { chars: chars_of(format), pos: 0 })
    }
}

/// The placeholders of a template in the printf dialect, read one at a time.
#[derive(Debug)]
pub struct PythonIter {
    chars: Vec<char>,
    pos: usize,
}

impl PythonIter {
    /// The template.
    pub closed spec fn text(&self) -> Seq<char> {
        self.chars@
    }

    /// The character at which reading goes on.
    pub closed spec fn at(&self) -> nat {
        self.pos as nat
    }

    pub closed spec fn wf(&self) -> bool {
        self.pos <= self.chars@.len() && utf8_len(self.chars@) <= usize::MAX
    }

    /// The next placeholder, or its error where it is malformed, or `None`
    /// once there is none left; reading stops after an error.
    pub fn next(&mut self) -> (r: Option<Result<ArgumentSpec, Error>>)
        requires
            old(self).wf(),
        ensures
            final(self).wf(),
            final(self).text() == old(self).text(),
            match printf_next(old(self).text(), old(self).at() as int) {
                None => r is None && final(self).at() == old(self).text().len(),
                Some(Err(f)) => r matches Some(Err(e)) && e@ == f && final(self).at()
                    == old(self).text().len(),
                Some(Ok(p)) => r matches Some(Ok(a)) && describes(a, p, old(self).text())
                    && final(self).at() == p.last,
            },
    {
        let (r, pos) = next_argument(Dialect::Printf, &self.chars, self.pos);
        self.pos = pos;
        r
    }
}

} // verus!
