//! The brace dialect: `{}` takes the next argument, `{0}` the argument at
//! index 0, `{name}` the argument named `name`. Every value renders in its
//! display text. A `{` that no `}` follows is an error; other braces that
//! open no placeholder stand for themselves.
use vstd::prelude::*;
use crate::format::{describes, format_in, format_text, next_argument, Dialect};
use crate::argument::{
    ArgumentSpec, Arguments, Directive, Error, Fault, Found, ParseReason, Placeholder, Position, Slot,
};
use crate::python::{parse_error, parse_fault};
use crate::text::{chars_of, find_word_end, lemma_word_end, substring, utf8_len, word_end};

verus! {

pub open spec fn is_digit(c: char) -> bool {
    48 <= (c as u32) <= 57
}

pub open spec fn all_digits(k: Seq<char>) -> bool {
    forall|i: int| 0 <= i < k.len() ==> is_digit(#[trigger] k[i])
}

/// The number that a run of decimal digits denotes.
pub open spec fn decimal_value(k: Seq<char>) -> nat
    decreases k.len(),
{
    if k.len() == 0 {
        0
    } else {
        decimal_value(k.drop_last()) * 10 + ((k.last() as u32) - 48) as nat
    }
}

/// The digits of a name: all of it but a leading `+`.
pub open spec fn unsigned_part(k: Seq<char>) -> Seq<char> {
    if k.len() > 0 && k[0] == '+' {
        k.drop_first()
    } else {
        k
    }
}

/// The position that a placeholder's name denotes: an index where the name is
/// a decimal number, with an optional leading `+`, that fits in a `usize`;
/// else a key.
pub open spec fn slot_of_key(k: Seq<char>) -> Slot {
    let d = unsigned_part(k);
    if d.len() > 0 && all_digits(d) && decimal_value(d) <= usize::MAX {
        Slot::Index(decimal_value(d))
    } else {
        Slot::Key(k)
    }
}

/// Reads a placeholder's name as an index where it is a decimal number, with
/// an optional leading `+`, that fits in a `usize`; else as a key.
pub fn parse_position(key: &str) -> (p: Position)
    ensures
        p@ == slot_of_key(key@),
{
    let n = key.unicode_len();
    let start: usize = if n > 0 && key.get_char(0) == '+' {
        1
    } else {
        0
    };
    let ghost d = unsigned_part(key@);
    assert(d =~= key@.subrange(start as int, n as int));
    let mut value: usize = 0;
    let mut fits = true;
    let mut i: usize = start;
    while i < n
        invariant
            n == key@.len(),
            start <= i <= n,
            d == key@.subrange(start as int, n as int),
            d == unsigned_part(key@),
            all_digits(key@.subrange(start as int, i as int)),
            fits ==> value == decimal_value(key@.subrange(start as int, i as int)),
            !fits ==> decimal_value(key@.subrange(start as int, i as int)) > usize::MAX,
        decreases n - i,
    {
        let c = key.get_char(i);
        let u = c as u32;
        if u < 48 || u > 57 {
            assert(d[i - start] == c);
            assert(!all_digits(d));
            assert(slot_of_key(key@) == Slot::Key(key@));
            let owned = key.to_owned();
            assert(owned@ == key@);
            return Position::Key(owned);
        }
        let ghost next = key@.subrange(start as int, i + 1);
        assert(next.drop_last() =~= key@.subrange(start as int, i as int));
        if fits {
            let nv: u128 = value as u128 * 10 + (u - 48) as u128;
            if nv <= usize::MAX as u128 {
                value = nv as usize;
            } else {
                fits = false;
            }
        }
        i = i + 1;
        assert(all_digits(key@.subrange(start as int, i as int))) by {
            assert forall|j: int| 0 <= j < i - start implies is_digit(
                #[trigger] key@.subrange(start as int, i as int)[j],
            ) by {
                if j < i - 1 - start {
                    assert(key@.subrange(start as int, i as int)[j] == key@.subrange(
                        start as int,
                        i - 1,
                    )[j]);
                }
            }
        }
    }
    if n > start && fits {
        Position::Index(value)
    } else {
        Position::Key(key.to_owned())
    }
}

/// The placeholder that starts at character `i`, if one does: `{`, a run of
/// word characters, `}`.
pub open spec fn curly_at(s: Seq<char>, i: int) -> Option<Placeholder> {
    let e = word_end(s, i + 1);
    if 0 <= i < s.len() && s[i] == '{' && e < s.len() && s[e] == '}' {
        Some(
            Placeholder {
                first: i as nat,
                last: (e + 1) as nat,
                slot: if e == i + 1 {
                    Slot::Auto
                } else {
                    slot_of_key(s.subrange(i + 1, e))
                },
                directive: Directive::plain_spec(),
            },
        )
    } else {
        None
    }
}

/// A `}` stands somewhere after character `i`.
pub open spec fn closes_later(s: Seq<char>, i: int) -> bool {
    exists|k: int| i < k < s.len() && s[k] == '}'
}

/// The first placeholder that starts at character `i` or later, or the error
/// for the first `{` that no `}` follows, whichever comes first.
pub open spec fn curly_next(s: Seq<char>, i: int) -> Option<Result<Placeholder, Fault>>
    decreases s.len() - i,
{
    if 0 <= i < s.len() {
        match curly_at(s, i) {
            Some(p) => Some(Ok(p)),
            None => if s[i] == '{' && !closes_later(s, i) {
                Some(Err(parse_fault(s, i, ParseReason::Unterminated)))
            } else {
                curly_next(s, i + 1)
            },
        }
    } else {
        None
    }
}

pub proof fn lemma_curly_next(s: Seq<char>, i: int)
    requires
        0 <= i <= s.len(),
    ensures
        curly_next(s, i) matches Some(Ok(p)) ==> i <= p.first < p.last <= s.len() && curly_at(
            s,
            p.first as int,
        ) == Some(p),
    decreases s.len() - i,
{
    if i < s.len() {
        lemma_word_end(s, i + 1);
        if curly_at(s, i) is None {
            lemma_curly_next(s, i + 1);
        }
    }
}

/// Whether a `}` stands after character `i`.
fn find_close_after(s: &Vec<char>, i: usize) -> (r: bool)
    requires
        i < s@.len(),
    ensures
        r == closes_later(s@, i as int),
{
    let n = s.len();
    let mut k = i + 1;
    while k < n
        invariant
            n == s@.len(),
            i < k <= s@.len(),
            forall|j: int| i < j < k ==> s@[j] != '}',
        decreases s.len() - k,
    {
        if s[k] == '}' {
            return true;
        }
        k = k + 1;
    }
    assert(!closes_later(s@, i as int));
    false
}

fn find_curly_at(s: &Vec<char>, i: usize) -> (r: Option<Found>)
    requires
        i < s@.len(),
    ensures
        match curly_at(s@, i as int) {
            Some(p) => r matches Some(f) && f@ == p,
            None => r is None,
        },
{
    let n = s.len();
    if s[i] != '{' {
        return None;
    }
    proof {
        lemma_word_end(s@, i + 1);
    }
    let e = find_word_end(s, i + 1);
    if e < n && s[e] == '}' {
        let position = if e == i + 1 {
            Position::Auto
        } else {
            let key = substring(s, i + 1, e);
            parse_position(key.as_str())
        };
        Some(Found { first: i, last: e + 1, position, directive: Directive::plain() })
    } else {
        None
    }
}

/// Finds the first placeholder that starts at character `i` or later, or the
/// first `{` that no `}` follows.
pub fn find_curly(s: &Vec<char>, i: usize) -> (r: Option<Result<Found, Error>>)
    requires
        i <= s@.len(),
        utf8_len(s@) <= usize::MAX,
    ensures
        match curly_next(s@, i as int) {
            Some(Ok(p)) => r matches Some(Ok(f)) && f@ == p,
            Some(Err(e)) => r matches Some(Err(x)) && x@ == e,
            None => r is None,
        },
{
    let mut k = i;
    while k < s.len()
        invariant
            i <= k <= s@.len(),
            utf8_len(s@) <= usize::MAX,
            curly_next(s@, i as int) == curly_next(s@, k as int),
        decreases s.len() - k,
    {
        match find_curly_at(s, k) {
            Some(f) => {
                return Some(Ok(f));
            },
            None => {},
        }
        if s[k] == '{' && !find_close_after(s, k) {
            return Some(Err(parse_error(s, k, ParseReason::Unterminated)));
        }
        k = k + 1;
    }
    None
}

/// The brace dialect: `{}` is the next positional argument, `{0}` the one at
/// index 0, `{name}` the one named `name`; each renders in its display text.
#[derive(Debug)]
pub struct SimpleCurlyFormat;

impl SimpleCurlyFormat {
    /// Formats `format` with `args`.
    pub fn format(&self, format: &str, args: &Arguments) -> (r: Result<String, Error>)
        requires
            utf8_len(format@) <= usize::MAX,
        ensures
            match format_text(Dialect::Curly, format@, *args) {
                Ok(t) => r matches Ok(x) && x@ == t,
                Err(f) => r matches Err(e) && e@ == f,
            },
    {
        format_in(Dialect::Curly, format, args)
    }

    /// The placeholders of `format`, one at a time.
    pub fn iter_args(&self, format: &str) -> (r: Result<SimpleCurlyIter, Error>)
        requires
            utf8_len(format@) <= usize::MAX,
        ensures
            r matches Ok(it) && it.wf() && it.text() == format@ && it.at() == 0,
    {
        Ok(SimpleCurlyIter { chars: chars_of(format), pos: 0 })
    }
}

/// The placeholders of a template in the brace dialect, read one at a time.
#[derive(Debug)]
pub struct SimpleCurlyIter {
    chars: Vec<char>,
    pos: usize,
}

impl SimpleCurlyIter {
    /// The template.
    pub closed spec fn text(&self) -> Seq<char> {
        self.chars@
    }

    /// The character at which reading goes on.
    pub closed spec fn at(&self) -> nat {
        self.pos as nat
    }

    pub closed spec fn wf(&self) -> bool {
        self.pos <= self.chars@.len() && utf8_len(self.chars@) <= usize::MAX
    }

    /// The next placeholder, or the error for a `{` that no `}` follows, or
    /// `None` once there is none left; reading stops after an error.
    pub fn next(&mut self) -> (r: Option<Result<ArgumentSpec, Error>>)
        requires
            old(self).wf(),
        ensures
            final(self).wf(),
            final(self).text() == old(self).text(),
            match curly_next(old(self).text(), old(self).at() as int) {
                None => r is None && final(self).at() == old(self).text().len(),
                Some(Err(f)) => r matches Some(Err(e)) && e@ == f && final(self).at()
                    == old(self).text().len(),
                Some(Ok(p)) => r matches Some(Ok(a)) && describes(a, p, old(self).text())
                    && final(self).at() == p.last,
            },
    {
        let (r, pos) = next_argument(Dialect::Curly, &self.chars, self.pos);
        self.pos = pos;
        r
    }
}

} // verus!
