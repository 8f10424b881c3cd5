//! The substitution pass shared by both dialects: scan the whole template,
//! then replace each placeholder by the text of its argument.
use vstd::prelude::*;
use crate::curly::{curly_next, find_curly, lemma_curly_next};
use crate::python::{find_printf, lemma_printf_next, printf_next};
use crate::render::{fill, fill_placeholder};
use crate::argument::{ArgumentSpec, Arguments, Error, Fault, Found, Placeholder};
use crate::text::{byte_offset, chars_of, push_range, string_of, utf8_len};

verus! {

/// A placeholder syntax.
#[derive(Debug, Clone, Copy, PartialEq, Eq, Structural)]
pub enum Dialect {
    /// `{}`, `{0}`, `{name}`.
    Curly,
    /// `%s`, `%(name)r`, `%-5x`, ...
    Printf,
}

/// The first placeholder, or malformed placeholder, at character `i` or later.
pub open spec fn next_in(d: Dialect, s: Seq<char>, i: int) -> Option<Result<Placeholder, Fault>> {
    match d {
        Dialect::Curly => curly_next(s, i),
        Dialect::Printf => printf_next(s, i),
    }
}

/// All placeholders from character `i` on, in order, or the first error.
pub open spec fn scan_from(d: Dialect, s: Seq<char>, i: int) -> Result<Seq<Placeholder>, Fault>
    decreases s.len() - i,
{
    match next_in(d, s, i) {
        None => Ok(Seq::empty()),
        Some(Err(f)) => Err(f),
        Some(Ok(p)) => if i < p.last <= s.len() {
            match scan_from(d, s, p.last as int) {
                Ok(rest) => Ok(seq![p] + rest),
                Err(f) => Err(f),
            }
        } else {
            Ok(seq![p])
        },
    }
}

/// The placeholders lie in order within `0..len`, the first at `from` or later,
/// none overlapping the next.
pub open spec fn placed(phs: Seq<Placeholder>, from: nat, len: nat) -> bool {
    forall|k: int|
        0 <= k < phs.len() ==> {
            &&& (k == 0 ==> from <= #[trigger] phs[k].first)
            &&& (k > 0 ==> phs[k - 1].last <= phs[k].first)
            &&& phs[k].first < phs[k].last <= len
        }
}

/// The template text from `from` on, with placeholders `k..` replaced, the
/// `Auto` cursor standing at `cursor`; or the first error.
pub open spec fn assemble(
    s: Seq<char>,
    phs: Seq<Placeholder>,
    k: int,
    from: int,
    cursor: nat,
    args: Arguments,
) -> Result<Seq<char>, Fault>
    decreases phs.len() - k,
{
    if 0 <= k < phs.len() {
        match fill(phs[k], args, cursor) {
            Err(f) => Err(f),
            Ok((t, c)) => match assemble(s, phs, k + 1, phs[k].last as int, c, args) {
                Err(f) => Err(f),
                Ok(rest) => Ok(s.subrange(from, phs[k].first as int) + t + rest),
            },
        }
    } else {
        Ok(s.subrange(from, s.len() as int))
    }
}

/// What formatting template `s` in dialect `d` with `args` gives.
pub open spec fn format_text(d: Dialect, s: Seq<char>, args: Arguments) -> Result<Seq<char>, Fault> {
    match scan_from(d, s, 0) {
        Err(f) => Err(f),
        Ok(phs) => assemble(s, phs, 0, 0, 0, args),
    }
}

pub open spec fn prefixed<T>(o: Seq<T>, r: Result<Seq<T>, Fault>) -> Result<Seq<T>, Fault> {
    match r {
        Ok(t) => Ok(o + t),
        Err(f) => Err(f),
    }
}

pub open spec fn views(found: Seq<Found>) -> Seq<Placeholder> {
    found.map_values(|f: Found| f@)
}

pub proof fn lemma_next_in(d: Dialect, s: Seq<char>, i: int)
    requires
        0 <= i <= s.len(),
    ensures
        next_in(d, s, i) matches Some(Ok(p)) ==> i <= p.first < p.last <= s.len(),
{
    lemma_curly_next(s, i);
    lemma_printf_next(s, i);
}

pub proof fn lemma_scan_placed(d: Dialect, s: Seq<char>, i: int)
    requires
        0 <= i <= s.len(),
    ensures
        scan_from(d, s, i) matches Ok(phs) ==> placed(phs, i as nat, s.len()),
    decreases s.len() - i,
{
    lemma_next_in(d, s, i);
    if let Some(Ok(p)) = next_in(d, s, i) {
        lemma_scan_placed(d, s, p.last as int);
        if let Ok(rest) = scan_from(d, s, p.last as int) {
            let phs = seq![p] + rest;
            assert forall|k: int| 0 <= k < phs.len() implies {
                &&& (k == 0 ==> i <= #[trigger] phs[k].first)
                &&& (k > 0 ==> phs[k - 1].last <= phs[k].first)
                &&& phs[k].first < phs[k].last <= s.len()
            } by {
                if k > 0 {
                    assert(phs[k] == rest[k - 1]);
                    if k > 1 {
                        assert(phs[k - 1] == rest[k - 2]);
                    }
                }
            }
        }
    }
}

fn find_next(d: Dialect, s: &Vec<char>, i: usize) -> (r: Option<Result<Found, Error>>)
    requires
        i <= s@.len(),
        utf8_len(s@) <= usize::MAX,
    ensures
        match next_in(d, s@, i as int) {
            Some(Ok(p)) => r matches Some(Ok(f)) && f@ == p,
            Some(Err(e)) => r matches Some(Err(x)) && x@ == e,
            None => r is None,
        },
{
    match d {
        Dialect::Curly => find_curly(s, i),
        Dialect::Printf => find_printf(s, i),
    }
}

/// Scans all of `s`, stopping at the first malformed placeholder.
pub fn scan_all(d: Dialect, s: &Vec<char>) -> (r: Result<Vec<Found>, Error>)
    requires
        utf8_len(s@) <= usize::MAX,
    ensures
        match scan_from(d, s@, 0) {
            Ok(phs) => r matches Ok(v) && views(v@) == phs,
            Err(f) => r matches Err(e) && e@ == f,
        },
{
    let mut found: Vec<Found> = Vec::new();
    let mut pos: usize = 0;
    loop
        invariant
            pos <= s@.len(),
            utf8_len(s@) <= usize::MAX,
            scan_from(d, s@, 0) == prefixed(views(found@), scan_from(d, s@, pos as int)),
        decreases s@.len() - pos,
    {
        proof {
            lemma_next_in(d, s@, pos as int);
        }
        match find_next(d, s, pos) {
            None => {
                assert(views(found@) + Seq::empty() =~= views(found@));
                return Ok(found);
            },
            Some(Err(e)) => {
                return Err(e);
            },
            Some(Ok(f)) => {
                let ghost before = views(found@);
                let ghost p = f@;
                pos = f.last;
                found.push(f);
                assert(views(found@) =~= before.push(p));
                assert forall|rest: Seq<Placeholder>| #[trigger] (before + (seq![p] + rest)) == views(found@) + rest by {
                    assert(before + (seq![p] + rest) =~= views(found@) + rest);
                }
            },
        }
    }
}

/// Replaces each of `found`, in order, by the text of its argument.
pub fn assemble_all(s: &Vec<char>, found: &Vec<Found>, args: &Arguments) -> (r: Result<
    Vec<char>,
    Error,
>)
    requires
        placed(views(found@), 0, s@.len()),
    ensures
        match assemble(s@, views(found@), 0, 0, 0, *args) {
            Ok(t) => r matches Ok(x) && x@ == t,
            Err(f) => r matches Err(e) && e@ == f,
        },
{
    let ghost phs = views(found@);
    let mut out: Vec<char> = Vec::new();
    let mut from: usize = 0;
    let mut cursor: usize = 0;
    let mut k: usize = 0;
    while k < found.len()
        invariant
            phs == views(found@),
            placed(phs, 0, s@.len()),
            k <= found@.len(),
            k == 0 ==> from == 0,
            k > 0 ==> from == phs[k - 1].last,
            from <= s@.len(),
            assemble(s@, phs, 0, 0, 0, *args) == prefixed(
                out@,
                assemble(s@, phs, k as int, from as int, cursor as nat, *args),
            ),
        decreases found@.len() - k,
    {
        let p = &found[k];
        assert(phs[k as int] == p@);
        assert(from <= p.first && p.first < p.last && p.last <= s@.len()) by {
            assert(phs[k as int].first == p.first);
            if k > 0 {
                assert(phs[k - 1].last <= phs[k as int].first);
            }
        }
        let ghost before = out@;
        push_range(s, from, p.first, &mut out);
        match fill_placeholder(p, args, &mut cursor) {
            Err(e) => {
                return Err(e);
            },
            Ok(t) => {
                let ghost mid = out@;
                let mut i: usize = 0;
                while i < t.len()
                    invariant
                        i <= t@.len(),
                        out@ == mid + t@.subrange(0, i as int),
                    decreases t@.len() - i,
                {
                    out.push(t[i]);
                    i = i + 1;
                    assert(out@ =~= mid + t@.subrange(0, i as int));
                }
                assert(t@.subrange(0, t@.len() as int) =~= t@);
                assert forall|rest: Seq<char>| #[trigger] (before + (s@.subrange(from as int, p.first as int) + t@ + rest)) == out@ + rest by {
                    assert(before + (s@.subrange(from as int, p.first as int) + t@ + rest) =~= out@ + rest);
                }
            },
        }
        from = p.last;
        k = k + 1;
    }
    push_range(s, from, s.len(), &mut out);
    Ok(out)
}

/// Formats `template` in dialect `d` with `args`.
pub fn format_in(d: Dialect, template: &str, args: &Arguments) -> (r: Result<String, Error>)
    requires
        utf8_len(template@) <= usize::MAX,
    ensures
        match format_text(d, template@, *args) {
            Ok(t) => r matches Ok(x) && x@ == t,
            Err(f) => r matches Err(e) && e@ == f,
        },
{
    let s = chars_of(template);
    proof {
        lemma_scan_placed(d, s@, 0);
    }
    match scan_all(d, &s) {
        Err(e) => Err(e),
        Ok(found) => match assemble_all(&s, &found, args) {
            Err(e) => Err(e),
            Ok(out) => Ok(string_of(&out)),
        },
    }
}

/// `a` is placeholder `p` of text `s`, its span given in bytes.
pub open spec fn describes(a: ArgumentSpec, p: Placeholder, s: Seq<char>) -> bool {
    &&& a.start == utf8_len(s.subrange(0, p.first as int))
    &&& a.end == utf8_len(s.subrange(0, p.last as int))
    &&& a.position@ == p.slot
    &&& a.directive == p.directive
}

/// Reads the next placeholder of `s` from character `pos` on, and the
/// character at which to go on: past it, or the end of `s` where there is
/// none or it is malformed.
pub fn next_argument(d: Dialect, s: &Vec<char>, pos: usize) -> (r: (
    Option<Result<ArgumentSpec, Error>>,
    usize,
))
    requires
        pos <= s@.len(),
        utf8_len(s@) <= usize::MAX,
    ensures
        r.1 <= s@.len(),
        match next_in(d, s@, pos as int) {
            None => r.0 is None && r.1 == s@.len(),
            Some(Err(f)) => r.0 matches Some(Err(e)) && e@ == f && r.1 == s@.len(),
            Some(Ok(p)) => r.0 matches Some(Ok(a)) && describes(a, p, s@) && r.1 == p.last,
        },
{
    proof {
        lemma_next_in(d, s@, pos as int);
    }
    match find_next(d, s, pos) {
        None => (None, s.len()),
        Some(Err(e)) => (Some(Err(e)), s.len()),
        Some(Ok(f)) => {
            let start = byte_offset(s, f.first);
            let end = byte_offset(s, f.last);
            let last = f.last;
            (Some(Ok(ArgumentSpec { start, end, position: f.position, directive: f.directive })), last)
        },
    }
}

} // verus!
