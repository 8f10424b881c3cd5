//! Character-level building blocks: digits, padding, UTF-8 widths and the
//! conversion of a character buffer into a `String`.
use vstd::prelude::*;

verus! {

/// The digit characters of bases up to sixteen, lower case.
pub open spec fn lower_digits() -> Seq<char> {
    seq!['0', '1', '2', '3', '4', '5', '6', '7', '8', '9', 'a', 'b', 'c', 'd', 'e', 'f']
}

/// The digit characters of bases up to sixteen, upper case.
pub open spec fn upper_digits() -> Seq<char> {
    seq!['0', '1', '2', '3', '4', '5', '6', '7', '8', '9', 'A', 'B', 'C', 'D', 'E', 'F']
}

pub open spec fn digit_char(d: nat, upper: bool) -> char {
    if upper {
        upper_digits()[(d % 16) as int]
    } else {
        lower_digits()[(d % 16) as int]
    }
}

#[via_fn]
proof fn digits_decreases(n: nat, base: nat, upper: bool) {
    if !(base < 2 || n < base) {
        assert(n / base < n) by (nonlinear_arith)
            requires
                2 <= base,
                base <= n,
        ;
    }
}

/// The digits of `n` in `base`, most significant first, without leading zeros
/// (zero is the single digit `0`).
pub open spec fn digits(n: nat, base: nat, upper: bool) -> Seq<char>
    decreases n
    via digits_decreases
{
    if base < 2 || n < base {
        seq![digit_char(n, upper)]
    } else {
        digits(n / base, base, upper).push(digit_char(n % base, upper))
    }
}

/// The magnitude of an integer.
pub open spec fn magnitude(i: int) -> nat {
    if i < 0 {
        (-i) as nat
    } else {
        i as nat
    }
}

/// The decimal text of an integer: a minus sign for negative values, then the
/// digits of its magnitude.
pub open spec fn decimal_text(i: int) -> Seq<char> {
    if i < 0 {
        seq!['-'] + digits(magnitude(i), 10, false)
    } else {
        digits(magnitude(i), 10, false)
    }
}

/// `n` copies of `c`.
pub open spec fn repeat(c: char, n: nat) -> Seq<char>
    decreases n,
{
    if n == 0 {
        Seq::empty()
    } else {
        repeat(c, (n - 1) as nat).push(c)
    }
}

/// The number of bytes that `c` takes in UTF-8.
pub open spec fn utf8_width(c: char) -> nat {
    if (c as u32) < 0x80 {
        1
    } else if (c as u32) < 0x800 {
        2
    } else if (c as u32) < 0x10000 {
        3
    } else {
        4
    }
}

/// The number of bytes that `s` takes in UTF-8.
pub open spec fn utf8_len(s: Seq<char>) -> nat
    decreases s.len(),
{
    if s.len() == 0 {
        0
    } else {
        utf8_len(s.drop_last()) + utf8_width(s.last())
    }
}

pub fn char_utf8_width(c: char) -> (r: usize)
    ensures
        r == utf8_width(c),
{
    let u = c as u32;
    if u < 0x80 {
        1
    } else if u < 0x800 {
        2
    } else if u < 0x10000 {
        3
    } else {
        4
    }
}

pub fn digit_of(d: u64, upper: bool) -> (c: char)
    requires
        d < 16,
    ensures
        c == digit_char(d as nat, upper),
{
    let lower = ['0', '1', '2', '3', '4', '5', '6', '7', '8', '9', 'a', 'b', 'c', 'd', 'e', 'f'];
    let upper_set = ['0', '1', '2', '3', '4', '5', '6', '7', '8', '9', 'A', 'B', 'C', 'D', 'E', 'F'];
    let c = if upper {
        upper_set[d as usize]
    } else {
        lower[d as usize]
    };
    assert(c == digit_char(d as nat, upper)) by {
        if upper {
            assert(upper_set@ == upper_digits());
        } else {
            assert(lower@ == lower_digits());
        }
    }
    c
}

/// Appends the digits of `n` in `base` to `out`.
pub fn push_digits(n: u64, base: u64, upper: bool, out: &mut Vec<char>)
    requires
        2 <= base <= 16,
    ensures
        final(out)@ == old(out)@ + digits(n as nat, base as nat, upper),
    decreases n,
{
    if n >= base {
        assert(n / base < n) by (nonlinear_arith)
            requires
                2 <= base,
                base <= n,
        ;
        push_digits(n / base, base, upper, out);
    }
    let d = digit_of(n % base, upper);
    out.push(d);
    proof {
        if n < base {
            vstd::arithmetic::div_mod::lemma_small_mod(n as nat, base as nat);
        }
        assert(final(out)@ =~= old(out)@ + digits(n as nat, base as nat, upper));
    }
}

/// Appends `n` copies of `c` to `out`.
pub fn push_repeat(c: char, n: usize, out: &mut Vec<char>)
    ensures
        final(out)@ == old(out)@ + repeat(c, n as nat),
{
    let mut k: usize = 0;
    while k < n
        invariant
            k <= n,
            out@ == old(out)@ + repeat(c, k as nat),
        decreases n - k,
    {
        out.push(c);
        k = k + 1;
        assert(out@ =~= old(out)@ + repeat(c, k as nat));
    }
}

/// Appends the characters of `s` to `out`.
pub fn push_all(s: &Vec<char>, out: &mut Vec<char>)
    ensures
        final(out)@ == old(out)@ + s@,
{
    let mut k: usize = 0;
    while k < s.len()
        invariant
            k <= s.len(),
            out@ == old(out)@ + s@.subrange(0, k as int),
        decreases s.len() - k,
    {
        out.push(s[k]);
        k = k + 1;
        assert(out@ =~= old(out)@ + s@.subrange(0, k as int));
    }
    assert(s@.subrange(0, s.len() as int) =~= s@);
}

/// Appends the characters of `s` to `out`.
pub fn push_str(s: &str, out: &mut Vec<char>)
    ensures
        final(out)@ == old(out)@ + s@,
{
    let n = s.unicode_len();
    let mut k: usize = 0;
    while k < n
        invariant
            n == s@.len(),
            k <= n,
            out@ == old(out)@ + s@.subrange(0, k as int),
        decreases n - k,
    {
        out.push(s.get_char(k));
        k = k + 1;
        assert(out@ =~= old(out)@ + s@.subrange(0, k as int));
    }
    assert(s@.subrange(0, n as int) =~= s@);
}

/// Relies on `FromIterator<char>` for `String`: the string holds exactly the
/// given characters, in order.
#[verifier::external_body]
pub fn string_of(chars: &Vec<char>) -> (r: String)
    ensures
        r@ == chars@,
{
    chars.iter().collect::<String>()
}

/// Whether `c` is a Unicode word character: alphabetic, a join control, a
/// decimal number, a mark or a connector punctuation.
pub uninterp spec fn word_character(c: char) -> bool;

/// Relies on `regex_syntax::is_word_character`, the class that `\w` matches
/// in `regex`: its answer depends on the character alone. It panics only
/// without the `unicode-perl` feature, which the default features enable.
#[verifier::external_body]
fn is_word_character(c: char) -> (r: bool)
    ensures
        r == word_character(c),
{
    regex_syntax::is_word_character(c)
}

pub open spec fn is_ascii_word(c: char) -> bool {
    (48 <= (c as u32) <= 57) || (65 <= (c as u32) <= 90) || (97 <= (c as u32) <= 122) || c
        == '_'
}

/// A character that may stand in a placeholder's name: a word character as
/// `\w` matches it; in ASCII those are the letters, the digits and `_`.
pub open spec fn is_word(c: char) -> bool {
    if (c as u32) < 128 {
        is_ascii_word(c)
    } else {
        word_character(c)
    }
}

pub fn word_char(c: char) -> (r: bool)
    ensures
        r == is_word(c),
{
    let u = c as u32;
    if u < 128 {
        (48 <= u && u <= 57) || (65 <= u && u <= 90) || (97 <= u && u <= 122) || u == 95
    } else {
        is_word_character(c)
    }
}

/// The end of the run of word characters that starts at `j`.
pub open spec fn word_end(s: Seq<char>, j: int) -> int
    decreases s.len() - j,
{
    if 0 <= j < s.len() && is_word(s[j]) {
        word_end(s, j + 1)
    } else {
        j
    }
}

pub proof fn lemma_word_end(s: Seq<char>, j: int)
    requires
        0 <= j <= s.len(),
    ensures
        j <= word_end(s, j) <= s.len(),
        forall|k: int| j <= k < word_end(s, j) ==> is_word(#[trigger] s[k]),
        word_end(s, j) < s.len() ==> !is_word(s[word_end(s, j)]),
    decreases s.len() - j,
{
    if j < s.len() && is_word(s[j]) {
        lemma_word_end(s, j + 1);
    }
}

/// Finds the end of the run of word characters that starts at `j`.
pub fn find_word_end(s: &Vec<char>, j: usize) -> (r: usize)
    requires
        j <= s@.len(),
    ensures
        r == word_end(s@, j as int),
{
    let mut k = j;
    while k < s.len() && word_char(s[k])
        invariant
            j <= k <= s@.len(),
            word_end(s@, j as int) == word_end(s@, k as int),
        decreases s.len() - k,
    {
        k = k + 1;
    }
    k
}

/// The characters of `s` from `from` up to `to`, as a `String`.
pub fn substring(s: &Vec<char>, from: usize, to: usize) -> (r: String)
    requires
        from <= to <= s@.len(),
    ensures
        r@ == s@.subrange(from as int, to as int),
{
    let mut part: Vec<char> = Vec::new();
    let mut k = from;
    while k < to
        invariant
            from <= k <= to,
            to <= s@.len(),
            part@ == s@.subrange(from as int, k as int),
        decreases to - k,
    {
        part.push(s[k]);
        k = k + 1;
        assert(part@ =~= s@.subrange(from as int, k as int));
    }
    string_of(&part)
}

/// The characters of `s`.
pub fn chars_of(s: &str) -> (r: Vec<char>)
    ensures
        r@ == s@,
{
    let mut v: Vec<char> = Vec::new();
    push_str(s, &mut v);
    assert(v@ =~= s@);
    v
}

pub proof fn lemma_utf8_len_prefix(s: Seq<char>, k: int)
    requires
        0 <= k <= s.len(),
    ensures
        utf8_len(s.subrange(0, k)) <= utf8_len(s),
    decreases s.len() - k,
{
    if k < s.len() {
        lemma_utf8_len_prefix(s, k + 1);
        assert(s.subrange(0, k + 1).drop_last() =~= s.subrange(0, k));
    } else {
        assert(s.subrange(0, k) =~= s);
    }
}

/// The byte offset of the `k`-th character of `s`.
pub fn byte_offset(s: &Vec<char>, k: usize) -> (r: usize)
    requires
        k <= s@.len(),
        utf8_len(s@) <= usize::MAX,
    ensures
        r == utf8_len(s@.subrange(0, k as int)),
{
    let mut b: usize = 0;
    let mut i: usize = 0;
    while i < k
        invariant
            i <= k <= s@.len(),
            utf8_len(s@) <= usize::MAX,
            b == utf8_len(s@.subrange(0, i as int)),
        decreases k - i,
    {
        proof {
            lemma_utf8_len_prefix(s@, i + 1);
            assert(s@.subrange(0, i + 1).drop_last() =~= s@.subrange(0, i as int));
        }
        b = b + char_utf8_width(s[i]);
        i = i + 1;
    }
    b
}

/// Appends the characters of `s` from `from` up to `to` to `out`.
pub fn push_range(s: &Vec<char>, from: usize, to: usize, out: &mut Vec<char>)
    requires
        from <= to <= s@.len(),
    ensures
        final(out)@ == old(out)@ + s@.subrange(from as int, to as int),
{
    let mut k = from;
    while k < to
        invariant
            from <= k <= to,
            to <= s@.len(),
            out@ == old(out)@ + s@.subrange(from as int, k as int),
        decreases to - k,
    {
        out.push(s[k]);
        k = k + 1;
        assert(out@ =~= old(out)@ + s@.subrange(from as int, k as int));
    }
}

} // verus!
