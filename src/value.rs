//! The values that placeholders render, and their display and repr texts.
use vstd::prelude::*;
use crate::argument::lookup_from;
use crate::text::{decimal_text, digit_char, digit_of, push_all, push_digits, push_repeat, push_str, repeat};

verus! {

/// A format argument.
#[derive(Debug)]
pub enum Value {
    Str(String),
    Bool(bool),
    Int(i64),
    Float(Decimal),
    List(Vec<Value>),
    Object(ValueMap),
}

/// A floating-point number as its shortest exact decimal digits: the value
/// is `d0.d1d2... * 10^exponent`, negated when `negative`.
#[derive(Debug)]
pub struct Decimal {
    negative: bool,
    digits: Vec<u8>,
    exponent: i32,
}

impl Decimal {
    pub closed spec fn is_negative(&self) -> bool {
        self.negative
    }

    pub closed spec fn digit_seq(&self) -> Seq<u8> {
        self.digits@
    }

    pub closed spec fn exp(&self) -> int {
        self.exponent as int
    }

    /// A decimal from its sign, its digits (at least one, each below ten) and
    /// the power of ten of its first digit; `None` where the digits are not
    /// such.
    pub fn new(negative: bool, digits: Vec<u8>, exponent: i32) -> (r: Option<Decimal>)
        ensures
            r is Some <==> digits@.len() > 0 && forall|i: int|
                0 <= i < digits@.len() ==> #[trigger] digits@[i] < 10,
            r matches Some(x) ==> x.is_negative() == negative && x.digit_seq() == digits@
                && x.exp() == exponent,
    {
        if digits.len() == 0 {
            return None;
        }
        let mut i: usize = 0;
        while i < digits.len()
            invariant
                i <= digits@.len(),
                forall|j: int| 0 <= j < i ==> #[trigger] digits@[j] < 10,
            decreases digits@.len() - i,
        {
            if digits[i] >= 10 {
                return None;
            }
            i = i + 1;
        }
        Some(Decimal { negative, digits, exponent })
    }
}

/// The digit characters of `ds`.
pub open spec fn digit_text(ds: Seq<u8>) -> Seq<char> {
    Seq::new(ds.len(), |i: int| digit_char(ds[i] as nat, false))
}

pub open spec fn sign_text(negative: bool) -> Seq<char> {
    if negative {
        seq!['-']
    } else {
        Seq::empty()
    }
}

/// The positional text of a decimal, always with a fractional part:
/// `4.2`, `420.0`, `0.042`.
pub open spec fn float_text(x: Decimal) -> Seq<char> {
    let ds = x.digit_seq();
    let n = ds.len() as int;
    let e = x.exp();
    sign_text(x.is_negative()) + if e >= 0 {
        if e + 1 >= n {
            digit_text(ds) + repeat('0', (e + 1 - n) as nat) + seq!['.', '0']
        } else {
            digit_text(ds.subrange(0, e + 1)) + seq!['.'] + digit_text(ds.subrange(e + 1, n))
        }
    } else {
        seq!['0', '.'] + repeat('0', (-e - 1) as nat) + digit_text(ds)
    }
}

/// The exponential text of a decimal: its first digit, the others after a
/// point if there are any, then `e` (or `E`) and the exponent: `4.2e0`.
pub open spec fn exp_text(x: Decimal, upper: bool) -> Seq<char> {
    let ds = x.digit_seq();
    sign_text(x.is_negative()) + digit_text(ds.subrange(0, if ds.len() > 0 {
        1
    } else {
        0
    })) + (if ds.len() > 1 {
        seq!['.'] + digit_text(ds.subrange(1, ds.len() as int))
    } else {
        Seq::empty()
    }) + seq![if upper { 'E' } else { 'e' }] + decimal_text(x.exp())
}

/// Appends the digit characters of `ds` from `from` up to `to`.
fn push_decimal_digits(ds: &Vec<u8>, from: usize, to: usize, out: &mut Vec<char>)
    requires
        from <= to <= ds@.len(),
    ensures
        final(out)@ == old(out)@ + digit_text(ds@.subrange(from as int, to as int)),
{
    let mut k = from;
    while k < to
        invariant
            from <= k <= to,
            to <= ds@.len(),
            out@ == old(out)@ + digit_text(ds@.subrange(from as int, k as int)),
        decreases to - k,
    {
        let c = digit_of(ds[k] as u64 % 16, false);
        assert(c == digit_char(ds@[k as int] as nat, false));
        out.push(c);
        k = k + 1;
        assert(out@ =~= old(out)@ + digit_text(ds@.subrange(from as int, k as int)));
    }
}

/// Appends the positional text of `x`.
pub fn push_float(x: &Decimal, out: &mut Vec<char>)
    ensures
        final(out)@ == old(out)@ + float_text(*x),
{
    if x.negative {
        out.push('-');
    }
    let ghost signed = out@;
    let ghost ds = x.digits@;
    let n = x.digits.len();
    let e = x.exponent as i128;
    assert(ds.subrange(0, n as int) =~= ds);
    assert(signed == old(out)@ + sign_text(x.negative));
    if e >= 0 {
        if e + 1 >= n as i128 {
            push_decimal_digits(&x.digits, 0, n, out);
            push_repeat('0', (e + 1 - n as i128) as usize, out);
            out.push('.');
            out.push('0');
            assert(out@ =~= signed + (digit_text(ds) + repeat('0', (e + 1 - n) as nat) + seq![
                '.',
                '0',
            ]));
        } else {
            push_decimal_digits(&x.digits, 0, (e + 1) as usize, out);
            out.push('.');
            push_decimal_digits(&x.digits, (e + 1) as usize, n, out);
            assert(out@ =~= signed + (digit_text(ds.subrange(0, e + 1)) + seq!['.'] + digit_text(
                ds.subrange(e + 1, n as int),
            )));
        }
    } else {
        out.push('0');
        out.push('.');
        push_repeat('0', (-e - 1) as usize, out);
        push_decimal_digits(&x.digits, 0, n, out);
        assert(out@ =~= signed + (seq!['0', '.'] + repeat('0', (-e - 1) as nat) + digit_text(ds)));
    }
    assert(out@ =~= old(out)@ + float_text(*x));
}

/// Appends the exponential text of `x`.
pub fn push_exp(x: &Decimal, upper: bool, out: &mut Vec<char>)
    ensures
        final(out)@ == old(out)@ + exp_text(*x, upper),
{
    if x.negative {
        out.push('-');
    }
    let n = x.digits.len();
    push_decimal_digits(&x.digits, 0, if n > 0 {
        1
    } else {
        0
    }, out);
    if n > 1 {
        out.push('.');
        push_decimal_digits(&x.digits, 1, n, out);
    }
    out.push(if upper {
        'E'
    } else {
        'e'
    });
    push_int(x.exponent as i64, out);
    assert(out@ =~= old(out)@ + exp_text(*x, upper));
}

/// A mapping from string keys to values, kept in strictly increasing key
/// order, so that it always renders in that order.
#[derive(Debug)]
pub struct ValueMap {
    entries: Vec<(String, Value)>,
}

/// Lexicographic order on texts, comparing characters by code point.
pub open spec fn text_lt(a: Seq<char>, b: Seq<char>) -> bool {
    exists|i: int|
        #![trigger a.subrange(0, i)]
        0 <= i <= a.len() && i <= b.len() && a.subrange(0, i) == b.subrange(0, i) && ((i
            == a.len() && i < b.len()) || (i < a.len() && i < b.len() && (a[i] as u32) < (
        b[i] as u32)))
}

impl ValueMap {
    /// The entries, in key order.
    pub closed spec fn entries(&self) -> Seq<(String, Value)> {
        self.entries@
    }

    /// Each key is smaller than the next.
    pub open spec fn wf(&self) -> bool {
        forall|i: int|
            0 <= i < self.entries().len() - 1 ==> text_lt(
                #[trigger] self.entries()[i].0@,
                self.entries()[i + 1].0@,
            )
    }

    pub fn new() -> (m: ValueMap)
        ensures
            m.wf(),
            m.entries().len() == 0,
    {
        ValueMap { entries: Vec::new() }
    }

    /// The value under `key`, if any.
    pub fn get(&self, key: &String) -> (r: Option<&Value>)
        ensures
            match lookup_from(self.entries(), key@, 0) {
                Some(v) => r matches Some(w) && *w == v,
                None => r is None,
            },
    {
        let n = self.entries.len();
        let mut i: usize = 0;
        while i < n
            invariant
                n == self.entries@.len(),
                i <= n,
                lookup_from(self.entries(), key@, 0) == lookup_from(self.entries(), key@, i as int),
            decreases n - i,
        {
            if self.entries[i].0 == *key {
                return Some(&self.entries[i].1);
            }
            i = i + 1;
        }
        None
    }

    pub fn len(&self) -> (n: usize)
        ensures
            n == self.entries().len(),
    {
        self.entries.len()
    }

    /// Sets `key` to `value`: an entry with an equal key is replaced in place,
    /// else the entry goes where the key order puts it.
    pub fn insert(&mut self, key: String, value: Value)
        requires
            old(self).wf(),
        ensures
            final(self).wf(),
            ({
                let e = old(self).entries();
                let f = final(self).entries();
                (exists|i: int|
                    0 <= i < e.len() && e[i].0@ == key@ && f == e.update(i, (key, value)))
                    || (exists|i: int|
                    0 <= i <= e.len() && f == e.insert(i, (key, value)))
            }),
            lookup_from(final(self).entries(), key@, 0) == Some(value),
            forall|k: Seq<char>|
                k != key@ ==> #[trigger] lookup_from(final(self).entries(), k, 0) == lookup_from(
                    old(self).entries(),
                    k,
                    0,
                ),
    {
        let n = self.entries.len();
        let mut i: usize = 0;
        while i < n
            invariant
                n == self.entries.len(),
                self.entries@ == old(self).entries@,
                old(self).wf(),
                i <= n,
                forall|j: int| 0 <= j < i ==> text_lt(#[trigger] self.entries@[j].0@, key@),
            decreases n - i,
        {
            let c = compare_text(self.entries[i].0.as_str(), key.as_str());
            if c == 0 {
                let ghost e = self.entries@;
                proof {
                    lemma_lt_irreflexive(key@);
                }
                self.entries.set(i, (key, value));
                assert(self.entries@ == e.update(i as int, (key, value)));
                assert(old(self).entries()[i as int].0@ == key@);
                assert(self.entries@ == old(self).entries().update(i as int, (key, value)));
                proof {
                    lemma_lookup_skip(self.entries@, key@, 0, i as int);
                    assert forall|k: Seq<char>| k != key@ implies #[trigger] lookup_from(
                        self.entries@,
                        k,
                        0,
                    ) == lookup_from(e, k, 0) by {
                        lemma_lookup_update(e, i as int, (key, value), k, 0);
                    }
                }
                assert(forall|j: int|
                    0 <= j < self.entries@.len() - 1 ==> text_lt(
                        #[trigger] self.entries@[j].0@,
                        self.entries@[j + 1].0@,
                    )) by {
                    assert forall|j: int| 0 <= j < self.entries@.len() - 1 implies text_lt(
                        #[trigger] self.entries@[j].0@,
                        self.entries@[j + 1].0@,
                    ) by {
                        assert(text_lt(old(self).entries()[j].0@, old(self).entries()[j + 1].0@));
                    }
                }
                return ;
            }
            if c > 0 {
                let ghost e = self.entries@;
                self.entries.insert(i, (key, value));
                assert(self.entries@ == e.insert(i as int, (key, value)));
                assert(self.entries@ == old(self).entries().insert(i as int, (key, value)));
                proof {
                    lemma_lookup_skip(self.entries@, key@, 0, i as int);
                    assert forall|k: Seq<char>| k != key@ implies #[trigger] lookup_from(
                        self.entries@,
                        k,
                        0,
                    ) == lookup_from(e, k, 0) by {
                        lemma_lookup_insert(e, i as int, (key, value), k, 0);
                    }
                }
                assert(forall|j: int|
                    0 <= j < self.entries@.len() - 1 ==> text_lt(
                        #[trigger] self.entries@[j].0@,
                        self.entries@[j + 1].0@,
                    )) by {
                    assert forall|j: int| 0 <= j < self.entries@.len() - 1 implies text_lt(
                        #[trigger] self.entries@[j].0@,
                        self.entries@[j + 1].0@,
                    ) by {
                        if j < i - 1 {
                            assert(text_lt(old(self).entries()[j].0@, old(self).entries()[j + 1].0@));
                        } else if j > i {
                            assert(text_lt(old(self).entries()[j - 1].0@, old(self).entries()[j].0@));
                        }
                    }
                }
                return ;
            }
            i = i + 1;
        }
        let ghost e = self.entries@;
        self.entries.push((key, value));
        assert(self.entries@ =~= e.insert(n as int, (key, value)));
        assert(self.entries@ == old(self).entries().insert(n as int, (key, value)));
        proof {
            lemma_lookup_skip(self.entries@, key@, 0, n as int);
            assert forall|k: Seq<char>| k != key@ implies #[trigger] lookup_from(
                self.entries@,
                k,
                0,
            ) == lookup_from(e, k, 0) by {
                lemma_lookup_insert(e, n as int, (key, value), k, 0);
            }
        }
        assert(forall|j: int|
            0 <= j < self.entries@.len() - 1 ==> text_lt(
                #[trigger] self.entries@[j].0@,
                self.entries@[j + 1].0@,
            )) by {
            assert forall|j: int| 0 <= j < self.entries@.len() - 1 implies text_lt(
                #[trigger] self.entries@[j].0@,
                self.entries@[j + 1].0@,
            ) by {
                if j < n - 1 {
                    assert(text_lt(old(self).entries()[j].0@, old(self).entries()[j + 1].0@));
                }
            }
        }
    }
}

/// Entries whose keys differ from `k` do not change what `k` looks up to.
proof fn lemma_lookup_skip(f: Seq<(String, Value)>, k: Seq<char>, from: int, to: int)
    requires
        0 <= from <= to <= f.len(),
        forall|j: int| from <= j < to ==> text_lt(#[trigger] f[j].0@, k),
    ensures
        lookup_from(f, k, from) == lookup_from(f, k, to),
    decreases to - from,
{
    if from < to {
        lemma_lt_irreflexive(k);
        assert(text_lt(f[from].0@, k));
        lemma_lookup_skip(f, k, from + 1, to);
    }
}

proof fn lemma_lookup_insert(e: Seq<(String, Value)>, i: int, x: (String, Value), k: Seq<char>, n: int)
    requires
        0 <= i <= e.len(),
        0 <= n <= i,
        x.0@ != k,
    ensures
        lookup_from(e.insert(i, x), k, n) == lookup_from(e, k, n),
    decreases e.len() + 1 - n,
{
    if n < i {
        lemma_lookup_insert(e, i, x, k, n + 1);
    } else {
        lemma_lookup_shifted(e, i, x, k, i);
    }
}

proof fn lemma_lookup_shifted(e: Seq<(String, Value)>, i: int, x: (String, Value), k: Seq<char>, m: int)
    requires
        0 <= i <= m <= e.len(),
        x.0@ != k,
    ensures
        lookup_from(e.insert(i, x), k, m + 1) == lookup_from(e, k, m),
        m == i ==> lookup_from(e.insert(i, x), k, m) == lookup_from(e, k, m),
    decreases e.len() - m,
{
    if m < e.len() {
        lemma_lookup_shifted(e, i, x, k, m + 1);
    }
}

proof fn lemma_lookup_update(e: Seq<(String, Value)>, i: int, x: (String, Value), k: Seq<char>, n: int)
    requires
        0 <= i < e.len(),
        0 <= n <= e.len(),
        x.0@ != k,
        e[i].0@ != k,
    ensures
        lookup_from(e.update(i, x), k, n) == lookup_from(e, k, n),
    decreases e.len() - n,
{
    if n < e.len() {
        lemma_lookup_update(e, i, x, k, n + 1);
    }
}

proof fn lemma_lt_irreflexive(a: Seq<char>)
    ensures
        !text_lt(a, a),
{
}

/// Compares two texts: negative, zero or positive as `a` is smaller than,
/// equal to or greater than `b`.
pub fn compare_text(a: &str, b: &str) -> (r: i8)
    ensures
        r < 0 <==> text_lt(a@, b@),
        r == 0 <==> a@ == b@,
        r > 0 <==> text_lt(b@, a@),
{
    let na = a.unicode_len();
    let nb = b.unicode_len();
    let mut i: usize = 0;
    while i < na && i < nb
        invariant
            na == a@.len(),
            nb == b@.len(),
            i <= na,
            i <= nb,
            a@.subrange(0, i as int) == b@.subrange(0, i as int),
        decreases na - i,
    {
        let ca = a.get_char(i);
        let cb = b.get_char(i);
        if (ca as u32) < (cb as u32) {
            assert(text_lt(a@, b@));
            proof {
                lemma_first_difference(a@, b@, i as int);
            }
            return -1;
        }
        if (cb as u32) < (ca as u32) {
            assert(text_lt(b@, a@));
            proof {
                lemma_first_difference(b@, a@, i as int);
            }
            return 1;
        }
        assert(a@.subrange(0, i + 1) =~= b@.subrange(0, i + 1)) by {
            assert(a@.subrange(0, i + 1) =~= a@.subrange(0, i as int).push(ca));
            assert(b@.subrange(0, i + 1) =~= b@.subrange(0, i as int).push(cb));
        }
        i = i + 1;
    }
    if na < nb {
        assert(text_lt(a@, b@));
        proof {
            lemma_prefix_lt(a@, b@);
        }
        -1
    } else if nb < na {
        assert(text_lt(b@, a@));
        proof {
            lemma_prefix_lt(b@, a@);
        }
        1
    } else {
        assert(a@ =~= b@) by {
            assert(a@.subrange(0, i as int) =~= a@);
            assert(b@.subrange(0, i as int) =~= b@);
        }
        proof {
            lemma_lt_irreflexive(a@);
        }
        0
    }
}

/// Where `a` and `b` first differ at `i`, with `a[i] < b[i]`, `b` is not
/// smaller than `a` and the two differ.
proof fn lemma_first_difference(a: Seq<char>, b: Seq<char>, i: int)
    requires
        0 <= i < a.len(),
        i < b.len(),
        a.subrange(0, i) == b.subrange(0, i),
        (a[i] as u32) < (b[i] as u32),
    ensures
        !text_lt(b, a),
        a != b,
{
    if text_lt(b, a) {
        let j = choose|j: int|
            #![trigger b.subrange(0, j)]
            0 <= j <= b.len() && j <= a.len() && b.subrange(0, j) == a.subrange(0, j) && ((j
                == b.len() && j < a.len()) || (j < b.len() && j < a.len() && (b[j] as u32) < (
            a[j] as u32)));
        if j < i {
            assert(a.subrange(0, i)[j] == a[j]);
            assert(b.subrange(0, i)[j] == b[j]);
            assert(a[j] == b[j]);
        } else if j > i {
            assert(a.subrange(0, j)[i] == b.subrange(0, j)[i]);
            assert(a[i] == b[i]);
        }
    }
}

/// A proper prefix is smaller, and not greater.
proof fn lemma_prefix_lt(a: Seq<char>, b: Seq<char>)
    requires
        a.len() < b.len(),
        a.subrange(0, a.len() as int) == b.subrange(0, a.len() as int),
    ensures
        !text_lt(b, a),
        a != b,
{
    if text_lt(b, a) {
        let j = choose|j: int|
            #![trigger b.subrange(0, j)]
            0 <= j <= b.len() && j <= a.len() && b.subrange(0, j) == a.subrange(0, j) && ((j
                == b.len() && j < a.len()) || (j < b.len() && j < a.len() && (b[j] as u32) < (
            a[j] as u32)));
        assert(j < a.len());
        assert(a.subrange(0, a.len() as int)[j] == a[j]);
        assert(b.subrange(0, a.len() as int)[j] == b[j]);
        assert(a[j] == b[j]);
    }
}

/// How many items or entries a list or object holds; zero for a scalar.
pub open spec fn child_count(v: Value) -> nat {
    match v {
        Value::List(l) => l@.len(),
        Value::Object(m) => m.entries().len(),
        _ => 0,
    }
}

pub open spec fn bool_text(b: bool) -> Seq<char> {
    if b {
        seq!['t', 'r', 'u', 'e']
    } else {
        seq!['f', 'a', 'l', 's', 'e']
    }
}

/// The display text of a value: strings verbatim, lists as `[a,b]`, objects
/// as `{"k":v}` in key order, each part in its display text.
pub open spec fn display(v: Value) -> Seq<char>
    decreases v, child_count(v) + 1,
{
    match v {
        Value::Str(s) => s@,
        Value::Bool(b) => bool_text(b),
        Value::Int(i) => decimal_text(i as int),
        Value::Float(x) => float_text(x),
        Value::List(_) => seq!['['] + display_parts(v, 0) + seq![']'],
        Value::Object(_) => seq!['{'] + display_parts(v, 0) + seq!['}'],
    }
}

/// The display texts of the items (or entries) of `v` from the `n`-th on,
/// separated by commas.
pub open spec fn display_parts(v: Value, n: int) -> Seq<char>
    decreases v, child_count(v) - n,
{
    if 0 <= n < child_count(v) {
        let part = match v {
            Value::List(l) => display(l@[n]),
            Value::Object(m) => seq!['"'] + m.entries()[n].0@ + seq!['"', ':'] + display(
                m.entries()[n].1,
            ),
            _ => Seq::empty(),
        };
        if n + 1 < child_count(v) {
            part + seq![','] + display_parts(v, n + 1)
        } else {
            part
        }
    } else {
        Seq::empty()
    }
}

/// Appends the display text of `v` to `out`.
pub fn push_display(v: &Value, out: &mut Vec<char>)
    ensures
        final(out)@ == old(out)@ + display(*v),
    decreases v,
{
    match v {
        Value::Str(s) => push_str(s.as_str(), out),
        Value::Bool(b) => {
            if *b {
                push_str("true", out);
                proof {
                    reveal_strlit("true");
                }
            } else {
                push_str("false", out);
                proof {
                    reveal_strlit("false");
                }
            }
            assert(out@ =~= old(out)@ + display(*v));
        },
        Value::Int(i) => {
            push_int(*i, out);
        },
        Value::Float(x) => {
            push_float(x, out);
        },
        Value::List(_) => {
            out.push('[');
            push_display_parts(v, out);
            out.push(']');
            assert(out@ =~= old(out)@ + display(*v));
        },
        Value::Object(_) => {
            out.push('{');
            push_display_parts(v, out);
            out.push('}');
            assert(out@ =~= old(out)@ + display(*v));
        },
    }
}

/// Appends the display texts of the items or entries of `v`, separated by
/// commas.
fn push_display_parts(v: &Value, out: &mut Vec<char>)
    ensures
        final(out)@ == old(out)@ + display_parts(*v, 0),
    decreases v, child_count(*v) + 1,
{
    let n: usize = match v {
        Value::List(l) => l.len(),
        Value::Object(m) => m.entries.len(),
        _ => 0,
    };
    let mut k: usize = 0;
    while k < n
        invariant
            n == child_count(*v),
            k <= n,
            k == 0 ==> out@ == old(out)@,
            0 < k < n ==> out@ + seq![','] + display_parts(*v, k as int) == old(out)@
                + display_parts(*v, 0),
            k == n ==> out@ == old(out)@ + display_parts(*v, 0),
        decreases n - k,
    {
        if k > 0 {
            out.push(',');
        }
        match v {
            Value::List(l) => {
                push_display(&l[k], out);
            },
            Value::Object(m) => {
                out.push('"');
                push_str(m.entries[k].0.as_str(), out);
                out.push('"');
                out.push(':');
                push_display(&m.entries[k].1, out);
            },
            _ => {},
        }
        k = k + 1;
    }
}

/// Appends the decimal text of `i` to `out`.
pub fn push_int(i: i64, out: &mut Vec<char>)
    ensures
        final(out)@ == old(out)@ + decimal_text(i as int),
{
    if i < 0 {
        out.push('-');
        let m: u64 = (-(i as i128)) as u64;
        push_digits(m, 10, false, out);
        assert(out@ =~= old(out)@ + decimal_text(i as int));
    } else {
        push_digits(i as u64, 10, false, out);
    }
}

/// The repr text of a value: strings in double quotes, other scalars as in
/// their display text, lists and objects from the repr texts of their parts.
/// When `pretty`, a non-empty list or object spreads over lines, one part per
/// line, each indented two spaces deeper than `indent`, the closing bracket on
/// a line of its own at `indent`.
pub open spec fn repr(v: Value, pretty: bool, indent: Seq<char>) -> Seq<char>
    decreases v, 2 * child_count(v) + 3,
{
    match v {
        Value::Str(s) => seq!['"'] + s@ + seq!['"'],
        Value::List(_) => if pretty && child_count(v) > 0 {
            seq!['[', '\n'] + repr_parts(v, pretty, indent, 0) + seq!['\n'] + indent + seq![']']
        } else {
            seq!['['] + repr_parts(v, pretty, indent, 0) + seq![']']
        },
        Value::Object(_) => if pretty && child_count(v) > 0 {
            seq!['{', '\n'] + repr_parts(v, pretty, indent, 0) + seq!['\n'] + indent + seq!['}']
        } else {
            seq!['{'] + repr_parts(v, pretty, indent, 0) + seq!['}']
        },
        _ => display(v),
    }
}

/// The separator between two parts of a list or object in its repr text.
pub open spec fn repr_sep(pretty: bool) -> Seq<char> {
    if pretty {
        seq![',', '\n']
    } else {
        seq![',']
    }
}

/// The repr text of the `n`-th item or entry of `v`, led by its indentation
/// when `pretty`.
pub open spec fn repr_part(v: Value, pretty: bool, indent: Seq<char>, n: int) -> Seq<char>
    decreases v, 2 * (child_count(v) - n) + 1,
{
    if 0 <= n < child_count(v) {
        let inner = indent + seq![' ', ' '];
        let lead = if pretty {
            inner
        } else {
            Seq::empty()
        };
        lead + match v {
            Value::List(l) => repr(l@[n], pretty, inner),
            Value::Object(m) => seq!['"'] + m.entries()[n].0@ + (if pretty {
                seq!['"', ':', ' ']
            } else {
                seq!['"', ':']
            }) + repr(m.entries()[n].1, pretty, inner),
            _ => Seq::empty(),
        }
    } else {
        Seq::empty()
    }
}

/// The repr texts of the items or entries of `v` from the `n`-th on, with
/// their separators.
pub open spec fn repr_parts(v: Value, pretty: bool, indent: Seq<char>, n: int) -> Seq<char>
    decreases v, 2 * (child_count(v) - n) + 2,
{
    if 0 <= n < child_count(v) {
        if n + 1 < child_count(v) {
            repr_part(v, pretty, indent, n) + repr_sep(pretty) + repr_parts(v, pretty, indent, n + 1)
        } else {
            repr_part(v, pretty, indent, n)
        }
    } else {
        Seq::empty()
    }
}

/// Appends the repr text of `v` to `out`.
pub fn push_repr(v: &Value, pretty: bool, indent: &Vec<char>, out: &mut Vec<char>)
    ensures
        final(out)@ == old(out)@ + repr(*v, pretty, indent@),
    decreases v,
{
    match v {
        Value::Str(s) => {
            out.push('"');
            push_str(s.as_str(), out);
            out.push('"');
            assert(out@ =~= old(out)@ + repr(*v, pretty, indent@));
        },
        Value::List(l) => {
            if pretty && l.len() > 0 {
                out.push('[');
                out.push('\n');
                push_repr_parts(v, pretty, indent, out);
                out.push('\n');
                push_all(indent, out);
                out.push(']');
            } else {
                out.push('[');
                push_repr_parts(v, pretty, indent, out);
                out.push(']');
            }
            assert(out@ =~= old(out)@ + repr(*v, pretty, indent@));
        },
        Value::Object(m) => {
            if pretty && m.entries.len() > 0 {
                out.push('{');
                out.push('\n');
                push_repr_parts(v, pretty, indent, out);
                out.push('\n');
                push_all(indent, out);
                out.push('}');
            } else {
                out.push('{');
                push_repr_parts(v, pretty, indent, out);
                out.push('}');
            }
            assert(out@ =~= old(out)@ + repr(*v, pretty, indent@));
        },
        _ => push_display(v, out),
    }
}

fn push_repr_parts(v: &Value, pretty: bool, indent: &Vec<char>, out: &mut Vec<char>)
    ensures
        final(out)@ == old(out)@ + repr_parts(*v, pretty, indent@, 0),
    decreases v, 2 * child_count(*v) + 2,
{
    let n: usize = match v {
        Value::List(l) => l.len(),
        Value::Object(m) => m.entries.len(),
        _ => 0,
    };
    let mut inner = indent.clone();
    inner.push(' ');
    inner.push(' ');
    assert(inner@ == indent@ + seq![' ', ' ']);
    let ghost sep = repr_sep(pretty);
    let mut k: usize = 0;
    while k < n
        invariant
            n == child_count(*v),
            inner@ == indent@ + seq![' ', ' '],
            sep == repr_sep(pretty),
            k <= n,
            k == 0 ==> out@ == old(out)@,
            0 < k < n ==> out@ + sep + repr_parts(*v, pretty, indent@, k as int) == old(out)@
                + repr_parts(*v, pretty, indent@, 0),
            k == n ==> out@ == old(out)@ + repr_parts(*v, pretty, indent@, 0),
        decreases n - k,
    {
        let ghost start = out@;
        if k > 0 {
            out.push(',');
            if pretty {
                out.push('\n');
            }
        }
        assert(out@ == start + (if k > 0 {
            sep
        } else {
            Seq::empty()
        }));
        push_repr_part(v, pretty, indent, &inner, k, out);
        proof {
            if k == 0 {
                assert(out@ + sep + repr_parts(*v, pretty, indent@, k + 1) =~= old(out)@
                    + repr_parts(*v, pretty, indent@, 0) || k + 1 == n);
                assert(k + 1 == n ==> out@ =~= old(out)@ + repr_parts(*v, pretty, indent@, 0));
            } else {
                assert(out@ + sep + repr_parts(*v, pretty, indent@, k + 1) =~= start + sep
                    + repr_parts(*v, pretty, indent@, k as int) || k + 1 == n);
                assert(k + 1 == n ==> out@ =~= start + sep + repr_parts(
                    *v,
                    pretty,
                    indent@,
                    k as int,
                ));
            }
        }
        k = k + 1;
    }
}

/// Appends the repr text of the `k`-th item or entry of `v`, with its
/// indentation when `pretty`.
fn push_repr_part(v: &Value, pretty: bool, indent: &Vec<char>, inner: &Vec<char>, k: usize, out: &mut Vec<char>)
    requires
        k < child_count(*v),
        inner@ == indent@ + seq![' ', ' '],
    ensures
        final(out)@ == old(out)@ + repr_part(*v, pretty, indent@, k as int),
    decreases v, 2 * (child_count(*v) - k) + 1,
{
    if pretty {
        push_all(inner, out);
    }
    match v {
        Value::List(l) => {
            push_repr(&l[k], pretty, inner, out);
        },
        Value::Object(m) => {
            out.push('"');
            push_str(m.entries[k].0.as_str(), out);
            out.push('"');
            out.push(':');
            if pretty {
                out.push(' ');
            }
            push_repr(&m.entries[k].1, pretty, inner, out);
        },
        _ => {},
    }
    assert(out@ =~= old(out)@ + repr_part(*v, pretty, indent@, k as int));
}

} // verus!
