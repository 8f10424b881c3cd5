//! Properties that relate several formatting calls, or hold of all inputs.
use vstd::prelude::*;
use crate::curly::{curly_at, curly_next, decimal_value, lemma_curly_next, slot_of_key};
use crate::format::{assemble, format_text, next_in, scan_from, Dialect};
use crate::render::{base_text, fill, pad, render, width_of};
use crate::argument::{resolve, Arguments, Directive, Placeholder, Slot, Width};
use crate::text::word_end;
use crate::value::{display, Value};

verus! {

/// A template in which the scanner finds no placeholder comes back unchanged,
/// whatever the arguments.
pub proof fn law_pass_through(d: Dialect, s: Seq<char>, args: Arguments)
    requires
        next_in(d, s, 0) is None,
    ensures
        format_text(d, s, args) == Ok::<Seq<char>, crate::argument::Fault>(s),
{
    assert(s.subrange(0, s.len() as int) =~= s);
}

/// How many of the first `m` placeholders select their argument by `Auto`.
pub open spec fn auto_rank(phs: Seq<Placeholder>, m: int) -> nat
    decreases m,
{
    if m <= 0 {
        0
    } else {
        auto_rank(phs, m - 1) + if phs[m - 1].slot is Auto {
            1nat
        } else {
            0nat
        }
    }
}

/// The placeholders with each `Auto` position replaced by the index of the
/// argument it takes by its rank: the `i`-th `Auto` one by index `i - 1`.
pub open spec fn numbered(phs: Seq<Placeholder>) -> Seq<Placeholder> {
    Seq::new(
        phs.len(),
        |m: int|
            if phs[m].slot is Auto {
                Placeholder { slot: Slot::Index(auto_rank(phs, m)), ..phs[m] }
            } else {
                phs[m]
            },
    )
}

/// No placeholder takes its width from the arguments.
pub open spec fn fixed_widths(phs: Seq<Placeholder>) -> bool {
    forall|m: int| 0 <= m < phs.len() ==> (#[trigger] phs[m]).directive.width != Some(
        Width::FromArgument,
    )
}

proof fn lemma_numbered_from(
    s: Seq<char>,
    phs: Seq<Placeholder>,
    k: int,
    from: int,
    c: nat,
    args: Arguments,
)
    requires
        args is List,
        fixed_widths(phs),
        0 <= k <= phs.len(),
    ensures
        assemble(s, phs, k, from, auto_rank(phs, k), args) == assemble(
            s,
            numbered(phs),
            k,
            from,
            c,
            args,
        ),
    decreases phs.len() - k,
{
    if k < phs.len() {
        let p = phs[k];
        let q = numbered(phs)[k];
        assert(p.directive.width != Some(Width::FromArgument));
        assert(width_of(p.directive, args, auto_rank(phs, k)) == Ok::<(nat, nat), crate::argument::Fault>(
            (
                match p.directive.width {
                    Some(Width::Literal(n)) => n as nat,
                    _ => 0,
                },
                auto_rank(phs, k),
            ),
        ));
        assert(width_of(q.directive, args, c) == Ok::<(nat, nat), crate::argument::Fault>(
            (
                match p.directive.width {
                    Some(Width::Literal(n)) => n as nat,
                    _ => 0,
                },
                c,
            ),
        ));
        assert(auto_rank(phs, k + 1) == auto_rank(phs, k) + if p.slot is Auto {
            1nat
        } else {
            0nat
        });
        lemma_numbered_from(s, phs, k + 1, p.last as int, c, args);
        match (fill(p, args, auto_rank(phs, k)), fill(q, args, c)) {
            (Ok((t1, c1)), Ok((t2, c2))) => {
                assert(t1 == t2);
                assert(c1 == auto_rank(phs, k + 1));
                assert(c2 == c);
            },
            (Err(f1), Err(f2)) => {
                assert(f1 == f2);
            },
            _ => {
                assert(false);
            },
        }
    }
}

/// With a list of arguments and no width taken from them, the `i`-th `Auto`
/// placeholder of a template takes argument `i - 1`: formatting gives what it
/// gives with each `Auto` position replaced by that index.
pub proof fn law_auto_order(d: Dialect, s: Seq<char>, args: Arguments)
    requires
        args is List,
        scan_from(d, s, 0) is Ok,
        fixed_widths(scan_from(d, s, 0)->Ok_0),
    ensures
        format_text(d, s, args) == assemble(s, numbered(scan_from(d, s, 0)->Ok_0), 0, 0, 0, args),
{
    lemma_numbered_from(s, scan_from(d, s, 0)->Ok_0, 0, 0, 0, args);
}

/// When the text of a value is at least as long as the width asked for, it
/// is not padded, whatever the conversion and flags.
pub proof fn law_width_no_op(d: Directive, v: Value, width: nat)
    requires
        base_text(d, v) is Ok,
        base_text(d, v)->Ok_0.len() >= width,
    ensures
        render(d, v, width) == base_text(d, v),
{
}

/// Explicit indices select the same arguments as positional order does:
/// `{1}{0}` with `[a, b]` gives what `{}{}` gives with `[b, a]`.
pub proof fn law_index_swap(a: Value, b: Value, ab: Arguments, ba: Arguments)
    requires
        ab matches Arguments::List(v) && v@ == seq![a, b],
        ba matches Arguments::List(w) && w@ == seq![b, a],
    ensures
        format_text(Dialect::Curly, seq!['{', '1', '}', '{', '0', '}'], ab) == format_text(
            Dialect::Curly,
            seq!['{', '}', '{', '}'],
            ba,
        ),
{
    let s1 = seq!['{', '1', '}', '{', '0', '}'];
    let s2 = seq!['{', '}', '{', '}'];
    let plain = Directive::plain_spec();
    // the explicit template
    assert(word_end(s1, 2) == 2);
    assert(word_end(s1, 1) == 2);
    assert(word_end(s1, 5) == 5);
    assert(word_end(s1, 4) == 5);
    let k1 = s1.subrange(1, 2);
    let k0 = s1.subrange(4, 5);
    assert(k1.drop_last() =~= Seq::<char>::empty());
    assert(k0.drop_last() =~= Seq::<char>::empty());
    assert(k1.last() == '1' && k0.last() == '0');
    assert(decimal_value(Seq::<char>::empty()) == 0);
    assert(decimal_value(k1) == 1);
    assert(decimal_value(k0) == 0);
    assert(slot_of_key(k1) == Slot::Index(1));
    assert(slot_of_key(k0) == Slot::Index(0));
    let one_at = Placeholder { first: 0, last: 3, slot: Slot::Index(1), directive: plain };
    let zero_at = Placeholder { first: 3, last: 6, slot: Slot::Index(0), directive: plain };
    assert(curly_at(s1, 0) == Some(one_at));
    assert(curly_at(s1, 3) == Some(zero_at));
    assert(curly_next(s1, 0) == Some(Ok::<Placeholder, crate::argument::Fault>(one_at)));
    assert(curly_next(s1, 3) == Some(Ok::<Placeholder, crate::argument::Fault>(zero_at)));
    assert(curly_next(s1, 6) is None);
    assert(scan_from(Dialect::Curly, s1, 6) == Ok::<Seq<Placeholder>, crate::argument::Fault>(Seq::empty()));
    assert(seq![zero_at] + Seq::<Placeholder>::empty() =~= seq![zero_at]);
    assert(scan_from(Dialect::Curly, s1, 3) == Ok::<Seq<Placeholder>, crate::argument::Fault>(seq![zero_at]));
    let phs1 = seq![one_at] + seq![zero_at];
    assert(scan_from(Dialect::Curly, s1, 0) == Ok::<Seq<Placeholder>, crate::argument::Fault>(phs1));
    // the positional template
    assert(word_end(s2, 1) == 1);
    assert(word_end(s2, 3) == 3);
    let auto_first = Placeholder { first: 0, last: 2, slot: Slot::Auto, directive: plain };
    let auto_second = Placeholder { first: 2, last: 4, slot: Slot::Auto, directive: plain };
    assert(curly_at(s2, 0) == Some(auto_first));
    assert(curly_at(s2, 2) == Some(auto_second));
    assert(curly_next(s2, 0) == Some(Ok::<Placeholder, crate::argument::Fault>(auto_first)));
    assert(curly_next(s2, 2) == Some(Ok::<Placeholder, crate::argument::Fault>(auto_second)));
    assert(curly_next(s2, 4) is None);
    assert(scan_from(Dialect::Curly, s2, 4) == Ok::<Seq<Placeholder>, crate::argument::Fault>(Seq::empty()));
    assert(seq![auto_second] + Seq::<Placeholder>::empty() =~= seq![auto_second]);
    assert(scan_from(Dialect::Curly, s2, 2) == Ok::<Seq<Placeholder>, crate::argument::Fault>(seq![auto_second]));
    let phs2 = seq![auto_first] + seq![auto_second];
    assert(scan_from(Dialect::Curly, s2, 0) == Ok::<Seq<Placeholder>, crate::argument::Fault>(phs2));
    // both render b, then a
    assert(pad(display(a), 0, false, false) == display(a));
    assert(pad(display(b), 0, false, false) == display(b));
    assert(resolve(Slot::Index(1), ab, 0) == Ok::<(Value, nat), crate::argument::Fault>((b, 0nat)));
    assert(resolve(Slot::Index(0), ab, 0) == Ok::<(Value, nat), crate::argument::Fault>((a, 0nat)));
    assert(resolve(Slot::Auto, ba, 0) == Ok::<(Value, nat), crate::argument::Fault>((b, 1nat)));
    assert(resolve(Slot::Auto, ba, 1) == Ok::<(Value, nat), crate::argument::Fault>((a, 2nat)));
    assert(fill(one_at, ab, 0) == Ok::<(Seq<char>, nat), crate::argument::Fault>((display(b), 0nat)));
    assert(fill(zero_at, ab, 0) == Ok::<(Seq<char>, nat), crate::argument::Fault>((display(a), 0nat)));
    assert(fill(auto_first, ba, 0) == Ok::<(Seq<char>, nat), crate::argument::Fault>((display(b), 1nat)));
    assert(fill(auto_second, ba, 1) == Ok::<(Seq<char>, nat), crate::argument::Fault>((display(a), 2nat)));
    assert(phs1[0] == one_at && phs1[1] == zero_at && phs1.len() == 2);
    assert(phs2[0] == auto_first && phs2[1] == auto_second && phs2.len() == 2);
    assert(s1.subrange(6, 6) =~= Seq::<char>::empty());
    assert(s1.subrange(3, 3) =~= Seq::<char>::empty());
    assert(s1.subrange(0, 0) =~= Seq::<char>::empty());
    assert(s2.subrange(4, 4) =~= Seq::<char>::empty());
    assert(s2.subrange(2, 2) =~= Seq::<char>::empty());
    assert(s2.subrange(0, 0) =~= Seq::<char>::empty());
    assert(assemble(s1, phs1, 2, 6, 0, ab) == Ok::<Seq<char>, crate::argument::Fault>(Seq::empty()));
    assert(assemble(s2, phs2, 2, 4, 2, ba) == Ok::<Seq<char>, crate::argument::Fault>(Seq::empty()));
    assert(assemble(s1, phs1, 1, 3, 0, ab) == Ok::<Seq<char>, crate::argument::Fault>(
        Seq::empty() + display(a) + Seq::empty(),
    ));
    assert(assemble(s2, phs2, 1, 2, 1, ba) == Ok::<Seq<char>, crate::argument::Fault>(
        Seq::empty() + display(a) + Seq::empty(),
    ));
}

proof fn lemma_no_open_brace(s: Seq<char>, i: int)
    requires
        0 <= i <= s.len(),
        forall|k: int| 0 <= k < s.len() ==> s[k] != '{',
    ensures
        curly_next(s, i) is None,
    decreases s.len() - i,
{
    if i < s.len() {
        lemma_no_open_brace(s, i + 1);
    }
}

/// A template without `{` holds no placeholder in the brace dialect, so the
/// scan finds nothing and formatting copies it whole, whatever the arguments.
pub proof fn law_curly_without_braces(s: Seq<char>, args: Arguments)
    requires
        forall|k: int| 0 <= k < s.len() ==> s[k] != '{',
    ensures
        curly_next(s, 0) is None,
        format_text(Dialect::Curly, s, args) == Ok::<Seq<char>, crate::argument::Fault>(s),
{
    lemma_no_open_brace(s, 0);
    law_pass_through(Dialect::Curly, s, args);
}

/// Every placeholder of the brace dialect renders the display text of the
/// argument it selects, exactly: it asks for no width, so nothing is padded
/// or cut, and it takes no argument beyond the one it selects.
pub proof fn law_curly_renders_display(s: Seq<char>, i: int, args: Arguments, cursor: nat)
    requires
        0 <= i <= s.len(),
        curly_next(s, i) is Some,
        curly_next(s, i)->Some_0 is Ok,
    ensures
        ({
            let p = curly_next(s, i)->Some_0->Ok_0;
            match resolve(p.slot, args, cursor) {
                Ok((v, c)) => fill(p, args, cursor) == Ok::<(Seq<char>, nat), crate::argument::Fault>(
                    (display(v), c),
                ),
                Err(f) => fill(p, args, cursor) == Err::<(Seq<char>, nat), crate::argument::Fault>(f),
            }
        }),
{
    lemma_curly_next(s, i);
}

} // verus!
