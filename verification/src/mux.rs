//! A model of the event multiplexer: two producers feed one consumer through
//! a shared channel. Which producer's event arrives next is decided by an
//! arbitrary schedule, but the events of each producer reach the consumer in
//! that producer's own emission order, and a producer whose source has ended
//! contributes nothing further while the other's events keep flowing.

use vstd::prelude::*;
use crate::events::InputEvent;

verus! {

/// The consumer-visible stream for one schedule: at every slot the scheduled
/// producer (`true` is the first, `false` the second) delivers its next
/// pending event, tagged with its origin; a scheduled producer with nothing
/// left delivers nothing.
pub open spec fn merged(
    sched: Seq<bool>,
    a: Seq<InputEvent>,
    b: Seq<InputEvent>,
) -> Seq<(bool, InputEvent)>
    decreases sched.len(),
{
    if sched.len() == 0 {
        Seq::<(bool, InputEvent)>::empty()
    } else if sched[0] {
        if a.len() > 0 {
            seq![(true, a[0])] + merged(sched.skip(1), a.skip(1), b)
        } else {
            merged(sched.skip(1), a, b)
        }
    } else {
        if b.len() > 0 {
            seq![(false, b[0])] + merged(sched.skip(1), a, b.skip(1))
        } else {
            merged(sched.skip(1), a, b)
        }
    }
}

/// The events of one producer, in the order the consumer sees them.
pub open spec fn project(out: Seq<(bool, InputEvent)>, first: bool) -> Seq<InputEvent>
    decreases out.len(),
{
    if out.len() == 0 {
        Seq::<InputEvent>::empty()
    } else if out[0].0 == first {
        seq![out[0].1] + project(out.skip(1), first)
    } else {
        project(out.skip(1), first)
    }
}

/// How many slots of `sched` hand the turn to the first producer (`true`) or
/// the second (`false`).
pub open spec fn turn_count(sched: Seq<bool>, first: bool) -> nat
    decreases sched.len(),
{
    if sched.len() == 0 {
        0
    } else {
        (if sched[0] == first {
            1nat
        } else {
            0nat
        }) + turn_count(sched.skip(1), first)
    }
}

/// Order-preservation law of the multiplexer: under every schedule that
/// offers each producer enough turns, the consumer sees exactly the first
/// producer's events, in their emission order, and exactly the second's, in
/// their emission order — the interleaving reorders nothing, drops nothing
/// and invents nothing.
pub proof fn lemma_merge_preserves_order(sched: Seq<bool>, a: Seq<InputEvent>, b: Seq<InputEvent>)
    requires
        turn_count(sched, true) >= a.len(),
        turn_count(sched, false) >= b.len(),
    ensures
        project(merged(sched, a, b), true) == a,
        project(merged(sched, a, b), false) == b,
    decreases sched.len(),
{
    reveal_with_fuel(merged, 2);
    reveal_with_fuel(project, 2);
    reveal_with_fuel(turn_count, 2);
    if sched.len() == 0 {
        assert(a =~= Seq::<InputEvent>::empty());
        assert(b =~= Seq::<InputEvent>::empty());
    } else if sched[0] {
        if a.len() > 0 {
            lemma_merge_preserves_order(sched.skip(1), a.skip(1), b);
            let rest = merged(sched.skip(1), a.skip(1), b);
            assert((seq![(true, a[0])] + rest).skip(1) =~= rest);
            assert(project(merged(sched, a, b), true) == seq![a[0]] + a.skip(1));
            assert(seq![a[0]] + a.skip(1) =~= a);
        } else {
            lemma_merge_preserves_order(sched.skip(1), a, b);
            assert(a =~= Seq::<InputEvent>::empty());
        }
    } else {
        if b.len() > 0 {
            lemma_merge_preserves_order(sched.skip(1), a, b.skip(1));
            let rest = merged(sched.skip(1), a, b.skip(1));
            assert((seq![(false, b[0])] + rest).skip(1) =~= rest);
            assert(project(merged(sched, a, b), false) == seq![b[0]] + b.skip(1));
            assert(seq![b[0]] + b.skip(1) =~= b);
        } else {
            lemma_merge_preserves_order(sched.skip(1), a, b);
            assert(b =~= Seq::<InputEvent>::empty());
        }
    }
}

/// Order-consistency under every schedule whatsoever, even one that stops
/// early or wastes turns: what the consumer sees of each producer is a
/// prefix of that producer's emission sequence — the multiplexer can cut a
/// stream short, but it never reorders, duplicates or invents events.
pub proof fn lemma_merge_is_order_consistent(
    sched: Seq<bool>,
    a: Seq<InputEvent>,
    b: Seq<InputEvent>,
)
    ensures
        project(merged(sched, a, b), true).is_prefix_of(a),
        project(merged(sched, a, b), false).is_prefix_of(b),
    decreases sched.len(),
{
    reveal_with_fuel(merged, 2);
    reveal_with_fuel(project, 2);
    if sched.len() == 0 {
    } else if sched[0] {
        if a.len() > 0 {
            lemma_merge_is_order_consistent(sched.skip(1), a.skip(1), b);
            let rest = merged(sched.skip(1), a.skip(1), b);
            assert((seq![(true, a[0])] + rest).skip(1) =~= rest);
            let p = project(rest, true);
            assert(seq![a[0]] + p =~= a.subrange(0, p.len() as int + 1)) by {
                assert forall|j: int| 0 <= j < p.len() + 1 implies (seq![a[0]] + p)[j]
                    == a.subrange(0, p.len() as int + 1)[j] by {
                    if j > 0 {
                        assert(p[j - 1] == a.skip(1).subrange(0, p.len() as int)[j - 1]);
                    }
                }
            }
            assert(project(merged(sched, a, b), false) == project(rest, false));
        } else {
            lemma_merge_is_order_consistent(sched.skip(1), a, b);
        }
    } else {
        if b.len() > 0 {
            lemma_merge_is_order_consistent(sched.skip(1), a, b.skip(1));
            let rest = merged(sched.skip(1), a, b.skip(1));
            assert((seq![(false, b[0])] + rest).skip(1) =~= rest);
            let p = project(rest, false);
            assert(seq![b[0]] + p =~= b.subrange(0, p.len() as int + 1)) by {
                assert forall|j: int| 0 <= j < p.len() + 1 implies (seq![b[0]] + p)[j]
                    == b.subrange(0, p.len() as int + 1)[j] by {
                    if j > 0 {
                        assert(p[j - 1] == b.skip(1).subrange(0, p.len() as int)[j - 1]);
                    }
                }
            }
            assert(project(merged(sched, a, b), true) == project(rest, true));
        } else {
            lemma_merge_is_order_consistent(sched.skip(1), a, b);
        }
    }
}

/// Termination law of the multiplexer: once a producer's source has ended —
/// it has nothing left to emit — no event of that producer appears in the
/// stream from then on, under any schedule at all, while the other
/// producer's events continue, complete and in order, under every schedule
/// that offers it enough turns.
pub proof fn lemma_ended_source_is_silent(sched: Seq<bool>, b: Seq<InputEvent>)
    ensures
        project(merged(sched, Seq::<InputEvent>::empty(), b), true) == Seq::<InputEvent>::empty(),
        turn_count(sched, false) >= b.len() ==> project(
            merged(sched, Seq::<InputEvent>::empty(), b),
            false,
        ) == b,
{
    lemma_merge_is_order_consistent(sched, Seq::<InputEvent>::empty(), b);
    assert(project(merged(sched, Seq::<InputEvent>::empty(), b), true) =~= Seq::<
        InputEvent,
    >::empty());
    if turn_count(sched, false) >= b.len() {
        lemma_merge_preserves_order(sched, Seq::<InputEvent>::empty(), b);
    }
}

/// Drain two producers' emission sequences into one consumer stream under
/// the given schedule, tagging every delivered event with its producer, as
/// the shared channel does. A slot scheduled for a producer that has nothing
/// left delivers nothing.
pub fn merge_streams(
    sched: &Vec<bool>,
    a: &Vec<InputEvent>,
    b: &Vec<InputEvent>,
) -> (out: Vec<(bool, InputEvent)>)
    ensures
        out@ == merged(sched@, a@, b@),
{
    let mut out: Vec<(bool, InputEvent)> = Vec::new();
    let mut i: usize = 0;
    let mut ia: usize = 0;
    let mut ib: usize = 0;
    proof {
        assert(sched@.skip(0) =~= sched@);
        assert(a@.skip(0) =~= a@);
        assert(b@.skip(0) =~= b@);
        assert(out@ + merged(sched@, a@, b@) =~= merged(sched@, a@, b@));
    }
    while i < sched.len()
        invariant
            i <= sched.len(),
            ia <= a.len(),
            ib <= b.len(),
            merged(sched@, a@, b@) == out@ + merged(
                sched@.skip(i as int),
                a@.skip(ia as int),
                b@.skip(ib as int),
            ),
        decreases sched.len() - i,
    {
        proof {
            assert(sched@.skip(i as int).len() > 0);
            assert(sched@.skip(i as int)[0] == sched@[i as int]);
            assert(sched@.skip(i as int).skip(1) =~= sched@.skip(i as int + 1));
        }
        if sched[i] {
            if ia < a.len() {
                proof {
                    assert(a@.skip(ia as int)[0] == a@[ia as int]);
                    assert(a@.skip(ia as int).skip(1) =~= a@.skip(ia as int + 1));
                    let rest = merged(sched@.skip(i as int + 1), a@.skip(ia as int + 1), b@.skip(ib as int));
                    assert((out@ + seq![(true, a@[ia as int])]) + rest =~= out@ + (seq![
                        (true, a@[ia as int]),
                    ] + rest));
                }
                out.push((true, a[ia]));
                ia = ia + 1;
            }
        } else {
            if ib < b.len() {
                proof {
                    assert(b@.skip(ib as int)[0] == b@[ib as int]);
                    assert(b@.skip(ib as int).skip(1) =~= b@.skip(ib as int + 1));
                    let rest = merged(sched@.skip(i as int + 1), a@.skip(ia as int), b@.skip(ib as int + 1));
                    assert((out@ + seq![(false, b@[ib as int])]) + rest =~= out@ + (seq![
                        (false, b@[ib as int]),
                    ] + rest));
                }
                out.push((false, b[ib]));
                ib = ib + 1;
            }
        }
        i = i + 1;
    }
    proof {
        assert(sched@.skip(i as int) =~= Seq::<bool>::empty());
        assert(out@ + Seq::<(bool, InputEvent)>::empty() =~= out@);
    }
    out
}

} // verus!
