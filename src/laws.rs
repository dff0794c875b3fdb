//! Laws that relate several operations of `Vec` and `IntoIter`, stated over
//! the sequence views that their contracts use.
use crate::capacity_after_add;
use vstd::prelude::*;

verus! {

/// The view after pushing each value of `vals` in turn onto a sequence
/// whose view is `s`, as `Vec::push` states it.
pub open spec fn pushes<T>(s: Seq<T>, vals: Seq<T>) -> Seq<T>
    decreases vals.len(),
{
    if vals.len() == 0 {
        s
    } else {
        pushes(s, vals.drop_last()).push(vals.last())
    }
}

/// Pushing the values of `vals` onto an empty sequence gives a sequence
/// of `vals.len()` elements that reads back as `vals`, in insertion order.
pub proof fn lemma_pushes_in_order<T>(vals: Seq<T>)
    ensures
        pushes(Seq::<T>::empty(), vals).len() == vals.len(),
        forall|i: int| 0 <= i < vals.len() ==> #[trigger] pushes(Seq::<T>::empty(), vals)[i] == vals[i],
    decreases vals.len(),
{
    if vals.len() > 0 {
        lemma_pushes_in_order(vals.drop_last());
        assert(pushes(Seq::<T>::empty(), vals) =~= vals);
    }
}

/// A `pop` right after `push(v)` returns `v` and gives back the sequence
/// from before the push.
pub proof fn lemma_push_then_pop<T>(s: Seq<T>, v: T)
    ensures
        s.push(v).len() > 0,
        s.push(v).last() == v,
        s.push(v).drop_last() == s,
{
    assert(s.push(v).drop_last() =~= s);
}

/// A `remove(i)` right after `insert(i, v)` returns `v` and gives back the
/// sequence from before the insertion.
pub proof fn lemma_insert_then_remove<T>(s: Seq<T>, i: int, v: T)
    requires
        0 <= i <= s.len(),
    ensures
        s.insert(i, v)[i] == v,
        s.insert(i, v).remove(i) == s,
{
    assert(s.insert(i, v).remove(i) =~= s);
}

/// Consumes the sequence `s` step by step, from the front where `steps`
/// holds `true` and from the back where it holds `false`, as
/// `IntoIter::next` and `IntoIter::next_back` state it. Steps taken on an
/// exhausted sequence hand out nothing. The result holds what the front
/// steps handed out, what the back steps handed out (each in the order of
/// handing out), and what is left.
pub open spec fn drain<T>(s: Seq<T>, steps: Seq<bool>) -> (Seq<T>, Seq<T>, Seq<T>)
    decreases steps.len(),
{
    if steps.len() == 0 {
        (Seq::empty(), Seq::empty(), s)
    } else {
        let (front, back, rest) = drain(s, steps.drop_last());
        if rest.len() == 0 {
            (front, back, rest)
        } else if steps.last() {
            (front.push(rest[0]), back, rest.subrange(1, rest.len() as int))
        } else {
            (front, back.push(rest.last()), rest.drop_last())
        }
    }
}

/// Whatever the order of front and back steps, each element is handed out
/// once: what the front handed out, then what is left, then what the back
/// handed out read backwards, is the original sequence. Once there are at
/// least as many steps as elements, nothing is left.
pub proof fn lemma_drain_each_once<T>(s: Seq<T>, steps: Seq<bool>)
    ensures
        drain(s, steps).0 + drain(s, steps).2 + drain(s, steps).1.reverse() == s,
        drain(s, steps).0.len() + drain(s, steps).1.len() == if steps.len() <= s.len() {
            steps.len()
        } else {
            s.len()
        },
        steps.len() >= s.len() ==> drain(s, steps).2.len() == 0,
    decreases steps.len(),
{
    if steps.len() > 0 {
        lemma_drain_each_once(s, steps.drop_last());
        let (front, back, rest) = drain(s, steps.drop_last());
        if rest.len() > 0 {
            let (f2, b2, r2) = drain(s, steps);
            if steps.last() {
                assert(f2 + r2 =~= front + rest);
                assert(f2 + r2 + b2.reverse() =~= front + rest + back.reverse());
            } else {
                assert(b2.reverse() =~= seq![rest.last()] + back.reverse());
                assert(r2 + b2.reverse() =~= rest + back.reverse());
                assert(f2 + r2 + b2.reverse() =~= front + rest + back.reverse());
            }
        }
    }
}

/// Front steps alone hand out the whole sequence in its order.
pub proof fn lemma_drain_front_in_order<T>(s: Seq<T>, steps: Seq<bool>)
    requires
        steps.len() == s.len(),
        forall|i: int| 0 <= i < steps.len() ==> #[trigger] steps[i],
    ensures
        drain(s, steps).0 == s,
        drain(s, steps).1.len() == 0,
{
    lemma_drain_one_side(s, steps, true);
    lemma_drain_each_once(s, steps);
    assert(drain(s, steps).0 + drain(s, steps).2 + drain(s, steps).1.reverse() =~= drain(
        s,
        steps,
    ).0);
}

/// Back steps alone hand out the whole sequence in reverse order.
pub proof fn lemma_drain_back_reversed<T>(s: Seq<T>, steps: Seq<bool>)
    requires
        steps.len() == s.len(),
        forall|i: int| 0 <= i < steps.len() ==> !#[trigger] steps[i],
    ensures
        drain(s, steps).1 == s.reverse(),
        drain(s, steps).0.len() == 0,
{
    lemma_drain_one_side(s, steps, false);
    lemma_drain_each_once(s, steps);
    let b = drain(s, steps).1;
    assert(drain(s, steps).0 + drain(s, steps).2 + b.reverse() =~= b.reverse());
    assert(b.reverse().reverse() =~= b);
}

/// Steps all from one side hand out nothing from the other.
proof fn lemma_drain_one_side<T>(s: Seq<T>, steps: Seq<bool>, side: bool)
    requires
        forall|i: int| 0 <= i < steps.len() ==> #[trigger] steps[i] == side,
    ensures
        side ==> drain(s, steps).1.len() == 0,
        !side ==> drain(s, steps).0.len() == 0,
    decreases steps.len(),
{
    if steps.len() > 0 {
        assert(forall|i: int|
            0 <= i < steps.drop_last().len() ==> steps.drop_last()[i] == steps[i]);
        lemma_drain_one_side(s, steps.drop_last(), side);
        assert(steps.last() == steps[steps.len() - 1]);
    }
}

/// The capacity after `n` pushes onto a new, empty sequence, as `Vec::push`
/// states it.
pub open spec fn capacity_after_pushes(n: nat) -> nat
    decreases n,
{
    if n == 0 {
        0
    } else {
        capacity_after_add((n - 1) as nat, capacity_after_pushes((n - 1) as nat))
    }
}

/// Whether `c` is 1, 2, 4, 8, ...
pub open spec fn is_power_of_two(c: nat) -> bool
    decreases c,
{
    if c <= 1 {
        c == 1
    } else {
        c % 2 == 0 && is_power_of_two(c / 2)
    }
}

/// Growth doubles: after `n > 0` pushes onto a new sequence the capacity is
/// the least power of two that is at least `n` (1, 2, 4, 4, 8, ...).
pub proof fn lemma_capacity_doubles(n: nat)
    ensures
        n == 0 ==> capacity_after_pushes(n) == 0,
        n > 0 ==> is_power_of_two(capacity_after_pushes(n)),
        n <= capacity_after_pushes(n),
        n > 0 ==> capacity_after_pushes(n) < 2 * n,
    decreases n,
{
    if n > 0 {
        let m = (n - 1) as nat;
        lemma_capacity_doubles(m);
        let c = capacity_after_pushes(m);
        if m == c && c > 0 {
            assert((2 * c) / 2 == c);
            assert(is_power_of_two(2 * c));
        }
    }
}

} // verus!
