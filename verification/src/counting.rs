//! Counting the marked positions of a sequence of flags.

use vstd::prelude::*;

verus! {

/// The number of positions of `s` that hold `true`.
pub open spec fn count(s: Seq<bool>) -> nat
    decreases s.len(),
{
    if s.len() == 0 {
        0
    } else {
        count(s.drop_last()) + if s.last() { 1nat } else { 0nat }
    }
}

/// A count never exceeds the length.
pub proof fn lemma_count_bound(s: Seq<bool>)
    ensures
        count(s) <= s.len(),
    decreases s.len(),
{
    if s.len() > 0 {
        lemma_count_bound(s.drop_last());
    }
}

/// Where every mark of `s` is also a mark of `t`, `s` counts at most what `t`
/// counts.
pub proof fn lemma_count_monotone(s: Seq<bool>, t: Seq<bool>)
    requires
        s.len() == t.len(),
        forall|i: int| 0 <= i < s.len() && #[trigger] s[i] ==> t[i],
    ensures
        count(s) <= count(t),
    decreases s.len(),
{
    if s.len() > 0 {
        lemma_count_monotone(s.drop_last(), t.drop_last());
    }
}

/// Where every mark of `s` is also a mark of `t` and `t` has a mark that `s`
/// lacks, `s` counts strictly less.
pub proof fn lemma_count_strict(s: Seq<bool>, t: Seq<bool>, witness: int)
    requires
        s.len() == t.len(),
        forall|i: int| 0 <= i < s.len() && #[trigger] s[i] ==> t[i],
        0 <= witness < s.len(),
        t[witness],
        !s[witness],
    ensures
        count(s) < count(t),
    decreases s.len(),
{
    if witness == s.len() - 1 {
        lemma_count_monotone(s.drop_last(), t.drop_last());
    } else {
        lemma_count_strict(s.drop_last(), t.drop_last(), witness);
    }
}

/// Setting a mark at a position that had none raises the count by one.
pub proof fn lemma_count_set(s: Seq<bool>, at: int)
    requires
        0 <= at < s.len(),
        !s[at],
    ensures
        count(s.update(at, true)) == count(s) + 1,
    decreases s.len(),
{
    let t = s.update(at, true);
    if at == s.len() - 1 {
        assert(t.drop_last() =~= s.drop_last());
    } else {
        lemma_count_set(s.drop_last(), at);
        assert(t.drop_last() =~= s.drop_last().update(at, true));
    }
}

/// Appending a flag adds it to the count.
pub proof fn lemma_count_push(s: Seq<bool>, flag: bool)
    ensures
        count(s.push(flag)) == count(s) + if flag { 1nat } else { 0nat },
{
    assert(s.push(flag).drop_last() =~= s);
}

/// The marked positions of `s`, in ascending order.
pub open spec fn marked(s: Seq<bool>) -> Seq<int>
    decreases s.len(),
{
    if s.len() == 0 {
        Seq::empty()
    } else if s.last() {
        marked(s.drop_last()).push(s.len() - 1)
    } else {
        marked(s.drop_last())
    }
}

/// Appending a flag appends its position to the marked positions, if it is
/// set.
pub proof fn lemma_marked_push(s: Seq<bool>, flag: bool)
    ensures
        marked(s.push(flag)) == if flag {
            marked(s).push(s.len() as int)
        } else {
            marked(s)
        },
{
    assert(s.push(flag).drop_last() =~= s);
}

/// The marked positions are exactly the positions that hold `true`, each
/// listed once, in strictly ascending order.
pub proof fn lemma_marked_exact(s: Seq<bool>)
    ensures
        marked(s).len() == count(s),
        forall|j: int| 0 <= j < marked(s).len() ==> 0 <= #[trigger] marked(s)[j] < s.len() && s[marked(s)[j]],
        forall|j: int, k: int| 0 <= j < k < marked(s).len() ==> marked(s)[j] < marked(s)[k],
        forall|i: int| 0 <= i < s.len() && #[trigger] s[i] ==> marked(s).contains(i),
    decreases s.len(),
{
    if s.len() > 0 {
        let front = s.drop_last();
        lemma_marked_exact(front);
        let m = marked(s);
        assert forall|i: int| 0 <= i < s.len() && #[trigger] s[i] implies m.contains(i) by {
            if i < s.len() - 1 {
                assert(front[i]);
                let j = choose|j: int| 0 <= j < marked(front).len() && marked(front)[j] == i;
                assert(m[j] == i);
            } else {
                assert(m[m.len() - 1] == i);
            }
        }
    }
}

/// The items of `items` at the marked positions of `flags`, in order.
pub open spec fn select<T>(items: Seq<T>, flags: Seq<bool>) -> Seq<T>
    decreases flags.len(),
{
    if flags.len() == 0 {
        Seq::empty()
    } else if flags.last() {
        select(items, flags.drop_last()).push(items[flags.len() - 1])
    } else {
        select(items, flags.drop_last())
    }
}

/// Appending a flag appends the item at its position to the selection, if it
/// is set.
pub proof fn lemma_select_push<T>(items: Seq<T>, flags: Seq<bool>, flag: bool)
    ensures
        select(items, flags.push(flag)) == if flag {
            select(items, flags).push(items[flags.len() as int])
        } else {
            select(items, flags)
        },
{
    assert(flags.push(flag).drop_last() =~= flags);
}

/// The selection lists the items at the marked positions.
pub proof fn lemma_select_marked<T>(items: Seq<T>, flags: Seq<bool>)
    requires
        flags.len() <= items.len(),
    ensures
        select(items, flags).len() == marked(flags).len(),
        forall|j: int| 0 <= j < marked(flags).len() ==> #[trigger] select(items, flags)[j] == items[marked(flags)[j]],
    decreases flags.len(),
{
    if flags.len() > 0 {
        lemma_select_marked(items, flags.drop_last());
    }
}

/// A vector of `n` flags, none of them set.
pub fn cleared(n: usize) -> (flags: Vec<bool>)
    ensures
        flags@.len() == n,
        forall|i: int| 0 <= i < n ==> !#[trigger] flags@[i],
{
    let mut flags: Vec<bool> = Vec::new();
    let mut i: usize = 0;
    while i < n
        invariant
            i <= n,
            flags@.len() == i,
            forall|j: int| 0 <= j < i ==> !#[trigger] flags@[j],
        decreases n - i,
    {
        flags.push(false);
        i += 1;
    }
    flags
}

} // verus!
