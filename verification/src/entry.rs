//! Lists of observers in the order in which they are run.
//!
//! Less means more: an observer whose number, its `priority`, is smaller is run
//! earlier, and observers with the same number are run in the order in which
//! they came.
use vstd::prelude::*;

verus! {

/// An observer with its place in the order.
pub struct Entry<T> {
    pub priority: u32,
    pub observer: T,
}

/// The entries stand in the order of their numbers.
pub open spec fn ordered<T>(entries: Seq<Entry<T>>) -> bool {
    forall|i: int, j: int|
        0 <= i <= j < entries.len() ==> entries[i].priority <= entries[j].priority
}

/// How many entries go before one that comes now with the given number.
pub open spec fn slot<T>(entries: Seq<Entry<T>>, priority: u32) -> nat
    decreases entries.len(),
{
    if entries.len() == 0 {
        0
    } else {
        slot(entries.drop_last(), priority) + (if entries.last().priority <= priority {
            1nat
        } else {
            0nat
        })
    }
}

/// The entries once another one has found its place among them.
pub open spec fn enlisted<T>(entries: Seq<Entry<T>>, entry: Entry<T>) -> Seq<Entry<T>> {
    entries.insert(slot(entries, entry.priority) as int, entry)
}

/// The entries once all of `arrivals` have come, one after the other.
pub open spec fn enlisted_all<T>(arrivals: Seq<Entry<T>>) -> Seq<Entry<T>>
    decreases arrivals.len(),
{
    if arrivals.len() == 0 {
        Seq::empty()
    } else {
        enlisted(enlisted_all(arrivals.drop_last()), arrivals.last())
    }
}

/// The entries with the given number, in the order in which they stand.
pub open spec fn with_priority<T>(entries: Seq<Entry<T>>, priority: u32) -> Seq<Entry<T>> {
    entries.filter(|e: Entry<T>| e.priority == priority)
}

/// Puts an observer in its place.
pub fn enlist<T>(entries: &mut Vec<Entry<T>>, priority: u32, observer: T)
    requires
        ordered(old(entries)@),
    ensures
        final(entries)@ == enlisted(old(entries)@, Entry { priority, observer }),
        ordered(final(entries)@),
{
    let mut place: usize = 0;
    while place < entries.len() && entries[place].priority <= priority
        invariant
            place <= entries.len(),
            forall|i: int| 0 <= i < place ==> entries@[i].priority <= priority,
        decreases entries.len() - place,
    {
        place = place + 1;
    }
    let entry = Entry { priority, observer };
    proof {
        lemma_slot_splits(entries@, priority);
        let k = slot(entries@, priority) as int;
        if place < k {
            assert(entries@[place as int].priority <= priority);
        }
        if k < place {
            assert(entries@[k].priority > priority);
        }
        law_enlisted_ordered(entries@, entry);
    }
    entries.insert(place, entry);
}

/// In an ordered list, the slot parts the numbers that are not greater from
/// those that are.
pub proof fn lemma_slot_splits<T>(entries: Seq<Entry<T>>, priority: u32)
    requires
        ordered(entries),
    ensures
        slot(entries, priority) <= entries.len(),
        forall|i: int| 0 <= i < slot(entries, priority) ==> entries[i].priority <= priority,
        forall|i: int|
            slot(entries, priority) <= i < entries.len() ==> entries[i].priority > priority,
    decreases entries.len(),
{
    if entries.len() > 0 {
        let rest = entries.drop_last();
        lemma_slot_splits(rest, priority);
        let k = slot(rest, priority) as int;
        assert(forall|i: int| 0 <= i < rest.len() ==> entries[i] == rest[i]);
        if entries.last().priority <= priority {
            if k < rest.len() {
                assert(rest[k].priority > priority);
                assert(entries[k].priority <= entries[entries.len() - 1].priority);
            }
        }
        assert forall|i: int| 0 <= i < slot(entries, priority) implies entries[i].priority
            <= priority by {
            if i < k {
                assert(rest[i].priority <= priority);
            }
        }
        assert forall|i: int|
            slot(entries, priority) <= i < entries.len() implies entries[i].priority > priority by {
            if i < rest.len() {
                assert(rest[i].priority > priority);
            }
        }
    }
}

/// Law: where the numbers of a list do not go down, a new entry goes in front of
/// those with a greater number and behind all the others. The rest of the list
/// stays as it is.
pub proof fn law_place<T>(entries: Seq<Entry<T>>, entry: Entry<T>, i: int)
    requires
        forall|a: int, b: int|
            0 <= a <= b < entries.len() ==> entries[a].priority <= entries[b].priority,
    ensures
        ({
            let after = enlisted(entries, entry);
            let n = entries.len();
            &&& after.len() == n + 1
            &&& 0 <= i < n && entries[i].priority <= entry.priority ==> after[i] == entries[i]
            &&& 0 <= i < n && entries[i].priority > entry.priority ==> after[i + 1] == entries[i]
            &&& {
                &&& 0 <= i <= n
                &&& i > 0 ==> entries[i - 1].priority <= entry.priority
                &&& i < n ==> entries[i].priority > entry.priority
            } ==> after[i] == entry
        }),
{
    lemma_slot_splits(entries, entry.priority);
    let k = slot(entries, entry.priority) as int;
    if i < k && 0 <= i {
        assert(entries[i].priority <= entry.priority);
    }
    if 0 < i && k < i <= entries.len() {
        assert(entries[i - 1].priority > entry.priority);
    }
}

/// Law: whoever came, and in whatever order, the numbers of the list do not go
/// down, and everyone who came stands in it once.
pub proof fn law_numbers_do_not_go_down<T>(arrivals: Seq<Entry<T>>, i: int, j: int)
    ensures
        enlisted_all(arrivals).len() == arrivals.len(),
        enlisted_all(arrivals).to_multiset() == arrivals.to_multiset(),
        0 <= i <= j < arrivals.len() ==> enlisted_all(arrivals)[i].priority <= enlisted_all(
            arrivals,
        )[j].priority,
{
    law_arrivals_sorted(arrivals, 0);
    broadcast use vstd::seq_lib::group_to_multiset_ensures;
    assert(enlisted_all(arrivals).to_multiset().len() == arrivals.to_multiset().len());
}

/// Law: of two arrivals with the same number, the one that came first stands
/// first: the later one is put right behind the last with its number.
pub proof fn law_later_stands_behind<T>(entries: Seq<Entry<T>>, first: Entry<T>, later: Entry<T>)
    requires
        forall|a: int, b: int|
            0 <= a <= b < entries.len() ==> entries[a].priority <= entries[b].priority,
        first.priority == later.priority,
    ensures
        exists|k: int|
            {
                &&& 0 <= k < enlisted(entries, first).len()
                &&& #[trigger] enlisted(enlisted(entries, first), later)[k] == first
                &&& enlisted(enlisted(entries, first), later)[k + 1] == later
            },
{
    law_equals_change_places(entries, first, later);
    lemma_slot_splits(entries, first.priority);
    let k = slot(entries, first.priority) as int;
    assert(enlisted(enlisted(entries, first), later)[k] == first);
}

/// Law: an ordered list stays ordered when an entry is put in its place.
pub proof fn law_enlisted_ordered<T>(entries: Seq<Entry<T>>, entry: Entry<T>)
    requires
        ordered(entries),
    ensures
        ordered(enlisted(entries, entry)),
{
    let k = slot(entries, entry.priority) as int;
    let result = enlisted(entries, entry);
    lemma_slot_splits(entries, entry.priority);
    assert forall|i: int, j: int| 0 <= i <= j < result.len() implies result[i].priority
        <= result[j].priority by {
        let a: int = if i < k { i } else { i - 1 };
        let b: int = if j < k { j } else { j - 1 };
        if i != k {
            assert(result[i] == entries[a]);
        }
        if j != k {
            assert(result[j] == entries[b]);
        }
    }
}

/// Law: nothing is lost and nothing is made up when an entry is put in its
/// place.
pub proof fn law_enlisted_keeps<T>(entries: Seq<Entry<T>>, entry: Entry<T>)
    requires
        ordered(entries),
    ensures
        enlisted(entries, entry).to_multiset() == entries.push(entry).to_multiset(),
        enlisted(entries, entry).len() == entries.len() + 1,
{
    let k = slot(entries, entry.priority) as int;
    lemma_slot_splits(entries, entry.priority);
    broadcast use vstd::seq_lib::group_to_multiset_ensures;
}

/// Law: an entry goes behind the earlier ones with its number, and no two
/// earlier ones change places.
pub proof fn law_enlisted_stable<T>(entries: Seq<Entry<T>>, entry: Entry<T>, priority: u32)
    requires
        ordered(entries),
    ensures
        with_priority(enlisted(entries, entry), priority) == with_priority(
            entries.push(entry),
            priority,
        ),
        enlisted(entries, entry).remove(slot(entries, entry.priority) as int) == entries,
{
    let k = slot(entries, entry.priority) as int;
    let pred = |e: Entry<T>| e.priority == priority;
    lemma_slot_splits(entries, entry.priority);
    let front = entries.take(k);
    let back = entries.skip(k);
    let result = enlisted(entries, entry);
    assert(entries == front + back);
    assert(result == front.push(entry) + back);
    assert(result.remove(k) == entries);
    Seq::filter_distributes_over_add(front, back, pred);
    Seq::filter_distributes_over_add(front.push(entry), back, pred);
    front.lemma_filter_push(entry, pred);
    entries.lemma_filter_push(entry, pred);
    if entry.priority == priority {
        assert forall|i: int| 0 <= i < back.len() implies !pred(#[trigger] back[i]) by {
            assert(back[i] == entries[k + i]);
        }
        back.lemma_all_neg_filter_empty(pred);
        assert(back.filter(pred) == Seq::<Entry<T>>::empty());
        assert(front.filter(pred) + back.filter(pred) == front.filter(pred));
        assert(front.push(entry).filter(pred) + back.filter(pred) == front.filter(pred).push(
            entry,
        ));
    }
}

/// Law: whatever the order of arrival, the list is what a stable sort of the
/// arrivals gives: ordered, with the same entries, and with the entries of any
/// one number in the order in which they came.
pub proof fn law_arrivals_sorted<T>(arrivals: Seq<Entry<T>>, priority: u32)
    ensures
        ordered(enlisted_all(arrivals)),
        enlisted_all(arrivals).to_multiset() == arrivals.to_multiset(),
        with_priority(enlisted_all(arrivals), priority) == with_priority(arrivals, priority),
    decreases arrivals.len(),
{
    if arrivals.len() == 0 {
        assert(arrivals == Seq::<Entry<T>>::empty());
    } else {
        let rest = arrivals.drop_last();
        let last = arrivals.last();
        let pred = |e: Entry<T>| e.priority == priority;
        law_arrivals_sorted(rest, priority);
        let before = enlisted_all(rest);
        law_enlisted_ordered(before, last);
        law_enlisted_keeps(before, last);
        law_enlisted_stable(before, last, priority);
        assert(arrivals == rest.push(last));
        before.lemma_filter_push(last, pred);
        rest.lemma_filter_push(last, pred);
        broadcast use vstd::seq_lib::group_to_multiset_ensures;
    }
}

/// Law: the order is settled. Two ordered lists that agree, number by number,
/// on the entries with that number are the same list.
pub proof fn law_order_settled<T>(a: Seq<Entry<T>>, b: Seq<Entry<T>>)
    requires
        ordered(a),
        ordered(b),
        forall|priority: u32| with_priority(a, priority) == #[trigger] with_priority(b, priority),
    ensures
        a == b,
    decreases a.len(),
{
    if a.len() == 0 {
        if b.len() > 0 {
            lemma_last_with_priority(b);
            assert(with_priority(a, b.last().priority) == with_priority(b, b.last().priority));
            assert(with_priority(a, b.last().priority).len() == 0) by {
                reveal_with_fuel(Seq::filter, 1);
            }
        }
        assert(a == b);
    } else {
        let p = a.last().priority;
        lemma_last_with_priority(a);
        assert(with_priority(a, p) == with_priority(b, p));
        if b.len() == 0 {
            assert(with_priority(b, p).len() == 0);
        }
        lemma_last_with_priority(b);
        let q = b.last().priority;
        assert(with_priority(a, q) == with_priority(b, q));
        lemma_with_priority_bounded(a, q);
        lemma_with_priority_bounded(b, p);
        assert(p == q);
        assert(a.last() == b.last());
        let a0 = a.drop_last();
        let b0 = b.drop_last();
        assert forall|priority: u32|
            with_priority(a0, priority) == #[trigger] with_priority(b0, priority) by {
            let pred = |e: Entry<T>| e.priority == priority;
            assert(a == a0.push(a.last()));
            assert(b == b0.push(b.last()));
            a0.lemma_filter_push(a.last(), pred);
            b0.lemma_filter_push(b.last(), pred);
            assert(with_priority(a, priority) == with_priority(b, priority));
            if priority == p {
                assert(with_priority(a0, priority) == with_priority(a, priority).drop_last());
                assert(with_priority(b0, priority) == with_priority(b, priority).drop_last());
            }
        }
        law_order_settled(a0, b0);
        assert(a == a0.push(a.last()));
        assert(b == b0.push(b.last()));
    }
}

/// Law: who came first matters among equals only. Two entries with different
/// numbers may change places in the order of arrival.
pub proof fn law_unequals_commute<T>(entries: Seq<Entry<T>>, a: Entry<T>, b: Entry<T>)
    requires
        ordered(entries),
        a.priority != b.priority,
    ensures
        enlisted(enlisted(entries, a), b) == enlisted(enlisted(entries, b), a),
{
    let ea = enlisted(entries, a);
    let eb = enlisted(entries, b);
    law_enlisted_ordered(entries, a);
    law_enlisted_ordered(entries, b);
    law_enlisted_ordered(ea, b);
    law_enlisted_ordered(eb, a);
    assert forall|priority: u32|
        with_priority(enlisted(ea, b), priority) == #[trigger] with_priority(
            enlisted(eb, a),
            priority,
        ) by {
        let pred = |e: Entry<T>| e.priority == priority;
        law_enlisted_stable(entries, a, priority);
        law_enlisted_stable(entries, b, priority);
        law_enlisted_stable(ea, b, priority);
        law_enlisted_stable(eb, a, priority);
        entries.lemma_filter_push(a, pred);
        entries.lemma_filter_push(b, pred);
        ea.lemma_filter_push(b, pred);
        eb.lemma_filter_push(a, pred);
    }
    law_order_settled(enlisted(ea, b), enlisted(eb, a));
}

/// Law: among equals, who came first stands first. Two entries with the same
/// number that arrive one after the other stand side by side, and when they
/// change places in the order of arrival, they change places in the list and
/// nothing else changes.
pub proof fn law_equals_change_places<T>(entries: Seq<Entry<T>>, a: Entry<T>, b: Entry<T>)
    requires
        ordered(entries),
        a.priority == b.priority,
    ensures
        ({
            let k = slot(entries, a.priority) as int;
            let a_first = enlisted(enlisted(entries, a), b);
            let b_first = enlisted(enlisted(entries, b), a);
            &&& a_first == entries.insert(k, a).insert(k + 1, b)
            &&& b_first == a_first.update(k, b).update(k + 1, a)
        }),
{
    lemma_slot_behind_equal(entries, a);
    lemma_slot_behind_equal(entries, b);
    lemma_slot_splits(entries, a.priority);
    let k = slot(entries, a.priority) as int;
    assert(entries.insert(k, b).insert(k + 1, a) == entries.insert(k, a).insert(k + 1, b).update(
        k,
        b,
    ).update(k + 1, a));
}

/// Once an entry has come, the next one with its number goes behind it.
proof fn lemma_slot_behind_equal<T>(entries: Seq<Entry<T>>, entry: Entry<T>)
    requires
        ordered(entries),
    ensures
        slot(enlisted(entries, entry), entry.priority) == slot(entries, entry.priority) + 1,
{
    let p = entry.priority;
    let after = enlisted(entries, entry);
    let k = slot(entries, p) as int;
    let m = slot(after, p) as int;
    lemma_slot_splits(entries, p);
    law_enlisted_ordered(entries, entry);
    lemma_slot_splits(after, p);
    if m < k + 1 {
        assert(after[m].priority > p);
        if m < k {
            assert(after[m] == entries[m]);
        }
    }
    if m > k + 1 {
        assert(after[k + 1].priority <= p);
        assert(after[k + 1] == entries[k]);
    }
}

/// The last entry is the last one with its number.
proof fn lemma_last_with_priority<T>(entries: Seq<Entry<T>>)
    requires
        entries.len() > 0,
    ensures
        with_priority(entries, entries.last().priority).len() > 0,
        with_priority(entries, entries.last().priority).last() == entries.last(),
{
    let last = entries.last();
    let pred = |e: Entry<T>| e.priority == last.priority;
    assert(entries == entries.drop_last().push(last));
    entries.drop_last().lemma_filter_push(last, pred);
}

/// A number that occurs in an ordered list is not greater than the last one.
proof fn lemma_with_priority_bounded<T>(entries: Seq<Entry<T>>, priority: u32)
    requires
        entries.len() > 0,
        ordered(entries),
        with_priority(entries, priority).len() > 0,
    ensures
        priority <= entries.last().priority,
{
    let pred = |e: Entry<T>| e.priority == priority;
    if priority > entries.last().priority {
        assert forall|i: int| 0 <= i < entries.len() implies !pred(#[trigger] entries[i]) by {
            assert(entries[i].priority <= entries[entries.len() - 1].priority);
        }
        entries.lemma_all_neg_filter_empty(pred);
    }
}

} // verus!
