//! The order of the standings.

use crate::entry::{EntryView, StandingEntry};
use crate::entry;
use crate::float::Double;
use vstd::prelude::*;
use vstd::seq_lib::*;

verus! {

/// How one entry stands to another.
#[derive(Clone, Copy, Debug, PartialEq, Eq, Structural)]
pub enum Order {
    Before,
    Tied,
    After,
}

impl Order {
    /// This order, or the other where this one leaves a tie.
    pub open spec fn or(self, other: Order) -> Order {
        if self == Order::Tied {
            other
        } else {
            self
        }
    }

    /// This order, or the other where this one leaves a tie.
    fn or_else(self, other: Order) -> (order: Order)
        ensures
            order == self.or(other),
    {
        match self {
            Order::Tied => other,
            decided => decided,
        }
    }
}

/// Whether a session is a qualifying session.
pub open spec fn qualifying(session: i32) -> bool {
    5 <= session <= 8
}

/// Whether a session is a qualifying session.
pub fn is_qualifying(session: i32) -> (yes: bool)
    ensures
        yes == qualifying(session),
{
    5 <= session && session <= 8
}

/// The order of numbers, from small to large.
pub open spec fn ascending(a: int, b: int) -> Order {
    if a < b {
        Order::Before
    } else if a > b {
        Order::After
    } else {
        Order::Tied
    }
}

/// The order of lap times, with no time before any.
pub open spec fn by_time(a: Option<u64>, b: Option<u64>) -> Order {
    match (a, b) {
        (Some(a), Some(b)) => ascending(a as int, b as int),
        (None, Some(_)) => Order::Before,
        (Some(_), None) => Order::After,
        (None, None) => Order::Tied,
    }
}

/// The order of distances, from far to near; what is not a number ties with anything.
pub open spec fn by_distance(a: Double, b: Double) -> Order {
    if b.below(a) {
        Order::Before
    } else if a.below(b) {
        Order::After
    } else {
        Order::Tied
    }
}

/// The order of entries. Those with a position come first, by position. The others come
/// by best lap time in a qualifying session, else by laps and by distance in the lap;
/// in the end the number of the vehicle decides.
pub open spec fn ranked(a: EntryView, b: EntryView, session: i32) -> Order {
    if a.position > 0 && b.position > 0 {
        ascending(a.position as int, b.position as int)
    } else if a.position > 0 {
        Order::Before
    } else if b.position > 0 {
        Order::After
    } else if qualifying(session) {
        by_time(a.best_lap_ms, b.best_lap_ms).or(ascending(a.key.id as int, b.key.id as int))
    } else {
        ascending(b.laps as int, a.laps as int).or(by_distance(a.lap_distance, b.lap_distance)).or(
            ascending(a.key.id as int, b.key.id as int),
        )
    }
}

/// Compares two numbers.
fn compare(a: i64, b: i64) -> (order: Order)
    ensures
        order == ascending(a as int, b as int),
{
    if a < b {
        Order::Before
    } else if a > b {
        Order::After
    } else {
        Order::Tied
    }
}

/// Compares two lap times.
fn compare_times(a: Option<u64>, b: Option<u64>) -> (order: Order)
    ensures
        order == by_time(a, b),
{
    match (a, b) {
        (Some(a), Some(b)) => if a < b {
            Order::Before
        } else if a > b {
            Order::After
        } else {
            Order::Tied
        },
        (None, Some(_)) => Order::Before,
        (Some(_), None) => Order::After,
        (None, None) => Order::Tied,
    }
}

/// Compares two distances.
fn compare_distances(a: Double, b: Double) -> (order: Order)
    ensures
        order == by_distance(a, b),
{
    if b.less_than(a) {
        Order::Before
    } else if a.less_than(b) {
        Order::After
    } else {
        Order::Tied
    }
}

/// Compares two entries.
pub fn sort_entry(a: &StandingEntry, b: &StandingEntry, session: i32) -> (order: Order)
    ensures
        order == ranked(a@, b@, session),
{
    match (a.position > 0, b.position > 0) {
        (true, true) => return compare(a.position as i64, b.position as i64),
        (true, false) => return Order::Before,
        (false, true) => return Order::After,
        (false, false) => {},
    }
    let ids: Order = compare(a.key.id as i64, b.key.id as i64);
    if is_qualifying(session) {
        compare_times(a.best_lap_ms, b.best_lap_ms).or_else(ids)
    } else {
        compare(b.laps as i64, a.laps as i64).or_else(
            compare_distances(a.lap_distance, b.lap_distance),
        ).or_else(ids)
    }
}

/// The entries with one more put in, behind all but those that it comes before.
pub open spec fn put_in(sorted: Seq<EntryView>, new: EntryView, session: i32) -> Seq<EntryView>
    decreases sorted.len(),
{
    if sorted.len() > 0 && ranked(new, sorted.last(), session) == Order::Before {
        put_in(sorted.drop_last(), new, session).push(sorted.last())
    } else {
        sorted.push(new)
    }
}

/// The entries in order: each put in, in turn, among those that came before it. Where
/// some cannot be compared, what comes out depends on the order in which they came.
pub open spec fn in_order(entries: Seq<EntryView>, session: i32) -> Seq<EntryView>
    decreases entries.len(),
{
    if entries.len() == 0 {
        entries
    } else {
        put_in(in_order(entries.drop_last(), session), entries.last(), session)
    }
}

/// An entry is put in at the place behind which it comes before all.
proof fn lemma_put_in_place(sorted: Seq<EntryView>, new: EntryView, session: i32, place: int)
    requires
        0 <= place <= sorted.len(),
        forall|i: int|
            place <= i < sorted.len() ==> ranked(new, #[trigger] sorted[i], session)
                == Order::Before,
        place > 0 ==> ranked(new, sorted[place - 1], session) != Order::Before,
    ensures
        put_in(sorted, new, session) == sorted.insert(place, new),
    decreases sorted.len(),
{
    if sorted.len() > place {
        let rest = sorted.drop_last();
        assert(ranked(new, sorted[sorted.len() - 1], session) == Order::Before);
        assert forall|i: int| place <= i < rest.len() implies ranked(
            new,
            #[trigger] rest[i],
            session,
        ) == Order::Before by {
            assert(rest[i] == sorted[i]);
        }
        lemma_put_in_place(rest, new, session, place);
        assert(rest.insert(place, new).push(sorted.last()) =~= sorted.insert(place, new));
    } else {
        assert(sorted.push(new) =~= sorted.insert(place, new));
    }
}

/// Putting an entry in adds that entry and nothing else.
proof fn lemma_put_in_contents(sorted: Seq<EntryView>, new: EntryView, session: i32)
    ensures
        put_in(sorted, new, session).len() == sorted.len() + 1,
        put_in(sorted, new, session).to_multiset() == sorted.to_multiset().insert(new),
    decreases sorted.len(),
{
    broadcast use group_to_multiset_ensures;

    if sorted.len() > 0 && ranked(new, sorted.last(), session) == Order::Before {
        let rest = sorted.drop_last();
        lemma_put_in_contents(rest, new, session);
        assert(rest.push(sorted.last()) =~= sorted);
        assert(rest.to_multiset().insert(new).insert(sorted.last())
            =~= rest.to_multiset().insert(sorted.last()).insert(new));
    }
}

/// Puts the entries in order.
pub fn sort_entries(entries: &mut Vec<StandingEntry>, session: i32)
    ensures
        entry::values(final(entries)@) == in_order(entry::values(old(entries)@), session),
{
    let len: usize = entries.len();
    let ghost all = entries@;
    let mut i: usize = 0;
    assert(entry::values(all.take(0)) =~= seq![]);
    assert(entry::values(entries@.take(0)) =~= seq![]);
    while i < len
        invariant
            i <= len,
            len == all.len(),
            entries@.len() == len,
            all == old(entries)@,
            entry::values(entries@.take(i as int)) == in_order(
                entry::values(all.take(i as int)),
                session,
            ),
            entries@.skip(i as int) == all.skip(i as int),
        decreases len - i,
    {
        let ghost before = entries@;
        let ghost sorted = entry::values(before.take(i as int));
        let mut place: usize = i;
        assert(before[i as int] == before.skip(i as int)[0]);
        while place > 0 && sort_entry(&entries[i], &entries[place - 1], session) == Order::Before
            invariant
                place <= i < len,
                entries@ == before,
                before.len() == len,
                sorted == entry::values(before.take(i as int)),
                forall|k: int|
                    place <= k < i ==> ranked(before[i as int]@, #[trigger] sorted[k], session)
                        == Order::Before,
            decreases place,
        {
            place -= 1;
            assert(sorted[place as int] == before[place as int]@);
        }
        let moved: StandingEntry = entries.remove(i);
        entries.insert(place, moved);
        proof {
            if place > 0 {
                assert(sorted[place - 1] == before[place - 1]@);
            }
            lemma_put_in_place(sorted, moved@, session, place as int);
            let next = entry::values(all.take(i + 1));
            assert(next.drop_last() =~= entry::values(all.take(i as int)));
            assert(all[i as int] == all.skip(i as int)[0]);
            assert(next.last() == moved@);
            assert(entry::values(entries@.take(i + 1)) =~= sorted.insert(place as int, moved@));
            assert(entries@.skip(i + 1) =~= before.skip(i as int).skip(1));
            assert(all.skip(i + 1) =~= all.skip(i as int).skip(1));
        }
        i += 1;
    }
    assert(entries@.take(len as int) =~= entries@);
    assert(all.take(len as int) =~= all);
}

/// Whether an entry can be compared with others like it: outside qualifying, without a
/// position, its distance has to be a number.
pub open spec fn has_rank(entry: EntryView, session: i32) -> bool {
    qualifying(session) || entry.position > 0 || !entry.lap_distance.nan()
}

/// Whether each entry can be compared with the others.
pub open spec fn comparable(entries: Seq<EntryView>, session: i32) -> bool {
    forall|i: int| 0 <= i < entries.len() ==> has_rank(#[trigger] entries[i], session)
}

/// Any entry ties with itself, and the order of any two turns round with them. On entries
/// that can be compared it also goes on through a third: there it is a total one.
pub proof fn law_order_is_total(a: EntryView, b: EntryView, c: EntryView, session: i32)
    ensures
        ranked(a, a, session) == Order::Tied,
        ranked(a, b, session) == Order::Before <==> ranked(b, a, session) == Order::After,
        ranked(a, b, session) == Order::Tied <==> ranked(b, a, session) == Order::Tied,
        has_rank(a, session) && has_rank(b, session) && has_rank(c, session) && ranked(
            a,
            b,
            session,
        ) != Order::After && ranked(b, c, session) != Order::After ==> ranked(a, c, session)
            != Order::After,
        has_rank(a, session) && has_rank(b, session) && has_rank(c, session) && ranked(
            a,
            b,
            session,
        ) == Order::Tied && ranked(b, c, session) == Order::Tied ==> ranked(a, c, session)
            == Order::Tied,
{
}

/// Whether no entry comes after one that follows it.
pub open spec fn sorted(entries: Seq<EntryView>, session: i32) -> bool {
    forall|i: int, j: int|
        0 <= i < j < entries.len() ==> ranked(#[trigger] entries[i], #[trigger] entries[j], session)
            != Order::After
}

/// Whether an entry ties with `other`.
pub open spec fn ties_with(other: EntryView, session: i32) -> spec_fn(EntryView) -> bool {
    |entry: EntryView| ranked(entry, other, session) == Order::Tied
}

/// The place at which an entry is put in.
proof fn lemma_place(entries: Seq<EntryView>, new: EntryView, session: i32) -> (place: int)
    ensures
        0 <= place <= entries.len(),
        forall|i: int|
            place <= i < entries.len() ==> ranked(new, #[trigger] entries[i], session)
                == Order::Before,
        place > 0 ==> ranked(new, entries[place - 1], session) != Order::Before,
        put_in(entries, new, session) == entries.insert(place, new),
    decreases entries.len(),
{
    if entries.len() > 0 && ranked(new, entries.last(), session) == Order::Before {
        let rest = entries.drop_last();
        let place = lemma_place(rest, new, session);
        assert forall|i: int| place <= i < entries.len() implies ranked(
            new,
            #[trigger] entries[i],
            session,
        ) == Order::Before by {
            if i < rest.len() {
                assert(rest[i] == entries[i]);
            }
        }
        lemma_put_in_place(entries, new, session, place);
        place
    } else {
        lemma_put_in_place(entries, new, session, entries.len() as int);
        entries.len() as int
    }
}

/// What does not come after an entry that `new` does not come before, does not come after
/// `new`.
proof fn lemma_not_after(earlier: EntryView, at: EntryView, new: EntryView, session: i32)
    requires
        has_rank(earlier, session),
        has_rank(at, session),
        has_rank(new, session),
        ranked(earlier, at, session) != Order::After,
        ranked(new, at, session) != Order::Before,
    ensures
        ranked(earlier, new, session) != Order::After,
{
    law_order_is_total(earlier, at, new, session);
    law_order_is_total(at, new, earlier, session);
}

/// Putting an entry in keeps the order.
proof fn lemma_put_in_sorted(entries: Seq<EntryView>, new: EntryView, session: i32)
    requires
        sorted(entries, session),
        comparable(entries, session),
        has_rank(new, session),
    ensures
        sorted(put_in(entries, new, session), session),
{
    let place = lemma_place(entries, new, session);
    let result = entries.insert(place, new);
    assert forall|i: int, j: int| 0 <= i < j < result.len() implies ranked(
        #[trigger] result[i],
        #[trigger] result[j],
        session,
    ) != Order::After by {
        let p = if i < place {
            i
        } else {
            i - 1
        };
        let q = if j < place {
            j
        } else {
            j - 1
        };
        if i == place {
            assert(result[j] == entries[q]);
        } else if j == place {
            assert(result[i] == entries[p]);
            if p < place - 1 {
                assert(ranked(entries[p], entries[place - 1], session) != Order::After);
            } else {
                law_order_is_total(entries[p], entries[p], new, session);
            }
            lemma_not_after(entries[p], entries[place - 1], new, session);
        } else {
            assert(result[i] == entries[p] && result[j] == entries[q]);
        }
    }
}

/// Putting an entry in leaves those that tie with each other in the order in which they
/// came.
proof fn lemma_put_in_stable(
    entries: Seq<EntryView>,
    new: EntryView,
    session: i32,
    other: EntryView,
)
    requires
        comparable(entries, session),
        has_rank(new, session),
        has_rank(other, session),
    ensures
        put_in(entries, new, session).filter(ties_with(other, session)) == entries.push(new).filter(
            ties_with(other, session),
        ),
    decreases entries.len(),
{
    reveal(Seq::filter);
    let ties = ties_with(other, session);
    if entries.len() > 0 && ranked(new, entries.last(), session) == Order::Before {
        let rest = entries.drop_last();
        let last = entries.last();
        assert forall|i: int| 0 <= i < rest.len() implies has_rank(
            #[trigger] rest[i],
            session,
        ) by {
            assert(rest[i] == entries[i]);
        }
        assert(last == entries[entries.len() - 1]);
        lemma_put_in_stable(rest, new, session, other);
        let inner = put_in(rest, new, session);
        assert(inner.push(last).drop_last() =~= inner);
        assert(rest.push(new).drop_last() =~= rest);
        assert(entries.push(new).drop_last() =~= entries);
        law_order_is_total(new, other, last, session);
        law_order_is_total(last, other, new, session);
        law_order_is_total(other, last, new, session);
        law_order_is_total(new, last, other, session);
        assert(!(ties(new) && ties(last)));
        let kept = rest.filter(ties);
        assert(rest.push(new).filter(ties) == if ties(new) {
            kept.push(new)
        } else {
            kept
        });
        assert(entries.filter(ties) == if ties(last) {
            kept.push(last)
        } else {
            kept
        });
        assert(entries.push(new).filter(ties) == if ties(new) {
            entries.filter(ties).push(new)
        } else {
            entries.filter(ties)
        });
        assert(inner.push(last).filter(ties) == if ties(last) {
            inner.filter(ties).push(last)
        } else {
            inner.filter(ties)
        });
    }
}

/// Entries put in order are the same entries, sorted, with those that tie in the order in
/// which they came.
pub proof fn law_in_order(entries: Seq<EntryView>, session: i32, other: EntryView)
    ensures
        in_order(entries, session).len() == entries.len(),
        in_order(entries, session).to_multiset() == entries.to_multiset(),
        comparable(entries, session) ==> sorted(in_order(entries, session), session),
        comparable(entries, session) && has_rank(other, session) ==> in_order(
            entries,
            session,
        ).filter(ties_with(other, session)) == entries.filter(ties_with(other, session)),
    decreases entries.len(),
{
    broadcast use group_to_multiset_ensures;

    if entries.len() > 0 {
        let rest = entries.drop_last();
        let last = entries.last();
        law_in_order(rest, session, other);
        let inner = in_order(rest, session);
        lemma_put_in_contents(inner, last, session);
        assert(rest.push(last) =~= entries);
        if comparable(entries, session) {
            assert(last == entries[entries.len() - 1]);
            assert forall|i: int| 0 <= i < rest.len() implies has_rank(
                #[trigger] rest[i],
                session,
            ) by {
                assert(rest[i] == entries[i]);
            }
            assert forall|i: int| 0 <= i < inner.len() implies has_rank(
                #[trigger] inner[i],
                session,
            ) by {
                assert(inner.to_multiset().contains(inner[i]));
                assert(rest.contains(inner[i]));
            }
            lemma_put_in_sorted(inner, last, session);
            if has_rank(other, session) {
                lemma_put_in_stable(inner, last, session, other);
                reveal(Seq::filter);
                assert(inner.push(last).drop_last() =~= inner);
            }
        }
    }
}

/// There is one such order: two sequences of the same entries, both sorted and with those
/// that tie in the same order, are equal.
pub proof fn law_order_is_determined(a: Seq<EntryView>, b: Seq<EntryView>, session: i32)
    requires
        comparable(a, session),
        sorted(a, session),
        sorted(b, session),
        a.to_multiset() == b.to_multiset(),
        forall|other: EntryView|
            has_rank(other, session) ==> a.filter(#[trigger] ties_with(other, session)) == b.filter(
                ties_with(other, session),
            ),
    ensures
        a == b,
    decreases a.len(),
{
    broadcast use group_to_multiset_ensures;

    a.to_multiset_ensures();
    b.to_multiset_ensures();
    if a.len() == 0 {
        assert(a =~= b);
    } else {
        let (first, second) = (a.last(), b.last());
        let (front, rear) = (a.drop_last(), b.drop_last());
        assert(front.push(first) =~= a);
        assert(rear.push(second) =~= b);
        assert(a.to_multiset().contains(first));
        assert(b.contains(first));
        assert(b.to_multiset().contains(second));
        assert(a.contains(second));
        let i = choose|i: int| 0 <= i < b.len() && b[i] == first;
        let j = choose|j: int| 0 <= j < a.len() && a[j] == second;
        assert(a[a.len() - 1] == first && b[b.len() - 1] == second);
        law_order_is_total(first, second, first, session);
        law_order_is_total(second, first, second, session);
        assert(ranked(b[i], b[b.len() - 1], session) != Order::After);
        assert(ranked(a[j], a[a.len() - 1], session) != Order::After);
        reveal(Seq::filter);
        let ties = ties_with(first, session);
        assert(a.filter(ties) == front.filter(ties).push(first));
        assert(b.filter(ties) == rear.filter(ties).push(second));
        assert(a.filter(ties).last() == b.filter(ties).last());
        assert(first == second);
        assert(front.to_multiset() =~= a.to_multiset().remove(first));
        assert(rear.to_multiset() =~= b.to_multiset().remove(first));
        assert forall|other: EntryView| has_rank(other, session) implies front.filter(
            #[trigger] ties_with(other, session),
        ) == rear.filter(ties_with(other, session)) by {
            let with = ties_with(other, session);
            assert(a.filter(with) == b.filter(with));
            if with(first) {
                assert(a.filter(with).drop_last() =~= front.filter(with));
                assert(b.filter(with).drop_last() =~= rear.filter(with));
            }
        }
        assert forall|k: int| 0 <= k < front.len() implies has_rank(
            #[trigger] front[k],
            session,
        ) by {
            assert(front[k] == a[k]);
        }
        assert forall|k: int, l: int| 0 <= k < l < front.len() implies ranked(
            #[trigger] front[k],
            #[trigger] front[l],
            session,
        ) != Order::After by {
            assert(front[k] == a[k] && front[l] == a[l]);
        }
        assert forall|k: int, l: int| 0 <= k < l < rear.len() implies ranked(
            #[trigger] rear[k],
            #[trigger] rear[l],
            session,
        ) != Order::After by {
            assert(rear[k] == b[k] && rear[l] == b[l]);
        }
        law_order_is_determined(front, rear, session);
    }
}

/// Ordering takes each entry once: it gives the place from which each came. Those that tie
/// stay in the order in which they came.
pub proof fn law_ordering_takes_each_once(entries: Seq<EntryView>, session: i32) -> (from: Seq<int>)
    ensures
        in_order(entries, session).len() == entries.len(),
        from.len() == entries.len(),
        forall|k: int|
            0 <= k < from.len() ==> 0 <= #[trigger] from[k] < entries.len() && in_order(
                entries,
                session,
            )[k] == entries[from[k]],
        forall|k: int, l: int|
            0 <= k < l < from.len() ==> #[trigger] from[k] != #[trigger] from[l],
        forall|k: int, l: int|
            0 <= k < l < from.len() && ranked(
                in_order(entries, session)[k],
                in_order(entries, session)[l],
                session,
            ) == Order::Tied ==> #[trigger] from[k] < #[trigger] from[l],
    decreases entries.len(),
{
    if entries.len() == 0 {
        seq![]
    } else {
        let n = entries.len() - 1;
        let rest = entries.drop_last();
        let new = entries.last();
        let before = law_ordering_takes_each_once(rest, session);
        let sorted = in_order(rest, session);
        let place = lemma_place(sorted, new, session);
        let from = before.insert(place, n);
        let result = in_order(entries, session);
        assert(result == sorted.insert(place, new));
        assert forall|k: int| 0 <= k < from.len() implies 0 <= #[trigger] from[k] < entries.len()
            && result[k] == entries[from[k]] by {
            if k < place {
                assert(from[k] == before[k]);
            } else if k > place {
                assert(from[k] == before[k - 1]);
            }
        }
        assert forall|k: int, l: int| 0 <= k < l < from.len() implies #[trigger] from[k]
            != #[trigger] from[l] && (ranked(result[k], result[l], session) == Order::Tied
            ==> from[k] < from[l]) by {
            let p = if k < place {
                k
            } else {
                k - 1
            };
            let q = if l < place {
                l
            } else {
                l - 1
            };
            if k == place {
                assert(from[l] == before[q]);
                assert(result[l] == sorted[q]);
                assert(ranked(new, sorted[q], session) == Order::Before);
            } else if l == place {
                assert(from[k] == before[p]);
            } else {
                assert(from[k] == before[p] && from[l] == before[q]);
                assert(result[k] == sorted[p] && result[l] == sorted[q]);
            }
        }
        from
    }
}

/// What the order of two entries is, one before the other. Those with a position come first,
/// from the first position on. In qualifying the others come by their best lap, those
/// without one first, and else by laps and distance, the furthest first; the number of the
/// vehicle decides between those that are still alike.
pub proof fn law_ordered_entries(entries: Seq<EntryView>, session: i32, k: int, l: int)
    requires
        0 <= k < l < entries.len(),
        5 <= session <= 8 || forall|i: int|
            0 <= i < entries.len() ==> (#[trigger] entries[i]).position > 0
                || !entries[i].lap_distance.nan(),
    ensures
        ({
            let (a, b) = (in_order(entries, session)[k], in_order(entries, session)[l]);
            &&& b.position > 0 ==> 0 < a.position <= b.position
            &&& a.position == 0 && b.position == 0 && 5 <= session <= 8 ==> {
                &&& a.best_lap_ms is Some ==> b.best_lap_ms is Some && a.best_lap_ms->0
                    <= b.best_lap_ms->0
                &&& a.best_lap_ms == b.best_lap_ms ==> a.key.id <= b.key.id
            }
            &&& a.position == 0 && b.position == 0 && !(5 <= session <= 8) ==> {
                &&& a.laps >= b.laps
                &&& a.laps == b.laps ==> a.lap_distance.units() >= b.lap_distance.units()
                &&& a.laps == b.laps && a.lap_distance.units() == b.lap_distance.units()
                    ==> a.key.id <= b.key.id
            }
        }),
{
    law_in_order(entries, session, entries[0]);
    assert(comparable(entries, session));
    let result = in_order(entries, session);
    let from = law_ordering_takes_each_once(entries, session);
    assert(result[k] == entries[from[k]] && result[l] == entries[from[l]]);
    assert(ranked(result[k], result[l], session) != Order::After);
}

/// Entries with the same position stay in the order in which they came.
pub proof fn law_equal_positions_keep_order(entries: Seq<EntryView>, session: i32) -> (from: Seq<
    int,
>)
    ensures
        from.len() == entries.len(),
        in_order(entries, session).len() == entries.len(),
        forall|k: int|
            0 <= k < from.len() ==> 0 <= #[trigger] from[k] < entries.len() && in_order(
                entries,
                session,
            )[k] == entries[from[k]],
        forall|k: int, l: int|
            0 <= k < l < from.len() && entries[from[k]].position > 0 && entries[from[k]].position
                == entries[from[l]].position ==> #[trigger] from[k] < #[trigger] from[l],
{
    let from = law_ordering_takes_each_once(entries, session);
    let result = in_order(entries, session);
    assert forall|k: int, l: int|
        0 <= k < l < from.len() && entries[from[k]].position > 0 && entries[from[k]].position
            == entries[from[l]].position implies #[trigger] from[k] < #[trigger] from[l] by {
        assert(ranked(result[k], result[l], session) == Order::Tied);
    }
    from
}

} // verus!
