//! Positions within a class, and gaps to the leader of the class and to the vehicle
//! ahead in it.

use crate::entry;
use crate::entry::{EntryView, StandingEntry};
use crate::ranking;
use crate::vehicle::VehicleClass;
use vstd::prelude::*;

verus! {

/// How many of the first `n` entries are of the class.
pub open spec fn class_count(entries: Seq<EntryView>, class: VehicleClass, n: int) -> nat
    decreases n,
{
    if n <= 0 {
        0
    } else if entries[n - 1].class == class {
        class_count(entries, class, n - 1) + 1
    } else {
        class_count(entries, class, n - 1)
    }
}

/// The first of the first `n` entries that is of the class.
pub open spec fn first_of_class(entries: Seq<EntryView>, class: VehicleClass, n: int) -> Option<int>
    decreases n,
{
    if n <= 0 {
        None
    } else {
        match first_of_class(entries, class, n - 1) {
            Some(index) => Some(index),
            None => if entries[n - 1].class == class {
                Some(n - 1)
            } else {
                None
            },
        }
    }
}

/// The last of the first `n` entries that is of the class.
pub open spec fn last_of_class(entries: Seq<EntryView>, class: VehicleClass, n: int) -> Option<int>
    decreases n,
{
    if n <= 0 {
        None
    } else if entries[n - 1].class == class {
        Some(n - 1)
    } else {
        last_of_class(entries, class, n - 1)
    }
}

/// The best lap time of the class among the first `n` entries.
pub open spec fn class_best(entries: Seq<EntryView>, class: VehicleClass, n: int) -> Option<u64>
    decreases n,
{
    if n <= 0 {
        None
    } else {
        let before = class_best(entries, class, n - 1);
        if entries[n - 1].class == class {
            match (before, entries[n - 1].best_lap_ms) {
                (Some(best), Some(lap)) => if lap < best {
                    Some(lap)
                } else {
                    Some(best)
                },
                (Some(best), None) => Some(best),
                (None, lap) => lap,
            }
        } else {
            before
        }
    }
}

/// The lap time of the last of the first `n` entries that is of the class and has one.
pub open spec fn last_best(entries: Seq<EntryView>, class: VehicleClass, n: int) -> Option<u64>
    decreases n,
{
    if n <= 0 {
        None
    } else if entries[n - 1].class == class && entries[n - 1].best_lap_ms is Some {
        entries[n - 1].best_lap_ms
    } else {
        last_best(entries, class, n - 1)
    }
}

/// The difference, or zero where it would be negative.
pub open spec fn behind(a: int, b: int) -> int {
    if a >= b {
        a - b
    } else {
        0
    }
}

/// How far a lap time lies behind another, where both are known.
pub open spec fn time_behind(lap: Option<u64>, reference: Option<u64>) -> Option<u64> {
    match (lap, reference) {
        (Some(lap), Some(reference)) => Some(behind(lap as int, reference as int) as u64),
        _ => None,
    }
}

/// The gap to the leader of the race, none counting as zero.
pub open spec fn total_gap(entry: EntryView) -> u64 {
    match entry.gap_to_leader_ms {
        Some(gap) => gap,
        None => 0,
    }
}

/// How many laps an entry lies behind another.
pub open spec fn laps_behind(entry: EntryView, reference: EntryView) -> u16 {
    behind(entry.laps_behind_leader as int, reference.laps_behind_leader as int) as u16
}

/// How long an entry lies behind another, where no lap lies between them.
pub open spec fn gap_behind(entry: EntryView, reference: EntryView) -> Option<u64> {
    if laps_behind(entry, reference) == 0 {
        Some(behind(total_gap(entry) as int, total_gap(reference) as int) as u64)
    } else {
        None
    }
}

/// The entry whose gap the leader's gap of the entry at `i` is taken from: the first of
/// its class.
pub open spec fn class_leader(entries: Seq<EntryView>, i: int) -> EntryView {
    match first_of_class(entries, entries[i].class, i) {
        Some(index) => entries[index],
        None => entries[i],
    }
}

/// The entry ahead of the entry at `i` in its class, or that entry itself where none is.
pub open spec fn class_previous(entries: Seq<EntryView>, i: int) -> EntryView {
    match last_of_class(entries, entries[i].class, i) {
        Some(index) => entries[index],
        None => entries[i],
    }
}

/// The position within the class of the entry at `i`, as far as it fits.
pub open spec fn class_position(entries: Seq<EntryView>, i: int) -> u16 {
    let count = class_count(entries, entries[i].class, i + 1);
    if count > u16::MAX {
        u16::MAX
    } else {
        count as u16
    }
}

/// The entry at `i`, given the gaps to the leader of the race, with its position and its
/// gaps within the class. In a qualifying session gaps are those between best laps.
pub open spec fn placed(entries: Seq<EntryView>, i: int, session: i32) -> EntryView {
    let entry = entries[i];
    if ranking::qualifying(session) {
        EntryView {
            class_position: class_position(entries, i),
            gap_to_leader_ms: time_behind(
                entry.best_lap_ms,
                class_best(entries, entry.class, entries.len() as int),
            ),
            gap_to_previous_ms: time_behind(
                entry.best_lap_ms,
                last_best(entries, entry.class, i),
            ),
            laps_behind_leader: 0,
            laps_behind_previous: 0,
            ..entry
        }
    } else {
        EntryView {
            class_position: class_position(entries, i),
            gap_to_leader_ms: gap_behind(entry, class_leader(entries, i)),
            gap_to_previous_ms: gap_behind(entry, class_previous(entries, i)),
            laps_behind_leader: laps_behind(entry, class_leader(entries, i)),
            laps_behind_previous: laps_behind(entry, class_previous(entries, i)),
            ..entry
        }
    }
}

/// The entries with their positions and gaps within their classes.
pub open spec fn all_placed(entries: Seq<EntryView>, session: i32) -> Seq<EntryView> {
    Seq::new(entries.len(), |i: int| placed(entries, i, session))
}

/// A number for each class.
pub open spec fn class_slot(class: VehicleClass) -> int {
    match class {
        VehicleClass::Hypercar => 0,
        VehicleClass::Lmp2Elms => 1,
        VehicleClass::Lmp2 => 2,
        VehicleClass::Lmp3 => 3,
        VehicleClass::Gte => 4,
        VehicleClass::Lmgt3 => 5,
        VehicleClass::PaceCar => 6,
        VehicleClass::Unknown => 7,
    }
}

/// The number of a class.
fn slot(class: VehicleClass) -> (slot: usize)
    ensures
        slot == class_slot(class),
{
    match class {
        VehicleClass::Hypercar => 0,
        VehicleClass::Lmp2Elms => 1,
        VehicleClass::Lmp2 => 2,
        VehicleClass::Lmp3 => 3,
        VehicleClass::Gte => 4,
        VehicleClass::Lmgt3 => 5,
        VehicleClass::PaceCar => 6,
        VehicleClass::Unknown => 7,
    }
}

/// What is known of a class from the entries that have been placed.
#[derive(Clone, Copy, Debug)]
struct ClassSoFar {
    /// How many there are, as far as that fits.
    count: u16,
    /// The lap time of the last that has one.
    last_best: Option<u64>,
    /// Laps and time behind the leader of the race, of the first and of the last.
    race: Option<(u16, u64, u16, u64)>,
}

impl ClassSoFar {
    /// Whether this is what the first `n` entries show of the class.
    spec fn shows(self, entries: Seq<EntryView>, class: VehicleClass, n: int) -> bool {
        let count = class_count(entries, class, n);
        &&& self.count == if count > u16::MAX {
            u16::MAX as nat
        } else {
            count
        }
        &&& self.last_best == last_best(entries, class, n)
        &&& match (
            self.race,
            first_of_class(entries, class, n),
            last_of_class(entries, class, n),
        ) {
            (Some(race), Some(first), Some(last)) => race == (
                entries[first].laps_behind_leader,
                total_gap(entries[first]),
                entries[last].laps_behind_leader,
                total_gap(entries[last]),
            ),
            (None, None, None) => true,
            _ => false,
        }
    }
}

/// The best lap time of each class.
fn best_of_classes(entries: &Vec<StandingEntry>) -> (best: Vec<Option<u64>>)
    ensures
        best@.len() == 8,
        forall|class: VehicleClass|
            best@[#[trigger] class_slot(class)] == class_best(
                entry::values(entries@),
                class,
                entries@.len() as int,
            ),
{
    let len: usize = entries.len();
    let mut best: Vec<Option<u64>> = vec![None; 8];
    let ghost all = entry::values(entries@);
    let mut i: usize = 0;
    while i < len
        invariant
            i <= len == entries@.len(),
            all == entry::values(entries@),
            best@.len() == 8,
            forall|class: VehicleClass|
                best@[#[trigger] class_slot(class)] == class_best(all, class, i as int),
        decreases len - i,
    {
        let at: usize = slot(entries[i].class);
        let ghost before = best@;
        let better: Option<u64> = match (best[at], entries[i].best_lap_ms) {
            (Some(best), Some(lap)) => if lap < best {
                Some(lap)
            } else {
                Some(best)
            },
            (Some(best), None) => Some(best),
            (None, lap) => lap,
        };
        best.set(at, better);
        proof {
            assert(all[i as int] == entries@[i as int]@);
            assert forall|class: VehicleClass|
                best@[#[trigger] class_slot(class)] == class_best(all, class, i + 1) by {
                assert(before[class_slot(class)] == class_best(all, class, i as int));
            }
        }
        i += 1;
    }
    best
}

/// How far a lap time lies behind another.
fn lap_time_behind(lap: Option<u64>, reference: Option<u64>) -> (gap: Option<u64>)
    ensures
        gap == time_behind(lap, reference),
{
    match (lap, reference) {
        (Some(lap), Some(reference)) => Some(
            if lap >= reference {
                lap - reference
            } else {
                0
            },
        ),
        _ => None,
    }
}

/// Gives the entries their positions and gaps within their classes.
pub fn assign_positions_and_gaps(entries: &mut Vec<StandingEntry>, session: i32)
    ensures
        entry::values(final(entries)@) == all_placed(entry::values(old(entries)@), session),
{
    let len: usize = entries.len();
    let ghost all = entry::values(entries@);
    let qualifying: bool = ranking::is_qualifying(session);
    let best: Vec<Option<u64>> = best_of_classes(entries);
    let mut so_far: Vec<ClassSoFar> = vec![ClassSoFar { count: 0, last_best: None, race: None }; 8];
    let mut i: usize = 0;
    while i < len
        invariant
            i <= len,
            len == all.len(),
            entries@.len() == len,
            all == entry::values(old(entries)@),
            qualifying == ranking::qualifying(session),
            best@.len() == 8,
            forall|class: VehicleClass|
                best@[#[trigger] class_slot(class)] == class_best(all, class, len as int),
            so_far@.len() == 8,
            forall|class: VehicleClass|
                so_far@[#[trigger] class_slot(class)].shows(all, class, i as int),
            forall|j: int|
                0 <= j < len ==> (#[trigger] entries@[j])@ == if j < i {
                    placed(all, j, session)
                } else {
                    all[j]
                },
        decreases len - i,
    {
        let class: VehicleClass = entries[i].class;
        let at: usize = slot(class);
        let seen: ClassSoFar = so_far[at];
        let ghost before = so_far@;
        assert(entries@[i as int]@ == all[i as int]);
        assert(before[class_slot(class)].shows(all, class, i as int));
        let lap: Option<u64> = entries[i].best_lap_ms;
        let laps: u16 = entries[i].laps_behind_leader;
        let gap: u64 = match entries[i].gap_to_leader_ms {
            Some(gap) => gap,
            None => 0,
        };
        let count: u16 = if seen.count == 0xffff {
            0xffff
        } else {
            seen.count + 1
        };
        let race: (u16, u64, u16, u64) = match seen.race {
            Some(race) => race,
            None => (laps, gap, laps, gap),
        };
        entries[i].class_position = count;
        if qualifying {
            entries[i].gap_to_leader_ms = lap_time_behind(lap, best[at]);
            entries[i].gap_to_previous_ms = lap_time_behind(lap, seen.last_best);
            entries[i].laps_behind_leader = 0;
            entries[i].laps_behind_previous = 0;
        } else {
            let leader_laps: u16 = if laps >= race.0 {
                laps - race.0
            } else {
                0
            };
            let previous_laps: u16 = if laps >= race.2 {
                laps - race.2
            } else {
                0
            };
            entries[i].gap_to_leader_ms = if leader_laps == 0 {
                lap_time_behind(Some(gap), Some(race.1))
            } else {
                None
            };
            entries[i].gap_to_previous_ms = if previous_laps == 0 {
                lap_time_behind(Some(gap), Some(race.3))
            } else {
                None
            };
            entries[i].laps_behind_leader = leader_laps;
            entries[i].laps_behind_previous = previous_laps;
        }
        let next: ClassSoFar = ClassSoFar {
            count,
            last_best: if lap.is_some() {
                lap
            } else {
                seen.last_best
            },
            race: Some((race.0, race.1, laps, gap)),
        };
        so_far.set(at, next);
        proof {
            assert(entries@[i as int]@ == placed(all, i as int, session));
            assert forall|class: VehicleClass|
                so_far@[#[trigger] class_slot(class)].shows(all, class, i + 1) by {
                assert(before[class_slot(class)].shows(all, class, i as int));
            }
        }
        i += 1;
    }
    assert(entry::values(entries@) =~= all_placed(all, session));
}

/// Positions within a class count up: each is one more than that of the entry ahead in
/// the class, as far as that fits, and the first is one.
pub proof fn law_class_positions_count_up(entries: Seq<EntryView>, i: int)
    requires
        0 <= i < entries.len(),
    ensures
        match last_of_class(entries, entries[i].class, i) {
            Some(ahead) => 0 <= ahead < i && entries[ahead].class == entries[i].class
                && class_position(entries, i) == if class_position(entries, ahead) == u16::MAX {
                u16::MAX as int
            } else {
                class_position(entries, ahead) + 1
            },
            None => class_position(entries, i) == 1,
        },
{
    lemma_last_of_class(entries, entries[i].class, i);
}

/// Between the last entry of a class and the end there is none of the class.
proof fn lemma_last_of_class(entries: Seq<EntryView>, class: VehicleClass, n: int)
    requires
        n <= entries.len(),
    ensures
        match last_of_class(entries, class, n) {
            Some(last) => 0 <= last < n && entries[last].class == class && class_count(
                entries,
                class,
                n,
            ) == class_count(entries, class, last + 1) && forall|j: int|
                last < j < n ==> (#[trigger] entries[j]).class != class,
            None => class_count(entries, class, n) == 0 && forall|j: int|
                0 <= j < n ==> (#[trigger] entries[j]).class != class,
        },
    decreases n,
{
    if n > 0 {
        lemma_last_of_class(entries, class, n - 1);
    }
}

/// Before the first entry of a class there is none of the class.
proof fn lemma_first_of_class(entries: Seq<EntryView>, class: VehicleClass, n: int)
    requires
        n <= entries.len(),
    ensures
        match first_of_class(entries, class, n) {
            Some(first) => 0 <= first < n && entries[first].class == class && forall|j: int|
                0 <= j < first ==> (#[trigger] entries[j]).class != class,
            None => forall|j: int| 0 <= j < n ==> (#[trigger] entries[j]).class != class,
        },
    decreases n,
{
    if n > 0 {
        lemma_first_of_class(entries, class, n - 1);
    }
}

/// Outside qualifying, the first entry of a class leads it: it lies no lap and no time
/// behind.
pub proof fn law_first_of_class_leads(entries: Seq<EntryView>, i: int, session: i32)
    requires
        0 <= i < entries.len(),
        !ranking::qualifying(session),
        forall|j: int| 0 <= j < i ==> (#[trigger] entries[j]).class != entries[i].class,
    ensures
        placed(entries, i, session).laps_behind_leader == 0,
        placed(entries, i, session).laps_behind_previous == 0,
        placed(entries, i, session).gap_to_leader_ms == Some(0u64),
        placed(entries, i, session).gap_to_previous_ms == Some(0u64),
{
    lemma_first_of_class(entries, entries[i].class, i);
    lemma_last_of_class(entries, entries[i].class, i);
}

/// An entry behind the first of its class is measured against that one: its gap to the
/// leader is the gap to the first.
pub proof fn law_leader_is_first_of_class(entries: Seq<EntryView>, i: int, first: int)
    requires
        0 <= first < i < entries.len(),
        entries[first].class == entries[i].class,
        forall|j: int| 0 <= j < first ==> (#[trigger] entries[j]).class != entries[i].class,
    ensures
        class_leader(entries, i) == entries[first],
{
    lemma_first_of_class(entries, entries[i].class, i);
}

/// An entry behind another of its class is measured against the nearest one ahead: its gap
/// to the previous is the gap to that one.
pub proof fn law_previous_is_nearest_of_class(entries: Seq<EntryView>, i: int, ahead: int)
    requires
        0 <= ahead < i < entries.len(),
        entries[ahead].class == entries[i].class,
        forall|j: int| ahead < j < i ==> (#[trigger] entries[j]).class != entries[i].class,
    ensures
        class_previous(entries, i) == entries[ahead],
{
    lemma_last_of_class(entries, entries[i].class, i);
}

/// The best lap time of a class is the least that an entry of it has.
pub proof fn law_class_best_is_least(entries: Seq<EntryView>, class: VehicleClass, n: int)
    requires
        n <= entries.len(),
    ensures
        match class_best(entries, class, n) {
            Some(best) => {
                &&& exists|j: int|
                    0 <= j < n && (#[trigger] entries[j]).class == class && entries[j].best_lap_ms
                        == Some(best)
                &&& forall|j: int|
                    0 <= j < n && (#[trigger] entries[j]).class == class
                        && entries[j].best_lap_ms is Some ==> best <= entries[j].best_lap_ms->0
            },
            None => forall|j: int|
                0 <= j < n && (#[trigger] entries[j]).class == class
                    ==> entries[j].best_lap_ms is None,
        },
    decreases n,
{
    if n > 0 {
        law_class_best_is_least(entries, class, n - 1);
        assert(entries[n - 1] == entries[n - 1]);
    }
}

/// In qualifying, an entry has a gap to the leader exactly if it has a lap time, and the
/// gap is zero exactly if no lap time of its class is better.
pub proof fn law_qualifying_gap_to_leader(entries: Seq<EntryView>, i: int, session: i32)
    requires
        0 <= i < entries.len(),
        ranking::qualifying(session),
    ensures
        ({
            let gap = placed(entries, i, session).gap_to_leader_ms;
            &&& gap is Some <==> entries[i].best_lap_ms is Some
            &&& gap == Some(0u64) <==> entries[i].best_lap_ms is Some && forall|j: int|
                0 <= j < entries.len() && (#[trigger] entries[j]).class == entries[i].class
                    && entries[j].best_lap_ms is Some ==> entries[i].best_lap_ms->0
                    <= entries[j].best_lap_ms->0
        }),
{
    law_class_best_is_least(entries, entries[i].class, entries.len() as int);
}

/// What is found of a class depends on the classes of the entries alone.
proof fn lemma_same_classes(a: Seq<EntryView>, b: Seq<EntryView>, class: VehicleClass, n: int)
    requires
        n <= a.len(),
        a.len() == b.len(),
        forall|i: int| 0 <= i < b.len() ==> (#[trigger] b[i]).class == a[i].class,
    ensures
        class_count(a, class, n) == class_count(b, class, n),
        first_of_class(a, class, n) == first_of_class(b, class, n),
        last_of_class(a, class, n) == last_of_class(b, class, n),
    decreases n,
{
    if n > 0 {
        lemma_same_classes(a, b, class, n - 1);
        assert(b[n - 1].class == a[n - 1].class);
    }
}

/// The lap times of a class depend on the classes and the lap times of the entries alone.
proof fn lemma_same_times(a: Seq<EntryView>, b: Seq<EntryView>, class: VehicleClass, n: int)
    requires
        n <= a.len(),
        a.len() == b.len(),
        forall|i: int|
            0 <= i < b.len() ==> (#[trigger] b[i]).class == a[i].class && b[i].best_lap_ms
                == a[i].best_lap_ms,
    ensures
        class_best(a, class, n) == class_best(b, class, n),
        last_best(a, class, n) == last_best(b, class, n),
    decreases n,
{
    if n > 0 {
        lemma_same_times(a, b, class, n - 1);
        assert(b[n - 1].class == a[n - 1].class);
    }
}

/// What is assigned a second time in a qualifying session.
proof fn lemma_second_qualifying(
    entries: Seq<EntryView>,
    once: Seq<EntryView>,
    i: int,
    session: i32,
)
    requires
        0 <= i < entries.len(),
        ranking::qualifying(session),
        once == all_placed(entries, session),
    ensures
        placed(once, i, session) == once[i],
{
    let class = entries[i].class;
    assert(once[i] == placed(entries, i, session));
    lemma_same_classes(entries, once, class, i + 1);
    lemma_same_times(entries, once, class, i);
    lemma_same_times(entries, once, class, entries.len() as int);
}

/// What an entry gets outside qualifying, measured against a leader that lies nowhere
/// behind, is what it has.
proof fn lemma_measured_against_leader(entry: EntryView, leader: EntryView)
    requires
        leader.laps_behind_leader == 0,
        leader.gap_to_leader_ms == Some(0u64),
        entry.laps_behind_leader > 0 ==> entry.gap_to_leader_ms is None,
        entry.laps_behind_leader == 0 ==> entry.gap_to_leader_ms is Some,
    ensures
        laps_behind(entry, leader) == entry.laps_behind_leader,
        gap_behind(entry, leader) == entry.gap_to_leader_ms,
{
}

/// What is assigned a second time outside qualifying.
proof fn lemma_second_race(entries: Seq<EntryView>, once: Seq<EntryView>, i: int, session: i32)
    requires
        0 <= i < entries.len(),
        !ranking::qualifying(session),
        once == all_placed(entries, session),
    ensures
        placed(once, i, session).class_position == once[i].class_position,
        placed(once, i, session).gap_to_leader_ms == once[i].gap_to_leader_ms,
        placed(once, i, session).laps_behind_leader == once[i].laps_behind_leader,
{
    let class = entries[i].class;
    assert(once[i] == placed(entries, i, session));
    assert(once[i].class == class);
    lemma_same_classes(entries, once, class, i + 1);
    lemma_same_classes(entries, once, class, i);
    lemma_first_of_class(entries, class, i);
    let first = match first_of_class(entries, class, i) {
        Some(index) => index,
        None => i,
    };
    law_first_of_class_leads(entries, first, session);
    assert(once[first] == placed(entries, first, session));
    lemma_measured_against_leader(once[i], once[first]);
    assert(class_leader(once, i) == once[first]);
}

/// Positions and gaps that are assigned a second time leave the position within the class
/// and the gap to its leader as they are; in a qualifying session they leave all as it is.
pub proof fn law_second_assignment(entries: Seq<EntryView>, i: int, session: i32)
    requires
        0 <= i < entries.len(),
    ensures
        ({
            let once = all_placed(entries, session);
            let twice = all_placed(once, session);
            &&& twice[i].class_position == once[i].class_position
            &&& twice[i].gap_to_leader_ms == once[i].gap_to_leader_ms
            &&& twice[i].laps_behind_leader == once[i].laps_behind_leader
            &&& ranking::qualifying(session) ==> twice[i] == once[i]
        }),
{
    let once = all_placed(entries, session);
    if ranking::qualifying(session) {
        lemma_second_qualifying(entries, once, i, session);
    } else {
        lemma_second_race(entries, once, i, session);
    }
}

/// The first entry of a class has the first position in it.
pub proof fn law_first_position(entries: Seq<EntryView>, i: int, session: i32)
    requires
        0 <= i < entries.len(),
        forall|j: int| 0 <= j < i ==> (#[trigger] entries[j]).class != entries[i].class,
    ensures
        all_placed(entries, session)[i].class_position == 1,
{
    lemma_last_of_class(entries, entries[i].class, i);
}

/// The position in the class is one more than that of the nearest entry ahead in it, as far
/// as that fits.
pub proof fn law_next_position(entries: Seq<EntryView>, i: int, ahead: int, session: i32)
    requires
        0 <= ahead < i < entries.len(),
        entries[ahead].class == entries[i].class,
        forall|j: int| ahead < j < i ==> (#[trigger] entries[j]).class != entries[i].class,
    ensures
        all_placed(entries, session)[i].class_position == if all_placed(
            entries,
            session,
        )[ahead].class_position == 65535 {
            65535
        } else {
            all_placed(entries, session)[ahead].class_position + 1
        },
{
    lemma_last_of_class(entries, entries[i].class, i);
}

/// In qualifying, the gap to the leader is how much longer an entry's best lap took than
/// the best of its class.
pub proof fn law_qualifying_gap_is_to_best(
    entries: Seq<EntryView>,
    i: int,
    best: int,
    session: i32,
)
    requires
        5 <= session <= 8,
        0 <= i < entries.len(),
        0 <= best < entries.len(),
        entries[best].class == entries[i].class,
        entries[i].best_lap_ms is Some,
        entries[best].best_lap_ms is Some,
        forall|j: int|
            0 <= j < entries.len() && (#[trigger] entries[j]).class == entries[i].class
                && entries[j].best_lap_ms is Some ==> entries[best].best_lap_ms->0
                <= entries[j].best_lap_ms->0,
    ensures
        all_placed(entries, session)[i].gap_to_leader_ms == Some(
            (entries[i].best_lap_ms->0 - entries[best].best_lap_ms->0) as u64,
        ),
{
    law_class_best_is_least(entries, entries[i].class, entries.len() as int);
}

/// The lap time of the last entry of a class that has one.
proof fn lemma_last_best(entries: Seq<EntryView>, class: VehicleClass, n: int, last: int)
    requires
        0 <= last < n <= entries.len(),
        entries[last].class == class,
        entries[last].best_lap_ms is Some,
        forall|j: int|
            last < j < n ==> (#[trigger] entries[j]).class != class
                || entries[j].best_lap_ms is None,
    ensures
        last_best(entries, class, n) == entries[last].best_lap_ms,
    decreases n,
{
    if last < n - 1 {
        assert(entries[n - 1].class != class || entries[n - 1].best_lap_ms is None);
        lemma_last_best(entries, class, n - 1, last);
    }
}

/// A class of which no entry has a lap time has no last one.
proof fn lemma_no_last_best(entries: Seq<EntryView>, class: VehicleClass, n: int)
    requires
        n <= entries.len(),
        forall|j: int|
            0 <= j < n ==> (#[trigger] entries[j]).class != class
                || entries[j].best_lap_ms is None,
    ensures
        last_best(entries, class, n) is None,
    decreases n,
{
    if n > 0 {
        assert(entries[n - 1].class != class || entries[n - 1].best_lap_ms is None);
        lemma_no_last_best(entries, class, n - 1);
    }
}

/// In qualifying, the gap to the previous entry is how much longer an entry's best lap took
/// than that of the nearest one ahead in its class that has a lap time, and none where that
/// one's took longer.
pub proof fn law_qualifying_gap_to_previous(
    entries: Seq<EntryView>,
    i: int,
    ahead: int,
    session: i32,
)
    requires
        5 <= session <= 8,
        0 <= ahead < i < entries.len(),
        entries[ahead].class == entries[i].class,
        entries[i].best_lap_ms is Some,
        entries[ahead].best_lap_ms is Some,
        forall|j: int|
            ahead < j < i ==> (#[trigger] entries[j]).class != entries[i].class
                || entries[j].best_lap_ms is None,
    ensures
        all_placed(entries, session)[i].gap_to_previous_ms == Some(
            if entries[i].best_lap_ms->0 >= entries[ahead].best_lap_ms->0 {
                (entries[i].best_lap_ms->0 - entries[ahead].best_lap_ms->0) as u64
            } else {
                0u64
            },
        ),
{
    lemma_last_best(entries, entries[i].class, i, ahead);
}

/// In qualifying, an entry has no gap to the previous one exactly where it has no lap time
/// or no entry ahead in its class has one, and no gap to the leader exactly where it has no
/// lap time. It lies no lap behind.
pub proof fn law_qualifying_without_gap(entries: Seq<EntryView>, i: int, session: i32)
    requires
        5 <= session <= 8,
        0 <= i < entries.len(),
    ensures
        all_placed(entries, session)[i].gap_to_previous_ms is None <==> (
        entries[i].best_lap_ms is None || forall|j: int|
            0 <= j < i ==> (#[trigger] entries[j]).class != entries[i].class
                || entries[j].best_lap_ms is None),
        all_placed(entries, session)[i].gap_to_leader_ms is None
            <==> entries[i].best_lap_ms is None,
        all_placed(entries, session)[i].laps_behind_leader == 0,
        all_placed(entries, session)[i].laps_behind_previous == 0,
{
    let class = entries[i].class;
    law_class_best_is_least(entries, class, entries.len() as int);
    if forall|j: int|
        0 <= j < i ==> (#[trigger] entries[j]).class != class || entries[j].best_lap_ms is None {
        lemma_no_last_best(entries, class, i);
    } else {
        lemma_some_last_best(entries, class, i);
    }
}

/// A class of which an entry has a lap time has a last one.
proof fn lemma_some_last_best(entries: Seq<EntryView>, class: VehicleClass, n: int)
    requires
        n <= entries.len(),
        !(forall|j: int|
            0 <= j < n ==> (#[trigger] entries[j]).class != class
                || entries[j].best_lap_ms is None),
    ensures
        last_best(entries, class, n) is Some,
    decreases n,
{
    let j = choose|j: int|
        0 <= j < n && !((#[trigger] entries[j]).class != class || entries[j].best_lap_ms is None);
    if j < n - 1 {
        lemma_some_last_best(entries, class, n - 1);
    }
}

/// Outside qualifying, the gap to the leader is measured from the first entry of the class:
/// by how many laps more an entry lies behind the leader of the race, and where those are
/// none, by how much more time.
pub proof fn law_race_gap_to_leader(entries: Seq<EntryView>, i: int, first: int, session: i32)
    requires
        !(5 <= session <= 8),
        0 <= first <= i < entries.len(),
        entries[first].class == entries[i].class,
        forall|j: int| 0 <= j < first ==> (#[trigger] entries[j]).class != entries[i].class,
    ensures
        ({
            let (a, b) = (entries[i], entries[first]);
            let time = (if a.gap_to_leader_ms is Some { a.gap_to_leader_ms->0 as int } else { 0 })
                - (if b.gap_to_leader_ms is Some { b.gap_to_leader_ms->0 as int } else { 0 });
            let laps = a.laps_behind_leader - b.laps_behind_leader;
            let result = all_placed(entries, session)[i];
            &&& laps > 0 ==> result.laps_behind_leader == laps && result.gap_to_leader_ms is None
            &&& laps <= 0 ==> result.laps_behind_leader == 0 && result.gap_to_leader_ms == Some(
                if time > 0 {
                    time as u64
                } else {
                    0u64
                },
            )
        }),
{
    lemma_first_of_class(entries, entries[i].class, i);
    if first < i {
        law_leader_is_first_of_class(entries, i, first);
    }
}

/// Outside qualifying, the gap to the previous entry is measured in the same way from the
/// nearest one ahead in the class, and from the entry itself where none is ahead.
pub proof fn law_race_gap_to_previous(entries: Seq<EntryView>, i: int, ahead: int, session: i32)
    requires
        !(5 <= session <= 8),
        0 <= ahead < i < entries.len(),
        entries[ahead].class == entries[i].class,
        forall|j: int| ahead < j < i ==> (#[trigger] entries[j]).class != entries[i].class,
    ensures
        ({
            let (a, b) = (entries[i], entries[ahead]);
            let time = (if a.gap_to_leader_ms is Some { a.gap_to_leader_ms->0 as int } else { 0 })
                - (if b.gap_to_leader_ms is Some { b.gap_to_leader_ms->0 as int } else { 0 });
            let laps = a.laps_behind_leader - b.laps_behind_leader;
            let result = all_placed(entries, session)[i];
            &&& laps > 0 ==> result.laps_behind_previous == laps
                && result.gap_to_previous_ms is None
            &&& laps <= 0 ==> result.laps_behind_previous == 0 && result.gap_to_previous_ms
                == Some(
                if time > 0 {
                    time as u64
                } else {
                    0u64
                },
            )
        }),
{
    law_previous_is_nearest_of_class(entries, i, ahead);
}

/// Outside qualifying, the first entry of a class lies nowhere behind one ahead of it.
pub proof fn law_race_first_has_no_gap(entries: Seq<EntryView>, i: int, session: i32)
    requires
        !(5 <= session <= 8),
        0 <= i < entries.len(),
        forall|j: int| 0 <= j < i ==> (#[trigger] entries[j]).class != entries[i].class,
    ensures
        all_placed(entries, session)[i].laps_behind_previous == 0,
        all_placed(entries, session)[i].gap_to_previous_ms == Some(0u64),
        all_placed(entries, session)[i].laps_behind_leader == 0,
        all_placed(entries, session)[i].gap_to_leader_ms == Some(0u64),
{
    law_first_of_class_leads(entries, i, session);
}

/// Beside positions and gaps within the class nothing of the entries changes, and they stay
/// in their order.
pub proof fn law_placing_keeps_the_rest(entries: Seq<EntryView>, i: int, session: i32)
    requires
        0 <= i < entries.len(),
    ensures
        all_placed(entries, session).len() == entries.len(),
        all_placed(entries, session)[i].key == entries[i].key,
        all_placed(entries, session)[i].driver_name == entries[i].driver_name,
        all_placed(entries, session)[i].vehicle_name == entries[i].vehicle_name,
        all_placed(entries, session)[i].vehicle_model == entries[i].vehicle_model,
        all_placed(entries, session)[i].class == entries[i].class,
        all_placed(entries, session)[i].position == entries[i].position,
        all_placed(entries, session)[i].laps == entries[i].laps,
        all_placed(entries, session)[i].lap_distance == entries[i].lap_distance,
        all_placed(entries, session)[i].best_lap_ms == entries[i].best_lap_ms,
        all_placed(entries, session)[i].last_lap_ms == entries[i].last_lap_ms,
        all_placed(entries, session)[i].tires == entries[i].tires,
        all_placed(entries, session)[i].status == entries[i].status,
        all_placed(entries, session)[i].penalties == entries[i].penalties,
{
}

} // verus!
