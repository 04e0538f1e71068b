//! Which entries of the standings are shown where not all of them fit.

use crate::entry::StandingEntry;
use crate::vehicle;
use crate::vehicle::{KeyView, VehicleClass, VehicleKey};
use vstd::prelude::*;
use vstd::seq_lib::*;

verus! {

/// How many of the leading entries are always shown.
pub const LEADERS: usize = 3;

/// The index of the first entry with the key.
pub open spec fn index_of_key(entries: Seq<StandingEntry>, key: KeyView) -> Option<int>
    decreases entries.len(),
{
    if entries.len() == 0 {
        None
    } else {
        match index_of_key(entries.drop_last(), key) {
            Some(index) => Some(index),
            None => if entries.last().key@ == key {
                Some(entries.len() - 1)
            } else {
                None
            },
        }
    }
}

/// The view of an optional key.
pub open spec fn focus_of(key: Option<&VehicleKey>) -> Option<KeyView> {
    match key {
        Some(key) => Some(key@),
        None => None,
    }
}

/// The index of the first entry that has the focus.
pub open spec fn focus_index(entries: Seq<StandingEntry>, focused: Option<KeyView>) -> Option<int> {
    match focused {
        Some(key) => index_of_key(entries, key),
        None => None,
    }
}

/// How many of `len` entries are shown: as many as the limit allows, which counts as one
/// at least.
pub open spec fn shown_count(len: nat, limit: nat) -> nat {
    let limit = if limit == 0 {
        1
    } else {
        limit
    };
    if limit < len {
        limit
    } else {
        len
    }
}

/// Where the neighbourhood of the entry with the given index begins: the entry stands in
/// its middle, as far as the neighbourhood neither reaches into the leaders nor beyond
/// the end.
pub open spec fn neighborhood_start(len: nat, index: int, size: int) -> int {
    let middle = if index >= size / 2 {
        index - size / 2
    } else {
        0
    };
    let low = if middle <= len - size {
        middle
    } else {
        len - size
    };
    if low < LEADERS {
        LEADERS as int
    } else {
        low
    }
}

/// The index of the `k`-th entry that is shown. That is `k`, but where an entry behind
/// the leaders has the focus and not all can be shown, those behind the leaders are its
/// neighbourhood.
pub open spec fn shown_index(len: nat, focus: Option<int>, limit: nat, k: int) -> int {
    let count = shown_count(len, limit);
    match focus {
        Some(index) => if count < len && index >= LEADERS && count > LEADERS && k >= LEADERS {
            neighborhood_start(len, index, count - LEADERS) + (k - LEADERS)
        } else {
            k
        },
        None => k,
    }
}

/// The entries that are shown.
pub open spec fn visible(
    entries: Seq<StandingEntry>,
    focused: Option<KeyView>,
    limit: nat,
) -> Seq<StandingEntry> {
    Seq::new(
        shown_count(entries.len(), limit),
        |k: int|
            entries[shown_index(entries.len(), focus_index(entries, focused), limit, k)],
    )
}

/// The index of a key is that of the first entry that has it.
pub proof fn law_index_of_key(entries: Seq<StandingEntry>, key: KeyView)
    ensures
        match index_of_key(entries, key) {
            Some(index) => {
                &&& 0 <= index < entries.len()
                &&& entries[index].key@ == key
                &&& forall|i: int| 0 <= i < index ==> (#[trigger] entries[i]).key@ != key
            },
            None => forall|i: int| 0 <= i < entries.len() ==> (#[trigger] entries[i]).key@ != key,
        },
    decreases entries.len(),
{
    if entries.len() > 0 {
        law_index_of_key(entries.drop_last(), key);
        assert forall|i: int| 0 <= i < entries.len() - 1 implies (#[trigger] entries[i])
            == entries.drop_last()[i] by {}
    }
}

/// The index of the first entry with the key.
fn position_of_key(entries: &[StandingEntry], key: &VehicleKey) -> (index: Option<usize>)
    ensures
        match index {
            Some(index) => index_of_key(entries@, key@) == Some(index as int),
            None => index_of_key(entries@, key@) is None,
        },
{
    let len: usize = entries.len();
    let mut i: usize = 0;
    while i < len
        invariant
            i <= len == entries@.len(),
            forall|j: int| 0 <= j < i ==> (#[trigger] entries@[j]).key@ != key@,
        decreases len - i,
    {
        if entries[i].key == *key {
            proof {
                law_index_of_key(entries@, key@);
            }
            return Some(i);
        }
        i += 1;
    }
    proof {
        law_index_of_key(entries@, key@);
    }
    None
}

/// Copies the entries from `from` to `to` behind those that `shown` holds.
fn show(entries: &[StandingEntry], from: usize, to: usize, shown: &mut Vec<StandingEntry>)
    requires
        from <= to <= entries@.len(),
    ensures
        final(shown)@ == old(shown)@ + entries@.subrange(from as int, to as int),
{
    let mut i: usize = from;
    assert(shown@ =~= old(shown)@ + entries@.subrange(from as int, from as int));
    while i < to
        invariant
            from <= i <= to <= entries@.len(),
            shown@ == old(shown)@ + entries@.subrange(from as int, i as int),
        decreases to - i,
    {
        shown.push(entries[i].clone());
        i += 1;
        assert(shown@ =~= old(shown)@ + entries@.subrange(from as int, i as int));
    }
}

/// Selects the entries that are shown.
pub fn select_visible_entries(
    entries: &[StandingEntry],
    focused: Option<&VehicleKey>,
    limit: usize,
) -> (shown: Vec<StandingEntry>)
    ensures
        shown@ == visible(entries@, focus_of(focused), limit as nat),
{
    let len: usize = entries.len();
    let wanted: usize = if limit == 0 {
        1
    } else {
        limit
    };
    let count: usize = if wanted < len {
        wanted
    } else {
        len
    };
    let mut shown: Vec<StandingEntry> = Vec::new();
    let focus: Option<usize> = match focused {
        Some(key) => position_of_key(entries, key),
        None => None,
    };
    proof {
        if let Some(key) = focus_of(focused) {
            law_index_of_key(entries@, key);
        }
    }
    match focus {
        Some(index) => if count < len && index >= LEADERS && count > LEADERS {
            let size: usize = count - LEADERS;
            let middle: usize = if index >= size / 2 {
                index - size / 2
            } else {
                0
            };
            let low: usize = if middle <= len - size {
                middle
            } else {
                len - size
            };
            let start: usize = if low < LEADERS {
                LEADERS
            } else {
                low
            };
            show(entries, 0, LEADERS, &mut shown);
            show(entries, start, start + size, &mut shown);
            assert(shown@ =~= visible(entries@, focus_of(focused), limit as nat));
            return shown;
        },
        None => {},
    }
    show(entries, 0, count, &mut shown);
    assert(shown@ =~= visible(entries@, focus_of(focused), limit as nat));
    shown
}

/// What is shown keeps the order of the entries and repeats none: the index of what is
/// shown grows.
pub proof fn law_shown_keeps_order(len: nat, focus: Option<int>, limit: nat, j: int, k: int)
    requires
        focus matches Some(index) ==> 0 <= index < len,
        0 <= j < k < shown_count(len, limit),
    ensures
        0 <= shown_index(len, focus, limit, j) < shown_index(len, focus, limit, k) < len,
{
}

/// The leaders are always shown first, as far as the limit allows.
pub proof fn law_leaders_are_shown(len: nat, focus: Option<int>, limit: nat, k: int)
    requires
        0 <= k < LEADERS,
        k < shown_count(len, limit),
    ensures
        shown_index(len, focus, limit, k) == k,
{
}

/// The entry with the focus is shown, if the limit allows more than the leaders.
pub proof fn law_focus_is_shown(len: nat, index: int, limit: nat) -> (k: int)
    requires
        0 <= index < len,
        limit > LEADERS,
    ensures
        0 <= k < shown_count(len, limit),
        shown_index(len, Some(index), limit, k) == index,
{
    let count = shown_count(len, limit);
    if count < len && index >= LEADERS {
        LEADERS + (index - neighborhood_start(len, index, count - LEADERS))
    } else {
        index
    }
}

/// An entry with the key in focus is shown, if there is one and the limit allows more than
/// the leaders.
pub proof fn law_focused_entry_is_visible(entries: Seq<StandingEntry>, key: KeyView, limit: nat)
    requires
        exists|i: int| 0 <= i < entries.len() && (#[trigger] entries[i]).key@ == key,
        limit > LEADERS,
    ensures
        exists|k: int|
            0 <= k < visible(entries, Some(key), limit).len() && (#[trigger] visible(
                entries,
                Some(key),
                limit,
            )[k]).key@ == key,
{
    law_index_of_key(entries, key);
    let index = index_of_key(entries, key)->0;
    let k = law_focus_is_shown(entries.len(), index, limit);
    assert(visible(entries, Some(key), limit)[k].key@ == key);
}

/// Whether the entry is of the class.
pub open spec fn in_class(class: VehicleClass) -> spec_fn(StandingEntry) -> bool {
    |entry: StandingEntry| entry.class == class
}

/// The block of a class: its entries that are shown.
pub open spec fn class_block(
    entries: Seq<StandingEntry>,
    focused: Option<KeyView>,
    limit: nat,
    class: VehicleClass,
) -> Seq<StandingEntry> {
    visible(entries.filter(in_class(class)), focused, limit)
}

/// Whether a class has a block: it is asked for and has entries.
pub open spec fn has_block(
    entries: Seq<StandingEntry>,
    classes: Seq<VehicleClass>,
    class: VehicleClass,
) -> bool {
    classes.contains(class) && entries.filter(in_class(class)).len() > 0
}

/// The blocks of the first `n` classes of the order that have one.
pub open spec fn class_blocks(
    entries: Seq<StandingEntry>,
    focused: Option<KeyView>,
    limit: nat,
    classes: Seq<VehicleClass>,
    n: int,
) -> Seq<(VehicleClass, Seq<StandingEntry>)>
    decreases n,
{
    if n <= 0 {
        seq![]
    } else {
        let class = VehicleClass::ORDER[n - 1];
        let before = class_blocks(entries, focused, limit, classes, n - 1);
        if has_block(entries, classes, class) {
            before.push((class, class_block(entries, focused, limit, class)))
        } else {
            before
        }
    }
}

/// The value of a list of blocks.
pub open spec fn block_values(blocks: Seq<(VehicleClass, Vec<StandingEntry>)>) -> Seq<
    (VehicleClass, Seq<StandingEntry>),
> {
    Seq::new(blocks.len(), |i: int| (blocks[i].0, blocks[i].1@))
}

/// The entries of a class.
fn members_of(entries: &[StandingEntry], class: VehicleClass) -> (members: Vec<StandingEntry>)
    ensures
        members@ == entries@.filter(in_class(class)),
{
    let len: usize = entries.len();
    let mut members: Vec<StandingEntry> = Vec::new();
    let mut i: usize = 0;
    proof {
        reveal(Seq::filter);
        assert(entries@.take(0).filter(in_class(class)) =~= seq![]);
    }
    while i < len
        invariant
            i <= len == entries@.len(),
            members@ == entries@.take(i as int).filter(in_class(class)),
        decreases len - i,
    {
        proof {
            reveal(Seq::filter);
            assert(entries@.take(i + 1).drop_last() =~= entries@.take(i as int));
        }
        if entries[i].class == class {
            members.push(entries[i].clone());
        }
        i += 1;
    }
    assert(entries@.take(len as int) =~= entries@);
    members
}

/// Whether the class is among those asked for.
fn asks_for(classes: &[VehicleClass], class: VehicleClass) -> (yes: bool)
    ensures
        yes == classes@.contains(class),
{
    let len: usize = classes.len();
    let mut i: usize = 0;
    while i < len
        invariant
            i <= len == classes@.len(),
            forall|j: int| 0 <= j < i ==> classes@[j] != class,
        decreases len - i,
    {
        if classes[i] == class {
            assert(classes@[i as int] == class);
            return true;
        }
        i += 1;
    }
    false
}

/// Selects the entries that are shown of each class asked for, class by class.
pub fn select_class_blocks(
    entries: &[StandingEntry],
    focused: Option<&VehicleKey>,
    limit: usize,
    classes: &[VehicleClass],
) -> (blocks: Vec<(VehicleClass, Vec<StandingEntry>)>)
    ensures
        block_values(blocks@) == class_blocks(
            entries@,
            focus_of(focused),
            limit as nat,
            classes@,
            8,
        ),
{
    let order: [VehicleClass; 8] = VehicleClass::ORDER;
    let mut blocks: Vec<(VehicleClass, Vec<StandingEntry>)> = Vec::new();
    let mut n: usize = 0;
    assert(block_values(blocks@) =~= seq![]);
    while n < 8
        invariant
            n <= 8,
            order == VehicleClass::ORDER,
            block_values(blocks@) == class_blocks(
                entries@,
                focus_of(focused),
                limit as nat,
                classes@,
                n as int,
            ),
        decreases 8 - n,
    {
        let class: VehicleClass = order[n];
        let ghost before = blocks@;
        n += 1;
        if asks_for(classes, class) {
            let members: Vec<StandingEntry> = members_of(entries, class);
            if members.len() > 0 {
                let shown: Vec<StandingEntry> = select_visible_entries(
                    members.as_slice(),
                    focused,
                    limit,
                );
                blocks.push((class, shown));
                assert(block_values(blocks@) =~= block_values(before).push((class, shown@)));
            }
        }
    }
    blocks
}

/// Every block is that of a class that is asked for, is not empty and holds entries of
/// its class only.
pub proof fn law_blocks_are_asked_for(
    entries: Seq<StandingEntry>,
    focused: Option<KeyView>,
    limit: nat,
    classes: Seq<VehicleClass>,
    n: int,
    i: int,
)
    requires
        n <= 8,
        0 <= i < class_blocks(entries, focused, limit, classes, n).len(),
    ensures
        ({
            let (class, block) = class_blocks(entries, focused, limit, classes, n)[i];
            &&& classes.contains(class)
            &&& block == class_block(entries, focused, limit, class)
            &&& block.len() > 0
            &&& forall|k: int| 0 <= k < block.len() ==> (#[trigger] block[k]).class == class
                && entries.contains(block[k])
        }),
    decreases n,
{
    let blocks = class_blocks(entries, focused, limit, classes, n);
    let before = class_blocks(entries, focused, limit, classes, n - 1);
    if i < before.len() {
        law_blocks_are_asked_for(entries, focused, limit, classes, n - 1, i);
    } else {
        let class = VehicleClass::ORDER[n - 1];
        let members = entries.filter(in_class(class));
        let focus = focus_index(members, focused);
        let block = visible(members, focused, limit);
        if let Some(key) = focused {
            law_index_of_key(members, key);
        }
        assert forall|k: int| 0 <= k < block.len() implies (#[trigger] block[k]).class == class
            && entries.contains(block[k]) by {
            let at = shown_index(members.len(), focus, limit, k);
            assert(block[k] == members[at]);
            entries.lemma_filter_contains_rev(in_class(class), members[at]);
        }
    }
}

/// Each class that is asked for and has entries has a block.
pub proof fn law_asked_classes_have_blocks(
    entries: Seq<StandingEntry>,
    focused: Option<KeyView>,
    limit: nat,
    classes: Seq<VehicleClass>,
    n: int,
    place: int,
) -> (i: int)
    requires
        0 <= place < n <= 8,
        has_block(entries, classes, VehicleClass::ORDER[place]),
    ensures
        0 <= i < class_blocks(entries, focused, limit, classes, n).len(),
        class_blocks(entries, focused, limit, classes, n)[i].0 == VehicleClass::ORDER[place],
    decreases n,
{
    if place == n - 1 {
        class_blocks(entries, focused, limit, classes, n - 1).len() as int
    } else {
        law_asked_classes_have_blocks(entries, focused, limit, classes, n - 1, place)
    }
}

/// Blocks come in the order of the classes, each class once.
pub proof fn law_blocks_are_ordered(
    entries: Seq<StandingEntry>,
    focused: Option<KeyView>,
    limit: nat,
    classes: Seq<VehicleClass>,
    n: int,
    i: int,
    j: int,
)
    requires
        n <= 8,
        0 <= i < j < class_blocks(entries, focused, limit, classes, n).len(),
    ensures
        exists|p: int, q: int|
            0 <= p < q < n && class_blocks(entries, focused, limit, classes, n)[i].0
                == #[trigger] VehicleClass::ORDER[p] && class_blocks(
                entries,
                focused,
                limit,
                classes,
                n,
            )[j].0 == #[trigger] VehicleClass::ORDER[q],
    decreases n,
{
    let before = class_blocks(entries, focused, limit, classes, n - 1);
    if j < before.len() {
        law_blocks_are_ordered(entries, focused, limit, classes, n - 1, i, j);
    } else {
        let p = lemma_block_place(entries, focused, limit, classes, n - 1, i);
        assert(VehicleClass::ORDER[p] == before[i].0);
        assert(VehicleClass::ORDER[n - 1] == VehicleClass::ORDER[n - 1]);
    }
}

/// The place in the order of the class of a block.
proof fn lemma_block_place(
    entries: Seq<StandingEntry>,
    focused: Option<KeyView>,
    limit: nat,
    classes: Seq<VehicleClass>,
    n: int,
    i: int,
) -> (p: int)
    requires
        n <= 8,
        0 <= i < class_blocks(entries, focused, limit, classes, n).len(),
    ensures
        0 <= p < n,
        class_blocks(entries, focused, limit, classes, n)[i].0 == VehicleClass::ORDER[p],
    decreases n,
{
    let before = class_blocks(entries, focused, limit, classes, n - 1);
    if i < before.len() {
        lemma_block_place(entries, focused, limit, classes, n - 1, i)
    } else {
        n - 1
    }
}

/// Only the set of the classes asked for counts, not their order nor how often one is
/// asked for.
pub proof fn law_only_the_set_of_classes_counts(
    entries: Seq<StandingEntry>,
    focused: Option<KeyView>,
    limit: nat,
    a: Seq<VehicleClass>,
    b: Seq<VehicleClass>,
    n: int,
)
    requires
        forall|class: VehicleClass| #[trigger] a.contains(class) == b.contains(class),
    ensures
        class_blocks(entries, focused, limit, a, n) == class_blocks(entries, focused, limit, b, n),
    decreases n,
{
    if n > 0 {
        law_only_the_set_of_classes_counts(entries, focused, limit, a, b, n - 1);
        assert(a.contains(VehicleClass::ORDER[n - 1]) == b.contains(VehicleClass::ORDER[n - 1]));
    }
}

/// The entries of all blocks, one block after the other.
pub open spec fn joined(blocks: Seq<(VehicleClass, Seq<StandingEntry>)>) -> Seq<StandingEntry>
    decreases blocks.len(),
{
    if blocks.len() == 0 {
        seq![]
    } else {
        joined(blocks.drop_last()) + blocks.last().1
    }
}

/// Whether an entry is of one of the first `n` classes of the order.
spec fn in_first_classes(n: int) -> spec_fn(StandingEntry) -> bool {
    |entry: StandingEntry|
        exists|p: int| 0 <= p < n && #[trigger] VehicleClass::ORDER[p] == entry.class
}

/// The entries of the first classes are those of the classes before the last, and those of
/// the last.
proof fn lemma_classes_part_entries(entries: Seq<StandingEntry>, n: int)
    requires
        0 < n <= 8,
    ensures
        entries.filter(in_first_classes(n)).to_multiset() == entries.filter(
            in_first_classes(n - 1),
        ).to_multiset().add(entries.filter(in_class(VehicleClass::ORDER[n - 1])).to_multiset()),
    decreases entries.len(),
{
    broadcast use group_to_multiset_ensures;

    reveal(Seq::filter);
    let (upto, before, last) = (
        in_first_classes(n),
        in_first_classes(n - 1),
        in_class(VehicleClass::ORDER[n - 1]),
    );
    if entries.len() == 0 {
        assert(entries.filter(upto).to_multiset() =~= entries.filter(before).to_multiset().add(
            entries.filter(last).to_multiset(),
        ));
    } else {
        let rest = entries.drop_last();
        let entry = entries.last();
        lemma_classes_part_entries(rest, n);
        vehicle::law_order_lists_each_class_once(entry.class);
        if last(entry) {
            assert(VehicleClass::ORDER[n - 1] == entry.class);
            assert(upto(entry));
            assert(!before(entry));
        } else if before(entry) {
            assert(upto(entry));
        } else {
            assert(!upto(entry));
        }
        assert(entries.filter(upto).to_multiset() =~= entries.filter(before).to_multiset().add(
            entries.filter(last).to_multiset(),
        ));
    }
}

/// Where the limit allows all entries, all are visible.
proof fn lemma_all_visible(entries: Seq<StandingEntry>, focused: Option<KeyView>, limit: nat)
    requires
        limit >= entries.len(),
    ensures
        visible(entries, focused, limit) == entries,
{
    assert(visible(entries, focused, limit) =~= entries);
}

/// The blocks of the first classes hold the entries of those classes.
proof fn lemma_blocks_hold_classes(
    entries: Seq<StandingEntry>,
    focused: Option<KeyView>,
    limit: nat,
    classes: Seq<VehicleClass>,
    n: int,
)
    requires
        0 <= n <= 8,
        limit >= entries.len(),
        forall|class: VehicleClass| #[trigger] classes.contains(class),
    ensures
        joined(class_blocks(entries, focused, limit, classes, n)).to_multiset() == entries.filter(
            in_first_classes(n),
        ).to_multiset(),
    decreases n,
{
    broadcast use group_to_multiset_ensures;

    let blocks = class_blocks(entries, focused, limit, classes, n);
    if n == 0 {
        lemma_none_kept(entries, in_first_classes(0));
    } else {
        let before = class_blocks(entries, focused, limit, classes, n - 1);
        let class = VehicleClass::ORDER[n - 1];
        let members = entries.filter(in_class(class));
        lemma_blocks_hold_classes(entries, focused, limit, classes, n - 1);
        lemma_classes_part_entries(entries, n);
        lemma_filter_is_no_longer(entries, in_class(class));
        lemma_all_visible(members, focused, limit);
        assert(classes.contains(class));
        if members.len() > 0 {
            assert(blocks.drop_last() =~= before);
            assert(joined(blocks) == joined(before) + members);
            lemma_multiset_commutative(joined(before), members);
        } else {
            assert(members =~= seq![]);
            assert(joined(before).to_multiset() =~= joined(before).to_multiset().add(
                members.to_multiset(),
            ));
        }
    }
}

/// Nothing is kept of entries that are all left out.
proof fn lemma_none_kept(entries: Seq<StandingEntry>, kept: spec_fn(StandingEntry) -> bool)
    requires
        forall|entry: StandingEntry| !#[trigger] kept(entry),
    ensures
        entries.filter(kept) == Seq::<StandingEntry>::empty(),
    decreases entries.len(),
{
    reveal(Seq::filter);
    if entries.len() > 0 {
        lemma_none_kept(entries.drop_last(), kept);
    } else {
        assert(entries.filter(kept) =~= Seq::<StandingEntry>::empty());
    }
}

/// All entries are kept where none is left out.
proof fn lemma_all_kept(entries: Seq<StandingEntry>, kept: spec_fn(StandingEntry) -> bool)
    requires
        forall|entry: StandingEntry| #[trigger] kept(entry),
    ensures
        entries.filter(kept) == entries,
    decreases entries.len(),
{
    reveal(Seq::filter);
    if entries.len() > 0 {
        lemma_all_kept(entries.drop_last(), kept);
        assert(entries.drop_last().push(entries.last()) =~= entries);
    } else {
        assert(entries.filter(kept) =~= entries);
    }
}

/// What is kept is no more than there was.
proof fn lemma_filter_is_no_longer(
    entries: Seq<StandingEntry>,
    kept: spec_fn(StandingEntry) -> bool,
)
    ensures
        entries.filter(kept).len() <= entries.len(),
    decreases entries.len(),
{
    reveal(Seq::filter);
    if entries.len() > 0 {
        lemma_filter_is_no_longer(entries.drop_last(), kept);
    }
}

/// Where every class is asked for and the limit allows all entries, the blocks together
/// hold each entry as often as the standings do.
pub proof fn law_blocks_hold_all_entries(
    entries: Seq<StandingEntry>,
    focused: Option<KeyView>,
    limit: nat,
    classes: Seq<VehicleClass>,
)
    requires
        limit >= entries.len(),
        forall|class: VehicleClass| #[trigger] classes.contains(class),
    ensures
        joined(class_blocks(entries, focused, limit, classes, 8)).to_multiset()
            == entries.to_multiset(),
{
    lemma_blocks_hold_classes(entries, focused, limit, classes, 8);
    assert forall|entry: StandingEntry| #[trigger] in_first_classes(8)(entry) by {
        vehicle::law_order_lists_each_class_once(entry.class);
    }
    lemma_all_kept(entries, in_first_classes(8));
}

/// As many entries are shown as the limit allows, one at least, and no more than there are.
pub proof fn law_number_shown(entries: Seq<StandingEntry>, focused: Option<KeyView>, limit: nat)
    ensures
        visible(entries, focused, limit).len() <= entries.len(),
        visible(entries, focused, limit).len() <= limit || limit == 0,
        limit >= entries.len() ==> visible(entries, focused, limit) == entries,
        0 < limit < entries.len() ==> visible(entries, focused, limit).len() == limit,
        limit == 0 && entries.len() > 0 ==> visible(entries, focused, limit).len() == 1,
{
    if limit >= entries.len() {
        lemma_all_visible(entries, focused, limit);
    }
}

/// The first entries are shown, as many as the limit allows, where no entry has the focus,
/// where one of the first three has it, or where the limit allows three at most.
pub proof fn law_first_entries_are_shown(
    entries: Seq<StandingEntry>,
    focused: Option<KeyView>,
    limit: nat,
)
    requires
        limit <= 3 || focused is None || (exists|i: int|
            0 <= i < 3 && i < entries.len() && (#[trigger] entries[i]).key@ == focused->0) || (
        forall|i: int| 0 <= i < entries.len() ==> (#[trigger] entries[i]).key@ != focused->0),
    ensures
        forall|k: int|
            0 <= k < visible(entries, focused, limit).len() ==> (#[trigger] visible(
                entries,
                focused,
                limit,
            )[k]) == entries[k],
{
    if let Some(key) = focused {
        law_index_of_key(entries, key);
    }
}

/// Where an entry behind the first three has the focus, and more than three but not all can
/// be shown, the first three are shown and behind them a run of entries without a gap, the
/// neighbourhood of the one in focus. As many of it stand ahead of that one as half its size,
/// rounded down, unless it begins right behind the first three, where they are fewer at most,
/// or ends with the last entry, where they are more at most.
pub proof fn law_neighborhood_is_centred(
    entries: Seq<StandingEntry>,
    key: KeyView,
    index: int,
    limit: nat,
) -> (start: int)
    requires
        3 <= index < entries.len(),
        entries[index].key@ == key,
        forall|i: int| 0 <= i < index ==> (#[trigger] entries[i]).key@ != key,
        3 < limit < entries.len(),
    ensures
        ({
            let shown = visible(entries, Some(key), limit);
            let size = limit - 3;
            let ahead = index - start;
            &&& shown.len() == limit
            &&& forall|k: int| 0 <= k < 3 ==> (#[trigger] shown[k]) == entries[k]
            &&& forall|k: int| 3 <= k < limit ==> (#[trigger] shown[k]) == entries[start + k - 3]
            &&& 3 <= start && start + size <= entries.len()
            &&& 0 <= ahead < size
            &&& 3 < start && start + size < entries.len() ==> ahead == size / 2
            &&& start == 3 && start + size < entries.len() ==> ahead <= size / 2
            &&& 3 < start && start + size == entries.len() ==> ahead >= size / 2
        }),
{
    law_index_of_key(entries, key);
    neighborhood_start(entries.len(), index, limit - 3)
}

/// A neighbourhood that touches neither the first three nor the end has as many entries
/// behind the one in focus as ahead of it, or one less.
pub proof fn law_neighborhood_is_balanced(
    entries: Seq<StandingEntry>,
    key: KeyView,
    index: int,
    limit: nat,
    k: int,
)
    requires
        3 <= index < entries.len(),
        entries[index].key@ == key,
        forall|i: int| 0 <= i < index ==> (#[trigger] entries[i]).key@ != key,
        3 < limit < entries.len(),
        3 + limit <= index <= entries.len() - limit,
        3 <= k < limit,
        k - 3 == (limit - 3) / 2,
    ensures
        visible(entries, Some(key), limit)[k] == entries[index],
        -1 <= (limit - 1 - k) - (k - 3) <= 0,
{
    law_index_of_key(entries, key);
}

/// Each block is what is visible of the entries of its class, in their order.
pub proof fn law_block_shows_its_class(
    entries: Seq<StandingEntry>,
    focused: Option<KeyView>,
    limit: nat,
    classes: Seq<VehicleClass>,
    i: int,
)
    requires
        0 <= i < class_blocks(entries, focused, limit, classes, 8).len(),
    ensures
        ({
            let (class, block) = class_blocks(entries, focused, limit, classes, 8)[i];
            block == visible(
                entries.filter(|entry: StandingEntry| entry.class == class),
                focused,
                limit,
            )
        }),
{
    law_blocks_are_asked_for(entries, focused, limit, classes, 8, i);
    let class = class_blocks(entries, focused, limit, classes, 8)[i].0;
    assert((|entry: StandingEntry| entry.class == class) =~= in_class(class));
}

/// A class that is asked for and that an entry is of has a block, and one that is not asked
/// for, or that no entry is of, has none.
pub proof fn law_which_classes_have_blocks(
    entries: Seq<StandingEntry>,
    focused: Option<KeyView>,
    limit: nat,
    classes: Seq<VehicleClass>,
    class: VehicleClass,
)
    ensures
        (exists|i: int|
            0 <= i < class_blocks(entries, focused, limit, classes, 8).len()
                && (#[trigger] class_blocks(entries, focused, limit, classes, 8)[i]).0 == class)
            <==> (classes.contains(class) && exists|j: int|
            0 <= j < entries.len() && (#[trigger] entries[j]).class == class),
{
    let blocks = class_blocks(entries, focused, limit, classes, 8);
    vehicle::law_order_lists_each_class_once(class);
    let place = choose|place: int| 0 <= place < 8 && VehicleClass::ORDER[place] == class;
    if classes.contains(class) && exists|j: int|
        0 <= j < entries.len() && (#[trigger] entries[j]).class == class {
        let j = choose|j: int| 0 <= j < entries.len() && (#[trigger] entries[j]).class == class;
        entries.lemma_filter_contains(in_class(class), j);
        let i = law_asked_classes_have_blocks(entries, focused, limit, classes, 8, place);
        assert(blocks[i].0 == class);
    }
    if exists|i: int| 0 <= i < blocks.len() && (#[trigger] blocks[i]).0 == class {
        let i = choose|i: int| 0 <= i < blocks.len() && (#[trigger] blocks[i]).0 == class;
        law_blocks_are_asked_for(entries, focused, limit, classes, 8, i);
        let entry = blocks[i].1[0];
        assert(entries.contains(entry));
        let j = choose|j: int| 0 <= j < entries.len() && entries[j] == entry;
        assert(entries[j].class == class);
    }
}

} // verus!
