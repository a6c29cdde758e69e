//! The index: for every key, where in the log its latest writes lie.
//!
//! A key has at most one pointer in each slot. The committed slot holds the
//! write that everybody sees. The slot of a transaction holds the write that
//! only that transaction sees until it commits.
use crate::storage::kvkey::{copy_bytes, same_key, KVKey};
use crate::storage::log_pointer::LogPointer;
use crate::storage::transaction_manager::TransactionId;
use vstd::prelude::*;

verus! {

/// A slot of the index as a mathematical value: `None` is the committed slot,
/// `Some(t)` the slot of transaction `t`.
pub open spec fn slot_view(slot: Option<TransactionId>) -> Option<u64> {
    match slot {
        Some(transaction_id) => Some(transaction_id@),
        None => None,
    }
}

/// The index as a mathematical value: a map from a key and a slot to a log
/// pointer.
pub type IndexView = Map<(Seq<u8>, Option<u64>), LogPointer>;

/// One pointer of the index.
#[derive(Debug, Clone)]
pub struct PointerEntry {
    key: KVKey,
    slot: Option<TransactionId>,
    pointer: LogPointer,
}

impl PointerEntry {
    /// The key and the slot under which the pointer is kept.
    pub closed spec fn place(&self) -> (Seq<u8>, Option<u64>) {
        (self.key@, slot_view(self.slot))
    }

    /// The pointer that is kept.
    pub closed spec fn target(&self) -> LogPointer {
        self.pointer
    }
}

/// The map that the entries stand for.
pub open spec fn entries_view(entries: Seq<PointerEntry>) -> IndexView
    decreases entries.len(),
{
    if entries.len() == 0 {
        Map::empty()
    } else {
        entries_view(entries.drop_last()).insert(entries.last().place(), entries.last().target())
    }
}

/// The position of the last entry kept under `place`, or `-1` if there is
/// none.
pub open spec fn last_position(entries: Seq<PointerEntry>, place: (Seq<u8>, Option<u64>)) -> int
    decreases entries.len(),
{
    if entries.len() == 0 {
        -1
    } else if entries.last().place() == place {
        entries.len() - 1
    } else {
        last_position(entries.drop_last(), place)
    }
}

/// The last entry kept under a place is an entry kept under that place, and
/// no entry behind it is.
pub proof fn lemma_last_position(entries: Seq<PointerEntry>, place: (Seq<u8>, Option<u64>))
    ensures
        -1 <= last_position(entries, place) < entries.len(),
        last_position(entries, place) >= 0 ==> entries[last_position(entries, place)].place()
            == place,
        forall|j: int|
            last_position(entries, place) < j < entries.len() ==> (#[trigger] entries[j]).place()
                != place,
    decreases entries.len(),
{
    if entries.len() > 0 && entries.last().place() != place {
        let front = entries.drop_last();
        lemma_last_position(front, place);
        assert forall|j: int| last_position(entries, place) < j < entries.len() implies (
        #[trigger] entries[j]).place() != place by {
            if j < front.len() {
                assert(front[j] == entries[j]);
            }
        }
    }
}

/// The map holds a place exactly if an entry is kept under it, and gives the
/// pointer of the last such entry.
pub proof fn lemma_view_by_position(entries: Seq<PointerEntry>, place: (Seq<u8>, Option<u64>))
    ensures
        entries_view(entries).contains_key(place) <==> last_position(entries, place) >= 0,
        last_position(entries, place) >= 0 ==> entries_view(entries)[place]
            == entries[last_position(entries, place)].target(),
    decreases entries.len(),
{
    if entries.len() > 0 {
        let front = entries.drop_last();
        lemma_view_by_position(front, place);
        lemma_last_position(front, place);
        assert(entries_view(entries) == entries_view(front).insert(
            entries.last().place(),
            entries.last().target(),
        ));
        if entries.last().place() != place && last_position(front, place) >= 0 {
            assert(front[last_position(front, place)] == entries[last_position(front, place)]);
        }
    }
}

/// An entry with no entry of the same place behind it is the last entry kept
/// under its place.
pub proof fn lemma_position_of_last(entries: Seq<PointerEntry>, i: int)
    requires
        0 <= i < entries.len(),
        forall|j: int| i < j < entries.len() ==> (#[trigger] entries[j]).place() != entries[i].place(),
    ensures
        last_position(entries, entries[i].place()) == i,
    decreases entries.len(),
{
    if i < entries.len() - 1 {
        let front = entries.drop_last();
        assert(entries[entries.len() - 1].place() != entries[i].place());
        assert(front[i] == entries[i]);
        assert forall|j: int| i < j < front.len() implies (#[trigger] front[j]).place()
            != front[i].place() by {
            assert(front[j] == entries[j]);
        }
        lemma_position_of_last(front, i);
    }
}

/// Where no entry is kept under a place, there is no last one.
pub proof fn lemma_position_of_none(entries: Seq<PointerEntry>, place: (Seq<u8>, Option<u64>))
    requires
        forall|j: int| 0 <= j < entries.len() ==> (#[trigger] entries[j]).place() != place,
    ensures
        last_position(entries, place) == -1,
    decreases entries.len(),
{
    if entries.len() > 0 {
        let front = entries.drop_last();
        assert(entries[entries.len() - 1].place() != place);
        assert forall|j: int| 0 <= j < front.len() implies (#[trigger] front[j]).place()
            != place by {
            assert(front[j] == entries[j]);
        }
        lemma_position_of_none(front, place);
    }
}

/// Taking the entry at position `i` out moves the last entry of every other
/// place along with the entries behind `i`.
pub proof fn lemma_position_remove(
    entries: Seq<PointerEntry>,
    i: int,
    place: (Seq<u8>, Option<u64>),
)
    requires
        0 <= i < entries.len(),
        place != entries[i].place(),
    ensures
        last_position(entries.remove(i), place) == if last_position(entries, place) > i {
            last_position(entries, place) - 1
        } else {
            last_position(entries, place)
        },
    decreases entries.len(),
{
    let shorter = entries.remove(i);
    let front = entries.drop_last();
    lemma_last_position(entries, place);
    if i == entries.len() - 1 {
        assert(shorter =~= front);
    } else {
        assert(shorter.drop_last() =~= front.remove(i));
        assert(shorter.last() == entries.last());
        assert(front[i] == entries[i]);
        lemma_last_position(front, place);
        if entries.last().place() != place {
            lemma_position_remove(front, i, place);
        }
    }
}

/// Taking one entry out changes nothing for the other places.
pub proof fn lemma_view_remove(entries: Seq<PointerEntry>, i: int)
    requires
        0 <= i < entries.len(),
    ensures
        forall|place: (Seq<u8>, Option<u64>)|
            place != entries[i].place() ==> (#[trigger] entries_view(
                entries.remove(i),
            ).contains_key(place)) == entries_view(entries).contains_key(place),
        forall|place: (Seq<u8>, Option<u64>)|
            place != entries[i].place() && entries_view(entries).contains_key(place)
                ==> #[trigger] entries_view(entries.remove(i))[place] == entries_view(
                entries,
            )[place],
{
    let shorter = entries.remove(i);
    assert forall|place: (Seq<u8>, Option<u64>)| place != entries[i].place() implies (
    #[trigger] entries_view(shorter).contains_key(place)) == entries_view(entries).contains_key(
        place,
    ) by {
        lemma_position_remove(entries, i, place);
        lemma_view_by_position(entries, place);
        lemma_view_by_position(shorter, place);
        lemma_last_position(entries, place);
    }
    assert forall|place: (Seq<u8>, Option<u64>)|
        place != entries[i].place() && entries_view(entries).contains_key(
            place,
        ) implies #[trigger] entries_view(shorter)[place] == entries_view(entries)[place] by {
        lemma_position_remove(entries, i, place);
        lemma_view_by_position(entries, place);
        lemma_view_by_position(shorter, place);
        lemma_last_position(entries, place);
    }
}

/// No two entries are kept under the same key and slot.
pub open spec fn places_distinct(entries: Seq<PointerEntry>) -> bool {
    forall|i: int, j: int|
        0 <= i < j < entries.len() ==> (#[trigger] entries[i]).place() != (
        #[trigger] entries[j]).place()
}

/// Taking an entry out leaves no two entries under the same key and slot, if
/// there were none.
proof fn lemma_distinct_remove(entries: Seq<PointerEntry>, i: int)
    requires
        places_distinct(entries),
        0 <= i < entries.len(),
    ensures
        places_distinct(entries.remove(i)),
{
    let shorter = entries.remove(i);
    assert forall|a: int, b: int| 0 <= a < b < shorter.len() implies (#[trigger] shorter[a]).place()
        != (#[trigger] shorter[b]).place() by {
        let a0 = if a < i {
            a
        } else {
            a + 1
        };
        let b0 = if b < i {
            b
        } else {
            b + 1
        };
        assert(shorter[a] == entries[a0] && shorter[b] == entries[b0]);
    }
}

/// Putting an entry behind entries of which none is kept under its key and
/// slot leaves no two entries under the same key and slot, if there were
/// none.
proof fn lemma_distinct_push(entries: Seq<PointerEntry>, entry: PointerEntry)
    requires
        places_distinct(entries),
        !entries_view(entries).contains_key(entry.place()),
    ensures
        places_distinct(entries.push(entry)),
{
    let longer = entries.push(entry);
    lemma_view_by_position(entries, entry.place());
    lemma_last_position(entries, entry.place());
    assert forall|a: int, b: int| 0 <= a < b < longer.len() implies (#[trigger] longer[a]).place()
        != (#[trigger] longer[b]).place() by {
        assert(longer[a] == entries[a]);
        if b < entries.len() {
            assert(longer[b] == entries[b]);
        } else {
            assert(entries[a].place() != entry.place());
        }
    }
}

/// The index of an engine.
#[derive(Debug, Clone)]
pub struct KeyPointerMap {
    entries: Vec<PointerEntry>,
}

impl View for KeyPointerMap {
    type V = IndexView;

    closed spec fn view(&self) -> IndexView {
        entries_view(self.entries@)
    }
}

impl KeyPointerMap {
    /// What the operations of the index keep up: under a key and a slot,
    /// nothing is kept twice.
    pub closed spec fn well_formed(&self) -> bool {
        places_distinct(self.entries@)
    }

    /// An index without pointers.
    pub fn new() -> (index: KeyPointerMap)
        ensures
            index@ == Map::<(Seq<u8>, Option<u64>), LogPointer>::empty(),
            index.well_formed(),
    {
        KeyPointerMap { entries: Vec::new() }
    }

    /// Whether the entry at position `i` is kept for `key` in `slot`.
    fn entry_is_for(&self, i: usize, key: &KVKey, slot: Option<TransactionId>) -> (same: bool)
        requires
            i < self.entries@.len(),
        ensures
            same == (self.entries@[i as int].place() == (key@, slot_view(slot))),
    {
        let entry = &self.entries[i];
        let same_slot = match (entry.slot, slot) {
            (Some(a), Some(b)) => a.0 == b.0,
            (None, None) => true,
            _ => false,
        };
        same_slot && same_key(&entry.key, key)
    }

    /// The pointer kept for `key` in `slot`, if there is one.
    pub fn get(&self, key: &KVKey, slot: Option<TransactionId>) -> (pointer: Option<LogPointer>)
        ensures
            pointer == if self@.contains_key((key@, slot_view(slot))) {
                Some(self@[(key@, slot_view(slot))])
            } else {
                None
            },
    {
        let mut found: Option<usize> = None;
        let mut i: usize = 0;
        while i < self.entries.len()
            invariant
                i <= self.entries@.len(),
                match found {
                    Some(at) => at < i && self.entries@[at as int].place() == (
                        key@,
                        slot_view(slot),
                    ) && forall|j: int|
                        at < j < i ==> (#[trigger] self.entries@[j]).place() != (
                            key@,
                            slot_view(slot),
                        ),
                    None => forall|j: int|
                        0 <= j < i ==> (#[trigger] self.entries@[j]).place() != (
                            key@,
                            slot_view(slot),
                        ),
                },
            decreases self.entries.len() - i,
        {
            if self.entry_is_for(i, key, slot) {
                found = Some(i);
            }
            i = i + 1;
        }
        match found {
            Some(at) => {
                proof {
                    lemma_position_of_last(self.entries@, at as int);
                    lemma_view_by_position(self.entries@, (key@, slot_view(slot)));
                }
                Some(self.entries[at].pointer)
            },
            None => {
                proof {
                    lemma_position_of_none(self.entries@, (key@, slot_view(slot)));
                    lemma_view_by_position(self.entries@, (key@, slot_view(slot)));
                }
                None
            },
        }
    }

    /// Keeps `pointer` for `key` in `slot`, in place of the pointer that was
    /// kept there, if any.
    pub fn insert(&mut self, key: &KVKey, slot: Option<TransactionId>, pointer: LogPointer)
        ensures
            final(self)@ == old(self)@.insert((key@, slot_view(slot)), pointer),
            old(self).well_formed() ==> final(self).well_formed(),
    {
        self.remove(key, slot);
        let entry = PointerEntry { key: copy_bytes(key.as_slice()), slot, pointer };
        let ghost before = self.entries@;
        proof {
            if places_distinct(before) {
                lemma_distinct_push(before, entry);
            }
        }
        self.entries.push(entry);
        assert(self.entries@.drop_last() =~= before);
        assert(self@ =~= old(self)@.insert((key@, slot_view(slot)), pointer));
    }

    /// Drops the pointer kept for `key` in `slot`, if there is one.
    pub fn remove(&mut self, key: &KVKey, slot: Option<TransactionId>)
        ensures
            final(self)@ == old(self)@.remove((key@, slot_view(slot))),
            old(self).well_formed() ==> final(self).well_formed(),
    {
        let ghost gone = (key@, slot_view(slot));
        let mut i: usize = 0;
        while i < self.entries.len()
            invariant
                i <= self.entries@.len(),
                gone == (key@, slot_view(slot)),
                old(self).well_formed() ==> places_distinct(self.entries@),
                forall|j: int| 0 <= j < i ==> (#[trigger] self.entries@[j]).place() != gone,
                forall|place: (Seq<u8>, Option<u64>)|
                    place != gone ==> (#[trigger] self@.contains_key(place)) == old(
                        self,
                    )@.contains_key(place),
                forall|place: (Seq<u8>, Option<u64>)|
                    place != gone && old(self)@.contains_key(place) ==> #[trigger] self@[place]
                        == old(self)@[place],
            decreases self.entries.len() - i,
        {
            if self.entry_is_for(i, key, slot) {
                proof {
                    lemma_view_remove(self.entries@, i as int);
                    if places_distinct(self.entries@) {
                        lemma_distinct_remove(self.entries@, i as int);
                    }
                }
                let ghost before_view = self@;
                self.entries.remove(i);
                assert forall|place: (Seq<u8>, Option<u64>)| place != gone implies (
                #[trigger] self@.contains_key(place)) == old(self)@.contains_key(place) by {
                    assert(before_view.contains_key(place) == old(self)@.contains_key(place));
                }
                assert forall|place: (Seq<u8>, Option<u64>)|
                    place != gone && old(self)@.contains_key(place) implies #[trigger] self@[place]
                    == old(self)@[place] by {
                    assert(before_view.contains_key(place));
                    assert(before_view[place] == old(self)@[place]);
                }
            } else {
                i = i + 1;
            }
        }
        proof {
            lemma_position_of_none(self.entries@, gone);
            lemma_view_by_position(self.entries@, gone);
            assert(self@ =~= old(self)@.remove(gone));
        }
    }

    /// Drops every pointer kept in the committed slot of a key. The slots of
    /// transactions stay as they are.
    pub fn remove_committed(&mut self)
        ensures
            final(self)@ == without_committed(old(self)@),
            old(self).well_formed() ==> final(self).well_formed(),
    {
        let mut i: usize = 0;
        while i < self.entries.len()
            invariant
                i <= self.entries@.len(),
                old(self).well_formed() ==> places_distinct(self.entries@),
                forall|j: int| 0 <= j < i ==> (#[trigger] self.entries@[j]).place().1 is Some,
                forall|place: (Seq<u8>, Option<u64>)|
                    place.1 is Some ==> (#[trigger] self@.contains_key(place)) == old(
                        self,
                    )@.contains_key(place),
                forall|place: (Seq<u8>, Option<u64>)|
                    place.1 is Some && old(self)@.contains_key(place) ==> #[trigger] self@[place]
                        == old(self)@[place],
            decreases self.entries.len() - i,
        {
            if self.entries[i].slot.is_none() {
                proof {
                    lemma_view_remove(self.entries@, i as int);
                    if places_distinct(self.entries@) {
                        lemma_distinct_remove(self.entries@, i as int);
                    }
                }
                let ghost before_view = self@;
                self.entries.remove(i);
                assert forall|place: (Seq<u8>, Option<u64>)| place.1 is Some implies (
                #[trigger] self@.contains_key(place)) == old(self)@.contains_key(place) by {
                    assert(before_view.contains_key(place) == old(self)@.contains_key(place));
                }
                assert forall|place: (Seq<u8>, Option<u64>)|
                    place.1 is Some && old(self)@.contains_key(
                        place,
                    ) implies #[trigger] self@[place] == old(self)@[place] by {
                    assert(before_view.contains_key(place));
                    assert(before_view[place] == old(self)@[place]);
                }
            } else {
                i = i + 1;
            }
        }
        proof {
            assert forall|place: (Seq<u8>, Option<u64>)| #[trigger]
                self@.contains_key(place) implies place.1 is Some by {
                lemma_view_by_position(self.entries@, place);
                lemma_last_position(self.entries@, place);
            }
            assert(self@ =~= without_committed(old(self)@));
        }
    }

    /// The keys that have a pointer in the committed slot, each once.
    pub fn committed_keys(&self) -> (keys: Vec<KVKey>)
        requires
            self.well_formed(),
        ensures
            forall|key: Seq<u8>|
                self@.contains_key((key, None)) <==> exists|k: int|
                    0 <= k < keys@.len() && (#[trigger] keys@[k])@ == key,
            forall|a: int, b: int|
                0 <= a < b < keys@.len() ==> (#[trigger] keys@[a])@ != (#[trigger] keys@[b])@,
    {
        let mut keys: Vec<KVKey> = Vec::new();
        let ghost mut from: Seq<int> = Seq::empty();
        let mut i: usize = 0;
        while i < self.entries.len()
            invariant
                i <= self.entries@.len(),
                places_distinct(self.entries@),
                from.len() == keys@.len(),
                forall|k: int|
                    0 <= k < from.len() ==> 0 <= (#[trigger] from[k]) < i
                        && self.entries@[from[k]].place() == (keys@[k]@, None::<u64>),
                forall|a: int, b: int| 0 <= a < b < from.len() ==> from[a] < from[b],
                forall|j: int|
                    0 <= j < i && (#[trigger] self.entries@[j]).place().1 is None ==> exists|
                        k: int,
                    | 0 <= k < from.len() && #[trigger] from[k] == j,
            decreases self.entries.len() - i,
        {
            if self.entries[i].slot.is_none() {
                let ghost before = from;
                keys.push(copy_bytes(self.entries[i].key.as_slice()));
                proof {
                    from = from.push(i as int);
                    assert forall|j: int|
                        0 <= j < i + 1 && (#[trigger] self.entries@[j]).place().1 is None implies exists|
                        k: int,
                    | 0 <= k < from.len() && #[trigger] from[k] == j by {
                        if j < i {
                            let k = choose|k: int| 0 <= k < before.len() && #[trigger] before[k] == j;
                            assert(from[k] == j);
                        } else {
                            assert(from[from.len() - 1] == j);
                        }
                    }
                }
            }
            i = i + 1;
        }
        proof {
            assert forall|key: Seq<u8>| self@.contains_key((key, None)) implies exists|k: int|
                0 <= k < keys@.len() && (#[trigger] keys@[k])@ == key by {
                let place = (key, None::<u64>);
                lemma_view_by_position(self.entries@, place);
                lemma_last_position(self.entries@, place);
                let j = last_position(self.entries@, place);
                assert(self.entries@[j].place().1 is None);
                let k = choose|k: int| 0 <= k < from.len() && #[trigger] from[k] == j;
                assert(keys@[k]@ == key);
            }
            assert forall|key: Seq<u8>|
                (exists|k: int|
                    0 <= k < keys@.len() && (#[trigger] keys@[k])@
                        == key) implies self@.contains_key((key, None)) by {
                let place = (key, None::<u64>);
                let k = choose|k: int| 0 <= k < keys@.len() && (#[trigger] keys@[k])@ == key;
                lemma_view_by_position(self.entries@, place);
                lemma_last_position(self.entries@, place);
                assert(self.entries@[from[k]].place() == place);
            }
            assert forall|a: int, b: int| 0 <= a < b < keys@.len() implies (#[trigger] keys@[a])@
                != (#[trigger] keys@[b])@ by {
                assert(from[a] < from[b]);
                assert(self.entries@[from[a]].place() != self.entries@[from[b]].place());
            }
        }
        keys
    }
}

/// The index without the pointers in committed slots.
pub open spec fn without_committed(index: IndexView) -> IndexView {
    Map::new(
        |place: (Seq<u8>, Option<u64>)| index.contains_key(place) && place.1 is Some,
        |place: (Seq<u8>, Option<u64>)| index[place],
    )
}

} // verus!
