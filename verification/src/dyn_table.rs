//! The dynamic table: the header fields that earlier blocks have left for later
//! ones to refer to.
use crate::arena;
use crate::arena::{DecodedHeader, WriteArena};
use crate::laws::table;
use std::collections::VecDeque;
use vstd::prelude::*;

verus! {

/// What an entry costs beyond the bytes of its name and value.
pub const ENTRY_OVERHEAD: usize = 32;

/// A header field in the table.
#[verifier::ext_equal]
pub struct Entry {
    pub name: Seq<u8>,
    pub value: Seq<u8>,
    /// What the entry counts for against the table's limit.
    pub size: nat,
}

impl Entry {
    /// What the name and the value of the entry cost: their lengths and the
    /// overhead.
    pub open spec fn cost(self) -> nat {
        self.name.len() + self.value.len() + ENTRY_OVERHEAD as nat
    }
}

/// What `entries` count for together.
pub open spec fn total(entries: Seq<Entry>) -> nat
    decreases entries.len(),
{
    if entries.len() == 0 {
        0
    } else {
        total(entries.drop_last()) + entries.last().size
    }
}

/// What is left of `entries`, newest first, once the oldest have been dropped
/// one by one until the rest counts for no more than `room`.
pub open spec fn evicted(entries: Seq<Entry>, room: int) -> Seq<Entry>
    decreases entries.len(),
{
    if entries.len() == 0 || total(entries) <= room {
        entries
    } else {
        evicted(entries.drop_last(), room)
    }
}

/// The state of a dynamic table.
#[verifier::ext_equal]
pub struct Table {
    /// All the bytes that were ever entered, one string after the other.
    pub log: Seq<u8>,
    /// The entries, newest first.
    pub entries: Seq<Entry>,
    pub max_size: nat,
}

impl Table {
    /// A table without entries.
    pub open spec fn empty(max_size: nat) -> Table {
        Table { log: Seq::empty(), entries: Seq::empty(), max_size }
    }

    /// What the entries count for.
    pub open spec fn size(self) -> nat {
        total(self.entries)
    }

    /// The table keeps to its limit, and each entry counts at least for what its
    /// name and its value cost.
    pub open spec fn wf(self) -> bool {
        &&& self.size() <= self.max_size
        &&& forall|i: int|
            0 <= i < self.entries.len() ==> (#[trigger] self.entries[i]).size
                >= self.entries[i].cost()
    }

    /// Each entry counts for what its name and its value cost. That is so of every
    /// entry whose strings were not cut.
    pub open spec fn exact(self) -> bool {
        forall|i: int|
            0 <= i < self.entries.len() ==> (#[trigger] self.entries[i]).size
                == self.entries[i].cost()
    }

    /// The names and values of all entries have lengths of sixteen bits.
    pub open spec fn short(self) -> bool {
        forall|i: int|
            0 <= i < self.entries.len() ==> (#[trigger] self.entries[i]).name.len() < 0x1_0000
                && self.entries[i].value.len() < 0x1_0000
    }

    /// The table after the oldest entries have made way for `size` more.
    pub open spec fn reserved(self, size: nat) -> Table {
        Table { entries: evicted(self.entries, self.max_size - size), ..self }
    }

    /// The table after a field has been entered. One that is larger than the
    /// whole table empties it and is not entered.
    pub open spec fn inserted(self, name: Seq<u8>, value: Seq<u8>) -> Table {
        let size = name.len() + value.len() + ENTRY_OVERHEAD as nat;
        let left = self.reserved(size);
        if size > self.max_size {
            left
        } else {
            let entry = Entry {
                name: arena::kept(self.log, name),
                value: arena::kept(self.log + name, value),
                size,
            };
            Table { log: self.log + name + value, entries: seq![entry] + left.entries, ..self }
        }
    }

    /// The table after its limit has been changed.
    pub open spec fn resized(self, max_size: nat) -> Table {
        Table { entries: evicted(self.entries, max_size as int), max_size, ..self }
    }
}

/// Eviction leaves the newest entries, as many as fit.
pub proof fn lemma_evicted(entries: Seq<Entry>, room: int)
    ensures
        ({
            let left = evicted(entries, room);
            &&& left.len() <= entries.len()
            &&& left == entries.take(left.len() as int)
            &&& total(left) <= room || left.len() == 0
            &&& left.len() < entries.len() ==> total(entries.take((left.len() + 1) as int)) > room
        }),
    decreases entries.len(),
{
    assert(entries.take(entries.len() as int) =~= entries);
    if entries.len() > 0 && total(entries) > room {
        let fewer = entries.drop_last();
        lemma_evicted(fewer, room);
        let left = evicted(fewer, room);
        assert(fewer.take(left.len() as int) =~= entries.take(left.len() as int));
        if left.len() < fewer.len() {
            assert(fewer.take((left.len() + 1) as int) =~= entries.take((left.len() + 1) as int));
        }
    }
}

/// Where each entry counts for the overhead at least, a room smaller than that
/// holds none.
pub proof fn lemma_no_room(entries: Seq<Entry>, room: int)
    requires
        forall|i: int| 0 <= i < entries.len() ==> (#[trigger] entries[i]).size >= ENTRY_OVERHEAD,
        room < ENTRY_OVERHEAD,
    ensures
        evicted(entries, room).len() == 0,
{
    lemma_evicted(entries, room);
    let left = evicted(entries, room);
    if left.len() > 0 {
        assert(left.last() == entries[left.len() - 1]);
        assert(total(left) >= left.last().size);
    }
}

/// What entries count for, with one more in front.
pub proof fn lemma_total_front(entry: Entry, entries: Seq<Entry>)
    ensures
        total(seq![entry] + entries) == entry.size + total(entries),
    decreases entries.len(),
{
    let all = seq![entry] + entries;
    if entries.len() == 0 {
        assert(all.drop_last() =~= Seq::<Entry>::empty());
        assert(total(all) == total(all.drop_last()) + entry.size);
    } else {
        assert(all.drop_last() =~= seq![entry] + entries.drop_last());
        lemma_total_front(entry, entries.drop_last());
    }
}

/// An entry of the table: where its name and value stand in the log.
#[derive(Clone, Copy)]
pub struct DynEntry {
    pub name_start: u32,
    pub name_len: u16,
    pub value_start: u32,
    pub value_len: u16,
    pub entry_size: usize,
}

impl DynEntry {
    /// Its name and value lie in the log.
    pub open spec fn within(self, log: Seq<u8>) -> bool {
        &&& self.name_start + self.name_len <= log.len()
        &&& self.value_start + self.value_len <= log.len()
    }

    /// What the entry holds.
    pub open spec fn read(self, log: Seq<u8>) -> Entry {
        Entry {
            name: arena::bytes_at(log, self.name_start, self.name_len),
            value: arena::bytes_at(log, self.value_start, self.value_len),
            size: self.entry_size as nat,
        }
    }
}

/// The dynamic table. It stores the bytes of its fields only.
pub struct DynTable {
    storage: Vec<u8>,
    entries: VecDeque<DynEntry>,
    size: usize,
    max_size: usize,
}

/// What the entries hold.
spec fn read_all(log: Seq<u8>, entries: Seq<DynEntry>) -> Seq<Entry> {
    entries.map_values(|e: DynEntry| e.read(log))
}

/// All entries lie in the log.
spec fn all_within(log: Seq<u8>, entries: Seq<DynEntry>) -> bool {
    forall|i: int| 0 <= i < entries.len() ==> (#[trigger] entries[i]).within(log)
}

/// What is appended to the log does not change the entries.
proof fn lemma_read_later(log: Seq<u8>, after: Seq<u8>, entries: Seq<DynEntry>)
    requires
        all_within(log, entries),
    ensures
        all_within(log + after, entries),
        read_all(log + after, entries) == read_all(log, entries),
{
    assert forall|i: int| 0 <= i < entries.len() implies (#[trigger] entries[i]).within(log + after)
        && entries[i].read(log + after) == entries[i].read(log) by {
        assert(entries[i].within(log));
        assert(entries[i].read(log + after) =~= entries[i].read(log));
    }
    assert(read_all(log + after, entries) =~= read_all(log, entries));
}

impl View for DynTable {
    type V = Table;

    closed spec fn view(&self) -> Table {
        Table {
            log: self.storage@,
            entries: read_all(self.storage@, self.entries@),
            max_size: self.max_size as nat,
        }
    }
}

impl DynTable {
    /// The entries lie in the storage, the size is what they count for, and the
    /// table keeps to its limit.
    pub closed spec fn wf(self) -> bool {
        &&& all_within(self.storage@, self.entries@)
        &&& self.size == self@.size()
        &&& self@.wf()
    }

    /// The entry at `index`, the newest at 0.
    pub closed spec fn at(self, index: int) -> DynEntry {
        self.entries@[index]
    }

    /// A well-formed table keeps to its limit, its strings are short, and its entries
    /// lie in the log.
    pub proof fn lemma_wf(self)
        requires
            self.wf(),
        ensures
            self@.wf(),
            self@.short(),
            forall|i: int|
                0 <= i < self@.entries.len() ==> (#[trigger] self.at(i)).within(self@.log)
                    && self.at(i).read(self@.log) == self@.entries[i],
    {
        assert forall|i: int| 0 <= i < self@.entries.len() implies (
        #[trigger] self@.entries[i]).name.len() < 0x1_0000 && self@.entries[i].value.len() < 0x1_0000 by {
            assert(self.entries@[i].within(self.storage@));
        }
    }

    /// An empty table.
    pub fn new(max_size: usize) -> (table: DynTable)
        ensures
            table.wf(),
            table@ == Table::empty(max_size as nat),
    {
        let capacity: usize = if max_size < 16384 {
            max_size
        } else {
            16384
        };
        let table = DynTable {
            storage: Vec::with_capacity(capacity),
            entries: VecDeque::with_capacity(64),
            size: 0,
            max_size,
        };
        assert(table@.entries =~= Seq::<Entry>::empty());
        table
    }

    /// How many entries there are.
    pub fn len(&self) -> (n: usize)
        ensures
            n == self@.entries.len(),
    {
        self.entries.len()
    }

    /// The entry at `index`, the newest at 0.
    pub fn get(&self, index: usize) -> (r: Option<&DynEntry>)
        requires
            self.wf(),
        ensures
            match r {
                Some(entry) => {
                    &&& index < self@.entries.len()
                    &&& *entry == self.at(index as int)
                    &&& entry.within(self@.log)
                    &&& entry.read(self@.log) == self@.entries[index as int]
                },
                None => index >= self@.entries.len(),
            },
    {
        if index < self.entries.len() {
            Some(&self.entries[index])
        } else {
            None
        }
    }

    /// Drops the oldest entry.
    fn pop(&mut self) -> (r: bool)
        requires
            all_within(old(self).storage@, old(self).entries@),
            old(self).size == old(self)@.size(),
        ensures
            all_within(final(self).storage@, final(self).entries@),
            final(self).size == final(self)@.size(),
            final(self)@.log == old(self)@.log,
            final(self)@.max_size == old(self)@.max_size,
            r == (old(self)@.entries.len() > 0),
            final(self)@.entries == (if r {
                old(self)@.entries.drop_last()
            } else {
                old(self)@.entries
            }),
    {
        let ghost before = self@;
        match self.entries.pop_back() {
            Some(last) => {
                assert(self@.entries =~= before.entries.drop_last());
                assert(before.entries.last() == last.read(before.log));
                self.size = self.size - last.entry_size;
                true
            },
            None => false,
        }
    }

    /// Enters a field. The oldest entries make way for it; if it is larger than
    /// the whole table, all of them do and it is not entered.
    #[verifier::rlimit(40)]
    pub fn insert_raw(&mut self, name: &[u8], value: &[u8])
        requires
            old(self).wf(),
            name@.len() + value@.len() + ENTRY_OVERHEAD <= usize::MAX,
            old(self)@.inserted(name@, value@).log.len() <= isize::MAX,
        ensures
            final(self).wf(),
            final(self)@ == old(self)@.inserted(name@, value@),
            final(self)@.max_size == old(self)@.max_size,
            old(self)@.exact() && name@.len() < 0x1_0000 && value@.len() < 0x1_0000
                ==> final(self)@.exact(),
    {
        proof {
            if self@.exact() && name@.len() < 0x1_0000 && value@.len() < 0x1_0000 {
                table::law_exact_kept(self@, name@, value@, 0);
            }
        }
        let entry_size: usize = name.len() + value.len() + ENTRY_OVERHEAD;
        self.reserve(entry_size);
        if entry_size > self.max_size - self.size {
            proof {
                lemma_evicted(old(self)@.entries, self.max_size - entry_size);
            }
            return ;
        }
        let ghost left = self@;
        let (name_start, name_len) = arena::cut(self.storage.len(), name.len());
        self.storage.extend_from_slice(name);
        let (value_start, value_len) = arena::cut(self.storage.len(), value.len());
        self.storage.extend_from_slice(value);
        let entry = DynEntry { name_start, name_len, value_start, value_len, entry_size };
        proof {
            arena::lemma_kept(left.log, name@, value@);
            arena::lemma_kept(left.log + name@, value@, Seq::empty());
            assert(left.log + name@ + value@ + Seq::<u8>::empty() =~= self.storage@);
            assert(left.log + (name@ + value@) =~= self.storage@);
            lemma_read_later(left.log, name@ + value@, self.entries@);
            lemma_total_front(entry.read(self.storage@), left.entries);
            assert(entry.entry_size >= entry.read(self.storage@).cost());
        }
        let ghost older = self.entries@;
        self.entries.push_front(entry);
        self.size = self.size + entry_size;
        proof {
            assert(self.entries@ =~= seq![entry] + older);
            assert(self@.entries =~= seq![entry.read(self.storage@)] + left.entries);
            assert forall|i: int| 0 <= i < self.entries@.len() implies (
            #[trigger] self.entries@[i]).within(self.storage@) by {
                if i > 0 {
                    assert(self.entries@[i] == older[i - 1]);
                }
            }
            assert(self@ =~= old(self)@.inserted(name@, value@));
        }
    }

    /// Appends the name and the value of an entry to the arena.
    pub fn copy_to_arena(&self, entry: &DynEntry, arena: &mut WriteArena) -> (decoded: DecodedHeader)
        requires
            entry.within(self@.log),
            old(arena)@.len() + entry.name_len + entry.value_len <= isize::MAX,
        ensures
            ({
                let field = entry.read(self@.log);
                let (name_offset, name_len) = arena::region(old(arena)@.len(), field.name.len());
                let (value_offset, value_len) = arena::region(
                    (old(arena)@ + field.name).len(),
                    field.value.len(),
                );
                &&& final(arena)@ == old(arena)@ + field.name + field.value
                &&& decoded == (DecodedHeader::Arena {
                    name_offset,
                    name_len,
                    value_offset,
                    value_len,
                })
            }),
    {
        let (name_offset, name_len) = arena.write(self.name_slice(entry));
        let (value_offset, value_len) = arena.write(
            self.stored(entry.value_start, entry.value_len),
        );
        DecodedHeader::Arena { name_offset, name_len, value_offset, value_len }
    }

    /// The name of an entry.
    pub fn name_slice(&self, entry: &DynEntry) -> (name: &[u8])
        requires
            entry.within(self@.log),
        ensures
            name@ == entry.read(self@.log).name,
    {
        self.stored(entry.name_start, entry.name_len)
    }

    /// A string in the storage.
    fn stored(&self, start: u32, len: u16) -> (data: &[u8])
        requires
            start + len <= self@.log.len(),
        ensures
            data@ == arena::bytes_at(self@.log, start, len),
    {
        let all = self.storage.as_slice();
        assert(all@.len() == all.len());
        vstd::slice::slice_subrange(all, start as usize, start as usize + len as usize)
    }

    /// Drops the oldest entries until there is room for `size`, or none is left.
    pub fn reserve(&mut self, size: usize)
        requires
            old(self).wf(),
        ensures
            final(self).wf(),
            final(self)@ == old(self)@.reserved(size as nat),
    {
        while size > self.max_size - self.size
            invariant_except_break
                evicted(self@.entries, self.max_size - size) == evicted(
                    old(self)@.entries,
                    self.max_size - size,
                ),
            invariant
                self.wf(),
                self@.log == old(self)@.log,
                self@.max_size == old(self)@.max_size,
            ensures
                self@.entries == evicted(old(self)@.entries, self.max_size - size),
            decreases self@.entries.len(),
        {
            if !self.pop() {
                break;
            }
        }
    }

    /// Changes the limit and drops the oldest entries until the rest keeps to it.
    pub fn set_max_size(&mut self, size: usize)
        requires
            old(self).wf(),
        ensures
            final(self).wf(),
            final(self)@ == old(self)@.resized(size as nat),
            size < ENTRY_OVERHEAD ==> final(self)@.entries.len() == 0,
    {
        proof {
            if size < ENTRY_OVERHEAD {
                lemma_no_room(self@.entries, size as int);
            }
        }
        self.max_size = size;
        while self.size > self.max_size
            invariant
                all_within(self.storage@, self.entries@),
                self.size == self@.size(),
                self.max_size == size,
                self@.log == old(self)@.log,
                forall|i: int|
                    0 <= i < self@.entries.len() ==> (#[trigger] self@.entries[i]).size
                        >= self@.entries[i].cost(),
                evicted(self@.entries, size as int) == evicted(old(self)@.entries, size as int),
            decreases self@.entries.len(),
        {
            let _ = self.pop();
        }
    }

    /// How many bytes have been entered in all.
    pub fn log_len(&self) -> (n: usize)
        ensures
            n == self@.log.len(),
    {
        self.storage.len()
    }

    /// What the entries count for.
    pub fn size(&self) -> (n: usize)
        requires
            self.wf(),
        ensures
            n == self@.size(),
    {
        self.size
    }

    /// The limit.
    pub fn max_size(&self) -> (n: usize)
        ensures
            n == self@.max_size,
    {
        self.max_size
    }
}

} // verus!
