//! What the dynamic table keeps to.
use crate::arena;
use crate::dyn_table;
use crate::dyn_table::{Entry, Table, ENTRY_OVERHEAD};
use vstd::prelude::*;

verus! {

/// What an entry with this name and this value counts for.
pub open spec fn cost(name: Seq<u8>, value: Seq<u8>) -> nat {
    name.len() + value.len() + ENTRY_OVERHEAD as nat
}

/// What entries with these names and values cost together.
pub open spec fn costs(entries: Seq<Entry>) -> nat
    decreases entries.len(),
{
    if entries.len() == 0 {
        0
    } else {
        costs(entries.drop_last()) + entries.last().cost()
    }
}

/// Whatever is done to the table, it keeps to its limit, and its entries count at
/// least for what they cost.
pub proof fn law_within_limit(table: Table, name: Seq<u8>, value: Seq<u8>, size: nat)
    requires
        table.wf(),
    ensures
        table.inserted(name, value).wf(),
        table.reserved(size).wf(),
        table.resized(size).wf(),
{
    dyn_table::lemma_evicted(table.entries, table.max_size - size);
    dyn_table::lemma_evicted(table.entries, size as int);
    let room = table.max_size - cost(name, value);
    dyn_table::lemma_evicted(table.entries, room);
    let left = dyn_table::evicted(table.entries, room);
    let entry = Entry {
        name: arena::kept(table.log, name),
        value: arena::kept(table.log + name, value),
        size: cost(name, value),
    };
    dyn_table::lemma_total_front(entry, left);
    lemma_total_fewer(table.entries, dyn_table::evicted(table.entries, table.max_size - size).len());
    lemma_total_fewer(table.entries, left.len());
    arena::lemma_kept(table.log, name, Seq::empty());
    arena::lemma_kept(table.log + name, value, Seq::empty());
    let after = table.inserted(name, value);
    assert forall|i: int| 0 <= i < after.entries.len() implies (#[trigger] after.entries[i]).size
        >= after.entries[i].cost() by {
        lemma_inserted_entry(table, name, value, i);
    }
}

/// An entry of the table after an insertion is the new one, or one from before.
proof fn lemma_inserted_entry(table: Table, name: Seq<u8>, value: Seq<u8>, i: int)
    requires
        0 <= i < table.inserted(name, value).entries.len(),
    ensures
        ({
            let entry = table.inserted(name, value).entries[i];
            if cost(name, value) > table.max_size {
                i < table.entries.len() && entry == table.entries[i]
            } else if i == 0 {
                entry == (Entry {
                    name: arena::kept(table.log, name),
                    value: arena::kept(table.log + name, value),
                    size: cost(name, value),
                })
            } else {
                i - 1 < table.entries.len() && entry == table.entries[i - 1]
            }
        }),
{
    let room = table.max_size - cost(name, value);
    dyn_table::lemma_evicted(table.entries, room);
    let left = dyn_table::evicted(table.entries, room);
    if cost(name, value) > table.max_size {
        assert(table.inserted(name, value).entries[i] == left[i]);
    } else if i > 0 {
        assert(table.inserted(name, value).entries[i] == left[i - 1]);
    }
}

/// Entries whose strings were not cut count for exactly what they cost, and go on
/// doing so whatever is done to the table.
pub proof fn law_exact_kept(table: Table, name: Seq<u8>, value: Seq<u8>, size: nat)
    requires
        table.exact(),
        name.len() < 0x1_0000,
        value.len() < 0x1_0000,
    ensures
        table.inserted(name, value).exact(),
        table.reserved(size).exact(),
        table.resized(size).exact(),
{
    dyn_table::lemma_evicted(table.entries, table.max_size - size);
    dyn_table::lemma_evicted(table.entries, size as int);
    arena::lemma_kept(table.log, name, Seq::empty());
    arena::lemma_kept(table.log + name, value, Seq::empty());
    let after = table.inserted(name, value);
    assert forall|i: int| 0 <= i < after.entries.len() implies (#[trigger] after.entries[i]).size
        == after.entries[i].cost() by {
        lemma_inserted_entry(table, name, value, i);
    }
}

/// The size of a table is at least what its names and values cost; where no string
/// was cut, it is just that.
pub proof fn law_size_is_cost(table: Table)
    requires
        table.wf(),
    ensures
        table.size() >= costs(table.entries),
        table.exact() ==> table.size() == costs(table.entries),
{
    lemma_total_costs(table.entries);
}

proof fn lemma_total_costs(entries: Seq<Entry>)
    requires
        forall|i: int| 0 <= i < entries.len() ==> (#[trigger] entries[i]).size >= entries[i].cost(),
    ensures
        dyn_table::total(entries) >= costs(entries),
        (forall|i: int| 0 <= i < entries.len() ==> (#[trigger] entries[i]).size == entries[i].cost())
            ==> dyn_table::total(entries) == costs(entries),
    decreases entries.len(),
{
    if entries.len() > 0 {
        let fewer = entries.drop_last();
        assert forall|i: int| 0 <= i < fewer.len() implies (#[trigger] fewer[i]).size
            >= fewer[i].cost() by {
            assert(fewer[i] == entries[i]);
        }
        lemma_total_costs(fewer);
        if forall|i: int| 0 <= i < entries.len() ==> (#[trigger] entries[i]).size == entries[i].cost() {
            assert forall|i: int| 0 <= i < fewer.len() implies (#[trigger] fewer[i]).size
                == fewer[i].cost() by {
                assert(fewer[i] == entries[i]);
            }
        }
    }
}

/// What every insertion keeps: the limit is as before, the size is what the names
/// and values cost and is within the limit, and the strings stay short.
pub proof fn law_insert_keeps(table: Table, name: Seq<u8>, value: Seq<u8>)
    requires
        table.wf(),
        table.exact(),
        table.short(),
        name.len() < 0x1_0000,
        value.len() < 0x1_0000,
    ensures
        ({
            let after = table.inserted(name, value);
            &&& after.max_size == table.max_size
            &&& after.size() == costs(after.entries) <= after.max_size
            &&& after.wf()
            &&& after.exact()
            &&& after.short()
        }),
{
    law_within_limit(table, name, value, 0);
    law_exact_kept(table, name, value, 0);
    law_strings_short(table, name, value, 0);
    law_size_is_cost(table.inserted(name, value));
}

/// A limit below the overhead of one entry empties the table.
pub proof fn law_small_limit_empties(table: Table, max_size: nat)
    requires
        table.wf(),
        max_size < ENTRY_OVERHEAD,
    ensures
        table.resized(max_size).entries.len() == 0,
{
    dyn_table::lemma_no_room(table.entries, max_size as int);
}

proof fn lemma_total_fewer(entries: Seq<Entry>, n: nat)
    requires
        n <= entries.len(),
    ensures
        dyn_table::total(entries.take(n as int)) <= dyn_table::total(entries),
    decreases entries.len(),
{
    if n < entries.len() {
        lemma_total_fewer(entries.drop_last(), n);
        assert(entries.drop_last().take(n as int) =~= entries.take(n as int));
    } else {
        assert(entries.take(n as int) =~= entries);
    }
}

/// A change of the limit keeps the newest entries, as many as fit.
pub proof fn law_newest_kept(table: Table, max_size: nat)
    ensures
        ({
            let left = table.resized(max_size).entries;
            &&& left.len() <= table.entries.len()
            &&& left == table.entries.take(left.len() as int)
            &&& left.len() < table.entries.len() ==> dyn_table::total(
                table.entries.take((left.len() + 1) as int),
            ) > max_size
        }),
{
    dyn_table::lemma_evicted(table.entries, max_size as int);
}

/// A limit that is not exceeded drops nothing.
pub proof fn law_nothing_dropped(table: Table, max_size: nat)
    requires
        table.size() <= max_size,
    ensures
        table.resized(max_size) == (Table { max_size, ..table }),
{
}

/// A field that fits stands at the front, with its name and its value. The entries
/// that are left follow it in their order: the newest, as many as there is room
/// for.
pub proof fn law_inserted_first(table: Table, name: Seq<u8>, value: Seq<u8>)
    requires
        cost(name, value) <= table.max_size,
        arena::is_low(table.log.len(), name),
        arena::is_low(table.log.len() + name.len(), value),
        name.len() < 0x1_0000,
        value.len() < 0x1_0000,
    ensures
        ({
            let after = table.inserted(name, value);
            let left = (after.entries.len() - 1) as nat;
            &&& after.entries.len() >= 1
            &&& after.entries[0] == (Entry { name, value, size: cost(name, value) })
            &&& left <= table.entries.len()
            &&& forall|i: int|
                1 <= i <= left ==> #[trigger] after.entries[i] == table.entries[i - 1]
            &&& left < table.entries.len() ==> dyn_table::total(
                table.entries.take((left + 1) as int),
            ) + cost(name, value) > table.max_size
        }),
{
    arena::law_kept_whole(table.log, name);
    arena::law_kept_whole(table.log + name, value);
    dyn_table::lemma_evicted(table.entries, table.max_size - cost(name, value));
    let left = dyn_table::evicted(table.entries, table.max_size - cost(name, value));
    assert(left == table.entries.take(left.len() as int));
}

/// A field that is larger than the whole table empties it.
pub proof fn law_oversized_empties(table: Table, name: Seq<u8>, value: Seq<u8>)
    requires
        cost(name, value) > table.max_size,
    ensures
        table.inserted(name, value) == (Table { entries: Seq::<Entry>::empty(), ..table }),
{
    dyn_table::lemma_evicted(table.entries, table.max_size - cost(name, value));
    assert(table.inserted(name, value).entries =~= Seq::<Entry>::empty());
}

/// What was entered into the log stays there.
pub proof fn law_log_kept(table: Table, name: Seq<u8>, value: Seq<u8>)
    ensures
        ({
            let after = table.inserted(name, value);
            &&& table.log.len() <= after.log.len() <= table.log.len() + name.len() + value.len()
            &&& after.log.take(table.log.len() as int) == table.log
        }),
{
    assert(table.inserted(name, value).log.take(table.log.len() as int) =~= table.log);
}

/// The strings of a table stay short, whatever is done to it.
pub proof fn law_strings_short(table: Table, name: Seq<u8>, value: Seq<u8>, size: nat)
    requires
        table.short(),
    ensures
        table.inserted(name, value).short(),
        table.reserved(size).short(),
        table.resized(size).short(),
{
    dyn_table::lemma_evicted(table.entries, table.max_size - size);
    dyn_table::lemma_evicted(table.entries, size as int);
    dyn_table::lemma_evicted(table.entries, table.max_size - cost(name, value));
    arena::lemma_kept(table.log, name, Seq::empty());
    arena::lemma_kept(table.log + name, value, Seq::empty());
    let after = table.inserted(name, value);
    assert forall|i: int| 0 <= i < after.entries.len() implies (
    #[trigger] after.entries[i]).name.len() < 0x1_0000 && after.entries[i].value.len() < 0x1_0000 by {
        lemma_inserted_entry(table, name, value, i);
    }
}

/// What entries count for is a sum: none count for nothing, and one more adds its size.
pub proof fn law_total(entries: Seq<Entry>, entry: Entry)
    ensures
        dyn_table::total(Seq::<Entry>::empty()) == 0,
        dyn_table::total(entries.push(entry)) == dyn_table::total(entries) + entry.size,
{
    assert(entries.push(entry).drop_last() =~= entries);
}

/// A new table has no entries and no log, and the limit that it was made with.
pub proof fn law_empty_table(max_size: nat)
    ensures
        Table::empty(max_size).entries.len() == 0,
        Table::empty(max_size).log.len() == 0,
        Table::empty(max_size).max_size == max_size,
        Table::empty(max_size).size() == 0,
{
}

/// The size of a table is what its entries count for, and what is said of all its
/// entries is said of each.
pub proof fn law_table(table: Table, entry: Entry)
    ensures
        table.size() == dyn_table::total(table.entries),
        entry.cost() == entry.name.len() + entry.value.len() + 32,
        table.wf() <==> table.size() <= table.max_size && forall|i: int|
            #![trigger table.entries[i]]
            0 <= i < table.entries.len() ==> table.entries[i].size >= table.entries[i].name.len()
                + table.entries[i].value.len() + 32,
        table.exact() <==> forall|i: int|
            #![trigger table.entries[i]]
            0 <= i < table.entries.len() ==> table.entries[i].size == table.entries[i].name.len()
                + table.entries[i].value.len() + 32,
        table.short() <==> forall|i: int|
            #![trigger table.entries[i]]
            0 <= i < table.entries.len() ==> table.entries[i].name.len() < 65536
                && table.entries[i].value.len() < 65536,
{
}

/// Making way drops the oldest entries, and no more of them than it must: the newest
/// stay, as many as leave room. The log and the limit stay.
pub proof fn law_reserved(table: Table, size: nat)
    ensures
        ({
            let after = table.reserved(size);
            let left = after.entries;
            &&& after.log == table.log
            &&& after.max_size == table.max_size
            &&& left.is_prefix_of(table.entries)
            &&& left.len() == 0 || dyn_table::total(left) + size <= table.max_size
            &&& left.len() < table.entries.len() ==> dyn_table::total(
                table.entries.take((left.len() + 1) as int),
            ) + size > table.max_size
        }),
{
    dyn_table::lemma_evicted(table.entries, table.max_size - size);
}

/// A change of the limit sets it and leaves the log; the newest entries stay, as many
/// as fit.
pub proof fn law_resized(table: Table, max_size: nat)
    ensures
        ({
            let after = table.resized(max_size);
            let left = after.entries;
            &&& after.log == table.log
            &&& after.max_size == max_size
            &&& left.is_prefix_of(table.entries)
            &&& dyn_table::total(left) <= max_size
            &&& left.len() < table.entries.len() ==> dyn_table::total(
                table.entries.take((left.len() + 1) as int),
            ) > max_size
        }),
{
    dyn_table::lemma_evicted(table.entries, max_size as int);
}

/// A field counts for the bytes of its name and its value and 32 more. If that is no
/// more than the limit, the field stands at the front, before the entries that are left
/// once there is room, and its bytes end the log. If it is more, no entry is left.
pub proof fn law_inserted(table: Table, name: Seq<u8>, value: Seq<u8>)
    ensures
        ({
            let size = name.len() + value.len() + 32;
            let after = table.inserted(name, value);
            &&& after.max_size == table.max_size
            &&& size > table.max_size ==> after.entries.len() == 0 && after.log == table.log
            &&& size <= table.max_size ==> {
                let left = after.entries.skip(1);
                &&& after.entries.len() >= 1
                &&& after.entries[0].name == arena::kept(table.log, name)
                &&& after.entries[0].value == arena::kept(table.log + name, value)
                &&& after.entries[0].size == size
                &&& left.is_prefix_of(table.entries)
                &&& left.len() == 0 || dyn_table::total(left) + size <= table.max_size
                &&& left.len() < table.entries.len() ==> dyn_table::total(
                    table.entries.take((left.len() + 1) as int),
                ) + size > table.max_size
                &&& after.log == table.log + name + value
            }
        }),
{
    let size = name.len() + value.len() + 32;
    dyn_table::lemma_evicted(table.entries, table.max_size - size);
    let left = dyn_table::evicted(table.entries, table.max_size - size);
    if size <= table.max_size {
        assert(table.inserted(name, value).entries.skip(1) =~= left);
    }
}

/// Of two fields that are entered one after the other, and that fit together, the
/// later stands before the earlier.
pub proof fn law_newest_first(
    table: Table,
    name: Seq<u8>,
    value: Seq<u8>,
    later_name: Seq<u8>,
    later_value: Seq<u8>,
)
    requires
        name.len() + value.len() + 32 + later_name.len() + later_value.len() + 32
            <= table.max_size,
    ensures
        ({
            let first = table.inserted(name, value);
            let second = first.inserted(later_name, later_value);
            &&& second.entries.len() >= 2
            &&& second.entries[1] == first.entries[0]
            &&& second.entries[0].name == arena::kept(first.log, later_name)
        }),
{
    let first = table.inserted(name, value);
    let second = first.inserted(later_name, later_value);
    law_inserted(table, name, value);
    law_inserted(first, later_name, later_value);
    let left = second.entries.skip(1);
    if left.len() == 0 {
        let one = first.entries.take(1);
        assert(one.drop_last() =~= Seq::<Entry>::empty());
        assert(dyn_table::total(one) == dyn_table::total(one.drop_last()) + one.last().size);
        assert(false);
    }
    assert(left[0] == first.entries[0]);
    assert(left[0] == second.entries[1]);
}

} // verus!
