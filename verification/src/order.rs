//! Entries and elements stand in the Lua text in their own order.

use vstd::prelude::*;

use crate::render::lua_entries;
use crate::render::lua_items;
use crate::render::lua_table;
use crate::render::lua_value;
use crate::value::Node;

verus! {

/// Where the entry at position `i` of a document's root table starts in the Lua table: after
/// the opening brace and its line end, and after the entries before it.
pub open spec fn entry_offset(entries: Seq<(Seq<char>, Node)>, i: int) -> int {
    2 + lua_entries(entries.take(i), 1).len() as int
}

/// The entries of two tables joined are rendered as the two renderings joined.
pub proof fn lemma_entries_concat(
    a: Seq<(Seq<char>, Node)>,
    b: Seq<(Seq<char>, Node)>,
    depth: nat,
)
    ensures
        lua_entries(a + b, depth) == lua_entries(a, depth) + lua_entries(b, depth),
    decreases b.len(),
{
    if b.len() == 0 {
        assert(a + b =~= a);
        assert(lua_entries(a, depth) + lua_entries(b, depth) =~= lua_entries(a, depth));
    } else {
        lemma_entries_concat(a, b.drop_last(), depth);
        assert((a + b).drop_last() =~= a + b.drop_last());
        assert((a + b).last() == b.last());
        assert(lua_entries(a + b, depth) =~= lua_entries(a, depth) + lua_entries(b, depth));
    }
}

/// The elements of two arrays joined are rendered as the two renderings joined.
pub proof fn lemma_items_concat(a: Seq<Node>, b: Seq<Node>, depth: nat)
    ensures
        lua_items(a + b, depth) == lua_items(a, depth) + lua_items(b, depth),
    decreases b.len(),
{
    if b.len() == 0 {
        assert(a + b =~= a);
        assert(lua_items(a, depth) + lua_items(b, depth) =~= lua_items(a, depth));
    } else {
        lemma_items_concat(a, b.drop_last(), depth);
        assert((a + b).drop_last() =~= a + b.drop_last());
        assert((a + b).last() == b.last());
        assert(lua_items(a + b, depth) =~= lua_items(a, depth) + lua_items(b, depth));
    }
}

/// Entries keep their order: the rendering of a table is the rendering of the entries before
/// position `i`, then that of the entry at `i`, then that of the entries after it.
pub proof fn lemma_entries_in_order(entries: Seq<(Seq<char>, Node)>, depth: nat, i: int)
    requires
        0 <= i < entries.len(),
    ensures
        lua_entries(entries, depth) == lua_entries(entries.take(i), depth) + lua_value(
            Some(entries[i].0),
            entries[i].1,
            depth,
        ) + lua_entries(entries.skip(i + 1), depth),
{
    let before = entries.take(i);
    let one = seq![entries[i]];
    let after = entries.skip(i + 1);
    assert(entries =~= before + one + after);
    lemma_entries_concat(before + one, after, depth);
    lemma_entries_concat(before, one, depth);
    assert(one.drop_last() =~= Seq::<(Seq<char>, Node)>::empty());
    assert(lua_entries(one.drop_last(), depth) =~= Seq::<char>::empty());
    assert(one.last() == entries[i]);
    assert(lua_entries(one, depth) =~= lua_value(Some(entries[i].0), entries[i].1, depth));
}

/// Elements keep their order: the rendering of an array is the rendering of the elements
/// before position `i`, then that of the element at `i`, then that of the elements after it.
pub proof fn lemma_items_in_order(items: Seq<Node>, depth: nat, i: int)
    requires
        0 <= i < items.len(),
    ensures
        lua_items(items, depth) == lua_items(items.take(i), depth) + lua_value(
            None,
            items[i],
            depth,
        ) + lua_items(items.skip(i + 1), depth),
{
    let before = items.take(i);
    let one = seq![items[i]];
    let after = items.skip(i + 1);
    assert(items =~= before + one + after);
    lemma_items_concat(before + one, after, depth);
    lemma_items_concat(before, one, depth);
    assert(one.drop_last() =~= Seq::<Node>::empty());
    assert(lua_items(one.drop_last(), depth) =~= Seq::<char>::empty());
    assert(one.last() == items[i]);
    assert(lua_items(one, depth) =~= lua_value(None, items[i], depth));
}

/// A document's entries stand in the Lua table in the order of the document, whatever their
/// keys: the entry at position `i` fills the text from its offset up to the offset of the
/// next position, and an entry at a later position starts where that one ends or later.
pub proof fn lemma_table_keeps_order(entries: Seq<(Seq<char>, Node)>, i: int, j: int)
    requires
        0 <= i < j < entries.len(),
    ensures
        lua_table(entries).subrange(entry_offset(entries, i), entry_offset(entries, i + 1))
            == lua_value(Some(entries[i].0), entries[i].1, 1),
        lua_table(entries).subrange(entry_offset(entries, j), entry_offset(entries, j + 1))
            == lua_value(Some(entries[j].0), entries[j].1, 1),
        entry_offset(entries, i) < entry_offset(entries, i + 1) <= entry_offset(entries, j),
        entry_offset(entries, j + 1) < lua_table(entries).len(),
{
    lemma_table_entry_at(entries, i);
    lemma_table_entry_at(entries, j);
    let upto = entries.take(j);
    assert(upto.take(i + 1) =~= entries.take(i + 1));
    if i + 1 < j {
        lemma_entries_in_order(upto, 1, i + 1);
        assert(upto.take(i + 1) =~= entries.take(i + 1));
    } else {
        assert(upto =~= entries.take(i + 1));
    }
}

/// The entry at position `i` of a document fills the text of the Lua table from its offset
/// up to the offset of the next position.
pub proof fn lemma_table_entry_at(entries: Seq<(Seq<char>, Node)>, i: int)
    requires
        0 <= i < entries.len(),
    ensures
        0 <= entry_offset(entries, i) < entry_offset(entries, i + 1) < lua_table(entries).len(),
        lua_table(entries).subrange(entry_offset(entries, i), entry_offset(entries, i + 1))
            == lua_value(Some(entries[i].0), entries[i].1, 1),
{
    let before = lua_entries(entries.take(i), 1);
    let entry = lua_value(Some(entries[i].0), entries[i].1, 1);
    let after = lua_entries(entries.skip(i + 1), 1);
    lemma_entries_in_order(entries, 1, i);
    let upto = entries.take(i + 1);
    assert(upto.drop_last() =~= entries.take(i));
    assert(upto.last() == entries[i]);
    assert(lua_entries(upto, 1) == before + entry);
    assert(lua_table(entries) =~= seq!['{', '\n'] + before + entry + after + seq!['}']);
    assert(lua_table(entries).subrange(entry_offset(entries, i), entry_offset(entries, i + 1))
        =~= entry);
}

} // verus!
