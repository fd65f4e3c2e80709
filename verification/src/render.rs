//! The Lua text of a value tree.

use indexmap::IndexMap;
use vstd::prelude::*;
use vstd::string::StringExecFns;

use crate::balance::balanced;
use crate::balance::lemma_table_balanced;
use crate::document::root_entries;
use crate::document::root_entry;
use crate::document::root_len;
use crate::escape::quoted;
use crate::escape::validate_string;
use crate::number::decimal_text;
use crate::number::integer_text;
use crate::text::get_indent;
use crate::text::tabs;
use crate::value::entry_models;
use crate::value::item_models;
use crate::value::lemma_array_model;
use crate::value::lemma_table_model;
use crate::value::well_formed_entries;
use crate::value::Node;
use crate::value::TomlValue;

verus! {

/// What stands before the value of an entry: `["key"] = ` for a keyed entry, nothing for an
/// element of an array.
pub open spec fn key_prefix(key: Option<Seq<char>>) -> Seq<char> {
    match key {
        Some(k) => seq!['['] + quoted(k) + seq![']', ' ', '=', ' '],
        None => Seq::empty(),
    }
}

/// The Lua literal of a value whose entry stands at nesting level `depth`.
pub open spec fn lua_literal(value: Node, depth: nat) -> Seq<char>
    decreases value, 0nat,
{
    match value {
        Node::String(s) => quoted(s),
        Node::Integer(i) => decimal_text(i),
        Node::Float(text) => text,
        Node::Boolean(b) => if b {
            seq!['t', 'r', 'u', 'e']
        } else {
            seq!['f', 'a', 'l', 's', 'e']
        },
        Node::Datetime(text) => quoted(text),
        Node::Array(items) => seq!['{', '\n'] + lua_items(items, depth + 1) + tabs(depth)
            + seq!['}'],
        Node::Table(entries) => seq!['{', '\n'] + lua_entries(entries, depth + 1) + tabs(depth)
            + seq!['}'],
    }
}

/// One entry of a table or an array: indentation, key, literal, and always a comma and a
/// line end.
pub open spec fn lua_value(key: Option<Seq<char>>, value: Node, depth: nat) -> Seq<char>
    decreases value, 1nat,
{
    tabs(depth) + key_prefix(key) + lua_literal(value, depth) + seq![',', '\n']
}

/// The elements of an array, one after the other, each at nesting level `depth`.
pub open spec fn lua_items(items: Seq<Node>, depth: nat) -> Seq<char>
    decreases items, 0nat,
{
    if items.len() == 0 {
        Seq::empty()
    } else {
        lua_items(items.drop_last(), depth) + lua_value(None, items.last(), depth)
    }
}

/// The entries of a table, one after the other in their order, each at nesting level `depth`.
pub open spec fn lua_entries(entries: Seq<(Seq<char>, Node)>, depth: nat) -> Seq<char>
    decreases entries, 0nat,
{
    if entries.len() == 0 {
        Seq::empty()
    } else {
        lua_entries(entries.drop_last(), depth) + lua_value(
            Some(entries.last().0),
            entries.last().1,
            depth,
        )
    }
}

/// The Lua table of a document: its entries at nesting level 1 between braces, with no line
/// end after the closing brace.
pub open spec fn lua_table(entries: Seq<(Seq<char>, Node)>) -> Seq<char> {
    seq!['{', '\n'] + lua_entries(entries, 1) + seq!['}']
}

/// The model of an optional key.
pub open spec fn key_model(key: Option<&str>) -> Option<Seq<char>> {
    match key {
        Some(k) => Some(k@),
        None => None,
    }
}

/// Appends `text`, escaped and between double quotes, to `out`.
fn write_quoted(out: &mut String, text: &str)
    ensures
        final(out)@ == old(out)@ + quoted(text@),
{
    out.push('"');
    out.append(validate_string(text).as_str());
    out.push('"');
    assert(out@ =~= old(out)@ + quoted(text@));
}

/// Appends what stands before the value of an entry to `out`.
fn write_key(out: &mut String, key: Option<&str>)
    ensures
        final(out)@ == old(out)@ + key_prefix(key_model(key)),
{
    if let Some(k) = key {
        out.push('[');
        write_quoted(out, k);
        out.push(']');
        out.push(' ');
        out.push('=');
        out.push(' ');
    }
    assert(out@ =~= old(out)@ + key_prefix(key_model(key)));
}

/// Appends the literal of `value` to `out`; `indent` is the indentation of its entry.
fn write_literal(out: &mut String, value: &TomlValue, indent: &str)
    requires
        indent@ == tabs(indent@.len()),
    ensures
        final(out)@ == old(out)@ + lua_literal(value@, indent@.len()),
    decreases value, 0nat,
{
    let ghost depth = indent@.len();
    match value {
        TomlValue::String(s) => {
            write_quoted(out, s.as_str());
        },
        TomlValue::Integer(i) => {
            out.append(integer_text(*i).as_str());
        },
        TomlValue::Float(text) => {
            out.append(text.as_str());
        },
        TomlValue::Boolean(b) => {
            proof {
                reveal_strlit("true");
                reveal_strlit("false");
            }
            if *b {
                out.append("true");
            } else {
                out.append("false");
            }
            assert(out@ =~= old(out)@ + lua_literal(value@, depth));
        },
        TomlValue::Datetime(text) => {
            write_quoted(out, text.as_str());
        },
        TomlValue::Array(items) => {
            proof {
                lemma_array_model(*items);
            }
            out.push('{');
            out.push('\n');
            let mut inner = indent.to_owned();
            inner.push('\t');
            assert(inner@ =~= tabs(depth + 1));
            write_items(out, items, inner.as_str());
            out.append(indent);
            out.push('}');
            assert(out@ =~= old(out)@ + lua_literal(value@, depth));
        },
        TomlValue::Table(entries) => {
            proof {
                lemma_table_model(*entries);
            }
            out.push('{');
            out.push('\n');
            let mut inner = indent.to_owned();
            inner.push('\t');
            assert(inner@ =~= tabs(depth + 1));
            write_entries(out, entries, inner.as_str());
            out.append(indent);
            out.push('}');
            assert(out@ =~= old(out)@ + lua_literal(value@, depth));
        },
    }
}

/// Appends the entry of `value` under `key` to `out`, indented by `indent`.
fn write_value(out: &mut String, key: Option<&str>, value: &TomlValue, indent: &str)
    requires
        indent@ == tabs(indent@.len()),
    ensures
        final(out)@ == old(out)@ + lua_value(key_model(key), value@, indent@.len()),
    decreases value, 1nat,
{
    out.append(indent);
    write_key(out, key);
    write_literal(out, value, indent);
    out.push(',');
    out.push('\n');
    assert(out@ =~= old(out)@ + lua_value(key_model(key), value@, indent@.len()));
}

/// Appends the elements of an array to `out`, each indented by `indent`.
fn write_items(out: &mut String, items: &Vec<TomlValue>, indent: &str)
    requires
        indent@ == tabs(indent@.len()),
    ensures
        final(out)@ == old(out)@ + lua_items(item_models(items@), indent@.len()),
    decreases items, 0nat,
{
    let ghost models = item_models(items@);
    let mut i: usize = 0;
    while i < items.len()
        invariant
            i <= items.len(),
            indent@ == tabs(indent@.len()),
            models == item_models(items@),
            out@ == old(out)@ + lua_items(models.take(i as int), indent@.len()),
        decreases items.len() - i,
    {
        proof {
            let done = models.take(i + 1);
            assert(done.drop_last() =~= models.take(i as int));
            assert(done.last() == items[i as int]@);
        }
        write_value(out, None, &items[i], indent);
        i = i + 1;
    }
    proof {
        assert(models.take(i as int) =~= models);
    }
}

/// Appends the entries of a table to `out`, each indented by `indent`.
fn write_entries(out: &mut String, entries: &Vec<(String, TomlValue)>, indent: &str)
    requires
        indent@ == tabs(indent@.len()),
    ensures
        final(out)@ == old(out)@ + lua_entries(entry_models(entries@), indent@.len()),
    decreases entries, 0nat,
{
    let ghost models = entry_models(entries@);
    let mut i: usize = 0;
    while i < entries.len()
        invariant
            i <= entries.len(),
            indent@ == tabs(indent@.len()),
            models == entry_models(entries@),
            out@ == old(out)@ + lua_entries(models.take(i as int), indent@.len()),
        decreases entries.len() - i,
    {
        proof {
            let done = models.take(i + 1);
            assert(done.drop_last() =~= models.take(i as int));
            assert(done.last() == (entries[i as int].0@, entries[i as int].1@));
        }
        write_value(out, Some(entries[i].0.as_str()), &entries[i].1, indent);
        i = i + 1;
    }
    proof {
        assert(models.take(i as int) =~= models);
    }
}

/// Renders one entry of a table (with its key) or one element of an array (without) at
/// nesting level `depth`.
pub fn walk(key: Option<&str>, value: &TomlValue, depth: usize) -> (lua: String)
    ensures
        lua@ == lua_value(key_model(key), value@, depth as nat),
{
    let mut lua = String::new();
    let indent = get_indent(depth);
    write_value(&mut lua, key, value, indent.as_str());
    lua
}

/// Renders a document's root table as a Lua table: its entries in their order at nesting
/// level 1, between an opening brace with a line end and a closing brace without one.
pub fn render(root: &IndexMap<String, TomlValue>) -> (lua: String)
    ensures
        lua@ == lua_table(root_entries(*root)),
        well_formed_entries(root_entries(*root)) ==> balanced(lua@),
{
    let ghost entries = root_entries(*root);
    let indent = get_indent(1);
    let mut lua = String::new();
    lua.push('{');
    lua.push('\n');
    let count = root_len(root);
    let mut i: usize = 0;
    while i < count
        invariant
            i <= count,
            count == entries.len(),
            entries == root_entries(*root),
            indent@ == tabs(1),
            lua@ == seq!['{', '\n'] + lua_entries(entries.take(i as int), 1),
        decreases count - i,
    {
        proof {
            let done = entries.take(i + 1);
            assert(done.drop_last() =~= entries.take(i as int));
            assert(done.last() == entries[i as int]);
        }
        if let Some((key, value)) = root_entry(root, i) {
            write_value(&mut lua, Some(key.as_str()), value, indent.as_str());
        }
        i = i + 1;
    }
    proof {
        assert(entries.take(i as int) =~= entries);
    }
    lua.push('}');
    proof {
        if well_formed_entries(entries) {
            lemma_table_balanced(entries);
        }
    }
    lua
}

} // verus!
