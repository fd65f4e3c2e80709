//! Braces of the Lua text pair up, each pair at one indentation.

use vstd::prelude::*;

use crate::escape::escape;
use crate::escape::escape_char;
use crate::escape::escaped_char;
use crate::escape::is_special;
use crate::escape::quoted;
use crate::number::decimal_text;
use crate::number::lemma_decimal_text;
use crate::render::key_prefix;
use crate::render::lua_entries;
use crate::render::lua_items;
use crate::render::lua_literal;
use crate::render::lua_table;
use crate::render::lua_value;
use crate::text::tabs;
use crate::value::well_formed_entries;
use crate::value::Node;

verus! {

/// What a reader of Lua source knows after some characters of a text.
pub struct Scan {
    /// For each brace that is open, the indentation of the line on which it was opened,
    /// outermost first.
    pub open: Seq<nat>,
    /// The number of tabs at the start of the current line.
    pub indent: nat,
    /// Whether nothing but tabs has been read on the current line.
    pub line_start: bool,
    /// Whether the reader is inside a quoted string.
    pub quoted: bool,
    /// Whether, inside a quoted string, the last character was a backslash that starts an
    /// escape.
    pub escaped: bool,
}

/// The reader at the start of a line, outside any string, with the given braces open.
pub open spec fn at_line_start(open: Seq<nat>) -> Scan {
    Scan { open, indent: 0, line_start: true, quoted: false, escaped: false }
}

/// Reads one character. Inside a string only a double quote that no backslash escapes ends
/// the string, and a bare line break or an escape that the library does not write is an
/// error. Outside, a tab at the start of a line indents it, an opening brace is noted with the
/// line's indentation, and a closing brace must close the innermost open brace from a line
/// of the same indentation.
pub open spec fn scan_char(s: Scan, c: char) -> Option<Scan> {
    if s.quoted {
        if s.escaped {
            if escaped_char(c) is Some {
                Some(Scan { escaped: false, ..s })
            } else {
                None
            }
        } else if c == '\\' {
            Some(Scan { escaped: true, ..s })
        } else if c == '"' {
            Some(Scan { quoted: false, ..s })
        } else if c == '\n' || c == '\r' {
            None
        } else {
            Some(s)
        }
    } else if c == '\n' {
        Some(Scan { indent: 0, line_start: true, ..s })
    } else if c == '\t' && s.line_start {
        Some(Scan { indent: s.indent + 1, ..s })
    } else if c == '"' {
        Some(Scan { line_start: false, quoted: true, ..s })
    } else if c == '{' {
        Some(Scan { open: s.open.push(s.indent), line_start: false, ..s })
    } else if c == '}' {
        if s.open.len() > 0 && s.open.last() == s.indent {
            Some(Scan { open: s.open.drop_last(), line_start: false, ..s })
        } else {
            None
        }
    } else {
        Some(Scan { line_start: false, ..s })
    }
}

/// Reads a text from state `s`, character by character; `None` where the reader meets an
/// error.
pub open spec fn scan(text: Seq<char>, s: Scan) -> Option<Scan>
    decreases text.len(),
{
    if text.len() == 0 {
        Some(s)
    } else {
        match scan(text.drop_last(), s) {
            Some(before) => scan_char(before, text.last()),
            None => None,
        }
    }
}

/// A text is balanced if a reader gets through it without error and ends outside any string
/// with no brace open: every brace outside a string has its partner, pairs are nested, and
/// the two braces of a pair stand on lines of the same indentation.
pub open spec fn balanced(text: Seq<char>) -> bool {
    scan(text, at_line_start(Seq::empty())) matches Some(end) && end.open.len() == 0
        && !end.quoted
}

/// Whether a character leaves the reader outside a string where it is, but for ending the
/// start of the line.
pub open spec fn is_plain(c: char) -> bool {
    c != '\n' && c != '\t' && c != '"' && c != '{' && c != '}'
}

/// Reading two texts joined is reading the first and then the second.
pub proof fn lemma_scan_concat(a: Seq<char>, b: Seq<char>, s: Scan)
    ensures
        scan(a + b, s) == match scan(a, s) {
            Some(middle) => scan(b, middle),
            None => None,
        },
    decreases b.len(),
{
    if b.len() == 0 {
        assert(a + b =~= a);
    } else {
        lemma_scan_concat(a, b.drop_last(), s);
        assert((a + b).drop_last() =~= a + b.drop_last());
        assert((a + b).last() == b.last());
    }
}

/// Reading a text of one character is reading that character.
pub proof fn lemma_scan_one(c: char, s: Scan)
    ensures
        scan(seq![c], s) == scan_char(s, c),
{
    let t = seq![c];
    assert(t.drop_last() =~= Seq::<char>::empty());
    assert(scan(t.drop_last(), s) == Some(s));
    assert(t.last() == c);
}

/// Plain characters outside a string change nothing but that the line has started.
pub proof fn lemma_scan_plain(text: Seq<char>, s: Scan)
    requires
        !s.quoted,
        forall|k: int| 0 <= k < text.len() ==> is_plain(#[trigger] text[k]),
    ensures
        scan(text, s) == Some(Scan { line_start: s.line_start && text.len() == 0, ..s }),
    decreases text.len(),
{
    if text.len() > 0 {
        lemma_scan_plain(text.drop_last(), s);
    }
}

/// Tabs at the start of a line indent it, one level each.
pub proof fn lemma_scan_tabs(depth: nat, s: Scan)
    requires
        !s.quoted,
        s.line_start,
    ensures
        scan(tabs(depth), s) == Some(Scan { indent: s.indent + depth, ..s }),
    decreases depth,
{
    if depth > 0 {
        lemma_scan_tabs((depth - 1) as nat, s);
        assert(tabs(depth).drop_last() =~= tabs((depth - 1) as nat));
    }
}

/// Inside a string, an escaped text is read to its end without leaving the string.
pub proof fn lemma_scan_escape(text: Seq<char>, s: Scan)
    requires
        s.quoted,
        !s.escaped,
    ensures
        scan(escape(text), s) == Some(s),
    decreases text.len(),
{
    if text.len() > 0 {
        let c = text.last();
        lemma_scan_escape(text.drop_last(), s);
        lemma_scan_concat(escape(text.drop_last()), escape_char(c), s);
        if is_special(c) {
            let first = seq![escape_char(c)[0]];
            let second = seq![escape_char(c)[1]];
            assert(escape_char(c) =~= first + second);
            lemma_scan_concat(first, second, s);
            lemma_scan_one(first[0], s);
            lemma_scan_one(second[0], Scan { escaped: true, ..s });
        } else {
            lemma_scan_one(c, s);
        }
    }
}

/// A quoted, escaped text is read as one string, whatever it holds.
pub proof fn lemma_scan_quoted(text: Seq<char>, s: Scan)
    requires
        !s.quoted,
        !s.escaped,
    ensures
        scan(quoted(text), s) == Some(Scan { line_start: false, ..s }),
{
    let inside = Scan { line_start: false, quoted: true, ..s };
    let quote = seq!['"'];
    lemma_scan_one('"', s);
    lemma_scan_escape(text, inside);
    lemma_scan_one('"', inside);
    lemma_scan_concat(quote, escape(text), s);
    lemma_scan_concat(quote + escape(text), quote, s);
}

/// What stands before the value of an entry leaves the reader on the same line, outside any
/// string.
pub proof fn lemma_scan_key(key: Option<Seq<char>>, s: Scan)
    requires
        !s.quoted,
        !s.escaped,
    ensures
        scan(key_prefix(key), s) == Some(Scan { line_start: s.line_start && key is None, ..s }),
{
    match key {
        Some(k) => {
            let bracket = seq!['['];
            let rest = seq![']', ' ', '=', ' '];
            let started = Scan { line_start: false, ..s };
            lemma_scan_one('[', s);
            lemma_scan_quoted(k, started);
            lemma_scan_plain(rest, started);
            lemma_scan_concat(bracket, quoted(k), s);
            lemma_scan_concat(bracket + quoted(k), rest, s);
        },
        None => {},
    }
}

/// The literal of a well-formed value, on a line indented by its depth, leaves the reader on
/// a line of that indentation with the braces open that were open before.
pub proof fn lemma_scan_literal(value: Node, depth: nat, s: Scan)
    requires
        value.well_formed(),
        !s.quoted,
        !s.escaped,
        s.indent == depth,
    ensures
        scan(lua_literal(value, depth), s) == Some(Scan { line_start: false, ..s }),
    decreases value, 0nat,
{
    match value {
        Node::String(text) => {
            lemma_scan_quoted(text, s);
        },
        Node::Integer(i) => {
            lemma_decimal_text(i);
            lemma_scan_plain(decimal_text(i), s);
        },
        Node::Float(text) => {
            lemma_scan_plain(text, s);
        },
        Node::Boolean(_) => {
            lemma_scan_plain(lua_literal(value, depth), s);
        },
        Node::Datetime(text) => {
            lemma_scan_quoted(text, s);
        },
        Node::Array(items) => {
            lemma_scan_items(items, depth + 1, s.open.push(depth));
            lemma_scan_block(lua_items(items, depth + 1), depth, s);
        },
        Node::Table(entries) => {
            lemma_scan_entries(entries, depth + 1, s.open.push(depth));
            lemma_scan_block(lua_entries(entries, depth + 1), depth, s);
        },
    }
}

/// Lines that leave the reader where it was, between an opening brace with a line end and a
/// closing brace indented like the line of the opening one, leave open what was open.
pub proof fn lemma_scan_block(body: Seq<char>, depth: nat, s: Scan)
    requires
        !s.quoted,
        !s.escaped,
        s.indent == depth,
        scan(body, at_line_start(s.open.push(depth))) == Some(at_line_start(s.open.push(depth))),
    ensures
        scan(seq!['{', '\n'] + body + tabs(depth) + seq!['}'], s) == Some(
            Scan { line_start: false, ..s },
        ),
{
    let opening = seq!['{', '\n'];
    let inner = at_line_start(s.open.push(depth));
    let brace = seq!['{'];
    let line_end = seq!['\n'];
    assert(opening =~= brace + line_end);
    lemma_scan_one('{', s);
    lemma_scan_one('\n', Scan { open: s.open.push(depth), line_start: false, ..s });
    lemma_scan_concat(brace, line_end, s);
    assert(scan(opening, s) == Some(inner));
    lemma_scan_concat(opening, body, s);
    lemma_scan_tabs(depth, inner);
    lemma_scan_concat(opening + body, tabs(depth), s);
    let closing = Scan { indent: depth, ..inner };
    lemma_scan_one('}', closing);
    assert(s.open.push(depth).drop_last() =~= s.open);
    lemma_scan_concat(opening + body + tabs(depth), seq!['}'], s);
}

/// The entry of a well-formed value takes the reader from the start of one line to the start
/// of the next, with the braces open that were open before.
pub proof fn lemma_scan_value(
    key: Option<Seq<char>>,
    value: Node,
    depth: nat,
    open: Seq<nat>,
)
    requires
        value.well_formed(),
    ensures
        scan(lua_value(key, value, depth), at_line_start(open)) == Some(at_line_start(open)),
    decreases value, 1nat,
{
    let start = at_line_start(open);
    let indented = Scan { indent: depth, ..start };
    let keyed = Scan { line_start: key is None, ..indented };
    let written = Scan { line_start: false, ..indented };
    let comma = seq![','];
    let line_end = seq!['\n'];
    lemma_scan_tabs(depth, start);
    lemma_scan_key(key, indented);
    lemma_scan_literal(value, depth, keyed);
    lemma_scan_one(',', written);
    lemma_scan_one('\n', written);
    assert(seq![',', '\n'] =~= comma + line_end);
    lemma_scan_concat(comma, line_end, written);
    lemma_scan_concat(tabs(depth), key_prefix(key), start);
    lemma_scan_concat(tabs(depth) + key_prefix(key), lua_literal(value, depth), start);
    lemma_scan_concat(
        tabs(depth) + key_prefix(key) + lua_literal(value, depth),
        seq![',', '\n'],
        start,
    );
}

/// The elements of an array of well-formed values take the reader from the start of a line to
/// the start of a line, with the braces open that were open before.
pub proof fn lemma_scan_items(items: Seq<Node>, depth: nat, open: Seq<nat>)
    requires
        forall|i: int| 0 <= i < items.len() ==> (#[trigger] items[i]).well_formed(),
    ensures
        scan(lua_items(items, depth), at_line_start(open)) == Some(at_line_start(open)),
    decreases items, 0nat,
{
    if items.len() > 0 {
        let before = items.drop_last();
        assert forall|i: int| 0 <= i < before.len() implies (#[trigger] before[i]).well_formed()
        by {
            assert(before[i] == items[i]);
        }
        lemma_scan_items(before, depth, open);
        lemma_scan_value(None, items.last(), depth, open);
        lemma_scan_concat(
            lua_items(before, depth),
            lua_value(None, items.last(), depth),
            at_line_start(open),
        );
    }
}

/// The entries of a table of well-formed values take the reader from the start of a line to
/// the start of a line, with the braces open that were open before.
pub proof fn lemma_scan_entries(
    entries: Seq<(Seq<char>, Node)>,
    depth: nat,
    open: Seq<nat>,
)
    requires
        forall|i: int| 0 <= i < entries.len() ==> (#[trigger] entries[i]).1.well_formed(),
    ensures
        scan(lua_entries(entries, depth), at_line_start(open)) == Some(at_line_start(open)),
    decreases entries, 0nat,
{
    if entries.len() > 0 {
        let before = entries.drop_last();
        assert forall|i: int|
            0 <= i < before.len() implies (#[trigger] before[i]).1.well_formed() by {
            assert(before[i] == entries[i]);
        }
        lemma_scan_entries(before, depth, open);
        lemma_scan_value(Some(entries.last().0), entries.last().1, depth, open);
        lemma_scan_concat(
            lua_entries(before, depth),
            lua_value(Some(entries.last().0), entries.last().1, depth),
            at_line_start(open),
        );
    }
}

/// The Lua table of every well-formed document is balanced: a reader of Lua source gets
/// through it, each string is read as one string, and every opening brace is closed by a
/// brace on a line of the same indentation.
pub proof fn lemma_table_balanced(entries: Seq<(Seq<char>, Node)>)
    requires
        well_formed_entries(entries),
    ensures
        balanced(lua_table(entries)),
{
    let start = at_line_start(Seq::empty());
    lemma_scan_entries(entries, 1, start.open.push(0));
    lemma_scan_block(lua_entries(entries, 1), 0, start);
    assert(tabs(0) =~= Seq::<char>::empty());
    assert(lua_table(entries) =~= seq!['{', '\n'] + lua_entries(entries, 1) + tabs(0) + seq!['}']);
}

} // verus!
