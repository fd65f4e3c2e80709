//! The value tree of a TOML document and its mathematical model.

use vstd::prelude::*;

verus! {

/// A TOML value.
///
/// A float is held as its decimal text, the shortest that reads back as the same float
/// (`6.9`, `1`, `-0`, `inf`, `NaN`), a datetime as its text. A table is the list of its
/// entries in document order.
#[derive(Debug, PartialEq)]
pub enum TomlValue {
    String(String),
    Integer(i64),
    Float(String),
    Boolean(bool),
    Datetime(String),
    Array(Vec<TomlValue>),
    Table(Vec<(String, TomlValue)>),
}

/// The mathematical model of a [`TomlValue`]: texts are sequences of characters, arrays and
/// tables are sequences.
pub enum Node {
    String(Seq<char>),
    Integer(int),
    Float(Seq<char>),
    Boolean(bool),
    Datetime(Seq<char>),
    Array(Seq<Node>),
    Table(Seq<(Seq<char>, Node)>),
}

impl TomlValue {
    /// The model of this value. (An element is only ever taken at an index within its array
    /// or table; the other branch of each `if` is there for the termination check.)
    pub open spec fn model(self) -> Node
        decreases self,
    {
        match self {
            TomlValue::String(s) => Node::String(s@),
            TomlValue::Integer(i) => Node::Integer(i as int),
            TomlValue::Float(s) => Node::Float(s@),
            TomlValue::Boolean(b) => Node::Boolean(b),
            TomlValue::Datetime(s) => Node::Datetime(s@),
            TomlValue::Array(items) => Node::Array(
                Seq::new(
                    items@.len(),
                    |i: int|
                        if 0 <= i < items@.len() {
                            items@[i].model()
                        } else {
                            Node::Boolean(false)
                        },
                ),
            ),
            TomlValue::Table(entries) => Node::Table(
                Seq::new(
                    entries@.len(),
                    |i: int|
                        if 0 <= i < entries@.len() {
                            (entries@[i].0@, entries@[i].1.model())
                        } else {
                            (Seq::empty(), Node::Boolean(false))
                        },
                ),
            ),
        }
    }
}

/// Whether a character can stand in the decimal text of a float: a digit, a sign, the
/// decimal point, or a letter as in `inf`, `NaN` and an exponent.
pub open spec fn is_number_char(c: char) -> bool {
    ('0' <= c <= '9') || ('a' <= c <= 'z') || ('A' <= c <= 'Z') || c == '+' || c == '-' || c
        == '.'
}

/// Whether a text can be the decimal text of a float: not empty, and made of the characters
/// above.
pub open spec fn is_number_text(text: Seq<char>) -> bool {
    text.len() > 0 && forall|k: int| 0 <= k < text.len() ==> is_number_char(#[trigger] text[k])
}

/// Whether the keys of a table's entries differ from one another.
pub open spec fn distinct_keys(entries: Seq<(Seq<char>, Node)>) -> bool {
    forall|i: int, j: int|
        0 <= i < j < entries.len() ==> (#[trigger] entries[i]).0 != (#[trigger] entries[j]).0
}

impl Node {
    /// The invariant of a value tree: every float is held as a number text, and the keys of
    /// every table differ from one another.
    pub open spec fn well_formed(self) -> bool
        decreases self,
    {
        match self {
            Node::Float(text) => is_number_text(text),
            Node::Array(items) => forall|i: int|
                0 <= i < items.len() ==> (#[trigger] items[i]).well_formed(),
            Node::Table(entries) => distinct_keys(entries) && forall|i: int|
                0 <= i < entries.len() ==> (#[trigger] entries[i]).1.well_formed(),
            _ => true,
        }
    }
}

/// The invariant of a document's root table: its keys differ from one another and its values
/// are well formed.
pub open spec fn well_formed_entries(entries: Seq<(Seq<char>, Node)>) -> bool {
    Node::Table(entries).well_formed()
}

impl View for TomlValue {
    type V = Node;

    open spec fn view(&self) -> Node {
        self.model()
    }
}

/// The models of the elements of an array, in their order.
pub open spec fn item_models(items: Seq<TomlValue>) -> Seq<Node> {
    Seq::new(items.len(), |i: int| items[i]@)
}

/// The models of the entries of a table, in their order.
pub open spec fn entry_models(entries: Seq<(String, TomlValue)>) -> Seq<(Seq<char>, Node)> {
    Seq::new(entries.len(), |i: int| (entries[i].0@, entries[i].1@))
}

/// The model of an array is the array of its elements' models.
pub proof fn lemma_array_model(items: Vec<TomlValue>)
    ensures
        TomlValue::Array(items)@ == Node::Array(item_models(items@)),
{
    assert(TomlValue::Array(items)@->Array_0 =~= item_models(items@));
}

/// The model of a table is the table of its entries' models.
pub proof fn lemma_table_model(entries: Vec<(String, TomlValue)>)
    ensures
        TomlValue::Table(entries)@ == Node::Table(entry_models(entries@)),
{
    assert(TomlValue::Table(entries)@->Table_0 =~= entry_models(entries@));
}

} // verus!
