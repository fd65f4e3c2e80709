//! Renders a TOML document as the source text of a Lua table.
//!
//! [`parse`] reads a TOML text and returns the Lua table; [`render`] and [`walk`] render a
//! value tree that is already at hand.
//!
//! ```text
//! string = "abc"            {
//! int = 123                     ["string"] = "abc",
//! bool = true                   ["int"] = 123,
//!                               ["bool"] = true,
//! [object]                      ["object"] = {
//! key = "value"                     ["key"] = "value",
//!                               },
//!                           }
//! ```
//!
//! Indentation is one tab per nesting level, every entry ends with a comma and a line end,
//! keys are always written as `["key"]`, and strings, keys and datetimes are escaped.
//!
//! What the output is, is stated by the spec functions of [`render`](mod@render) and
//! [`escape`]; [`order`] and [`balance`] prove that entries keep their order and that braces
//! pair up. The parser and the map of the root table are outside crates: [`document`] holds
//! what is assumed of them.

pub mod balance;
pub mod document;
pub mod error;
pub mod escape;
pub mod number;
pub mod order;
pub mod render;
pub mod text;
pub mod value;

pub use crate::error::ParseError;
pub use crate::escape::validate_string;
pub use crate::number::integer_text;
pub use crate::render::render;
pub use crate::render::walk;
pub use crate::text::get_indent;
pub use crate::value::TomlValue;

use crate::balance::balanced;
use crate::document::read_document;
use crate::document::toml_document;
use crate::render::lua_table;
use crate::value::well_formed_entries;
use vstd::prelude::*;

verus! {

/// Parses a TOML text and renders the document as a Lua table.
///
/// Succeeds on every text that the parser accepts; on any other it hands on the parser's
/// message and position.
pub fn parse(toml: &str) -> (lua: Result<String, ParseError>)
    ensures
        match toml_document(toml@) {
            Some(entries) => lua matches Ok(text) && text@ == lua_table(entries) && (
            well_formed_entries(entries) ==> balanced(text@)),
            None => lua is Err,
        },
{
    match read_document(toml) {
        Ok(root) => Ok(render(&root)),
        Err(error) => {
            let span = match error.span() {
                Some(range) => Some((range.start, range.end)),
                None => None,
            };
            Err(ParseError { message: error.message().to_owned(), span })
        },
    }
}

} // verus!
