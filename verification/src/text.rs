//! Building blocks of the output text: indentation.

use vstd::prelude::*;

verus! {

/// `String::push` appends one character to the end of the string.
pub assume_specification[ std::string::String::push ](s: &mut std::string::String, c: char)
    ensures
        final(s)@ == old(s)@.push(c),
;

/// The indentation of nesting level `depth`: that many tab characters.
pub open spec fn tabs(depth: nat) -> Seq<char> {
    Seq::new(depth, |i: int| '\t')
}

/// Returns `depth` tab characters.
pub fn get_indent(depth: usize) -> (indent: String)
    ensures
        indent@ == tabs(depth as nat),
{
    let mut indent = String::new();
    let mut i: usize = 0;
    while i < depth
        invariant
            i <= depth,
            indent@ == tabs(i as nat),
        decreases depth - i,
    {
        indent.push('\t');
        i = i + 1;
    }
    indent
}

} // verus!
