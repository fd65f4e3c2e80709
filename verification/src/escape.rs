//! Escaping of text for a quoted Lua string.

use vstd::prelude::*;

verus! {

/// What one character becomes inside a quoted Lua string.
pub open spec fn escape_char(c: char) -> Seq<char> {
    if c == '\n' {
        seq!['\\', 'n']
    } else if c == '\t' {
        seq!['\\', 't']
    } else if c == '\r' {
        seq!['\\', 'r']
    } else if c == '\\' {
        seq!['\\', '\\']
    } else if c == '"' {
        seq!['\\', '"']
    } else {
        seq![c]
    }
}

/// The escaped form of a text: each character replaced by its escape, left to right.
pub open spec fn escape(s: Seq<char>) -> Seq<char>
    decreases s.len(),
{
    if s.len() == 0 {
        Seq::empty()
    } else {
        escape(s.drop_last()) + escape_char(s.last())
    }
}

/// A text as a Lua string: escaped, between double quotes.
pub open spec fn quoted(s: Seq<char>) -> Seq<char> {
    seq!['"'] + escape(s) + seq!['"']
}

/// Escapes a text so that it can stand between double quotes in Lua source.
pub fn validate_string(string: &str) -> (validated: String)
    ensures
        validated@ == escape(string@),
{
    let mut validated = String::new();
    for c in it: string.chars()
        invariant
            it.seq() == string@,
            validated@ == escape(string@.take(it.index())),
    {
        proof {
            let done = string@.take(it.index() + 1);
            assert(done.drop_last() == string@.take(it.index()));
            assert(done.last() == c);
        }
        if c == '\n' {
            validated.push('\\');
            validated.push('n');
        } else if c == '\t' {
            validated.push('\\');
            validated.push('t');
        } else if c == '\r' {
            validated.push('\\');
            validated.push('r');
        } else if c == '\\' {
            validated.push('\\');
            validated.push('\\');
        } else if c == '"' {
            validated.push('\\');
            validated.push('"');
        } else {
            validated.push(c);
        }
    }
    proof {
        assert(string@.take(string@.len() as int) == string@);
    }
    validated
}

/// Whether a character is written as a two-character escape.
pub open spec fn is_special(c: char) -> bool {
    c == '\n' || c == '\t' || c == '\r' || c == '\\' || c == '"'
}

/// The number of characters of a text that are written as an escape.
pub open spec fn special_count(s: Seq<char>) -> nat
    decreases s.len(),
{
    if s.len() == 0 {
        0
    } else {
        special_count(s.drop_last()) + if is_special(s.last()) {
            1nat
        } else {
            0nat
        }
    }
}

/// The character that a backslash and `letter` stand for in a quoted Lua string, for the
/// escapes that this library writes.
pub open spec fn escaped_char(letter: char) -> Option<char> {
    if letter == 'n' {
        Some('\n')
    } else if letter == 't' {
        Some('\t')
    } else if letter == 'r' {
        Some('\r')
    } else if letter == '\\' {
        Some('\\')
    } else if letter == '"' {
        Some('"')
    } else {
        None
    }
}

/// What a Lua reader makes of the text between two double quotes: each escape becomes its
/// character, every other character stands for itself. There is no reading where the text
/// holds a bare double quote or line break, which would end the string, or a backslash that
/// starts none of the escapes above.
pub open spec fn unescape(t: Seq<char>) -> Option<Seq<char>>
    decreases t.len(),
{
    if t.len() == 0 {
        Some(Seq::empty())
    } else if t[0] == '\\' {
        if t.len() >= 2 && escaped_char(t[1]) is Some {
            match unescape(t.skip(2)) {
                Some(rest) => Some(seq![escaped_char(t[1])->Some_0] + rest),
                None => None,
            }
        } else {
            None
        }
    } else if t[0] == '"' || t[0] == '\n' || t[0] == '\r' {
        None
    } else {
        match unescape(t.skip(1)) {
            Some(rest) => Some(seq![t[0]] + rest),
            None => None,
        }
    }
}

/// Escaping goes character by character: the escape of two texts joined is the two escapes
/// joined.
pub proof fn lemma_escape_concat(a: Seq<char>, b: Seq<char>)
    ensures
        escape(a + b) == escape(a) + escape(b),
    decreases b.len(),
{
    if b.len() == 0 {
        assert(a + b =~= a);
        assert(escape(a) + escape(b) =~= escape(a));
    } else {
        lemma_escape_concat(a, b.drop_last());
        assert((a + b).drop_last() =~= a + b.drop_last());
        assert((a + b).last() == b.last());
        assert(escape(a + b) =~= escape(a) + escape(b));
    }
}

/// The escape of a text that starts with `c` is the escape of `c`, then that of the rest.
pub proof fn lemma_escape_first(s: Seq<char>)
    requires
        s.len() > 0,
    ensures
        escape(s) == escape_char(s[0]) + escape(s.drop_first()),
{
    let first = seq![s[0]];
    assert(s =~= first + s.drop_first());
    lemma_escape_concat(first, s.drop_first());
    assert(first.drop_last() =~= Seq::<char>::empty());
    assert(escape(first.drop_last()) =~= Seq::<char>::empty());
    assert(first.last() == s[0]);
    assert(escape(first) =~= escape_char(s[0]));
}

/// A Lua reader gets a text back from its escape. So the escape holds no bare
/// double quote and no line break, and the quoted text is one string.
pub proof fn lemma_unescape_escape(s: Seq<char>)
    ensures
        unescape(escape(s)) == Some(s),
    decreases s.len(),
{
    if s.len() == 0 {
    } else {
        let c = s[0];
        let rest = s.drop_first();
        lemma_escape_first(s);
        lemma_unescape_escape(rest);
        let t = escape(s);
        if is_special(c) {
            assert(t.skip(2) =~= escape(rest));
            assert(seq![c] + rest =~= s);
        } else {
            assert(t.skip(1) =~= escape(rest));
            assert(seq![c] + rest =~= s);
        }
    }
}

/// A quoted text is one Lua string that stands for the text: it starts and ends with a double
/// quote, and what is between them reads back as the text, so no double quote in between
/// ends the string early.
pub proof fn lemma_quoted_reads_back(s: Seq<char>)
    ensures
        quoted(s).len() >= 2,
        quoted(s).first() == '"',
        quoted(s).last() == '"',
        unescape(quoted(s).subrange(1, quoted(s).len() - 1)) == Some(s),
{
    lemma_unescape_escape(s);
    assert(quoted(s).subrange(1, quoted(s).len() - 1) =~= escape(s));
}

/// Two texts with the same escape are the same text.
pub proof fn lemma_escape_injective(a: Seq<char>, b: Seq<char>)
    requires
        escape(a) == escape(b),
    ensures
        a == b,
{
    lemma_unescape_escape(a);
    lemma_unescape_escape(b);
}

/// Escaping is one pass: every character that needs an escape adds exactly one character,
/// whether or not a backslash stands before it, and no other character adds any.
pub proof fn lemma_escape_len(s: Seq<char>)
    ensures
        escape(s).len() == s.len() + special_count(s),
    decreases s.len(),
{
    if s.len() > 0 {
        lemma_escape_len(s.drop_last());
    }
}

} // verus!
