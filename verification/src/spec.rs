use vstd::prelude::*;
use crate::parse::CharIterator;

verus! {

/// The character that the escape sequence `\c` stands for, if it is one.
pub open spec fn escape_of(c: char) -> Option<char> {
    if c == 'n' {
        Some('\n')
    } else if c == 'r' {
        Some('\r')
    } else if c == 't' {
        Some('\t')
    } else if c == '\\' {
        Some('\\')
    } else {
        None
    }
}

/// The escape sequences are exactly `\n` (line feed), `\r` (carriage
/// return), `\t` (tab) and `\\` (backslash).
pub proof fn law_escapes(c: char)
    ensures
        c == 'n' ==> escape_of(c) == Some('\u{0A}'),
        c == 'r' ==> escape_of(c) == Some('\u{0D}'),
        c == 't' ==> escape_of(c) == Some('\u{09}'),
        c == '\\' ==> escape_of(c) == Some('\u{5C}'),
        !(c == 'n' || c == 'r' || c == 't' || c == '\\') ==> escape_of(c) is None,
{
}

/// Reads the character after a backslash and resolves the escape sequence.
/// The iterator is left after that character (if there was one).
pub fn resolve_escaped_char<I: CharIterator>(it: &mut I) -> (r: Option<char>)
    requires
        old(it).inv(),
    ensures
        final(it).inv(),
        final(it).chars() == old(it).chars(),
        final(it).pos() == (if old(it).pos() < old(it).chars().len() {
            old(it).pos() + 1
        } else {
            old(it).pos() as int
        }),
        r == (if old(it).pos() < old(it).chars().len() {
            escape_of(old(it).chars()[old(it).pos() as int])
        } else {
            None
        }),
{
    let c = match it.peek_and_advance() {
        Some(c) => c,
        None => {
            return None;
        },
    };
    match c {
        // trivial
        'n' => Some('\n'),
        'r' => Some('\r'),
        't' => Some('\t'),
        '\\' => Some('\\'),
        // invalid escape seq
        _ => None,
    }
}

} // verus!
