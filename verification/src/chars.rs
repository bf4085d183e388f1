//! Unicode character classes, as the standard library defines them.
use vstd::prelude::*;

verus! {

/// Whether `c` has the Unicode `White_Space` property, as `char::is_whitespace`
/// reports it: the 25 code points that the Unicode Character Database
/// (`PropList.txt`) lists under `White_Space`.
pub open spec fn spec_is_whitespace(c: char) -> bool {
    let u = c as u32;
    ||| 0x09 <= u <= 0x0D
    ||| u == 0x20
    ||| u == 0x85
    ||| u == 0xA0
    ||| u == 0x1680
    ||| 0x2000 <= u <= 0x200A
    ||| u == 0x2028
    ||| u == 0x2029
    ||| u == 0x202F
    ||| u == 0x205F
    ||| u == 0x3000
}

/// Whether `c` has the Unicode `Alphabetic` property, as `char::is_alphabetic` reports it.
pub uninterp spec fn spec_is_alphabetic(c: char) -> bool;

/// Whether `c` is alphanumeric, as `char::is_alphanumeric` reports it.
pub uninterp spec fn spec_is_alphanumeric(c: char) -> bool;

/// The whitespace characters are exactly these: tab, line feed, vertical
/// tab, form feed, carriage return, space, next line, no-break space, ogham
/// space mark, the eleven spaces from en quad to hair space, line separator,
/// paragraph separator, narrow no-break space, medium mathematical space and
/// ideographic space.
pub proof fn law_whitespace_characters(c: char)
    ensures
        spec_is_whitespace(c) <==> {
            ||| c == '\t'
            ||| c == '\n'
            ||| c == '\u{0B}'
            ||| c == '\u{0C}'
            ||| c == '\r'
            ||| c == ' '
            ||| c == '\u{85}'
            ||| c == '\u{A0}'
            ||| c == '\u{1680}'
            ||| c == '\u{2000}'
            ||| c == '\u{2001}'
            ||| c == '\u{2002}'
            ||| c == '\u{2003}'
            ||| c == '\u{2004}'
            ||| c == '\u{2005}'
            ||| c == '\u{2006}'
            ||| c == '\u{2007}'
            ||| c == '\u{2008}'
            ||| c == '\u{2009}'
            ||| c == '\u{200A}'
            ||| c == '\u{2028}'
            ||| c == '\u{2029}'
            ||| c == '\u{202F}'
            ||| c == '\u{205F}'
            ||| c == '\u{3000}'
        },
{
}

/// Whether `c` has the Unicode `White_Space` property (what
/// `char::is_whitespace` reports), by comparing `c` with the listed code points.
pub(crate) fn is_whitespace(c: char) -> (r: bool)
    ensures
        r == spec_is_whitespace(c),
{
    let u = c as u32;
    (0x09 <= u && u <= 0x0D) || u == 0x20 || u == 0x85 || u == 0xA0 || u == 0x1680 || (0x2000 <= u
        && u <= 0x200A) || u == 0x2028 || u == 0x2029 || u == 0x202F || u == 0x205F || u == 0x3000
}

/// Calls `char::is_alphabetic`; the contract claims only that the result is the
/// value named `spec_is_alphabetic` for `c`.
#[verifier::external_body]
pub(crate) fn is_alphabetic(c: char) -> (r: bool)
    ensures
        r == spec_is_alphabetic(c),
{
    c.is_alphabetic()
}

/// Calls `char::is_alphanumeric`; the contract claims that the result is the value
/// named `spec_is_alphanumeric` for `c`, and, as the documentation states
/// (alphanumeric means alphabetic or numeric), that every alphabetic `c` is alphanumeric.
#[verifier::external_body]
pub(crate) fn is_alphanumeric(c: char) -> (r: bool)
    ensures
        r == spec_is_alphanumeric(c),
        spec_is_alphabetic(c) ==> r,
{
    c.is_alphanumeric()
}

/// Calls `String::push`, which appends `c` to the end of `s`.
#[verifier::external_body]
pub(crate) fn string_push(s: &mut String, c: char)
    ensures
        final(s)@ == old(s)@.push(c),
{
    s.push(c)
}

} // verus!
