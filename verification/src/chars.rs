use unicode_xid::UnicodeXID;
use vstd::prelude::*;

verus! {

/// Whether a non-ASCII character is in one of Unicode's numeric general
/// categories (Nd, Nl, No).
pub uninterp spec fn numeric_property(c: char) -> bool;

/// Whether a non-ASCII character has Unicode's White_Space property.
pub uninterp spec fn white_space_property(c: char) -> bool;

/// Whether a non-ASCII character has Unicode's XID_Start property.
pub uninterp spec fn xid_start_property(c: char) -> bool;

/// Whether a non-ASCII character has Unicode's XID_Continue property.
pub uninterp spec fn xid_continue_property(c: char) -> bool;

/// What `unescape::unescape` gives back for a text: the text with its
/// backslash escapes replaced, or nothing where an escape is malformed.
pub uninterp spec fn unescaped(s: Seq<char>) -> Option<Seq<char>>;

pub open spec fn is_ascii_char(c: char) -> bool {
    (c as u32) <= 0x7f
}

pub open spec fn is_ascii_digit(c: char) -> bool {
    '0' <= c && c <= '9'
}

pub open spec fn is_ascii_letter(c: char) -> bool {
    ('a' <= c && c <= 'z') || ('A' <= c && c <= 'Z')
}

/// `char::is_numeric`: true for the numeric general categories; among the
/// ASCII characters these are exactly the decimal digits.
pub open spec fn spec_is_numeric(c: char) -> bool {
    if is_ascii_char(c) {
        is_ascii_digit(c)
    } else {
        numeric_property(c)
    }
}

/// `char::is_whitespace`: true for the White_Space property; among the
/// ASCII characters these are tab, line feed, vertical tab, form feed,
/// carriage return and space.
pub open spec fn spec_is_whitespace(c: char) -> bool {
    if is_ascii_char(c) {
        ('\t' <= c && c <= '\r') || c == ' '
    } else {
        white_space_property(c)
    }
}

/// `UnicodeXID::is_xid_start`.
pub open spec fn spec_is_xid_start(c: char) -> bool {
    if is_ascii_char(c) {
        is_ascii_letter(c)
    } else {
        xid_start_property(c)
    }
}

/// `UnicodeXID::is_xid_continue`.
pub open spec fn spec_is_xid_continue(c: char) -> bool {
    if is_ascii_char(c) {
        is_ascii_letter(c) || is_ascii_digit(c) || c == '_'
    } else {
        xid_continue_property(c)
    }
}

/// Calls `char::is_numeric`. Its documentation defines the result by the
/// general categories Nd, Nl and No; of the ASCII characters only the ten
/// decimal digits are in them. The non-ASCII answer is left to the name
/// `numeric_property`.
#[verifier::external_body]
pub fn is_numeric(c: char) -> (b: bool)
    ensures
        is_ascii_char(c) ==> b == is_ascii_digit(c),
        !is_ascii_char(c) ==> b == numeric_property(c),
{
    c.is_numeric()
}

/// Calls `char::is_whitespace`. Its documentation defines the result by the
/// White_Space property; of the ASCII characters exactly U+0009..U+000D and
/// U+0020 have it. The non-ASCII answer is left to `white_space_property`.
#[verifier::external_body]
pub fn is_whitespace(c: char) -> (b: bool)
    ensures
        is_ascii_char(c) ==> b == (('\t' <= c && c <= '\r') || c == ' '),
        !is_ascii_char(c) ==> b == white_space_property(c),
{
    c.is_whitespace()
}

/// Calls `UnicodeXID::is_xid_start` of the unicode-xid crate, whose source
/// answers ASCII letters by a fast path and looks every character above
/// U+007F up in its XID_Start table (named `xid_start_property` here).
#[verifier::external_body]
pub fn is_xid_start(c: char) -> (b: bool)
    ensures
        is_ascii_char(c) ==> b == is_ascii_letter(c),
        !is_ascii_char(c) ==> b == xid_start_property(c),
{
    c.is_xid_start()
}

/// Calls `UnicodeXID::is_xid_continue` of the unicode-xid crate, whose
/// source answers ASCII letters, digits and `_` by a fast path and looks
/// every character above U+007F up in its XID_Continue table (named
/// `xid_continue_property` here).
#[verifier::external_body]
pub fn is_xid_continue(c: char) -> (b: bool)
    ensures
        is_ascii_char(c) ==> b == (is_ascii_letter(c) || is_ascii_digit(c) || c == '_'),
        !is_ascii_char(c) ==> b == xid_continue_property(c),
{
    c.is_xid_continue()
}

/// Calls `unescape::unescape`, a function of its argument alone. Its source
/// copies every character that is not a backslash unchanged and returns
/// `None` only when it meets a backslash, so a text without backslashes
/// comes back as it is; what it does with escapes is left to `unescaped`.
#[verifier::external_body]
pub fn unescape_text(s: &str) -> (r: Option<String>)
    ensures
        r is Some <==> unescaped(s@) is Some,
        r is Some ==> unescaped(s@) == Some(r->0@),
        !s@.contains('\\') ==> r is Some && r->0@ == s@,
{
    unescape::unescape(s)
}

/// Calls `String::push`, which appends a character to the end of the
/// string.
#[verifier::external_body]
fn push_char(s: &mut String, c: char)
    ensures
        final(s)@ == old(s)@.push(c),
{
    s.push(c)
}

/// The characters of `v` as a `String`.
pub fn string_from_chars(v: &Vec<char>) -> (s: String)
    ensures
        s@ == v@,
{
    let mut s = String::new();
    let mut i: usize = 0;
    while i < v.len()
        invariant
            i <= v@.len(),
            s@ == v@.take(i as int),
        decreases v@.len() - i,
    {
        push_char(&mut s, v[i]);
        i = i + 1;
        proof {
            assert(s@ =~= v@.take(i as int));
        }
    }
    proof {
        assert(v@.take(i as int) =~= v@);
    }
    s
}

} // verus!
