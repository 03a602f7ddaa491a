//! Identifier characters, as the Unicode standard classifies them.

use vstd::prelude::*;
use unicode_xid::UnicodeXID;

verus! {

/// Whether the character has the Unicode property `XID_Start`.
pub uninterp spec fn xid_start(c: char) -> bool;

/// Whether the character has the Unicode property `XID_Continue`.
pub uninterp spec fn xid_continue(c: char) -> bool;

/// Among the ASCII characters, the letters.
pub open spec fn ascii_letter(c: char) -> bool {
    ('a' <= c && c <= 'z') || ('A' <= c && c <= 'Z')
}

/// Among the ASCII characters, the letters, the digits and the underscore.
pub open spec fn ascii_word(c: char) -> bool {
    ascii_letter(c) || ('0' <= c && c <= '9') || c == '_'
}

/// `UnicodeXID::is_xid_start` of `unicode_xid`: a table lookup that depends
/// on the character alone. Of an ASCII character it says whether it is a
/// letter.
#[verifier::external_body]
pub(crate) fn is_xid_start(c: char) -> (r: bool)
    ensures
        r == xid_start(c),
        c <= '\x7f' ==> r == ascii_letter(c),
{
    c.is_xid_start()
}

/// `UnicodeXID::is_xid_continue` of `unicode_xid`: a table lookup that
/// depends on the character alone. Of an ASCII character it says whether it
/// is a letter, a digit or the underscore.
#[verifier::external_body]
pub(crate) fn is_xid_continue(c: char) -> (r: bool)
    ensures
        r == xid_continue(c),
        c <= '\x7f' ==> r == ascii_word(c),
{
    c.is_xid_continue()
}

} // verus!
