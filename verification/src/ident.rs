//! Identifiers: which texts can name a parameter.

use vstd::prelude::*;

verus! {

/// Whether a character has the Unicode property XID_Start.
pub uninterp spec fn xid_start(c: char) -> bool;

/// Whether a character has the Unicode property XID_Continue.
pub uninterp spec fn xid_continue(c: char) -> bool;

/// Whether `c` is one of the letters `A` to `Z` and `a` to `z`.
pub open spec fn ascii_letter(c: char) -> bool {
    ('A' <= c && c <= 'Z') || ('a' <= c && c <= 'z')
}

/// Whether `c` is one of the digits `0` to `9`.
pub open spec fn ascii_digit(c: char) -> bool {
    '0' <= c && c <= '9'
}

/// Whether `c` is below U+0080.
pub open spec fn ascii(c: char) -> bool {
    c <= '\x7f'
}

/// Whether `c` can begin an identifier: an underscore, a letter, or a
/// character from U+0080 on with the property XID_Start.
pub open spec fn ident_start(c: char) -> bool {
    c == '_' || if ascii(c) {
        ascii_letter(c)
    } else {
        xid_start(c)
    }
}

/// Whether `c` can stand in an identifier after its first character: an
/// underscore, a letter, a digit, or a character from U+0080 on with the
/// property XID_Continue.
pub open spec fn ident_continue(c: char) -> bool {
    if ascii(c) {
        ascii_letter(c) || ascii_digit(c) || c == '_'
    } else {
        xid_continue(c)
    }
}

/// Whether `s` is an identifier: it is not empty, begins with a character
/// that can begin one, and goes on with characters that can continue one.
pub open spec fn is_ident(s: Seq<char>) -> bool {
    &&& s.len() > 0
    &&& ident_start(s[0])
    &&& forall|i: int| 1 <= i < s.len() ==> ident_continue(#[trigger] s[i])
}

/// Calls `unicode_ident::is_xid_start`, which looks the character up in a
/// table and depends on nothing else. Trusted: below U+0080 the table holds
/// exactly the letters; from there on the answer is what `xid_start` names.
#[verifier::external_body]
fn is_xid_start(c: char) -> (r: bool)
    ensures
        r == if ascii(c) {
            ascii_letter(c)
        } else {
            xid_start(c)
        },
{
    unicode_ident::is_xid_start(c)
}

/// Calls `unicode_ident::is_xid_continue`, which looks the character up in a
/// table and depends on nothing else. Trusted: below U+0080 the table holds
/// exactly the letters, the digits and the underscore; from there on the
/// answer is what `xid_continue` names.
#[verifier::external_body]
fn is_xid_continue(c: char) -> (r: bool)
    ensures
        r == if ascii(c) {
            ascii_letter(c) || ascii_digit(c) || c == '_'
        } else {
            xid_continue(c)
        },
{
    unicode_ident::is_xid_continue(c)
}

/// Tells whether the characters of `chars` from `from` up to `end` form an
/// identifier.
pub fn is_identifier_at(chars: &Vec<char>, from: usize, end: usize) -> (r: bool)
    requires
        from <= end <= chars@.len(),
    ensures
        r == is_ident(chars@.subrange(from as int, end as int)),
{
    let ghost s = chars@.subrange(from as int, end as int);
    if from == end {
        return false;
    }
    let first: char = chars[from];
    assert(s[0] == first);
    if !(first == '_' || is_xid_start(first)) {
        return false;
    }
    let mut i: usize = from + 1;
    while i < end
        invariant
            from < i <= end <= chars@.len(),
            s == chars@.subrange(from as int, end as int),
            forall|j: int| 1 <= j < i - from ==> ident_continue(#[trigger] s[j]),
        decreases end - i,
    {
        assert(s[i - from] == chars@[i as int]);
        if !is_xid_continue(chars[i]) {
            return false;
        }
        i += 1;
    }
    true
}

/// Tells whether `text` is an identifier.
pub fn is_identifier(text: &str) -> (r: bool)
    ensures
        r == is_ident(text@),
{
    let chars = crate::text::chars_of(text);
    assert(chars@.subrange(0, chars@.len() as int) == chars@);
    is_identifier_at(&chars, 0, chars.len())
}

} // verus!
