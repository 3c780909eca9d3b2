//! Strings as characters and bytes.
use vstd::prelude::*;
use vstd::utf8::{decode_utf8, encode_utf8, valid_utf8};

verus! {

/// `String::push`: appends one character.
#[verifier::external_body]
pub(crate) fn push_char(s: &mut String, c: char)
    ensures
        final(s)@ == old(s)@.push(c),
{
    s.push(c);
}

/// `String::from_utf8`: the text of a byte string that is UTF-8, and nothing otherwise.
#[verifier::external_body]
fn from_utf8(bytes: Vec<u8>) -> (text: Option<String>)
    ensures
        text is Some <==> valid_utf8(bytes@),
        text matches Some(t) ==> t@ == decode_utf8(bytes@),
{
    String::from_utf8(bytes).ok()
}

/// The text of UTF-8 bytes, if they are UTF-8.
pub open spec fn utf8_of(bytes: Seq<u8>) -> Option<Seq<char>> {
    if valid_utf8(bytes) {
        Some(decode_utf8(bytes))
    } else {
        None
    }
}

/// The text of UTF-8 bytes, if they are UTF-8.
pub fn utf8_text(bytes: &[u8]) -> (text: Option<String>)
    ensures
        text is Some <==> utf8_of(bytes@) is Some,
        text matches Some(t) ==> utf8_of(bytes@) == Some(t@),
{
    from_utf8(vstd::slice::slice_to_vec(bytes))
}

/// The characters of a string.
pub fn chars_of(s: &str) -> (chars: Vec<char>)
    ensures
        chars@ == s@,
{
    let mut out: Vec<char> = Vec::new();
    for c in it: s.chars()
        invariant
            it.seq() == s@,
            out@ == s@.subrange(0, it.index() as int),
    {
        out.push(c);
        assert(out@ =~= s@.subrange(0, it.index() + 1));
    }
    assert(out@ =~= s@);
    out
}

/// Whether two texts are the same.
pub fn same_text(a: &str, b: &str) -> (same: bool)
    ensures
        same == (a@ == b@),
{
    let left: Vec<char> = chars_of(a);
    let right: Vec<char> = chars_of(b);
    if left.len() != right.len() {
        return false;
    }
    let mut i: usize = 0;
    while i < left.len()
        invariant
            left@ == a@,
            right@ == b@,
            left@.len() == right@.len(),
            i <= left@.len(),
            forall|j: int| 0 <= j < i ==> left@[j] == right@[j],
        decreases left@.len() - i,
    {
        if left[i] != right[i] {
            return false;
        }
        i += 1;
    }
    assert(a@ =~= b@);
    true
}

/// The characters of Latin-1 bytes: byte `n` is U+00nn.
pub open spec fn latin1_chars(bytes: Seq<u8>) -> Seq<char> {
    bytes.map_values(|b: u8| b as char)
}

/// The bytes of Latin-1 characters.
pub open spec fn latin1_bytes(chars: Seq<char>) -> Seq<u8> {
    chars.map_values(|c: char| (c as u32) as u8)
}

/// Decodes Latin-1 bytes code point for code point.
pub fn latin1(bytes: &[u8]) -> (text: String)
    ensures
        text@ == latin1_chars(bytes@),
{
    let mut out: String = String::new();
    let mut i: usize = 0;
    assert(out@ =~= latin1_chars(bytes@.subrange(0, 0)));
    while i < bytes.len()
        invariant
            i <= bytes@.len(),
            out@ == latin1_chars(bytes@.subrange(0, i as int)),
        decreases bytes@.len() - i,
    {
        push_char(&mut out, bytes[i] as char);
        i += 1;
        assert(out@ =~= latin1_chars(bytes@.subrange(0, i as int)));
    }
    assert(bytes@.subrange(0, i as int) =~= bytes@);
    out
}

proof fn narrow_char(c: char)
    ensures
        c as u32 <= 0xFF ==> (c as u32) as u8 as char == c,
{
}

/// Latin-1 is lossless both ways: bytes survive being read as characters, and characters below
/// U+0100 survive being written as bytes.
pub proof fn latin1_round_trip(bytes: Seq<u8>, chars: Seq<char>)
    ensures
        latin1_bytes(latin1_chars(bytes)) == bytes,
        (forall|i: int| 0 <= i < chars.len() ==> (#[trigger] chars[i]) as u32 <= 0xFF)
            ==> latin1_chars(latin1_bytes(chars)) == chars,
{
    assert(latin1_bytes(latin1_chars(bytes)) =~= bytes);
    if forall|i: int| 0 <= i < chars.len() ==> (#[trigger] chars[i]) as u32 <= 0xFF {
        let back = latin1_chars(latin1_bytes(chars));
        assert forall|i: int| 0 <= i < chars.len() implies back[i] == chars[i] by {
            let c = chars[i];
            narrow_char(c);
        }
        assert(back =~= chars);
    }
}

/// The UTF-8 bytes of a string.
pub fn utf8_bytes(s: &str) -> (bytes: Vec<u8>)
    ensures
        bytes@ == encode_utf8(s@),
{
    vstd::slice::slice_to_vec(s.as_bytes())
}

} // verus!
