//! Turning bytes into text.
use vstd::prelude::*;
use vstd::utf8::{decode_utf8, valid_utf8};

verus! {

/// What `String::from_utf8_lossy` makes of `bytes`: the UTF-8 decoding, with
/// each invalid sequence replaced by U+FFFD.
pub uninterp spec fn utf8_lossy(bytes: Seq<u8>) -> Seq<char>;

/// Calls `String::from_utf8_lossy` and takes ownership of the result. Its
/// documentation gives valid UTF-8 back unchanged and replaces each invalid
/// sequence by U+FFFD, so an ASCII character of the result is one of the
/// input's bytes; where the invalid sequences end is only named, not stated.
#[verifier::external_body]
pub(crate) fn lossy_string(bytes: &[u8]) -> (s: String)
    ensures
        s@ == utf8_lossy(bytes@),
        valid_utf8(bytes@) ==> s@ == decode_utf8(bytes@),
        forall|i: int|
            0 <= i < s@.len() && (#[trigger] s@[i] as u32) < 0x80 ==> exists|k: int|
                0 <= k < bytes@.len() && bytes@[k] as u32 == s@[i] as u32,
{
    String::from_utf8_lossy(bytes).into_owned()
}

} // verus!

verus! {

/// The characters of `s`, in order.
pub fn char_vec(s: &str) -> (v: Vec<char>)
    ensures
        v@ == s@,
{
    broadcast use vstd::string::group_string_axioms;
    let mut v: Vec<char> = Vec::new();
    for c in it: s.chars()
        invariant
            v@ == it.seq().take(it.index() as int),
    {
        v.push(c);
    }
    v
}

/// Collects the characters into a `String` (`FromIterator<char>`), which
/// holds exactly those characters in order.
#[verifier::external_body]
pub(crate) fn string_from_chars(chars: &[char]) -> (s: String)
    ensures
        s@ == chars@,
{
    chars.iter().collect()
}

} // verus!
