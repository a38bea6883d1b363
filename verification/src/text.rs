//! Text made of bytes: each byte stands for the character with the same code.

use vstd::prelude::*;

verus! {

/// The characters that the bytes of `s` stand for, one character per byte.
pub open spec fn chars_of(s: Seq<u8>) -> Seq<char> {
    Seq::new(s.len(), |i: int| s[i] as char)
}

/// `String::push` of the standard library appends the one character `c` to
/// the end of the string and leaves what was there in place.
pub assume_specification[ std::string::String::push ](s: &mut std::string::String, c: char)
    ensures
        final(s)@ == old(s)@.push(c),
;

/// Builds the string whose characters are the bytes of `bytes`.
pub fn string_of_bytes(bytes: &[u8]) -> (text: String)
    ensures
        text@ == chars_of(bytes@),
{
    let mut text = String::new();
    let mut i: usize = 0;
    while i < bytes.len()
        invariant
            i <= bytes.len(),
            text@ == chars_of(bytes@.take(i as int)),
        decreases bytes.len() - i,
    {
        text.push(bytes[i] as char);
        assert(chars_of(bytes@.take(i + 1)) =~= chars_of(bytes@.take(i as int)).push(
            bytes@[i as int] as char,
        ));
        i += 1;
    }
    assert(bytes@.take(i as int) =~= bytes@);
    text
}

} // verus!
