//! Host names as the registry compares them: by their UTF-8 bytes.
use vstd::prelude::*;
use vstd::utf8::encode_utf8;

verus! {

broadcast use vstd::utf8::encode_utf8_decode_utf8;

/// `u8::to_ascii_lowercase`.
pub open spec fn ascii_lower(b: u8) -> u8 {
    if 65 <= b <= 90 {
        (b + 32) as u8
    } else {
        b
    }
}

/// `<[u8]>::eq_ignore_ascii_case`: same length, and equal bytes after ASCII lower-casing.
pub open spec fn bytes_eq_ignore_ascii_case(a: Seq<u8>, b: Seq<u8>) -> bool {
    &&& a.len() == b.len()
    &&& forall|i: int| 0 <= i < a.len() ==> ascii_lower(a[i]) == ascii_lower(b[i])
}

/// The bytes of `localhost`.
pub open spec fn localhost_bytes() -> Seq<u8> {
    seq![108u8, 111u8, 99u8, 97u8, 108u8, 104u8, 111u8, 115u8, 116u8]
}

/// The name is `localhost` in any ASCII letter case.
pub open spec fn is_localhost_name(name: Seq<char>) -> bool {
    bytes_eq_ignore_ascii_case(encode_utf8(name), localhost_bytes())
}

/// `u8::is_ascii_whitespace`: space, tab, line feed, form feed or carriage return.
pub open spec fn is_ascii_whitespace(b: u8) -> bool {
    b == 32 || b == 9 || b == 10 || b == 12 || b == 13
}

/// Some byte of the name's UTF-8 encoding is ASCII whitespace.
pub open spec fn has_ascii_whitespace(name: Seq<char>) -> bool {
    exists|i: int| 0 <= i < encode_utf8(name).len() && is_ascii_whitespace(#[trigger] encode_utf8(name)[i])
}

fn to_ascii_lower(b: u8) -> (r: u8)
    ensures
        r == ascii_lower(b),
{
    if 65 <= b && b <= 90 {
        b + 32
    } else {
        b
    }
}

/// Whether the name is `localhost` in any ASCII letter case.
pub fn name_is_localhost(name: &str) -> (r: bool)
    ensures
        r == is_localhost_name(name@),
{
    let bytes = name.as_bytes();
    let target: [u8; 9] = [108, 111, 99, 97, 108, 104, 111, 115, 116];
    assert(target@ =~= localhost_bytes());
    if bytes.len() != 9 {
        return false;
    }
    let mut i: usize = 0;
    while i < 9
        invariant
            bytes@ == encode_utf8(name@),
            bytes@.len() == 9,
            target@ == localhost_bytes(),
            i <= 9,
            forall|j: int| 0 <= j < i ==> ascii_lower(bytes@[j]) == ascii_lower(target@[j]),
        decreases 9 - i,
    {
        if to_ascii_lower(bytes[i]) != to_ascii_lower(target[i]) {
            return false;
        }
        i = i + 1;
    }
    true
}

/// Whether some byte of the name is ASCII whitespace.
pub fn name_has_ascii_whitespace(name: &str) -> (r: bool)
    ensures
        r == has_ascii_whitespace(name@),
{
    let bytes = name.as_bytes();
    let mut i: usize = 0;
    while i < bytes.len()
        invariant
            bytes@ == encode_utf8(name@),
            i <= bytes@.len(),
            forall|j: int| 0 <= j < i ==> !is_ascii_whitespace(#[trigger] bytes@[j]),
        decreases bytes@.len() - i,
    {
        let b = bytes[i];
        if b == 32 || b == 9 || b == 10 || b == 12 || b == 13 {
            return true;
        }
        i = i + 1;
    }
    false
}

/// Whether two names are equal.
pub fn names_equal(a: &str, b: &str) -> (r: bool)
    ensures
        r == (a@ == b@),
{
    let x = a.as_bytes();
    let y = b.as_bytes();
    if x.len() != y.len() {
        return false;
    }
    let mut i: usize = 0;
    while i < x.len()
        invariant
            x@ == encode_utf8(a@),
            y@ == encode_utf8(b@),
            x@.len() == y@.len(),
            i <= x@.len(),
            forall|j: int| 0 <= j < i ==> x@[j] == y@[j],
        decreases x@.len() - i,
    {
        if x[i] != y[i] {
            return false;
        }
        i = i + 1;
    }
    assert(x@ =~= y@);
    assert(a@ == b@) by {
        assert(vstd::utf8::decode_utf8(encode_utf8(a@)) == a@);
        assert(vstd::utf8::decode_utf8(encode_utf8(b@)) == b@);
    }
    true
}

} // verus!
