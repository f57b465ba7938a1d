use vstd::prelude::*;
use vstd::string::{StringExecFns, StringSliceAdditionalSpecFns};
use vstd::utf8::{decode_utf8, valid_utf8};

verus! {

/// The bytes before the first zero byte (all of them where there is none).
pub open spec fn before_first_zero(b: Seq<u8>) -> Seq<u8>
    decreases b.len(),
{
    if b.len() == 0 {
        b
    } else if b[0] == 0 {
        Seq::empty()
    } else {
        seq![b[0]] + before_first_zero(b.drop_first())
    }
}

/// A name as 32 bytes: its UTF-8 bytes, then zeros.
pub open spec fn padded_name(text: Seq<u8>) -> Seq<u8> {
    text + Seq::new((32 - text.len()) as nat, |i: int| 0u8)
}

/// Copies the bytes of `str` into 32 bytes, padding with zeros.
pub fn string_to_bytes32(str: &str) -> (r: [u8; 32])
    requires
        str.spec_bytes().len() <= 32,
    ensures
        r@ == padded_name(str.spec_bytes()),
{
    let mut str_32: [u8; 32] = [0u8; 32];
    let str_bytes = str.as_bytes();
    let mut i: usize = 0;
    while i < str_bytes.len()
        invariant
            str_bytes@ == str.spec_bytes(),
            str_bytes@.len() <= 32,
            0 <= i <= str_bytes@.len(),
            str_32@.len() == 32,
            forall|j: int| 0 <= j < i ==> str_32@[j] == str_bytes@[j],
            forall|j: int| i <= j < 32 ==> str_32@[j] == 0,
        decreases str_bytes@.len() - i,
    {
        str_32[i] = str_bytes[i];
        i = i + 1;
    }
    proof {
        assert(str_32@ =~= padded_name(str.spec_bytes()));
    }
    str_32
}

/// Relies on `String::from_utf8`: it succeeds exactly on valid UTF-8, and
/// the string then holds the characters that the bytes encode.
#[verifier::external_body]
pub(crate) fn string_from_utf8(bytes: Vec<u8>) -> (r: Option<String>)
    ensures
        r is Some <==> valid_utf8(bytes@),
        r matches Some(s) ==> s@ == decode_utf8(bytes@),
{
    String::from_utf8(bytes).ok()
}

/// The name held in 32 zero-padded bytes: the text before the first zero
/// byte, or "Invalid UTF-8" where that text is not valid UTF-8.
pub fn bytes32_to_string(bytes: [u8; 32]) -> (r: String)
    ensures
        valid_utf8(before_first_zero(bytes@)) ==> r@ == decode_utf8(before_first_zero(bytes@)),
        !valid_utf8(before_first_zero(bytes@)) ==> r@ == "Invalid UTF-8"@,
{
    let mut text: Vec<u8> = Vec::new();
    let mut i: usize = 0;
    proof {
        assert(bytes@.subrange(0, 32) =~= bytes@);
        assert(text@ + before_first_zero(bytes@) =~= before_first_zero(bytes@));
    }
    while i < 32 && bytes[i] != 0
        invariant
            0 <= i <= 32,
            bytes@.len() == 32,
            forall|j: int| 0 <= j < i ==> bytes@[j] != 0,
            text@ == bytes@.subrange(0, i as int),
            before_first_zero(bytes@) == text@ + before_first_zero(bytes@.subrange(i as int, 32)),
        decreases 32 - i,
    {
        proof {
            let rest = bytes@.subrange(i as int, 32);
            assert(rest.drop_first() =~= bytes@.subrange(i as int + 1, 32));
            assert(text@ + seq![rest[0]] + before_first_zero(rest.drop_first()) =~= text@ + (seq![
                rest[0],
            ] + before_first_zero(rest.drop_first())));
        }
        text.push(bytes[i]);
        i = i + 1;
        proof {
            assert(text@ =~= bytes@.subrange(0, i as int));
        }
    }
    proof {
        let rest = bytes@.subrange(i as int, 32);
        assert(before_first_zero(rest) =~= Seq::<u8>::empty());
        assert(text@ + Seq::<u8>::empty() =~= text@);
    }
    match string_from_utf8(text) {
        Some(s) => s,
        None => <String as StringExecFns>::from_str("Invalid UTF-8"),
    }
}

/// Whether two addresses are the same.
pub fn same_key(a: &[u8; 32], b: &[u8; 32]) -> (r: bool)
    ensures
        r == (a@ == b@),
{
    let mut i: usize = 0;
    while i < 32
        invariant
            0 <= i <= 32,
            a@.len() == 32,
            b@.len() == 32,
            forall|j: int| 0 <= j < i ==> a@[j] == b@[j],
        decreases 32 - i,
    {
        if a[i] != b[i] {
            return false;
        }
        i = i + 1;
    }
    proof {
        assert(a@ =~= b@);
    }
    true
}

} // verus!
