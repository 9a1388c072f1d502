use crate::error::ZipCodeError;
use vstd::prelude::*;

verus! {

/// The format version that this library writes and reads.
pub const FORMAT_VERSION: u8 = 1;

/// The header that opens a persisted database: four magic bytes, then the
/// format version.
pub open spec fn header() -> Seq<u8> {
    seq![0x5au8, 0x49u8, 0x50u8, 0x44u8, FORMAT_VERSION]
}

/// The persisted form of an encoded area set.
pub open spec fn framed(payload: Seq<u8>) -> Seq<u8> {
    header() + payload
}

/// The encoded area set inside a persisted database, if its header is right.
pub open spec fn unframed(bytes: Seq<u8>) -> Option<Seq<u8>> {
    if bytes.len() >= 5 && bytes.take(5) == header() {
        Some(bytes.skip(5))
    } else {
        None
    }
}

/// Reading back what was written gives the encoded area set unchanged.
pub proof fn lemma_frame_round_trip(payload: Seq<u8>)
    ensures
        unframed(framed(payload)) == Some(payload),
{
    assert(framed(payload).take(5) =~= header());
    assert(framed(payload).skip(5) =~= payload);
}

/// Prepends the header to an encoded area set.
pub fn frame(payload: &Vec<u8>) -> (r: Vec<u8>)
    ensures
        r@ == framed(payload@),
{
    let mut r: Vec<u8> = vec![0x5a, 0x49, 0x50, 0x44, FORMAT_VERSION];
    let mut i: usize = 0;
    while i < payload.len()
        invariant
            0 <= i <= payload.len(),
            r@ == header() + payload@.take(i as int),
        decreases payload.len() - i,
    {
        r.push(payload[i]);
        i = i + 1;
        assert(r@ =~= header() + payload@.take(i as int));
    }
    assert(payload@.take(payload.len() as int) =~= payload@);
    r
}

/// The encoded area set inside a persisted database; a load error where the
/// header is missing or names another format version.
pub fn unframe(bytes: &Vec<u8>) -> (r: Result<Vec<u8>, ZipCodeError>)
    ensures
        r is Ok <==> unframed(bytes@) is Some,
        r is Ok ==> r->Ok_0@ == unframed(bytes@)->Some_0,
        r is Err ==> r->Err_0 is DataLoadError,
{
    if bytes.len() < 5 || bytes[0] != 0x5a || bytes[1] != 0x49 || bytes[2] != 0x50 || bytes[3]
        != 0x44 {
        proof {
            if bytes@.len() >= 5 && bytes@.take(5) == header() {
                assert(bytes@.take(5)[0] == bytes@[0]);
                assert(bytes@.take(5)[1] == bytes@[1]);
                assert(bytes@.take(5)[2] == bytes@[2]);
                assert(bytes@.take(5)[3] == bytes@[3]);
            }
        }
        return Err(ZipCodeError::DataLoadError("not a ZIP code database".to_string()));
    }
    if bytes[4] != FORMAT_VERSION {
        assert(bytes@.take(5)[4] == bytes@[4]);
        return Err(ZipCodeError::DataLoadError("unsupported database format version".to_string()));
    }
    assert(bytes@.take(5) =~= header());
    let mut r: Vec<u8> = Vec::new();
    let mut i: usize = 5;
    while i < bytes.len()
        invariant
            5 <= i <= bytes.len(),
            r@ == bytes@.subrange(5, i as int),
        decreases bytes.len() - i,
    {
        r.push(bytes[i]);
        i = i + 1;
        assert(r@ =~= bytes@.subrange(5, i as int));
    }
    assert(r@ =~= bytes@.skip(5));
    Ok(r)
}

} // verus!
