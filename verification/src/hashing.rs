use vstd::prelude::*;

verus! {

/// The content digest that addresses a blob: a function of the bytes
/// alone, the same in every process and on every machine.
pub uninterp spec fn digest_of(b: Seq<u8>) -> Seq<u8>;

/// Relies on `iroh_blobs::Hash::new`: the blake3 content hash of the
/// given bytes, 32 bytes long, depending on the bytes alone.
#[verifier::external_body]
pub(crate) fn content_digest(data: &Vec<u8>) -> (h: Vec<u8>)
    ensures
        h@ == digest_of(data@),
        h@.len() == 32,
{
    iroh_blobs::Hash::new(data.as_slice()).as_bytes().to_vec()
}

} // verus!
