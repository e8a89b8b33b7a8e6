use vstd::prelude::*;

verus! {

/// The fixed protocol tag under which blob sessions run: "/iroh-bytes/4".
pub open spec fn blobs_alpn() -> Seq<u8> {
    seq![47u8, 105u8, 114u8, 111u8, 104u8, 45u8, 98u8, 121u8, 116u8, 101u8, 115u8, 47u8, 52u8]
}

/// The fixed protocol tag under which gossip sessions run: "/iroh-gossip/1".
pub open spec fn gossip_alpn() -> Seq<u8> {
    seq![
        47u8,
        105u8,
        114u8,
        111u8,
        104u8,
        45u8,
        103u8,
        111u8,
        115u8,
        115u8,
        105u8,
        112u8,
        47u8,
        49u8,
    ]
}

/// Relies on `iroh_blobs::protocol::ALPN`: the tag is "/iroh-bytes/4".
#[verifier::external_body]
pub fn blobs_alpn_bytes() -> (r: Vec<u8>)
    ensures
        r@ == blobs_alpn(),
{
    iroh_blobs::protocol::ALPN.to_vec()
}

/// Relies on `iroh_gossip::net::GOSSIP_ALPN`: the tag is "/iroh-gossip/1".
#[verifier::external_body]
pub fn gossip_alpn_bytes() -> (r: Vec<u8>)
    ensures
        r@ == gossip_alpn(),
{
    iroh_gossip::net::GOSSIP_ALPN.to_vec()
}

/// The two fixed tags differ: they do not even have the same length.
pub proof fn lemma_fixed_alpns_distinct()
    ensures
        blobs_alpn() != gossip_alpn(),
{
    assert(blobs_alpn().len() == 13);
    assert(gossip_alpn().len() == 14);
}

} // verus!
