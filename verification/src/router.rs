use vstd::prelude::*;

use crate::alpn::{
    blobs_alpn, blobs_alpn_bytes, gossip_alpn, gossip_alpn_bytes, lemma_fixed_alpns_distinct,
};
use crate::bytes::bytes_eq;
use crate::errors::NodeError;

verus! {

/// One registered protocol: an ALPN tag bound to an opaque handler
/// identifier that the embedder associates with the handler itself.
pub struct Registration {
    pub alpn: Vec<u8>,
    pub handler: u64,
}

/// Whether a handler is registered under tag `a`.
pub open spec fn has_alpn(s: Seq<Registration>, a: Seq<u8>) -> bool {
    exists|i: int| 0 <= i < s.len() && (#[trigger] s[i]).alpn@ == a
}

/// The index of the registration carrying tag `a`.
pub open spec fn alpn_index(s: Seq<Registration>, a: Seq<u8>) -> int {
    choose|i: int| 0 <= i < s.len() && (#[trigger] s[i]).alpn@ == a
}

/// The handler registered under tag `a`.
pub open spec fn handler_for(s: Seq<Registration>, a: Seq<u8>) -> u64 {
    s[alpn_index(s, a)].handler
}

/// Registered tags are unique across handlers.
pub open spec fn alpns_unique(s: Seq<Registration>) -> bool {
    forall|i: int, j: int|
        0 <= i < s.len() && 0 <= j < s.len() && i != j ==> (#[trigger] s[i]).alpn@ != (
        #[trigger] s[j]).alpn@
}

/// A registration is found under its tag, at its own index.
pub proof fn lemma_alpn_at_index(s: Seq<Registration>, i: int)
    requires
        alpns_unique(s),
        0 <= i < s.len(),
    ensures
        has_alpn(s, s[i].alpn@),
        alpn_index(s, s[i].alpn@) == i,
        handler_for(s, s[i].alpn@) == s[i].handler,
{
    assert(has_alpn(s, s[i].alpn@));
    let j = alpn_index(s, s[i].alpn@);
    if j != i {
        assert(s[j].alpn@ != s[i].alpn@);
    }
}

/// What a successful registration of handler `h` under tag `a`
/// guarantees of the table.
pub open spec fn register_post(
    pre: Seq<Registration>,
    post: Seq<Registration>,
    a: Seq<u8>,
    h: u64,
) -> bool {
    &&& has_alpn(post, a)
    &&& handler_for(post, a) == h
    &&& forall|a2: Seq<u8>| a2 != a ==> (#[trigger] has_alpn(post, a2) <==> has_alpn(pre, a2))
    &&& forall|a2: Seq<u8>|
        a2 != a && has_alpn(pre, a2) ==> #[trigger] handler_for(post, a2) == handler_for(pre, a2)
    &&& post.len() == pre.len() + 1
}

/// Appending a registration with a fresh tag keeps tags unique and
/// leaves every other tag's handler as it was.
proof fn lemma_push_registration(s: Seq<Registration>, nr: Registration)
    requires
        alpns_unique(s),
        !has_alpn(s, nr.alpn@),
    ensures
        alpns_unique(s.push(nr)),
        register_post(s, s.push(nr), nr.alpn@, nr.handler),
{
    let s1 = s.push(nr);
    assert forall|p: int, q: int|
        0 <= p < s1.len() && 0 <= q < s1.len() && p != q implies (#[trigger] s1[p]).alpn@ != (
    #[trigger] s1[q]).alpn@ by {
        if p < s.len() && q < s.len() {
            assert(s1[p] == s[p]);
            assert(s1[q] == s[q]);
        } else if p < s.len() && q == s.len() {
            assert(s1[p] == s[p]);
            if s[p].alpn@ == nr.alpn@ {
                assert(has_alpn(s, nr.alpn@));
            }
        } else if p == s.len() && q < s.len() {
            assert(s1[q] == s[q]);
            if s[q].alpn@ == nr.alpn@ {
                assert(has_alpn(s, nr.alpn@));
            }
        }
    }
    assert(s1[s.len() as int] == nr);
    lemma_alpn_at_index(s1, s.len() as int);
    assert forall|a2: Seq<u8>| a2 != nr.alpn@ implies (#[trigger] has_alpn(s1, a2) <==> has_alpn(
        s,
        a2,
    )) by {
        if has_alpn(s1, a2) {
            let p = alpn_index(s1, a2);
            assert(p != s.len());
            assert(s[p].alpn@ == a2);
        }
        if has_alpn(s, a2) {
            let p = alpn_index(s, a2);
            assert(s1[p].alpn@ == a2);
        }
    }
    assert forall|a2: Seq<u8>| a2 != nr.alpn@ && has_alpn(s, a2) implies #[trigger] handler_for(
        s1,
        a2,
    ) == handler_for(s, a2) by {
        let p = alpn_index(s, a2);
        lemma_alpn_at_index(s, p);
        assert(p != s.len());
        assert(s1[p].alpn@ == a2);
        lemma_alpn_at_index(s1, p);
    }
}

/// Collects protocol handlers, each under its own ALPN tag, before the
/// router starts accepting sessions.
pub struct RouterBuilder {
    pub registrations: Vec<Registration>,
}

/// The running router: a demultiplexer that matches each inbound
/// session's ALPN against the registered handlers.
pub struct Router {
    pub registrations: Vec<Registration>,
}

impl RouterBuilder {
    /// Tags are unique: the wiring invariant.
    pub open spec fn wf(self) -> bool {
        alpns_unique(self.registrations@)
    }

    /// A builder with no registrations.
    pub fn new() -> (b: RouterBuilder)
        ensures
            b.wf(),
            b.registrations@.len() == 0,
            forall|a: Seq<u8>| !(#[trigger] has_alpn(b.registrations@, a)),
    {
        RouterBuilder { registrations: Vec::new() }
    }

    /// Registers `handler` under `alpn`. Rejected with `AlpnCollision`
    /// exactly when the tag is already registered.
    pub fn accept(&mut self, alpn: Vec<u8>, handler: u64) -> (r: Result<(), NodeError>)
        requires
            old(self).wf(),
        ensures
            final(self).wf(),
            has_alpn(old(self).registrations@, alpn@) ==> (r matches Err(e) && e
                == NodeError::AlpnCollision && *final(self) == *old(self)),
            !has_alpn(old(self).registrations@, alpn@) ==> (r is Ok && register_post(
                old(self).registrations@,
                final(self).registrations@,
                alpn@,
                handler,
            )),
    {
        let n = self.registrations.len();
        let mut i: usize = 0;
        while i < n
            invariant
                n == self.registrations@.len(),
                self.registrations@ == old(self).registrations@,
                alpns_unique(self.registrations@),
                i <= n,
                forall|j: int| 0 <= j < i ==> (#[trigger] self.registrations@[j]).alpn@ != alpn@,
            decreases n - i,
        {
            if bytes_eq(&self.registrations[i].alpn, &alpn) {
                proof {
                    lemma_alpn_at_index(self.registrations@, i as int);
                }
                return Err(NodeError::AlpnCollision);
            }
            i += 1;
        }
        proof {
            if has_alpn(self.registrations@, alpn@) {
                let j = alpn_index(self.registrations@, alpn@);
                assert(self.registrations@[j].alpn@ != alpn@);
            }
        }
        let nr = Registration { alpn, handler };
        proof {
            lemma_push_registration(self.registrations@, nr);
        }
        self.registrations.push(nr);
        Ok(())
    }

    /// Begins accepting sessions with the registrations made so far.
    pub fn spawn(self) -> (r: Router)
        ensures
            r.registrations == self.registrations,
    {
        Router { registrations: self.registrations }
    }
}

impl Router {
    pub open spec fn wf(self) -> bool {
        alpns_unique(self.registrations@)
    }

    /// Matches an inbound session's ALPN: the session is dispatched to
    /// the registered handler, or rejected with `NoProtocol`.
    pub fn dispatch(&self, alpn: &Vec<u8>) -> (r: Result<u64, NodeError>)
        requires
            self.wf(),
        ensures
            has_alpn(self.registrations@, alpn@) ==> (r matches Ok(h) && h == handler_for(
                self.registrations@,
                alpn@,
            )),
            !has_alpn(self.registrations@, alpn@) ==> (r matches Err(e) && e
                == NodeError::NoProtocol),
    {
        let n = self.registrations.len();
        let mut i: usize = 0;
        while i < n
            invariant
                n == self.registrations@.len(),
                alpns_unique(self.registrations@),
                i <= n,
                forall|j: int| 0 <= j < i ==> (#[trigger] self.registrations@[j]).alpn@ != alpn@,
            decreases n - i,
        {
            if bytes_eq(&self.registrations[i].alpn, alpn) {
                proof {
                    lemma_alpn_at_index(self.registrations@, i as int);
                }
                return Ok(self.registrations[i].handler);
            }
            i += 1;
        }
        proof {
            if has_alpn(self.registrations@, alpn@) {
                let j = alpn_index(self.registrations@, alpn@);
                assert(self.registrations@[j].alpn@ != alpn@);
            }
        }
        Err(NodeError::NoProtocol)
    }
}

/// A tag that a successful registration just filled is in the table, so
/// registering under it again collides: by `accept`'s contract the next
/// `accept` of that tag returns `AlpnCollision`.
pub proof fn lemma_reregistration_collides(
    pre: Seq<Registration>,
    post: Seq<Registration>,
    a: Seq<u8>,
    h: u64,
)
    requires
        register_post(pre, post, a, h),
    ensures
        has_alpn(post, a),
{
}

/// The wired table: three handlers, each under its own tag.
pub open spec fn router_wired(rt: Router, bh: u64, gh: u64, dh: u64, da: Seq<u8>) -> bool {
    &&& alpns_unique(rt.registrations@)
    &&& rt.registrations@.len() == 3
    &&& has_alpn(rt.registrations@, blobs_alpn()) && handler_for(rt.registrations@, blobs_alpn())
        == bh
    &&& has_alpn(rt.registrations@, gossip_alpn()) && handler_for(rt.registrations@, gossip_alpn())
        == gh
    &&& has_alpn(rt.registrations@, da) && handler_for(rt.registrations@, da) == dh
}

/// The node's startup wiring: registers the blob handler under the blob
/// tag and the gossip handler under the gossip tag, then the
/// document-sync handler under `docs_alpn`, and spawns the router.
/// Succeeds exactly when `docs_alpn` is neither fixed tag.
pub fn wire_node(blobs_handler: u64, gossip_handler: u64, docs_handler: u64, docs_alpn: &Vec<u8>) -> (r:
    Result<Router, NodeError>)
    ensures
        (docs_alpn@ == blobs_alpn() || docs_alpn@ == gossip_alpn()) ==> (r matches Err(e) && e
            == NodeError::AlpnCollision),
        (docs_alpn@ != blobs_alpn() && docs_alpn@ != gossip_alpn()) ==> (r matches Ok(router)
            && router_wired(router, blobs_handler, gossip_handler, docs_handler, docs_alpn@)),
{
    let mut b = RouterBuilder::new();
    proof {
        lemma_fixed_alpns_distinct();
    }
    let _ = b.accept(blobs_alpn_bytes(), blobs_handler);
    let _ = b.accept(gossip_alpn_bytes(), gossip_handler);
    let r3 = b.accept(vstd::slice::slice_to_vec(docs_alpn.as_slice()), docs_handler);
    match r3 {
        Ok(_) => Ok(b.spawn()),
        Err(_) => Err(NodeError::AlpnCollision),
    }
}

} // verus!
