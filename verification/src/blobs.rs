use vstd::prelude::*;

use crate::bytes::bytes_eq;
use crate::errors::NodeError;
use crate::hashing::{content_digest, digest_of};

verus! {

/// One stored blob: its content digest together with its bytes.
pub struct StoredBlob {
    pub digest: Vec<u8>,
    pub data: Vec<u8>,
}

/// Whether some blob in `s` is stored under digest `h`.
pub open spec fn has_digest(s: Seq<StoredBlob>, h: Seq<u8>) -> bool {
    exists|i: int| 0 <= i < s.len() && (#[trigger] s[i]).digest@ == h
}

/// The index of the blob stored under digest `h`.
pub open spec fn digest_index(s: Seq<StoredBlob>, h: Seq<u8>) -> int {
    choose|i: int| 0 <= i < s.len() && (#[trigger] s[i]).digest@ == h
}

/// The bytes stored under digest `h`.
pub open spec fn blob_at(s: Seq<StoredBlob>, h: Seq<u8>) -> Seq<u8> {
    s[digest_index(s, h)].data@
}

/// Every blob is stored under the digest of its own bytes, and no two
/// blobs share a digest: the digest-to-bytes mapping is a function.
pub open spec fn store_wf(s: Seq<StoredBlob>) -> bool {
    &&& forall|i: int| 0 <= i < s.len() ==> (#[trigger] s[i]).digest@ == digest_of(s[i].data@)
    &&& forall|i: int, j: int|
        0 <= i < s.len() && 0 <= j < s.len() && i != j ==> (#[trigger] s[i]).digest@ != (
        #[trigger] s[j]).digest@
}

/// A blob stored under its digest is found there, at its own index.
pub proof fn lemma_blob_at_index(s: Seq<StoredBlob>, i: int)
    requires
        store_wf(s),
        0 <= i < s.len(),
    ensures
        has_digest(s, s[i].digest@),
        digest_index(s, s[i].digest@) == i,
        blob_at(s, s[i].digest@) == s[i].data@,
{
    assert(has_digest(s, s[i].digest@));
    let j = digest_index(s, s[i].digest@);
    if j != i {
        assert(s[j].digest@ != s[i].digest@);
    }
}

/// Appending a blob with a fresh digest keeps the store well formed and
/// leaves every other digest's bytes as they were.
pub proof fn lemma_push_blob(s: Seq<StoredBlob>, nb: StoredBlob)
    requires
        store_wf(s),
        !has_digest(s, nb.digest@),
        nb.digest@ == digest_of(nb.data@),
    ensures
        store_wf(s.push(nb)),
        has_digest(s.push(nb), nb.digest@),
        blob_at(s.push(nb), nb.digest@) == nb.data@,
        forall|h: Seq<u8>|
            h != nb.digest@ ==> (#[trigger] has_digest(s.push(nb), h) <==> has_digest(s, h)),
        forall|h: Seq<u8>|
            h != nb.digest@ && has_digest(s, h) ==> #[trigger] blob_at(s.push(nb), h) == blob_at(
                s,
                h,
            ),
{
    let s1 = s.push(nb);
    assert forall|i: int| 0 <= i < s1.len() implies (#[trigger] s1[i]).digest@ == digest_of(
        s1[i].data@,
    ) by {
        if i < s.len() {
            assert(s1[i] == s[i]);
        } else {
            assert(s1[i] == nb);
        }
    }
    assert forall|i: int, j: int|
        0 <= i < s1.len() && 0 <= j < s1.len() && i != j implies (#[trigger] s1[i]).digest@ != (
    #[trigger] s1[j]).digest@ by {
        if i < s.len() && j < s.len() {
        } else if i < s.len() && j == s.len() {
            assert(s1[i] == s[i]);
            if s[i].digest@ == nb.digest@ {
                assert(has_digest(s, nb.digest@));
            }
        } else if i == s.len() && j < s.len() {
            assert(s1[j] == s[j]);
            if s[j].digest@ == nb.digest@ {
                assert(has_digest(s, nb.digest@));
            }
        }
    }
    assert(store_wf(s1));
    lemma_blob_at_index(s1, s.len() as int);
    assert forall|h: Seq<u8>| h != nb.digest@ implies (#[trigger] has_digest(s1, h) <==> has_digest(
        s,
        h,
    )) by {
        if has_digest(s1, h) {
            let i = digest_index(s1, h);
            assert(0 <= i < s1.len() && s1[i].digest@ == h);
            assert(i < s.len());
            assert(s[i].digest@ == h);
        }
        if has_digest(s, h) {
            let i = choose|i: int| 0 <= i < s.len() && (#[trigger] s[i]).digest@ == h;
            assert(s1[i].digest@ == h);
        }
    }
    assert forall|h: Seq<u8>| h != nb.digest@ && has_digest(s, h) implies #[trigger] blob_at(
        s1,
        h,
    ) == blob_at(s, h) by {
        let i = digest_index(s, h);
        assert(0 <= i < s.len() && s[i].digest@ == h);
        lemma_blob_at_index(s, i);
        assert(s1[i] == s[i]);
        lemma_blob_at_index(s1, i);
    }
}

/// What a completed `put` of bytes `b` guarantees of the store: the
/// digest of `b` is present, it reads back as `b` unless other bytes
/// already sat under that digest, every other digest is untouched, and
/// nothing was duplicated.
pub open spec fn put_post(pre: BlobStore, post: BlobStore, b: Seq<u8>) -> bool {
    &&& post.contains_digest(digest_of(b))
    &&& post.spec_get(digest_of(b)) == if pre.contains_digest(digest_of(b)) {
        pre.spec_get(digest_of(b))
    } else {
        b
    }
    &&& forall|h: Seq<u8>|
        h != digest_of(b) ==> (#[trigger] post.contains_digest(h) <==> pre.contains_digest(h))
    &&& forall|h: Seq<u8>|
        h != digest_of(b) && pre.contains_digest(h) ==> #[trigger] post.spec_get(h)
            == pre.spec_get(h)
    &&& post.blobs@.len() == pre.blobs@.len() + (if pre.contains_digest(digest_of(b)) {
        0int
    } else {
        1int
    })
}

/// An in-memory content-addressed blob store.
pub struct BlobStore {
    pub blobs: Vec<StoredBlob>,
}

impl BlobStore {
    /// The store's invariant: content addressing.
    pub open spec fn wf(self) -> bool {
        store_wf(self.blobs@)
    }

    /// Whether bytes are stored under digest `h`.
    pub open spec fn contains_digest(self, h: Seq<u8>) -> bool {
        has_digest(self.blobs@, h)
    }

    /// The bytes stored under digest `h`.
    pub open spec fn spec_get(self, h: Seq<u8>) -> Seq<u8> {
        blob_at(self.blobs@, h)
    }

    /// An empty store.
    pub fn new() -> (s: BlobStore)
        ensures
            s.wf(),
            s.blobs@.len() == 0,
            forall|h: Seq<u8>| !(#[trigger] s.contains_digest(h)),
    {
        BlobStore { blobs: Vec::new() }
    }

    /// Inserts `data` and returns its content digest. Idempotent in
    /// content: bytes already present are not stored twice.
    pub fn put(&mut self, data: &Vec<u8>) -> (r: Vec<u8>)
        requires
            old(self).wf(),
        ensures
            final(self).wf(),
            r@ == digest_of(data@),
            put_post(*old(self), *final(self), data@),
    {
        let h = content_digest(data);
        let n = self.blobs.len();
        let mut i: usize = 0;
        while i < n
            invariant
                n == self.blobs@.len(),
                self.blobs@ == old(self).blobs@,
                store_wf(self.blobs@),
                h@ == digest_of(data@),
                i <= n,
                forall|j: int| 0 <= j < i ==> (#[trigger] self.blobs@[j]).digest@ != h@,
            decreases n - i,
        {
            if bytes_eq(&self.blobs[i].digest, &h) {
                proof {
                    lemma_blob_at_index(self.blobs@, i as int);
                }
                return h;
            }
            i += 1;
        }
        proof {
            if has_digest(self.blobs@, h@) {
                let j = digest_index(self.blobs@, h@);
                assert(self.blobs@[j].digest@ != h@);
            }
        }
        let stored_digest = vstd::slice::slice_to_vec(h.as_slice());
        let stored_data = vstd::slice::slice_to_vec(data.as_slice());
        proof {
            lemma_push_blob(
                self.blobs@,
                StoredBlob { digest: stored_digest, data: stored_data },
            );
        }
        self.blobs.push(StoredBlob { digest: stored_digest, data: stored_data });
        h
    }

    /// Looks the digest up; `NotFound` exactly when no blob sits under it.
    pub fn get(&self, digest: &Vec<u8>) -> (r: Result<Vec<u8>, NodeError>)
        requires
            self.wf(),
        ensures
            self.contains_digest(digest@) ==> (r matches Ok(v) && v@ == self.spec_get(digest@)),
            !self.contains_digest(digest@) ==> (r matches Err(e) && e == NodeError::NotFound),
    {
        let n = self.blobs.len();
        let mut i: usize = 0;
        while i < n
            invariant
                n == self.blobs@.len(),
                store_wf(self.blobs@),
                i <= n,
                forall|j: int| 0 <= j < i ==> (#[trigger] self.blobs@[j]).digest@ != digest@,
            decreases n - i,
        {
            if bytes_eq(&self.blobs[i].digest, digest) {
                proof {
                    lemma_blob_at_index(self.blobs@, i as int);
                }
                return Ok(vstd::slice::slice_to_vec(self.blobs[i].data.as_slice()));
            }
            i += 1;
        }
        proof {
            if has_digest(self.blobs@, digest@) {
                let j = digest_index(self.blobs@, digest@);
                assert(self.blobs@[j].digest@ != digest@);
            }
        }
        Err(NodeError::NotFound)
    }

    /// Whether bytes are stored under the digest.
    pub fn has(&self, digest: &Vec<u8>) -> (r: bool)
        requires
            self.wf(),
        ensures
            r == self.contains_digest(digest@),
    {
        let n = self.blobs.len();
        let mut i: usize = 0;
        while i < n
            invariant
                n == self.blobs@.len(),
                store_wf(self.blobs@),
                i <= n,
                forall|j: int| 0 <= j < i ==> (#[trigger] self.blobs@[j]).digest@ != digest@,
            decreases n - i,
        {
            if bytes_eq(&self.blobs[i].digest, digest) {
                proof {
                    lemma_blob_at_index(self.blobs@, i as int);
                }
                return true;
            }
            i += 1;
        }
        proof {
            if has_digest(self.blobs@, digest@) {
                let j = digest_index(self.blobs@, digest@);
                assert(self.blobs@[j].digest@ != digest@);
            }
        }
        false
    }
}

/// Content addressing is a function of the bytes alone: equal byte
/// sequences are addressed by equal digests, so `put` returns the same
/// digest for them.
pub proof fn lemma_equal_bytes_equal_digest(b1: Seq<u8>, b2: Seq<u8>)
    requires
        b1 == b2,
    ensures
        digest_of(b1) == digest_of(b2),
{
}

/// Round trip: after a `put` of bytes `b`, the digest that `put` returned
/// reads back as `b`, provided the store did not already hold different
/// bytes under that digest.
pub proof fn lemma_put_get_round_trip(pre: BlobStore, post: BlobStore, b: Seq<u8>)
    requires
        put_post(pre, post, b),
        pre.contains_digest(digest_of(b)) ==> pre.spec_get(digest_of(b)) == b,
    ensures
        post.contains_digest(digest_of(b)),
        post.spec_get(digest_of(b)) == b,
{
}

/// `put` is idempotent in content: a second insert of bytes already
/// stored adds nothing and reads back unchanged.
pub proof fn lemma_put_idempotent(s0: BlobStore, s1: BlobStore, s2: BlobStore, b: Seq<u8>)
    requires
        put_post(s0, s1, b),
        put_post(s1, s2, b),
    ensures
        s2.blobs@.len() == s1.blobs@.len(),
        s2.spec_get(digest_of(b)) == s1.spec_get(digest_of(b)),
{
}

} // verus!
