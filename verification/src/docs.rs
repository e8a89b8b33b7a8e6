use vstd::prelude::*;

use crate::blobs::{put_post, BlobStore};
use crate::bytes::bytes_eq;
use crate::errors::NodeError;
use crate::hashing::digest_of;
use vstd::string::StringSliceAdditionalSpecFns;

verus! {

/// An author identity issued by the document handler's keyring.
#[derive(Clone, Copy, Debug, PartialEq, Eq, Structural)]
pub struct AuthorId {
    pub id: u64,
}

/// One document record: an author-attributed key bound to the content
/// digest of its value, stamped by the document's clock.
pub struct Entry {
    pub author: AuthorId,
    pub key: Vec<u8>,
    pub value_digest: Vec<u8>,
    pub timestamp: u64,
}

/// The mathematical shape of an `Entry`.
pub ghost struct EntryView {
    pub author: u64,
    pub key: Seq<u8>,
    pub value_digest: Seq<u8>,
    pub timestamp: u64,
}

impl View for Entry {
    type V = EntryView;

    open spec fn view(&self) -> EntryView {
        EntryView {
            author: self.author.id,
            key: self.key@,
            value_digest: self.value_digest@,
            timestamp: self.timestamp,
        }
    }
}

/// The (author, key) slot an entry occupies.
pub open spec fn slot_of(e: Entry) -> (u64, Seq<u8>) {
    (e.author.id, e.key@)
}

/// At most one retained entry per (author, key) slot.
pub open spec fn slots_unique(s: Seq<Entry>) -> bool {
    forall|i: int, j: int|
        0 <= i < s.len() && 0 <= j < s.len() && i != j ==> slot_of(#[trigger] s[i]) != slot_of(
            #[trigger] s[j],
        )
}

/// Whether the document holds an entry for author `a` under key `k`.
pub open spec fn has_slot(s: Seq<Entry>, a: u64, k: Seq<u8>) -> bool {
    exists|i: int| 0 <= i < s.len() && slot_of(#[trigger] s[i]) == (a, k)
}

/// The index of the retained entry for author `a` under key `k`.
pub open spec fn slot_index(s: Seq<Entry>, a: u64, k: Seq<u8>) -> int {
    choose|i: int| 0 <= i < s.len() && slot_of(#[trigger] s[i]) == (a, k)
}

/// The retained entry for author `a` under key `k`.
pub open spec fn entry_at(s: Seq<Entry>, a: u64, k: Seq<u8>) -> Entry {
    s[slot_index(s, a, k)]
}

/// An entry's slot is found at its own index and nowhere else.
pub proof fn lemma_entry_at_index(s: Seq<Entry>, i: int)
    requires
        slots_unique(s),
        0 <= i < s.len(),
    ensures
        has_slot(s, s[i].author.id, s[i].key@),
        slot_index(s, s[i].author.id, s[i].key@) == i,
        entry_at(s, s[i].author.id, s[i].key@) == s[i],
{
    assert(slot_of(s[i]) == (s[i].author.id, s[i].key@));
    assert(has_slot(s, s[i].author.id, s[i].key@));
    let j = slot_index(s, s[i].author.id, s[i].key@);
    if j != i {
        assert(slot_of(s[j]) != slot_of(s[i]));
    }
}

/// Replacing the entry at index `i` by one with the same slot keeps the
/// slots unique and leaves every other slot's entry as it was.
pub proof fn lemma_update_slot(s: Seq<Entry>, i: int, ne: Entry)
    requires
        slots_unique(s),
        0 <= i < s.len(),
        slot_of(ne) == slot_of(s[i]),
    ensures
        slots_unique(s.update(i, ne)),
        has_slot(s.update(i, ne), ne.author.id, ne.key@),
        entry_at(s.update(i, ne), ne.author.id, ne.key@) == ne,
        forall|a2: u64, k2: Seq<u8>|
            (a2, k2) != slot_of(ne) ==> (#[trigger] has_slot(s.update(i, ne), a2, k2) <==> has_slot(
                s,
                a2,
                k2,
            )),
        forall|a2: u64, k2: Seq<u8>|
            (a2, k2) != slot_of(ne) && has_slot(s, a2, k2) ==> #[trigger] entry_at(
                s.update(i, ne),
                a2,
                k2,
            ) == entry_at(s, a2, k2),
{
    let s1 = s.update(i, ne);
    assert forall|p: int, q: int|
        0 <= p < s1.len() && 0 <= q < s1.len() && p != q implies slot_of(#[trigger] s1[p])
        != slot_of(#[trigger] s1[q]) by {
        assert(s1[p] == if p == i { ne } else { s[p] });
        assert(s1[q] == if q == i { ne } else { s[q] });
        assert(slot_of(s[p]) != slot_of(s[q]));
    }
    lemma_entry_at_index(s1, i);
    assert forall|a2: u64, k2: Seq<u8>| (a2, k2) != slot_of(ne) implies (#[trigger] has_slot(
        s1,
        a2,
        k2,
    ) <==> has_slot(s, a2, k2)) by {
        if has_slot(s1, a2, k2) {
            let p = slot_index(s1, a2, k2);
            assert(p != i);
            assert(slot_of(s[p]) == (a2, k2));
        }
        if has_slot(s, a2, k2) {
            let p = slot_index(s, a2, k2);
            assert(p != i);
            assert(slot_of(s1[p]) == (a2, k2));
        }
    }
    assert forall|a2: u64, k2: Seq<u8>|
        (a2, k2) != slot_of(ne) && has_slot(s, a2, k2) implies #[trigger] entry_at(s1, a2, k2)
        == entry_at(s, a2, k2) by {
        let p = slot_index(s, a2, k2);
        lemma_entry_at_index(s, p);
        assert(p != i);
        assert(slot_of(s1[p]) == (a2, k2));
        lemma_entry_at_index(s1, p);
    }
}

/// Appending an entry for a slot not yet present keeps the slots unique
/// and leaves every other slot's entry as it was.
pub proof fn lemma_push_slot(s: Seq<Entry>, ne: Entry)
    requires
        slots_unique(s),
        !has_slot(s, ne.author.id, ne.key@),
    ensures
        slots_unique(s.push(ne)),
        has_slot(s.push(ne), ne.author.id, ne.key@),
        entry_at(s.push(ne), ne.author.id, ne.key@) == ne,
        forall|a2: u64, k2: Seq<u8>|
            (a2, k2) != slot_of(ne) ==> (#[trigger] has_slot(s.push(ne), a2, k2) <==> has_slot(
                s,
                a2,
                k2,
            )),
        forall|a2: u64, k2: Seq<u8>|
            (a2, k2) != slot_of(ne) && has_slot(s, a2, k2) ==> #[trigger] entry_at(
                s.push(ne),
                a2,
                k2,
            ) == entry_at(s, a2, k2),
{
    let s1 = s.push(ne);
    assert(slot_of(ne) == (ne.author.id, ne.key@));
    assert forall|p: int, q: int|
        0 <= p < s1.len() && 0 <= q < s1.len() && p != q implies slot_of(#[trigger] s1[p])
        != slot_of(#[trigger] s1[q]) by {
        if p < s.len() && q < s.len() {
            assert(s1[p] == s[p]);
            assert(s1[q] == s[q]);
        } else if p < s.len() && q == s.len() {
            assert(s1[p] == s[p]);
            assert(s1[q] == ne);
            if slot_of(s[p]) == slot_of(ne) {
                assert(has_slot(s, ne.author.id, ne.key@));
            }
        } else if p == s.len() && q < s.len() {
            assert(s1[p] == ne);
            assert(s1[q] == s[q]);
            if slot_of(s[q]) == slot_of(ne) {
                assert(has_slot(s, ne.author.id, ne.key@));
            }
        }
    }
    assert(s1[s.len() as int] == ne);
    lemma_entry_at_index(s1, s.len() as int);
    assert forall|a2: u64, k2: Seq<u8>| (a2, k2) != slot_of(ne) implies (#[trigger] has_slot(
        s1,
        a2,
        k2,
    ) <==> has_slot(s, a2, k2)) by {
        if has_slot(s1, a2, k2) {
            let p = slot_index(s1, a2, k2);
            assert(p != s.len());
            assert(slot_of(s[p]) == (a2, k2));
        }
        if has_slot(s, a2, k2) {
            let p = slot_index(s, a2, k2);
            assert(slot_of(s1[p]) == (a2, k2));
        }
    }
    assert forall|a2: u64, k2: Seq<u8>|
        (a2, k2) != slot_of(ne) && has_slot(s, a2, k2) implies #[trigger] entry_at(s1, a2, k2)
        == entry_at(s, a2, k2) by {
        let p = slot_index(s, a2, k2);
        lemma_entry_at_index(s, p);
        assert(p != s.len());
        assert(slot_of(s1[p]) == (a2, k2));
        lemma_entry_at_index(s1, p);
    }
}

/// What a completed write of value digest `vh` for author `a` under key
/// `k` guarantees of a document's retained entries: the slot holds the
/// new digest, with a strictly greater timestamp than what it replaced;
/// every other slot is untouched; no second entry appeared for the slot.
pub open spec fn write_post(
    pre: Seq<Entry>,
    post: Seq<Entry>,
    a: u64,
    k: Seq<u8>,
    vh: Seq<u8>,
) -> bool {
    &&& has_slot(post, a, k)
    &&& entry_at(post, a, k).value_digest@ == vh
    &&& has_slot(pre, a, k) ==> entry_at(post, a, k).timestamp > entry_at(pre, a, k).timestamp
    &&& forall|a2: u64, k2: Seq<u8>|
        (a2, k2) != (a, k) ==> (#[trigger] has_slot(post, a2, k2) <==> has_slot(pre, a2, k2))
    &&& forall|a2: u64, k2: Seq<u8>|
        (a2, k2) != (a, k) && has_slot(pre, a2, k2) ==> #[trigger] entry_at(post, a2, k2)
            == entry_at(pre, a2, k2)
    &&& post.len() == pre.len() + (if has_slot(pre, a, k) {
        0int
    } else {
        1int
    })
}

/// A replicated, author-attributed key-to-value document. Only the
/// latest entry per (author, key) slot is retained, and the clock
/// advances strictly on every write, so a later write always supersedes.
pub struct Document {
    pub doc_id: u64,
    pub clock: u64,
    pub entries: Vec<Entry>,
}

impl Document {
    /// The document's invariant: one entry per slot, all stamped no
    /// later than the clock.
    pub open spec fn wf(self) -> bool {
        &&& slots_unique(self.entries@)
        &&& forall|i: int|
            0 <= i < self.entries@.len() ==> (#[trigger] self.entries@[i]).timestamp <= self.clock
    }

    /// Writes `value_digest` for `author` under `key`: advances the
    /// clock and supersedes the slot's retained entry.
    pub fn write(&mut self, author: AuthorId, key: &Vec<u8>, value_digest: Vec<u8>)
        requires
            old(self).wf(),
            old(self).clock < u64::MAX,
        ensures
            final(self).wf(),
            final(self).doc_id == old(self).doc_id,
            final(self).clock == old(self).clock + 1,
            write_post(
                old(self).entries@,
                final(self).entries@,
                author.id,
                key@,
                value_digest@,
            ),
    {
        let ts = self.clock + 1;
        self.clock = ts;
        let ghost pre = self.entries@;
        let n = self.entries.len();
        let mut i: usize = 0;
        while i < n
            invariant
                n == self.entries@.len(),
                self.entries@ == pre,
                pre == old(self).entries@,
                self.clock == ts,
                self.doc_id == old(self).doc_id,
                ts == old(self).clock + 1,
                old(self).clock < u64::MAX,
                slots_unique(pre),
                forall|j: int| 0 <= j < pre.len() ==> (#[trigger] pre[j]).timestamp <= old(self).clock,
                i <= n,
                forall|j: int| 0 <= j < i ==> slot_of(#[trigger] pre[j]) != (author.id, key@),
            decreases n - i,
        {
            if self.entries[i].author.id == author.id && bytes_eq(&self.entries[i].key, key) {
                let ne = Entry {
                    author,
                    key: vstd::slice::slice_to_vec(key.as_slice()),
                    value_digest,
                    timestamp: ts,
                };
                proof {
                    assert(slot_of(ne) == slot_of(pre[i as int]));
                    lemma_entry_at_index(pre, i as int);
                    lemma_update_slot(pre, i as int, ne);
                }
                self.entries[i] = ne;
                proof {
                    assert forall|j: int|
                        0 <= j < self.entries@.len() implies (#[trigger] self.entries@[j]).timestamp
                        <= self.clock by {
                        if j != i {
                            assert(self.entries@[j] == pre[j]);
                        }
                    }
                }
                return ;
            }
            i += 1;
        }
        proof {
            if has_slot(pre, author.id, key@) {
                let j = slot_index(pre, author.id, key@);
                assert(slot_of(pre[j]) != (author.id, key@));
            }
        }
        let ne = Entry {
            author,
            key: vstd::slice::slice_to_vec(key.as_slice()),
            value_digest,
            timestamp: ts,
        };
        proof {
            lemma_push_slot(pre, ne);
        }
        self.entries.push(ne);
        proof {
            assert forall|j: int|
                0 <= j < self.entries@.len() implies (#[trigger] self.entries@[j]).timestamp
                <= self.clock by {
                if j < pre.len() {
                    assert(self.entries@[j] == pre[j]);
                } else {
                    assert(self.entries@[j] == ne);
                }
            }
        }
    }
}

/// What issuing an author identity guarantees: the identity is new, it
/// is in the keyring afterwards, and no identity was dropped.
pub open spec fn author_created(pre: Docs, post: Docs, r: AuthorId) -> bool {
    &&& !pre.keyring_has(r.id)
    &&& post.keyring_has(r.id)
    &&& forall|a: u64| #[trigger] pre.keyring_has(a) ==> post.keyring_has(a)
    &&& forall|a: u64| #[trigger] post.keyring_has(a) ==> pre.keyring_has(a) || a == r.id
}

/// The document handler: the keyring of author identities it issued and
/// the documents it owns. A document's identifier is its index.
pub struct Docs {
    pub authors: Vec<u64>,
    pub next_author: u64,
    pub documents: Vec<Document>,
}

impl Docs {
    /// Whether the keyring holds the author identity `a`.
    pub open spec fn keyring_has(self, a: u64) -> bool {
        exists|i: int| 0 <= i < self.authors@.len() && self.authors@[i] == a
    }

    pub open spec fn doc_count(self) -> int {
        self.documents@.len() as int
    }

    pub open spec fn has_doc(self, d: u64) -> bool {
        (d as int) < self.documents@.len()
    }

    /// The retained entries of document `d`.
    pub open spec fn doc_entries(self, d: u64) -> Seq<Entry> {
        self.documents@[d as int].entries@
    }

    pub open spec fn wf(self) -> bool {
        &&& forall|i: int|
            0 <= i < self.authors@.len() ==> #[trigger] self.authors@[i] < self.next_author
        &&& forall|i: int|
            0 <= i < self.documents@.len() ==> (#[trigger] self.documents@[i]).wf()
                && self.documents@[i].doc_id == i
    }

    /// A handler with an empty keyring and no documents.
    pub fn new() -> (s: Docs)
        ensures
            s.wf(),
            s.doc_count() == 0,
            s.next_author == 0,
            forall|a: u64| !(#[trigger] s.keyring_has(a)),
    {
        Docs { authors: Vec::new(), next_author: 0, documents: Vec::new() }
    }

    /// Issues a fresh author identity and records it in the keyring.
    /// Not idempotent: every call yields an identity not issued before.
    pub fn create_author(&mut self) -> (r: AuthorId)
        requires
            old(self).wf(),
            old(self).next_author < u64::MAX,
        ensures
            final(self).wf(),
            author_created(*old(self), *final(self), r),
            r.id == old(self).next_author,
            final(self).next_author == old(self).next_author + 1,
            final(self).documents == old(self).documents,
            final(self).doc_count() == old(self).doc_count(),
    {
        let id = self.next_author;
        self.authors.push(id);
        self.next_author = self.next_author + 1;
        proof {
            assert(self.authors@ == old(self).authors@.push(id));
            assert(self.authors@[self.authors@.len() - 1] == id);
            if old(self).keyring_has(id) {
                let j = choose|j: int|
                    0 <= j < old(self).authors@.len() && old(self).authors@[j] == id;
                assert(old(self).authors@[j] < old(self).next_author);
            }
            assert forall|a: u64| #[trigger] old(self).keyring_has(a) implies self.keyring_has(
                a,
            ) by {
                let j = choose|j: int|
                    0 <= j < old(self).authors@.len() && old(self).authors@[j] == a;
                assert(self.authors@[j] == a);
            }
            assert forall|a: u64| #[trigger] self.keyring_has(a) implies old(self).keyring_has(a)
                || a == id by {
                let j = choose|j: int| 0 <= j < self.authors@.len() && self.authors@[j] == a;
                if j < old(self).authors@.len() {
                    assert(old(self).authors@[j] == a);
                }
            }
            assert forall|j: int| 0 <= j < self.authors@.len() implies #[trigger] self.authors@[j]
                < self.next_author by {
                if j < old(self).authors@.len() {
                    assert(self.authors@[j] == old(self).authors@[j]);
                }
            }
        }
        AuthorId { id }
    }

    /// Creates a fresh, empty document and returns its identifier.
    pub fn create(&mut self) -> (d: u64)
        requires
            old(self).wf(),
            old(self).documents@.len() < u64::MAX,
        ensures
            final(self).wf(),
            !old(self).has_doc(d),
            final(self).has_doc(d),
            d as int == old(self).doc_count(),
            final(self).doc_count() == old(self).doc_count() + 1,
            final(self).doc_entries(d) == Seq::<Entry>::empty(),
            final(self).documents@[d as int].clock == 0,
            forall|o: u64|
                old(self).has_doc(o) ==> final(self).documents@[o as int] == old(
                    self,
                ).documents@[o as int],
            final(self).authors == old(self).authors,
            final(self).next_author == old(self).next_author,
    {
        let d = self.documents.len() as u64;
        self.documents.push(Document { doc_id: d, clock: 0, entries: Vec::new() });
        proof {
            assert(self.documents@[d as int].entries@ =~= Seq::<Entry>::empty());
        }
        d
    }

    /// Whether the keyring holds the author.
    pub fn author_known(&self, author: AuthorId) -> (r: bool)
        ensures
            r == self.keyring_has(author.id),
    {
        let n = self.authors.len();
        let mut i: usize = 0;
        while i < n
            invariant
                n == self.authors@.len(),
                i <= n,
                forall|j: int| 0 <= j < i ==> self.authors@[j] != author.id,
            decreases n - i,
        {
            if self.authors[i] == author.id {
                return true;
            }
            i += 1;
        }
        proof {
            if self.keyring_has(author.id) {
                let j = choose|j: int|
                    0 <= j < self.authors@.len() && self.authors@[j] == author.id;
                assert(self.authors@[j] != author.id);
            }
        }
        false
    }

    /// Stores `value` as a blob and supersedes the entry of document
    /// `d` for `author` under `key` with its digest. Returns the digest;
    /// rejected with `UnknownAuthor` exactly when the keyring did not
    /// issue `author`, and with `Internal` exactly when the document's
    /// clock is exhausted.
    pub fn set_bytes(
        &mut self,
        blobs: &mut BlobStore,
        d: u64,
        author: AuthorId,
        key: &Vec<u8>,
        value: &Vec<u8>,
    ) -> (r: Result<Vec<u8>, NodeError>)
        requires
            old(self).wf(),
            old(blobs).wf(),
            old(self).has_doc(d),
        ensures
            final(self).wf(),
            final(blobs).wf(),
            final(self).doc_count() == old(self).doc_count(),
            final(self).authors == old(self).authors,
            final(self).next_author == old(self).next_author,
            forall|o: u64|
                o != d && old(self).has_doc(o) ==> final(self).documents@[o as int] == old(
                    self,
                ).documents@[o as int],
            !old(self).keyring_has(author.id) ==> (r matches Err(e) && e
                == NodeError::UnknownAuthor && *final(self) == *old(self) && *final(blobs) == *old(
                blobs,
            )),
            old(self).keyring_has(author.id) && old(self).documents@[d as int].clock == u64::MAX
                ==> (r matches Err(e) && e == NodeError::Internal && *final(self) == *old(self)
                && *final(blobs) == *old(blobs)),
            old(self).keyring_has(author.id) && old(self).documents@[d as int].clock < u64::MAX
                ==> (r matches Ok(h) && h@ == digest_of(value@) && final(self).documents@[d as int].clock
                == old(self).documents@[d as int].clock + 1 && put_post(
                *old(blobs),
                *final(blobs),
                value@,
            ) && write_post(
                old(self).doc_entries(d),
                final(self).doc_entries(d),
                author.id,
                key@,
                digest_of(value@),
            )),
    {
        if !self.author_known(author) {
            return Err(NodeError::UnknownAuthor);
        }
        let len: usize = self.documents.len();
        proof {
            assert((d as int) < (len as int));
        }
        let idx = d as usize;
        if self.documents[idx].clock == u64::MAX {
            return Err(NodeError::Internal);
        }
        let digest = blobs.put(value);
        let stored_digest = vstd::slice::slice_to_vec(digest.as_slice());
        let doc = &mut self.documents[idx];
        doc.write(author, key, stored_digest);
        proof {
            assert forall|i: int|
                0 <= i < self.documents@.len() implies (#[trigger] self.documents@[i]).wf()
                && self.documents@[i].doc_id == i by {
                if i != d as int {
                    assert(self.documents@[i] == old(self).documents@[i]);
                }
            }
        }
        Ok(digest)
    }

    /// `set_bytes` with the key given in textual form. The key written
    /// is the text's byte encoding, so a textual key and its byte form
    /// address the same (author, key) slot.
    pub fn set_bytes_str(
        &mut self,
        blobs: &mut BlobStore,
        d: u64,
        author: AuthorId,
        key: &str,
        value: &Vec<u8>,
    ) -> (r: Result<Vec<u8>, NodeError>)
        requires
            old(self).wf(),
            old(blobs).wf(),
            old(self).has_doc(d),
        ensures
            final(self).wf(),
            final(blobs).wf(),
            final(self).doc_count() == old(self).doc_count(),
            final(self).authors == old(self).authors,
            final(self).next_author == old(self).next_author,
            forall|o: u64|
                o != d && old(self).has_doc(o) ==> final(self).documents@[o as int] == old(
                    self,
                ).documents@[o as int],
            !old(self).keyring_has(author.id) ==> (r matches Err(e) && e
                == NodeError::UnknownAuthor && *final(self) == *old(self) && *final(blobs) == *old(
                blobs,
            )),
            old(self).keyring_has(author.id) && old(self).documents@[d as int].clock == u64::MAX
                ==> (r matches Err(e) && e == NodeError::Internal && *final(self) == *old(self)
                && *final(blobs) == *old(blobs)),
            old(self).keyring_has(author.id) && old(self).documents@[d as int].clock < u64::MAX
                ==> (r matches Ok(h) && h@ == digest_of(value@) && final(self).documents@[d as int].clock
                == old(self).documents@[d as int].clock + 1 && put_post(
                *old(blobs),
                *final(blobs),
                value@,
            ) && write_post(
                old(self).doc_entries(d),
                final(self).doc_entries(d),
                author.id,
                key.spec_bytes(),
                digest_of(value@),
            )),
    {
        let kb = vstd::slice::slice_to_vec(key.as_bytes());
        self.set_bytes(blobs, d, author, &kb, value)
    }

    /// Returns the document's retained entries: exactly one per
    /// populated (author, key) slot, reflecting every completed write.
    pub fn get_many_all(&self, d: u64) -> (r: Vec<Entry>)
        requires
            self.wf(),
            self.has_doc(d),
        ensures
            r@.len() == self.doc_entries(d).len(),
            forall|i: int| 0 <= i < r@.len() ==> #[trigger] r@[i]@ == self.doc_entries(d)[i]@,
            slots_unique(r@),
    {
        let len: usize = self.documents.len();
        proof {
            assert((d as int) < (len as int));
        }
        let doc = &self.documents[d as usize];
        let n = doc.entries.len();
        let mut out: Vec<Entry> = Vec::new();
        let mut i: usize = 0;
        while i < n
            invariant
                n == doc.entries@.len(),
                i <= n,
                out@.len() == i,
                forall|j: int| 0 <= j < i ==> #[trigger] out@[j]@ == doc.entries@[j]@,
            decreases n - i,
        {
            let e = &doc.entries[i];
            out.push(
                Entry {
                    author: e.author,
                    key: vstd::slice::slice_to_vec(e.key.as_slice()),
                    value_digest: vstd::slice::slice_to_vec(e.value_digest.as_slice()),
                    timestamp: e.timestamp,
                },
            );
            i += 1;
        }
        proof {
            assert(self.doc_entries(d) == doc.entries@);
            assert forall|p: int, q: int|
                0 <= p < out@.len() && 0 <= q < out@.len() && p != q implies slot_of(
                #[trigger] out@[p],
            ) != slot_of(#[trigger] out@[q]) by {
                assert(out@[p]@ == doc.entries@[p]@);
                assert(out@[q]@ == doc.entries@[q]@);
                assert(slot_of(doc.entries@[p]) != slot_of(doc.entries@[q]));
            }
        }
        out
    }
}

/// After a write of value `v`, the document holds exactly one entry for
/// the written (author, key) slot, and the blob store returns `v` for
/// the digest that entry references, provided the store did not already
/// hold different bytes under that digest.
pub proof fn lemma_write_then_read(
    bpre: BlobStore,
    bpost: BlobStore,
    dpre: Seq<Entry>,
    dpost: Seq<Entry>,
    a: u64,
    k: Seq<u8>,
    v: Seq<u8>,
)
    requires
        slots_unique(dpost),
        put_post(bpre, bpost, v),
        write_post(dpre, dpost, a, k, digest_of(v)),
        bpre.contains_digest(digest_of(v)) ==> bpre.spec_get(digest_of(v)) == v,
    ensures
        has_slot(dpost, a, k),
        forall|i: int, j: int|
            0 <= i < dpost.len() && 0 <= j < dpost.len() && slot_of(#[trigger] dpost[i]) == (a, k)
                && slot_of(#[trigger] dpost[j]) == (a, k) ==> i == j,
        bpost.contains_digest(entry_at(dpost, a, k).value_digest@),
        bpost.spec_get(entry_at(dpost, a, k).value_digest@) == v,
{
    crate::blobs::lemma_put_get_round_trip(bpre, bpost, v);
}

/// Successive writes to one (author, key) slot carry strictly
/// increasing timestamps, and the slot finally references the digest of
/// the last value written.
pub proof fn lemma_successive_writes(
    s0: Seq<Entry>,
    s1: Seq<Entry>,
    s2: Seq<Entry>,
    a: u64,
    k: Seq<u8>,
    vh1: Seq<u8>,
    vh2: Seq<u8>,
)
    requires
        write_post(s0, s1, a, k, vh1),
        write_post(s1, s2, a, k, vh2),
    ensures
        entry_at(s1, a, k).value_digest@ == vh1,
        entry_at(s2, a, k).value_digest@ == vh2,
        entry_at(s2, a, k).timestamp > entry_at(s1, a, k).timestamp,
{
}

/// The keyring never hands the same identity out twice: identities
/// issued one after the other are distinct.
pub proof fn lemma_created_authors_distinct(
    pre1: Docs,
    post1: Docs,
    r1: AuthorId,
    post2: Docs,
    r2: AuthorId,
)
    requires
        author_created(pre1, post1, r1),
        author_created(post1, post2, r2),
    ensures
        r1 != r2,
{
}

} // verus!
