use peernotes::blobs::BlobStore;
use peernotes::docs::{AuthorId, Docs};
use peernotes::errors::NodeError;
use peernotes::router::RouterBuilder;
use peernotes::{alpn, router};

fn setup() -> (Docs, BlobStore, AuthorId, u64) {
    let mut docs = Docs::new();
    let store = BlobStore::new();
    let author = docs.create_author();
    let doc = docs.create();
    (docs, store, author, doc)
}

fn entry_blob(store: &BlobStore, digest: &Vec<u8>) -> Vec<u8> {
    store.get(digest).expect("referenced blob must be stored")
}

#[test]
fn golden_path_two_keys_one_value() {
    let (mut docs, mut store, author, doc) = setup();
    let bork = b"bork".to_vec();
    docs.set_bytes(&mut store, doc, author, &b"t".to_vec(), &bork)
        .expect("write t");
    docs.set_bytes(&mut store, doc, author, &b"todo".to_vec(), &bork)
        .expect("write todo");
    let entries = docs.get_many_all(doc);
    assert_eq!(entries.len(), 2);
    let mut keys: Vec<Vec<u8>> = entries.iter().map(|e| e.key.clone()).collect();
    keys.sort();
    assert_eq!(keys, vec![b"t".to_vec(), b"todo".to_vec()]);
    for e in &entries {
        assert_eq!(e.author, author);
        assert_eq!(entry_blob(&store, &e.value_digest), bork);
    }
}

#[test]
fn overwrite_supersedes_one_key_only() {
    let (mut docs, mut store, author, doc) = setup();
    let bork = b"bork".to_vec();
    let bork2 = b"bork2".to_vec();
    docs.set_bytes(&mut store, doc, author, &b"t".to_vec(), &bork)
        .expect("write t");
    docs.set_bytes(&mut store, doc, author, &b"todo".to_vec(), &bork)
        .expect("write todo");
    docs.set_bytes(&mut store, doc, author, &b"t".to_vec(), &bork2)
        .expect("overwrite t");
    let entries = docs.get_many_all(doc);
    assert_eq!(entries.len(), 2);
    for e in &entries {
        let value = entry_blob(&store, &e.value_digest);
        if e.key == b"t".to_vec() {
            assert_eq!(value, bork2);
        } else {
            assert_eq!(e.key, b"todo".to_vec());
            assert_eq!(value, bork);
        }
    }
}

#[test]
fn textual_and_byte_key_share_one_slot() {
    let (mut docs, mut store, author, doc) = setup();
    docs.set_bytes(&mut store, doc, author, &b"t".to_vec(), &b"bork".to_vec())
        .expect("byte-key write");
    docs.set_bytes_str(&mut store, doc, author, "t", &b"bork2".to_vec())
        .expect("text-key write");
    let entries = docs.get_many_all(doc);
    assert_eq!(entries.len(), 1);
    assert_eq!(entries[0].key, b"t".to_vec());
    assert_eq!(entry_blob(&store, &entries[0].value_digest), b"bork2".to_vec());
}

#[test]
fn unknown_author_is_rejected() {
    let (mut docs, mut store, _author, doc) = setup();
    let fabricated = AuthorId { id: 999 };
    assert!(!docs.author_known(fabricated));
    let r = docs.set_bytes(&mut store, doc, fabricated, &b"k".to_vec(), &b"v".to_vec());
    assert_eq!(r, Err(NodeError::UnknownAuthor));
    assert_eq!(docs.get_many_all(doc).len(), 0);
}

#[test]
fn documents_are_isolated() {
    let (mut docs, mut store, author, d1) = setup();
    let d2 = docs.create();
    docs.set_bytes(&mut store, d1, author, &b"k".to_vec(), &b"one".to_vec())
        .expect("write d1");
    docs.set_bytes(&mut store, d2, author, &b"k".to_vec(), &b"two".to_vec())
        .expect("write d2");
    let e1 = docs.get_many_all(d1);
    let e2 = docs.get_many_all(d2);
    assert_eq!(e1.len(), 1);
    assert_eq!(e2.len(), 1);
    assert_eq!(entry_blob(&store, &e1[0].value_digest), b"one".to_vec());
    assert_eq!(entry_blob(&store, &e2[0].value_digest), b"two".to_vec());
}

#[test]
fn blob_round_trip() {
    let mut store = BlobStore::new();
    let data = b"some note payload".to_vec();
    let digest = store.put(&data);
    assert_eq!(digest.len(), 32);
    assert!(store.has(&digest));
    assert_eq!(store.get(&digest), Ok(data));
    let missing = vec![0u8; 32];
    assert_eq!(store.get(&missing), Err(NodeError::NotFound));
    assert!(!store.has(&missing));
}

#[test]
fn put_is_idempotent_in_content() {
    let mut store = BlobStore::new();
    let h1 = store.put(&b"same bytes".to_vec());
    let h2 = store.put(&b"same bytes".to_vec());
    assert_eq!(h1, h2);
    assert_eq!(store.blobs.len(), 1);
    let h3 = store.put(&b"other bytes".to_vec());
    assert_ne!(h1, h3);
    assert_eq!(store.blobs.len(), 2);
}

#[test]
fn digest_differs_from_content() {
    let mut store = BlobStore::new();
    let data = b"xy".to_vec();
    let digest = store.put(&data);
    assert_eq!(digest.len(), 32);
    assert_ne!(digest, data);
    let again = store.put(&digest.clone());
    assert_ne!(again, digest);
}

#[test]
fn timestamps_increase_and_last_write_wins() {
    let (mut docs, mut store, author, doc) = setup();
    let key = b"t".to_vec();
    let mut last_ts = 0u64;
    for value in [b"v1".to_vec(), b"v2".to_vec(), b"v3".to_vec()] {
        docs.set_bytes(&mut store, doc, author, &key, &value)
            .expect("write");
        let entries = docs.get_many_all(doc);
        assert_eq!(entries.len(), 1);
        assert!(entries[0].timestamp > last_ts);
        last_ts = entries[0].timestamp;
    }
    let entries = docs.get_many_all(doc);
    assert_eq!(entry_blob(&store, &entries[0].value_digest), b"v3".to_vec());
}

#[test]
fn authors_are_fresh_each_time() {
    let mut docs = Docs::new();
    let a1 = docs.create_author();
    let a2 = docs.create_author();
    assert_ne!(a1, a2);
    assert!(docs.author_known(a1));
    assert!(docs.author_known(a2));
}

#[test]
fn same_alpn_twice_collides() {
    let mut builder = RouterBuilder::new();
    assert_eq!(builder.accept(b"/demo/1".to_vec(), 7), Ok(()));
    assert_eq!(
        builder.accept(b"/demo/1".to_vec(), 8),
        Err(NodeError::AlpnCollision)
    );
    assert_eq!(builder.accept(b"/demo/2".to_vec(), 8), Ok(()));
}

#[test]
fn wiring_registers_three_handlers() {
    let docs_alpn = b"/iroh-docs/2".to_vec();
    let node = router::wire_node(1, 2, 3, &docs_alpn).expect("distinct tags wire");
    assert_eq!(node.dispatch(&alpn::blobs_alpn_bytes()), Ok(1));
    assert_eq!(node.dispatch(&alpn::gossip_alpn_bytes()), Ok(2));
    assert_eq!(node.dispatch(&docs_alpn), Ok(3));
    assert_eq!(
        node.dispatch(&b"/nope/0".to_vec()),
        Err(NodeError::NoProtocol)
    );
}

#[test]
fn wiring_with_taken_tag_collides() {
    let taken = alpn::blobs_alpn_bytes();
    assert!(matches!(
        router::wire_node(1, 2, 3, &taken),
        Err(NodeError::AlpnCollision)
    ));
    let taken = alpn::gossip_alpn_bytes();
    assert!(matches!(
        router::wire_node(1, 2, 3, &taken),
        Err(NodeError::AlpnCollision)
    ));
}

#[test]
fn fixed_tags_match_the_ecosystem() {
    assert_eq!(alpn::blobs_alpn_bytes(), b"/iroh-bytes/4".to_vec());
    assert_eq!(alpn::gossip_alpn_bytes(), b"/iroh-gossip/1".to_vec());
}

#[test]
fn dropping_router_leaves_documents_intact() {
    let (mut docs, mut store, author, doc) = setup();
    docs.set_bytes(&mut store, doc, author, &b"t".to_vec(), &b"bork".to_vec())
        .expect("write");
    let node = router::wire_node(1, 2, 3, &b"/iroh-docs/2".to_vec()).expect("wire");
    let entries = docs.get_many_all(doc);
    drop(node);
    assert_eq!(entries.len(), 1);
    assert_eq!(entry_blob(&store, &entries[0].value_digest), b"bork".to_vec());
}
