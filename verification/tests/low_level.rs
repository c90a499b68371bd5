use std::io::Read;

use sha1::Digest;

use packfile::low_level::{
    Commit, CommitUserInfo, PackFile, PackFileEntry, TreeItem, TreeItemKind,
};

fn commit_example() -> PackFileEntry {
    PackFileEntry::Commit(Commit {
        tree: [0; 20],
        author: CommitUserInfo {
            name: "author",
            email: "author@example.com",
            time: 1_688_494_158,
        },
        committer: CommitUserInfo {
            name: "committer",
            email: "committer@example.com",
            time: 1_687_494_158,
        },
        message: "hello world!",
    })
}

fn tree_example() -> PackFileEntry {
    PackFileEntry::Tree(vec![TreeItem {
        kind: TreeItemKind::File,
        name: "hello".into(),
        hash: [0u8; 20],
        sort_name: "/hello".to_string(),
    }])
}

fn blob_example() -> PackFileEntry {
    PackFileEntry::Blob(b"hello world".to_vec())
}

#[test]
fn header_size_bytes_large() {
    let entry = PackFileEntry::Blob(vec![0u8; 16]);

    let mut header = Vec::new();
    entry.write_header(&mut header);

    assert_eq!(header, &[0xb0, 0x01]);
}

#[test]
fn header_size_bytes_small() {
    let entry = PackFileEntry::Blob(vec![0u8; 15]);

    let mut header = Vec::new();
    entry.write_header(&mut header);

    assert_eq!(header, &[0xbf, 0x00]);
}

#[test]
fn low_level_hash() {
    let commit = commit_example();

    let actual = hex::encode(commit.hash().unwrap());
    let expected = "0cc33510a70f7e9ad5f35738385d7ace25d0bbf4";
    assert_eq!(actual, expected);
}

#[test]
fn low_level_uncompressed_size() {
    let commit = commit_example();

    let actual = commit.uncompressed_size();
    let expected = 172;
    assert_eq!(actual, expected);
}

#[test]
fn low_level_headers() {
    let commit = commit_example();

    let mut actual = Vec::new();
    commit.write_header(&mut actual);

    let expected = &[0x9c, 0x0a];

    assert_eq!(actual, expected);
}

#[test]
fn tree_hash() {
    let tree = tree_example();

    let actual = hex::encode(tree.hash().unwrap());
    let expected = "9fc911650c548e4aa7b6dfd085a9347df8743e17";
    assert_eq!(actual, expected);
}

#[test]
fn tree_uncompressed_size() {
    let tree = tree_example();

    let actual = tree.uncompressed_size();
    let expected = 33;
    assert_eq!(actual, expected);
}

#[test]
fn tree_headers() {
    let tree = tree_example();

    let mut actual = Vec::new();
    tree.write_header(&mut actual);

    let expected = &[0xa1, 0x02];

    assert_eq!(actual, expected);
}

#[test]
fn blob_hash() {
    let blob = blob_example();

    let actual = hex::encode(blob.hash().unwrap());
    let expected = "95d09f2b10159347eece71399a7e2e907ea3df4f";
    assert_eq!(actual, expected);
}

#[test]
fn blob_uncompressed_size() {
    let blob = blob_example();

    let actual = blob.uncompressed_size();
    let expected = 11;
    assert_eq!(actual, expected);
}

#[test]
fn blob_headers() {
    let blob = blob_example();

    let mut actual = Vec::new();
    blob.write_header(&mut actual);

    let expected = &[0xbb, 0x00];

    assert_eq!(actual, expected);
}

#[test]
fn hash_twice_is_identical() {
    let commit = commit_example();
    assert_eq!(commit.hash().unwrap(), commit.hash().unwrap());
}

#[test]
fn hash_changes_with_body() {
    let a = PackFileEntry::Blob(b"hello world".to_vec());
    let b = PackFileEntry::Blob(b"hello worle".to_vec());
    assert_ne!(a.hash().unwrap(), b.hash().unwrap());
}

#[test]
fn commit_size_matches_encoded_length() {
    // the reported size must equal the byte count the encoder writes,
    // which the canonical hash preimage makes observable: a wrong size
    // would change the digest
    let commit = commit_example();
    let size = commit.uncompressed_size();
    assert_eq!(size, 172);

    // the tree entry size as well
    let tree = tree_example();
    assert_eq!(tree.uncompressed_size(), 33);
}

#[test]
fn packfile_layout_single_blob() {
    let blob = blob_example();
    let entries = [blob];
    let mut out = Vec::new();
    PackFile::new(&entries).encode_to(&mut out).unwrap();

    // magic, version 2, one entry
    assert_eq!(&out[..4], b"PACK");
    assert_eq!(&out[4..8], &[0, 0, 0, 2]);
    assert_eq!(&out[8..12], &[0, 0, 0, 1]);

    // the blob's object header
    assert_eq!(&out[12..14], &[0xbb, 0x00]);

    // the compressed body inflates back to the blob's bytes
    let compressed = &out[14..out.len() - 20];
    let mut inflated = Vec::new();
    flate2::read::ZlibDecoder::new(compressed)
        .read_to_end(&mut inflated)
        .unwrap();
    assert_eq!(inflated, b"hello world");

    // the trailer is the SHA-1 of everything before it
    let expected: [u8; 20] = sha1::Sha1::digest(&out[..out.len() - 20]).into();
    assert_eq!(&out[out.len() - 20..], &expected);
}

#[test]
fn packfile_chained_example() {
    let blob = blob_example();

    let tree = PackFileEntry::Tree(vec![TreeItem {
        kind: TreeItemKind::File,
        name: "helloworld.txt".into(),
        hash: blob.hash().unwrap(),
        sort_name: "helloworld.txt".to_string(),
    }]);

    let commit = PackFileEntry::Commit(Commit {
        tree: tree.hash().unwrap(),
        author: CommitUserInfo {
            name: "example",
            email: "example@me.com",
            time: 0,
        },
        committer: CommitUserInfo {
            name: "example",
            email: "example@me.com",
            time: 0,
        },
        message: "initial commit",
    });

    let entries = [blob, tree, commit];
    let mut out = Vec::new();
    PackFile::new(&entries).encode_to(&mut out).unwrap();

    assert_eq!(&out[..4], b"PACK");
    assert_eq!(&out[8..12], &[0, 0, 0, 3]);
    assert_eq!(out.len() > PackFile::header_size() + PackFile::footer_size(), true);

    let expected: [u8; 20] = sha1::Sha1::digest(&out[..out.len() - 20]).into();
    assert_eq!(&out[out.len() - 20..], &expected);
}

/// Reads one object back out of a packfile body: its type code, declared
/// size, inflated body and the byte count it occupied.
fn read_entry(buf: &[u8]) -> (u8, usize, Vec<u8>, usize) {
    let mut i = 0;
    let mut c = buf[i];
    i += 1;
    let ty = (c >> 4) & 0b111;
    let mut size = (c & 0xf) as usize;
    let mut shift = 4;
    while c & 0x80 != 0 {
        c = buf[i];
        i += 1;
        size |= ((c & 0x7f) as usize) << shift;
        shift += 7;
    }

    let mut inflate = flate2::Decompress::new(true);
    let mut body = Vec::with_capacity(size + 1);
    inflate
        .decompress_vec(&buf[i..], &mut body, flate2::FlushDecompress::Finish)
        .unwrap();
    let consumed = i + inflate.total_in() as usize;
    (ty, size, body, consumed)
}

#[test]
fn packfile_reads_back_with_matching_hashes() {
    let blob = blob_example();
    let tree = PackFileEntry::Tree(vec![TreeItem {
        kind: TreeItemKind::File,
        name: "helloworld.txt".into(),
        hash: blob.hash().unwrap(),
        sort_name: "helloworld.txt".to_string(),
    }]);
    let commit = PackFileEntry::Commit(Commit {
        tree: tree.hash().unwrap(),
        author: CommitUserInfo {
            name: "example",
            email: "example@me.com",
            time: 0,
        },
        committer: CommitUserInfo {
            name: "example",
            email: "example@me.com",
            time: 0,
        },
        message: "initial commit",
    });

    let expected_hashes = [
        blob.hash().unwrap(),
        tree.hash().unwrap(),
        commit.hash().unwrap(),
    ];
    let expected_sizes = [
        blob.uncompressed_size(),
        tree.uncompressed_size(),
        commit.uncompressed_size(),
    ];

    let entries = [blob, tree, commit];
    let mut out = Vec::new();
    PackFile::new(&entries).encode_to(&mut out).unwrap();

    // read every object back and recompute its object id the way any
    // conformant reader would
    let mut at = 12;
    let type_names = ["", "commit", "tree", "blob"];
    let mut seen = Vec::new();
    for _ in 0..3 {
        let (ty, size, body, consumed) = read_entry(&out[at..]);
        at += consumed;
        assert_eq!(body.len(), size);
        let mut preimage = format!("{} {}\0", type_names[ty as usize], size).into_bytes();
        preimage.extend_from_slice(&body);
        let id: [u8; 20] = sha1::Sha1::digest(&preimage).into();
        seen.push((id, size));
    }
    assert_eq!(at, out.len() - 20);

    for (i, (id, size)) in seen.iter().enumerate() {
        assert_eq!(*id, expected_hashes[i]);
        assert_eq!(*size, expected_sizes[i]);
    }
}

#[test]
fn negative_timestamp_renders_with_sign() {
    // a pre-epoch commit time must render with a leading minus sign; the
    // user info size counts the sign byte too
    let user = CommitUserInfo {
        name: "a",
        email: "b",
        time: -5,
    };
    // "a <b> -5 +0000"
    assert_eq!(user.size(), 14);
}
