//! A low-level Git packfile builder.
//!
//! The caller pushes objects to the packfile manually, in the order that Git
//! expects. Every encoder appends to a caller-supplied growable buffer and
//! its contract states the exact bytes appended.

use sha1::Digest;
use vstd::prelude::*;

use crate::error::Error;
use crate::util::ArcOrCowStr;
use crate::util::append_bytes;

verus! {

use vstd::string::StringSliceAdditionalSpecFns;

/// A 20-byte SHA-1 digest, the content hash of a Git object.
pub type HashOutput = [u8; 20];

/// The SHA-1 digest of a byte sequence, as computed by the `sha1` crate.
pub uninterp spec fn sha1_of(data: Seq<u8>) -> Seq<u8>;

/// The zlib stream that compressing a byte sequence at the default level
/// produces; for a fixed compressor it depends on the input bytes alone.
pub uninterp spec fn zlib_of(data: Seq<u8>) -> Seq<u8>;

/// Relies on sha1::Sha1::digest: the 20-byte SHA-1 digest of the input,
/// a function of the input bytes alone.
#[verifier::external_body]
fn sha1_digest(data: &[u8]) -> (r: HashOutput)
    ensures
        r@ == sha1_of(data@),
{
    sha1::Sha1::digest(data).into()
}

/// Relies on flate2's ZlibEncoder at the default compression level: on
/// success the output is the zlib stream for the input bytes; a failure
/// while writing or finishing the stream is reported as the matching
/// compression error.
#[verifier::external_body]
fn zlib_compress(data: &[u8]) -> (r: Result<Vec<u8>, Error>)
    ensures
        r matches Ok(v) ==> v@ == zlib_of(data@),
        r matches Err(e) ==> (e == Error::CompressWrite || e == Error::Compress),
{
    let mut enc = flate2::write::ZlibEncoder::new(Vec::new(), flate2::Compression::default());
    if std::io::Write::write_all(&mut enc, data).is_err() {
        return Err(Error::CompressWrite);
    }
    match enc.finish() {
        Ok(v) => Ok(v),
        Err(_) => Err(Error::Compress),
    }
}

/// The lower-case hexadecimal digit for a value below sixteen.
pub open spec fn spec_hex_digit(n: int) -> u8
    recommends
        0 <= n < 16,
{
    if n < 10 {
        (48 + n) as u8
    } else {
        (87 + n) as u8
    }
}

/// The lower-case hexadecimal encoding of a byte sequence: two digits per
/// byte, high nibble first.
pub open spec fn spec_hex_bytes(s: Seq<u8>) -> Seq<u8> {
    Seq::new(
        2 * s.len(),
        |i: int|
            if i % 2 == 0 {
                spec_hex_digit(s[i / 2] as int / 16)
            } else {
                spec_hex_digit(s[i / 2] as int % 16)
            },
    )
}

/// Relies on hex::encode: two lower-case digits per byte, high nibble
/// first.
#[verifier::external_body]
fn hex_lower(data: &[u8]) -> (r: Vec<u8>)
    ensures
        r@ == spec_hex_bytes(data@),
{
    hex::encode(data).into_bytes()
}

/// The decimal digits of a non-negative number, most significant first.
pub open spec fn spec_dec_digits(n: nat) -> Seq<u8>
    decreases n,
{
    if n < 10 {
        seq![(48 + n) as u8]
    } else {
        spec_dec_digits(n / 10).push((48 + n % 10) as u8)
    }
}

/// The decimal rendering of a signed number, with a leading minus sign
/// when it is negative.
pub open spec fn spec_dec_i64(v: int) -> Seq<u8> {
    if v < 0 {
        seq![45u8] + spec_dec_digits((-v) as nat)
    } else {
        spec_dec_digits(v as nat)
    }
}

/// Appends the decimal digits of an unsigned number.
fn push_dec_u64(n: u64, out: &mut Vec<u8>)
    ensures
        final(out)@ == old(out)@ + spec_dec_digits(n as nat),
    decreases n,
{
    if n < 10 {
        out.push(48 + n as u8);
        proof {
            assert(final(out)@ =~= old(out)@ + spec_dec_digits(n as nat));
        }
    } else {
        push_dec_u64(n / 10, out);
        out.push(48 + (n % 10) as u8);
        proof {
            assert(final(out)@ =~= old(out)@ + spec_dec_digits(n as nat));
        }
    }
}

/// Appends the decimal rendering of a signed number.
fn push_dec_i64(v: i64, out: &mut Vec<u8>)
    ensures
        final(out)@ == old(out)@ + spec_dec_i64(v as int),
{
    if v < 0 {
        out.push(45);
        let m: u64 = (-(v as i128)) as u64;
        push_dec_u64(m, out);
        proof {
            assert(m as nat == (-(v as int)) as nat);
            assert(final(out)@ =~= old(out)@ + spec_dec_i64(v as int));
        }
    } else {
        push_dec_u64(v as u64, out);
    }
}

/// The number of bytes in the decimal rendering of a signed number.
fn dec_len_i64(v: i64) -> (n: usize)
    ensures
        n == spec_dec_i64(v as int).len(),
{
    let mut buf: Vec<u8> = Vec::new();
    push_dec_i64(v, &mut buf);
    buf.len()
}

/// The byte lengths of the fixed strings that appear in object encodings.
proof fn lemma_literal_sizes()
    ensures
        "tree ".spec_bytes().len() == 5,
        "author ".spec_bytes().len() == 7,
        "committer ".spec_bytes().len() == 10,
        "\n".spec_bytes().len() == 1,
        " <".spec_bytes().len() == 2,
        "> ".spec_bytes().len() == 2,
        " +0000".spec_bytes().len() == 6,
        " ".spec_bytes().len() == 1,
        "\0".spec_bytes().len() == 1,
        "100644".spec_bytes().len() == 6,
        "40000".spec_bytes().len() == 5,
        "commit".spec_bytes().len() == 6,
        "tree".spec_bytes().len() == 4,
        "blob".spec_bytes().len() == 4,
        "PACK".spec_bytes().len() == 4,
{
    broadcast use vstd::string::group_string_axioms;

    reveal_strlit("tree ");
    reveal_strlit("author ");
    reveal_strlit("committer ");
    reveal_strlit("\n");
    reveal_strlit(" <");
    reveal_strlit("> ");
    reveal_strlit(" +0000");
    reveal_strlit(" ");
    reveal_strlit("\0");
    reveal_strlit("100644");
    reveal_strlit("40000");
    reveal_strlit("commit");
    reveal_strlit("tree");
    reveal_strlit("blob");
    reveal_strlit("PACK");
    assert(vstd::string::is_ascii("tree "));
    assert(vstd::string::is_ascii("author "));
    assert(vstd::string::is_ascii("committer "));
    assert(vstd::string::is_ascii("\n"));
    assert(vstd::string::is_ascii(" <"));
    assert(vstd::string::is_ascii("> "));
    assert(vstd::string::is_ascii(" +0000"));
    assert(vstd::string::is_ascii(" "));
    assert(vstd::string::is_ascii("\0"));
    assert(vstd::string::is_ascii("100644"));
    assert(vstd::string::is_ascii("40000"));
    assert(vstd::string::is_ascii("commit"));
    assert(vstd::string::is_ascii("tree"));
    assert(vstd::string::is_ascii("blob"));
    assert(vstd::string::is_ascii("PACK"));
}

/// The rendered author or committer line body:
/// `{name} <{email}> {seconds} +0000`.
pub open spec fn spec_user_bytes(u: CommitUserInfo) -> Seq<u8> {
    u.name.spec_bytes() + " <".spec_bytes() + u.email.spec_bytes() + "> ".spec_bytes()
        + spec_dec_i64(u.time as int) + " +0000".spec_bytes()
}

/// The canonical body of a commit object:
/// `tree {hex}\nauthor {author}\ncommitter {committer}\n\n{message}`.
pub open spec fn spec_commit_bytes(c: Commit) -> Seq<u8> {
    "tree ".spec_bytes() + spec_hex_bytes(c.tree@) + "\n".spec_bytes() + "author ".spec_bytes()
        + spec_user_bytes(c.author) + "\n".spec_bytes() + "committer ".spec_bytes()
        + spec_user_bytes(c.committer) + "\n".spec_bytes() + "\n".spec_bytes()
        + c.message.spec_bytes()
}

/// The author or committer of a commit, with the commit time in seconds
/// since the Unix epoch; rendered with a fixed `+0000` offset.
#[derive(Clone, Copy, Debug)]
pub struct CommitUserInfo {
    pub name: &'static str,
    pub email: &'static str,
    pub time: i64,
}

impl CommitUserInfo {
    /// Appends `{name} <{email}> {seconds} +0000` to the buffer.
    fn encode_to(&self, out: &mut Vec<u8>)
        ensures
            final(out)@ == old(out)@ + spec_user_bytes(*self),
    {
        append_bytes(out, self.name.as_bytes());
        append_bytes(out, " <".as_bytes());
        append_bytes(out, self.email.as_bytes());
        append_bytes(out, "> ".as_bytes());
        push_dec_i64(self.time, out);
        append_bytes(out, " +0000".as_bytes());
        proof {
            assert(final(out)@ =~= old(out)@ + spec_user_bytes(*self));
        }
    }

    /// The exact byte count that `encode_to` appends for this user.
    #[must_use]
    pub fn size(&self) -> (n: usize)
        requires
            spec_user_bytes(*self).len() <= usize::MAX,
        ensures
            n == spec_user_bytes(*self).len(),
    {
        proof {
            lemma_literal_sizes();
        }
        let timestamp_len = dec_len_i64(self.time);
        self.name.len() + 2 + self.email.len() + 2 + timestamp_len + 6
    }
}

/// A commit object: the tree it points at, its author and committer, and
/// its message. Parents and signatures are not supported.
#[derive(Debug, Clone, Copy)]
pub struct Commit {
    pub tree: HashOutput,
    pub author: CommitUserInfo,
    pub committer: CommitUserInfo,
    pub message: &'static str,
}

impl Commit {
    /// Appends the canonical commit body to the buffer.
    fn encode_to(&self, out: &mut Vec<u8>)
        ensures
            final(out)@ == old(out)@ + spec_commit_bytes(*self),
    {
        let tree_hex = hex_lower(self.tree.as_slice());
        append_bytes(out, "tree ".as_bytes());
        append_bytes(out, tree_hex.as_slice());
        append_bytes(out, "\n".as_bytes());
        append_bytes(out, "author ".as_bytes());
        self.author.encode_to(out);
        append_bytes(out, "\n".as_bytes());
        append_bytes(out, "committer ".as_bytes());
        self.committer.encode_to(out);
        append_bytes(out, "\n".as_bytes());
        append_bytes(out, "\n".as_bytes());
        append_bytes(out, self.message.as_bytes());
        proof {
            assert(final(out)@ =~= old(out)@ + spec_commit_bytes(*self));
        }
    }

    /// The exact byte count that the canonical commit body occupies.
    #[must_use]
    pub fn size(&self) -> (n: usize)
        requires
            spec_commit_bytes(*self).len() <= usize::MAX,
        ensures
            n == spec_commit_bytes(*self).len(),
    {
        proof {
            lemma_literal_sizes();
        }
        let mut len: usize = 0;
        len += "tree ".len() + 20 * 2 + "\n".len();
        len += "author ".len() + self.author.size() + "\n".len();
        len += "committer ".len() + self.committer.size() + "\n".len();
        len += "\n".len() + self.message.len();
        len
    }
}

/// Whether a tree entry points at a file or at a subdirectory.
#[derive(Debug, Copy, Clone)]
pub enum TreeItemKind {
    File,
    Directory,
}

/// The fixed mode string of a tree entry kind.
pub open spec fn spec_mode_bytes(k: TreeItemKind) -> Seq<u8> {
    match k {
        TreeItemKind::File => "100644".spec_bytes(),
        TreeItemKind::Directory => "40000".spec_bytes(),
    }
}

impl TreeItemKind {
    /// The mode string written before the entry name: `100644` for files,
    /// `40000` for directories.
    #[must_use]
    pub fn mode(&self) -> (m: &'static str)
        ensures
            m.spec_bytes() == spec_mode_bytes(*self),
    {
        match self {
            Self::File => "100644",
            Self::Directory => "40000",
        }
    }
}

/// One entry of a tree object: its kind, name and target hash.
///
/// The hash must already be the hash of the entry's target object; nothing
/// recomputes it later. `sort_name` is caller-facing metadata: Git expects
/// entries to arrive already in its byte order, and the encoder writes
/// entries exactly as given.
#[derive(Debug)]
pub struct TreeItem {
    pub kind: TreeItemKind,
    pub name: ArcOrCowStr,
    pub hash: HashOutput,
    pub sort_name: String,
}

/// The encoding of one tree entry: `{mode} {name}\0{raw 20-byte hash}`.
pub open spec fn spec_tree_item_bytes(t: TreeItem) -> Seq<u8> {
    spec_mode_bytes(t.kind) + " ".spec_bytes() + t.name.spec_bytes() + "\0".spec_bytes() + t.hash@
}

/// The body of a tree object: each entry's encoding, in input order.
pub open spec fn spec_tree_bytes(items: Seq<TreeItem>) -> Seq<u8>
    decreases items.len(),
{
    if items.len() == 0 {
        Seq::empty()
    } else {
        spec_tree_item_bytes(items[0]) + spec_tree_bytes(items.drop_first())
    }
}

/// Peeling one entry off the front of a tree body.
proof fn lemma_tree_bytes_skip(items: Seq<TreeItem>, i: int)
    requires
        0 <= i < items.len(),
    ensures
        spec_tree_bytes(items.skip(i)) == spec_tree_item_bytes(items[i]) + spec_tree_bytes(
            items.skip(i + 1),
        ),
{
    assert(items.skip(i).drop_first() =~= items.skip(i + 1));
    assert(items.skip(i)[0] == items[i]);
}

impl TreeItem {
    /// Appends `{mode} {name}\0{hash}` to the buffer.
    fn encode_to(&self, out: &mut Vec<u8>)
        ensures
            final(out)@ == old(out)@ + spec_tree_item_bytes(*self),
    {
        append_bytes(out, self.kind.mode().as_bytes());
        append_bytes(out, " ".as_bytes());
        append_bytes(out, self.name.as_str().as_bytes());
        append_bytes(out, "\0".as_bytes());
        append_bytes(out, self.hash.as_slice());
        proof {
            assert(final(out)@ =~= old(out)@ + spec_tree_item_bytes(*self));
        }
    }

    /// The exact byte count that `encode_to` appends for this entry.
    #[must_use]
    pub fn size(&self) -> (n: usize)
        requires
            spec_tree_item_bytes(*self).len() <= usize::MAX,
        ensures
            n == spec_tree_item_bytes(*self).len(),
    {
        proof {
            lemma_literal_sizes();
        }
        self.kind.mode().len() + 1 + self.name.len() + 1 + 20
    }
}

/// One object of a packfile: a commit, a tree or a blob. Tag and delta
/// entries are not supported.
#[derive(Debug)]
pub enum PackFileEntry {
    Commit(Commit),
    Tree(Vec<TreeItem>),
    Blob(Vec<u8>),
}

/// The canonical body of an object, exactly as hashed and compressed.
pub open spec fn spec_entry_body(e: PackFileEntry) -> Seq<u8> {
    match e {
        PackFileEntry::Commit(c) => spec_commit_bytes(c),
        PackFileEntry::Tree(items) => spec_tree_bytes(items@),
        PackFileEntry::Blob(data) => data@,
    }
}

/// The three-bit object type code of the entry header.
pub open spec fn spec_type_code(e: PackFileEntry) -> u8 {
    match e {
        PackFileEntry::Commit(_) => 1,
        PackFileEntry::Tree(_) => 2,
        PackFileEntry::Blob(_) => 3,
    }
}

/// The object type name used in the hash preimage.
pub open spec fn spec_type_bytes(e: PackFileEntry) -> Seq<u8> {
    match e {
        PackFileEntry::Commit(_) => "commit".spec_bytes(),
        PackFileEntry::Tree(_) => "tree".spec_bytes(),
        PackFileEntry::Blob(_) => "blob".spec_bytes(),
    }
}

/// The size continuation bytes of an entry header: each byte carries seven
/// more bits of the size, least significant first, with the high bit set
/// while more bytes follow.
pub open spec fn spec_size_tail(n: nat) -> Seq<u8>
    decreases n,
{
    if n < 128 {
        seq![n as u8]
    } else {
        seq![(128 + n % 128) as u8] + spec_size_tail(n / 128)
    }
}

/// The on-wire header of an entry: one byte holding the set high bit, the
/// type code and the four lowest size bits, then the size continuation.
pub open spec fn spec_entry_header(e: PackFileEntry) -> Seq<u8> {
    let size = spec_entry_body(e).len();
    seq![(128 + spec_type_code(e) * 16 + size % 16) as u8] + spec_size_tail(size / 16)
}

/// The SHA-1 preimage of an object: `{type} {decimal size}\0{body}`.
pub open spec fn spec_hash_preimage(e: PackFileEntry) -> Seq<u8> {
    spec_type_bytes(e) + " ".spec_bytes() + spec_dec_digits(spec_entry_body(e).len())
        + "\0".spec_bytes() + spec_entry_body(e)
}

impl PackFileEntry {
    /// Appends the canonical object body to the buffer.
    fn encode_body_to(&self, out: &mut Vec<u8>)
        ensures
            final(out)@ == old(out)@ + spec_entry_body(*self),
    {
        match self {
            Self::Commit(commit) => {
                commit.encode_to(out);
            },
            Self::Tree(items) => {
                proof {
                    assert(items@.skip(0) =~= items@);
                }
                let mut i: usize = 0;
                while i < items.len()
                    invariant
                        i <= items.len(),
                        out@ + spec_tree_bytes(items@.skip(i as int)) == old(out)@
                            + spec_tree_bytes(items@),
                    decreases items.len() - i,
                {
                    proof {
                        lemma_tree_bytes_skip(items@, i as int);
                    }
                    items[i].encode_to(out);
                    proof {
                        assert(out@ + spec_tree_bytes(items@.skip(i + 1)) =~= old(out)@
                            + spec_tree_bytes(items@));
                    }
                    i += 1;
                }
                proof {
                    assert(items@.skip(items@.len() as int) =~= Seq::<TreeItem>::empty());
                    assert(out@ =~= old(out)@ + spec_tree_bytes(items@));
                }
            },
            Self::Blob(data) => {
                append_bytes(out, data.as_slice());
            },
        }
    }

    /// Appends the variable-length object header for this entry.
    pub fn write_header(&self, buf: &mut Vec<u8>)
        requires
            spec_entry_body(*self).len() <= usize::MAX,
        ensures
            final(buf)@ == old(buf)@ + spec_entry_header(*self),
    {
        let mut size = self.uncompressed_size();

        let code: u8 = match self {
            Self::Commit(_) => 1,
            Self::Tree(_) => 2,
            Self::Blob(_) => 3,
        };
        buf.push(128 + code * 16 + (size % 16) as u8);
        size = size / 16;
        proof {
            assert(buf@ + spec_size_tail(size as nat) =~= old(buf)@ + spec_entry_header(*self));
        }

        loop
            invariant_except_break
                buf@ + spec_size_tail(size as nat) == old(buf)@ + spec_entry_header(*self),
            ensures
                buf@ == old(buf)@ + spec_entry_header(*self),
            decreases size,
        {
            let mut val = (size % 128) as u8;
            size = size / 128;

            if size != 0 {
                // the set high bit says more size bytes follow
                val = val + 128;
            }

            buf.push(val);

            if size == 0 {
                proof {
                    assert(buf@ =~= old(buf)@ + spec_entry_header(*self));
                }
                break ;
            }
            proof {
                assert(buf@ + spec_size_tail(size as nat) =~= old(buf)@ + spec_entry_header(
                    *self,
                ));
            }
        }
    }

    /// Appends the on-wire form of this entry: the variable-length header,
    /// then the zlib-compressed canonical body. On a compression failure
    /// the header alone has been appended and the error says which
    /// compression step failed.
    pub fn encode_to(&self, original_out: &mut Vec<u8>) -> (r: Result<(), Error>)
        requires
            spec_entry_body(*self).len() <= usize::MAX,
        ensures
            r matches Ok(v) ==> final(original_out)@ == old(original_out)@ + spec_entry_header(
                *self,
            ) + zlib_of(spec_entry_body(*self)),
            r matches Err(e) ==> final(original_out)@ == old(original_out)@ + spec_entry_header(
                *self,
            ) && (e == Error::CompressWrite || e == Error::Compress),
    {
        self.write_header(original_out);

        let mut out: Vec<u8> = Vec::new();
        self.encode_body_to(&mut out);

        let compressed_data = match zlib_compress(out.as_slice()) {
            Ok(data) => data,
            Err(e) => {
                return Err(e);
            },
        };

        append_bytes(original_out, compressed_data.as_slice());

        Ok(())
    }

    /// The exact byte count of the canonical object body, equal to what
    /// the body encoder writes and to the size the header declares.
    #[must_use]
    pub fn uncompressed_size(&self) -> (n: usize)
        requires
            spec_entry_body(*self).len() <= usize::MAX,
        ensures
            n == spec_entry_body(*self).len(),
    {
        match self {
            Self::Commit(commit) => commit.size(),
            Self::Tree(items) => {
                proof {
                    assert(items@.skip(0) =~= items@);
                }
                let mut total: usize = 0;
                let mut i: usize = 0;
                while i < items.len()
                    invariant
                        i <= items.len(),
                        spec_tree_bytes(items@).len() <= usize::MAX,
                        total + spec_tree_bytes(items@.skip(i as int)).len() == spec_tree_bytes(
                            items@,
                        ).len(),
                    decreases items.len() - i,
                {
                    proof {
                        lemma_tree_bytes_skip(items@, i as int);
                    }
                    total = total + items[i].size();
                    i += 1;
                }
                proof {
                    assert(items@.skip(items@.len() as int) =~= Seq::<TreeItem>::empty());
                }
                total
            },
            Self::Blob(data) => data.len(),
        }
    }

    /// The object's content hash: SHA-1 over `{type} {size}\0{body}`,
    /// reproducing Git's own object-id algorithm.
    pub fn hash(&self) -> (r: Result<HashOutput, Error>)
        requires
            spec_entry_body(*self).len() <= usize::MAX,
        ensures
            r matches Ok(h) && h@ == sha1_of(spec_hash_preimage(*self)),
    {
        let size = self.uncompressed_size();

        let file_prefix: &'static str = match self {
            Self::Commit(_) => "commit",
            Self::Tree(_) => "tree",
            Self::Blob(_) => "blob",
        };

        let mut out: Vec<u8> = Vec::new();
        append_bytes(&mut out, file_prefix.as_bytes());
        append_bytes(&mut out, " ".as_bytes());
        push_dec_u64(size as u64, &mut out);
        append_bytes(&mut out, "\0".as_bytes());
        self.encode_body_to(&mut out);
        proof {
            assert(out@ =~= spec_hash_preimage(*self));
        }

        Ok(sha1_digest(out.as_slice()))
    }
}

/// Hashing the same object twice yields identical output: the digest is a
/// function of the object's hash preimage alone, so any two digests that
/// the hash contract admits for one entry are equal.
pub proof fn lemma_hash_deterministic(e: PackFileEntry, h1: HashOutput, h2: HashOutput)
    requires
        h1@ == sha1_of(spec_hash_preimage(e)),
        h2@ == sha1_of(spec_hash_preimage(e)),
    ensures
        h1@ == h2@,
{
}

/// The big-endian bytes of a 32-bit number, most significant first.
pub open spec fn spec_u32_be(n: u32) -> Seq<u8> {
    seq![
        (n / 0x1000000) as u8,
        ((n / 0x10000) % 256) as u8,
        ((n / 256) % 256) as u8,
        (n % 256) as u8,
    ]
}

/// Appends a 32-bit number in big-endian byte order.
fn push_u32_be(out: &mut Vec<u8>, n: u32)
    ensures
        final(out)@ == old(out)@ + spec_u32_be(n),
{
    out.push((n / 0x1000000) as u8);
    out.push(((n / 0x10000) % 256) as u8);
    out.push(((n / 256) % 256) as u8);
    out.push((n % 256) as u8);
    proof {
        assert(final(out)@ =~= old(out)@ + spec_u32_be(n));
    }
}

/// The on-wire bytes of one entry: its header, then its compressed body.
pub open spec fn spec_entry_wire(e: PackFileEntry) -> Seq<u8> {
    spec_entry_header(e) + zlib_of(spec_entry_body(e))
}

/// The concatenated on-wire bytes of a run of entries, in input order.
pub open spec fn spec_entries_wire(entries: Seq<PackFileEntry>) -> Seq<u8>
    decreases entries.len(),
{
    if entries.len() == 0 {
        Seq::empty()
    } else {
        spec_entry_wire(entries[0]) + spec_entries_wire(entries.drop_first())
    }
}

/// Peeling one entry off the front of the entry run.
proof fn lemma_entries_wire_skip(entries: Seq<PackFileEntry>, i: int)
    requires
        0 <= i < entries.len(),
    ensures
        spec_entries_wire(entries.skip(i)) == spec_entry_wire(entries[i]) + spec_entries_wire(
            entries.skip(i + 1),
        ),
{
    assert(entries.skip(i).drop_first() =~= entries.skip(i + 1));
    assert(entries.skip(i)[0] == entries[i]);
}

/// Every entry's canonical body fits the machine's byte count.
pub open spec fn spec_entries_sizes_ok(entries: Seq<PackFileEntry>) -> bool {
    forall|i: int|
        0 <= i < entries.len() ==> (#[trigger] spec_entry_body(entries[i])).len() <= usize::MAX
}

/// Everything a packfile holds before its trailer: the `PACK` magic, the
/// format version, the entry count and each entry's on-wire bytes.
pub open spec fn spec_pack_payload(entries: Seq<PackFileEntry>) -> Seq<u8>
    recommends
        entries.len() <= u32::MAX,
{
    "PACK".spec_bytes() + spec_u32_be(2) + spec_u32_be(entries.len() as u32) + spec_entries_wire(
        entries,
    )
}

/// The complete packfile: the payload followed by its own SHA-1 digest.
pub open spec fn spec_pack_file_bytes(entries: Seq<PackFileEntry>) -> Seq<u8>
    recommends
        entries.len() <= u32::MAX,
{
    spec_pack_payload(entries) + sha1_of(spec_pack_payload(entries))
}

/// An ordered, non-owning view over the objects of one packfile, alive for
/// the duration of a single encode call.
///
/// The format is simple: a header (the string `PACK`, a 4-byte version and
/// a 4-byte entry count), a series of packed objects, each with its own
/// header and compressed body, and a whole-file SHA-1 checksum trailer.
pub struct PackFile<'a> {
    entries: &'a [PackFileEntry],
}

impl<'a> PackFile<'a> {
    /// The objects this packfile serializes, in order.
    pub closed spec fn spec_entries(&self) -> Seq<PackFileEntry> {
        self.entries@
    }

    #[must_use]
    pub fn new(entries: &'a [PackFileEntry]) -> (r: Self)
        ensures
            r.spec_entries() == entries@,
    {
        Self { entries }
    }

    /// The byte count of the fixed packfile header.
    #[must_use]
    pub fn header_size() -> (n: usize)
        ensures
            n == 12,
    {
        proof {
            lemma_literal_sizes();
        }
        "PACK".len() + 4 + 4
    }

    /// The byte count of the SHA-1 checksum trailer.
    #[must_use]
    pub fn footer_size() -> (n: usize)
        ensures
            n == 20,
    {
        20
    }

    /// Appends the complete packfile to the buffer: header, each entry in
    /// order, then the SHA-1 of everything this call wrote so far. On any
    /// error the buffer is left unchanged; a packfile of more entries than
    /// a 32-bit count can hold is rejected before anything is written.
    pub fn encode_to(&self, original_buf: &mut Vec<u8>) -> (r: Result<(), Error>)
        requires
            spec_entries_sizes_ok(self.spec_entries()),
        ensures
            r matches Ok(v) ==> self.spec_entries().len() <= u32::MAX && final(original_buf)@
                == old(original_buf)@ + spec_pack_file_bytes(self.spec_entries()),
            r matches Err(e) ==> final(original_buf)@ == old(original_buf)@,
            self.spec_entries().len() > u32::MAX <==> r == Err::<(), Error>(
                Error::EntriesExceedsU32(self.spec_entries().len() as usize),
            ),
            r matches Err(e) ==> (e == Error::EntriesExceedsU32(
                self.spec_entries().len() as usize,
            ) || e == Error::CompressWrite || e == Error::Compress),
    {
        let mut buf: Vec<u8> = Vec::new();

        // header
        if self.entries.len() > u32::MAX as usize {
            return Err(Error::EntriesExceedsU32(self.entries.len()));
        }
        append_bytes(&mut buf, "PACK".as_bytes());  // magic header
        push_u32_be(&mut buf, 2);  // version
        push_u32_be(&mut buf, self.entries.len() as u32);  // number of entries

        // body
        proof {
            assert(self.entries@.skip(0) =~= self.entries@);
        }
        let mut i: usize = 0;
        while i < self.entries.len()
            invariant
                i <= self.entries@.len(),
                spec_entries_sizes_ok(self.entries@),
                self.entries@.len() <= u32::MAX,
                buf@ + spec_entries_wire(self.entries@.skip(i as int)) == spec_pack_payload(
                    self.entries@,
                ),
            decreases self.entries@.len() - i,
        {
            proof {
                lemma_entries_wire_skip(self.entries@, i as int);
            }
            let entry = &self.entries[i];
            if let Err(e) = entry.encode_to(&mut buf) {
                return Err(e);
            }
            proof {
                assert(buf@ + spec_entries_wire(self.entries@.skip(i + 1)) =~= spec_pack_payload(
                    self.entries@,
                ));
            }
            i += 1;
        }
        proof {
            assert(self.entries@.skip(self.entries@.len() as int) =~= Seq::<
                PackFileEntry,
            >::empty());
            assert(buf@ =~= spec_pack_payload(self.entries@));
        }

        // footer
        let trailer = sha1_digest(buf.as_slice());
        append_bytes(&mut buf, trailer.as_slice());

        append_bytes(original_buf, buf.as_slice());

        Ok(())
    }
}

} // verus!
