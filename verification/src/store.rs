//! Content-addressed blob storage and the keyed store of topic records.
//!
//! A blob's name is derived from a cryptographic hash of its bytes plus its
//! extension, so byte-identical uploads collide on the same name and the
//! second write degrades to a no-op.

use vstd::prelude::*;
use crate::errors::ServerErr;
use crate::media::mime_of;
use crate::media::mime_for_ext;
use crate::text::str_eq;
use crate::topic::{TopicData, TopicDataView};

verus! {

/// What blake3 returns: the 32-byte digest, a pure function of the input.
pub uninterp spec fn hash_of(b: Seq<u8>) -> Seq<u8>;

/// Relies on blake3::hash: the 32-byte BLAKE3 digest of the input bytes,
/// a deterministic function of them.
#[verifier::external_body]
fn blake3_hash(b: &[u8]) -> (r: [u8; 32])
    ensures
        r@ == hash_of(b@) && r@.len() == 32,
{
    *blake3::hash(b).as_bytes()
}

/// One digit of lowercase hexadecimal, for a value in `0..16`.
pub open spec fn hex_digit(v: int) -> char {
    if v < 10 {
        (('0' as u8) + v) as char
    } else {
        (('a' as u8) + (v - 10)) as char
    }
}

/// Lowercase hexadecimal: two digits per byte, high nibble first.
pub open spec fn hex_of(b: Seq<u8>) -> Seq<char>
    decreases b.len(),
{
    if b.len() == 0 {
        Seq::empty()
    } else {
        seq![hex_digit(b[0] as int / 16), hex_digit(b[0] as int % 16)] + hex_of(b.drop_first())
    }
}

/// Relies on hex::encode: two lowercase digits per byte, as `hex_of` lays
/// them out.
#[verifier::external_body]
fn hex_encode(b: &[u8]) -> (r: String)
    ensures
        r@ == hex_of(b@),
{
    hex::encode(b)
}

/// A 256-bit content hash value.
#[derive(Clone, Copy, Debug)]
pub struct HashVal([u8; 32]);

impl View for HashVal {
    type V = Seq<u8>;

    closed spec fn view(&self) -> Seq<u8> {
        self.0@
    }
}

impl PartialEq for HashVal {
    fn eq(&self, other: &HashVal) -> (r: bool) {
        let mut i: usize = 0;
        while i < 32
            invariant
                i <= 32,
                forall|k: int| 0 <= k < i ==> self.0@[k] == other.0@[k],
            decreases 32 - i,
        {
            if self.0[i] != other.0[i] {
                assert(self@ != other@);
                return false;
            }
            i += 1;
        }
        assert(self@ =~= other@);
        true
    }
}

impl vstd::std_specs::cmp::PartialEqSpecImpl for HashVal {
    open spec fn obeys_eq_spec() -> bool {
        true
    }

    open spec fn eq_spec(&self, other: &HashVal) -> bool {
        self@ == other@
    }
}

impl Eq for HashVal {}

impl HashVal {
    /// Wrap raw digest bytes.
    pub fn new(bytes: [u8; 32]) -> (r: Self)
        ensures
            r@ == bytes@,
    {
        HashVal(bytes)
    }

    /// The raw digest bytes.
    pub fn to_bytes(&self) -> (r: [u8; 32])
        ensures
            r@ == self@,
    {
        self.0
    }
}

/// Hash a byte string for content addressing.
pub fn content_hash(bytes: &Vec<u8>) -> (h: HashVal)
    ensures
        h@ == hash_of(bytes@),
{
    HashVal(blake3_hash(bytes.as_slice()))
}

/// The content id of a byte string: its digest in lowercase hex.
pub open spec fn content_id_of(b: Seq<u8>) -> Seq<char> {
    hex_of(hash_of(b))
}

/// The file name a blob is stored under: content id, a dot, the extension.
pub open spec fn media_name_of(b: Seq<u8>, ext: Seq<char>) -> Seq<char> {
    content_id_of(b) + seq!['.'] + ext
}

/// Derive the stored file name for a byte string and extension.
pub fn media_filename(bytes: &Vec<u8>, ext: &str) -> (r: String)
    ensures
        r@ == media_name_of(bytes@, ext@),
{
    let h = blake3_hash(bytes.as_slice());
    let mut s = hex_encode(&h);
    proof {
        reveal_strlit(".");
        assert("."@ =~= seq!['.']);
    }
    s.append(".");
    s.append(ext);
    s
}

/// In large-file mode only a fixed-size prefix is hashed, so an id can be
/// derived before the whole stream is buffered.
pub const HASH_PREFIX_LEN: usize = 1048576;

/// The buffer hashed in large-file mode: the first `HASH_PREFIX_LEN` bytes
/// of the stream, zero-padded to exactly that length.
pub open spec fn padded_prefix(b: Seq<u8>) -> Seq<u8> {
    if b.len() >= HASH_PREFIX_LEN {
        b.take(HASH_PREFIX_LEN as int)
    } else {
        b + Seq::new((HASH_PREFIX_LEN - b.len()) as nat, |i: int| 0u8)
    }
}

/// The content id used in large-file (streaming) mode: the hex digest of
/// the zero-padded first prefix of the stream.
pub fn prefix_content_id(bytes: &Vec<u8>) -> (r: String)
    ensures
        r@ == content_id_of(padded_prefix(bytes@)),
{
    let mut buf: Vec<u8> = Vec::new();
    let n = bytes.len();
    let take_n = if n < HASH_PREFIX_LEN {
        n
    } else {
        HASH_PREFIX_LEN
    };
    let mut i: usize = 0;
    while i < take_n
        invariant
            i <= take_n,
            take_n <= bytes@.len(),
            buf@ == bytes@.take(i as int),
        decreases take_n - i,
    {
        proof {
            assert(bytes@.take(i + 1) =~= bytes@.take(i as int).push(bytes@[i as int]));
        }
        let b = bytes[i];
        buf.push(b);
        i += 1;
    }
    proof {
        assert(buf@.take(take_n as int) =~= buf@);
    }
    while buf.len() < HASH_PREFIX_LEN
        invariant
            take_n <= buf@.len() <= HASH_PREFIX_LEN,
            take_n == if bytes@.len() < HASH_PREFIX_LEN {
                bytes@.len() as int
            } else {
                HASH_PREFIX_LEN as int
            },
            buf@.take(take_n as int) == bytes@.take(take_n as int),
            forall|k: int| take_n <= k < buf@.len() ==> buf@[k] == 0u8,
        decreases HASH_PREFIX_LEN - buf@.len(),
    {
        proof {
            assert(buf@.push(0u8).take(take_n as int) =~= buf@.take(take_n as int));
        }
        buf.push(0u8);
    }
    proof {
        assert forall|k: int| 0 <= k < take_n implies buf@[k] == bytes@[k] by {
            assert(buf@.take(take_n as int)[k] == bytes@.take(take_n as int)[k]);
        }
        if bytes@.len() >= HASH_PREFIX_LEN {
            assert(buf@ =~= bytes@.take(HASH_PREFIX_LEN as int));
        } else {
            assert(buf@ =~= bytes@ + Seq::new((HASH_PREFIX_LEN - bytes@.len()) as nat, |i: int| 0u8));
        }
    }
    let h = blake3_hash(buf.as_slice());
    hex_encode(&h)
}

/// Content-addressed, write-once storage for blobs, keyed by derived file
/// name. Mirrors a flat directory: names are unique.
pub struct BlobStore {
    entries: Vec<(String, Vec<u8>)>,
}

/// The map a sequence of name/bytes entries denotes.
pub open spec fn entries_map(s: Seq<(String, Vec<u8>)>) -> Map<Seq<char>, Seq<u8>>
    decreases s.len(),
{
    if s.len() == 0 {
        Map::empty()
    } else {
        entries_map(s.drop_last()).insert(s.last().0@, s.last().1@)
    }
}

/// Entry names are pairwise distinct.
pub open spec fn distinct_names(s: Seq<(String, Vec<u8>)>) -> bool {
    forall|i: int, j: int| 0 <= i < j < s.len() ==> s[i].0@ != s[j].0@
}

proof fn lemma_entries_map_index(s: Seq<(String, Vec<u8>)>, i: int)
    requires
        distinct_names(s),
        0 <= i < s.len(),
    ensures
        entries_map(s).dom().contains(s[i].0@),
        entries_map(s)[s[i].0@] == s[i].1@,
    decreases s.len(),
{
    if i < s.len() - 1 {
        assert(distinct_names(s.drop_last()));
        assert(s.drop_last()[i] == s[i]);
        lemma_entries_map_index(s.drop_last(), i);
        assert(s[i].0@ != s.last().0@);
    }
}

proof fn lemma_entries_map_absent(s: Seq<(String, Vec<u8>)>, k: Seq<char>)
    requires
        forall|i: int| 0 <= i < s.len() ==> (#[trigger] s[i].0@) != k,
    ensures
        !entries_map(s).dom().contains(k),
    decreases s.len(),
{
    if s.len() > 0 {
        assert(forall|i: int|
            0 <= i < s.drop_last().len() ==> (#[trigger] s.drop_last()[i].0@) != k);
        lemma_entries_map_absent(s.drop_last(), k);
        assert(s.last().0@ != k);
    }
}

proof fn lemma_absent_entries(s: Seq<(String, Vec<u8>)>, k: Seq<char>)
    requires
        distinct_names(s),
        !entries_map(s).dom().contains(k),
    ensures
        forall|i: int| 0 <= i < s.len() ==> (#[trigger] s[i].0@) != k,
{
    assert forall|i: int| 0 <= i < s.len() implies (#[trigger] s[i].0@) != k by {
        if s[i].0@ == k {
            lemma_entries_map_index(s, i);
        }
    }
}

impl View for BlobStore {
    type V = Map<Seq<char>, Seq<u8>>;

    closed spec fn view(&self) -> Map<Seq<char>, Seq<u8>> {
        entries_map(self.entries@)
    }
}

impl BlobStore {
    /// Well-formed: one entry per name.
    pub closed spec fn wf(&self) -> bool {
        distinct_names(self.entries@)
    }

    /// How many blobs are stored.
    pub closed spec fn count(&self) -> nat {
        self.entries@.len()
    }

    /// An empty store.
    pub fn new() -> (s: BlobStore)
        ensures
            s.wf(),
            s@ == Map::<Seq<char>, Seq<u8>>::empty(),
            s.count() == 0,
    {
        BlobStore { entries: Vec::new() }
    }

    /// How many blobs are stored.
    pub fn len(&self) -> (n: usize)
        ensures
            n == self.count(),
    {
        self.entries.len()
    }

    /// The position of a name, if stored.
    fn find(&self, name: &str) -> (r: Option<usize>)
        requires
            self.wf(),
        ensures
            match r {
                Some(i) => i < self.entries@.len() && self.entries@[i as int].0@ == name@
                    && self@.dom().contains(name@) && self@[name@] == self.entries@[i as int].1@,
                None => !self@.dom().contains(name@),
            },
    {
        let mut i: usize = 0;
        let n = self.entries.len();
        while i < n
            invariant
                i <= n,
                n == self.entries@.len(),
                self.wf(),
                forall|k: int| 0 <= k < i ==> (#[trigger] self.entries@[k].0@) != name@,
            decreases n - i,
        {
            if str_eq(self.entries[i].0.as_str(), name) {
                proof {
                    lemma_entries_map_index(self.entries@, i as int);
                }
                return Some(i);
            }
            i += 1;
        }
        proof {
            lemma_entries_map_absent(self.entries@, name@);
        }
        None
    }

    /// Whether a blob of this name is stored.
    pub fn contains_name(&self, name: &str) -> (r: bool)
        requires
            self.wf(),
        ensures
            r == self@.dom().contains(name@),
    {
        self.find(name).is_some()
    }

    /// The stored bytes of a name, if any.
    pub fn get(&self, name: &str) -> (r: Option<&Vec<u8>>)
        requires
            self.wf(),
        ensures
            match r {
                Some(b) => self@.dom().contains(name@) && b@ == self@[name@],
                None => !self@.dom().contains(name@),
            },
    {
        match self.find(name) {
            Some(i) => Some(&self.entries[i].1),
            None => None,
        }
    }

    /// Store bytes under a name, replacing any previous bytes; used by the
    /// thumbnail pipeline, which may regenerate a derivative.
    pub fn put(&mut self, name: String, bytes: Vec<u8>)
        requires
            old(self).wf(),
        ensures
            final(self).wf(),
            final(self)@ == old(self)@.insert(name@, bytes@),
            final(self).count() == if old(self)@.dom().contains(name@) {
                old(self).count()
            } else {
                old(self).count() + 1
            },
    {
        match self.find(name.as_str()) {
            Some(i) => {
                let ghost s0 = self.entries@;
                self.entries[i] = (name, bytes);
                proof {
                    lemma_put_at(s0, self.entries@, i as int);
                }
            },
            None => {
                let ghost s0 = self.entries@;
                let ghost nview = name@;
                self.entries.push((name, bytes));
                proof {
                    assert(self.entries@.drop_last() =~= s0);
                    lemma_absent_entries(s0, nview);
                    assert(distinct_names(self.entries@));
                }
            },
        }
    }

    /// Content-addressed ingestion: derive the name from the bytes and the
    /// extension, and store the bytes only if that name is absent. A
    /// duplicate upload is a silent no-op returning the same name; the
    /// stored blob is never overwritten.
    pub fn ingest(&mut self, bytes: Vec<u8>, ext: &str) -> (r: String)
        requires
            old(self).wf(),
        ensures
            final(self).wf(),
            r@ == media_name_of(bytes@, ext@),
            final(self)@ == if old(self)@.dom().contains(r@) {
                old(self)@
            } else {
                old(self)@.insert(r@, bytes@)
            },
            final(self)@.dom().contains(r@),
            final(self).count() == if old(self)@.dom().contains(r@) {
                old(self).count()
            } else {
                old(self).count() + 1
            },
    {
        let name = media_filename(&bytes, ext);
        match self.find(name.as_str()) {
            Some(_) => name,
            None => {
                let ghost s0 = self.entries@;
                let stored = name.clone();
                self.entries.push((stored, bytes));
                proof {
                    assert(self.entries@.drop_last() =~= s0);
                    lemma_absent_entries(s0, name@);
                    assert(distinct_names(self.entries@));
                }
                name
            },
        }
    }

    /// Fetch a blob by content id and extension, per the lookup contract:
    /// an unknown extension is `InvalidMediaType`, an absent blob is
    /// `NotFound`, and otherwise the bytes come back with their MIME type.
    pub fn fetch(&self, content_id: &str, ext: &str) -> (r: Result<(Vec<u8>, String), ServerErr>)
        requires
            self.wf(),
        ensures
            match r {
                Ok(p) => {
                    &&& mime_of(ext@) == Some(p.1@)
                    &&& self@.dom().contains(content_id@ + seq!['.'] + ext@)
                    &&& p.0@ == self@[content_id@ + seq!['.'] + ext@]
                },
                Err(e) => {
                    ||| (e == ServerErr::InvalidMediaType && mime_of(ext@) is None)
                    ||| (e == ServerErr::NotFound && mime_of(ext@) is Some && !self@.dom().contains(
                        content_id@ + seq!['.'] + ext@,
                    ))
                },
            },
    {
        let mime = match mime_for_ext(ext) {
            Ok(m) => m,
            Err(e) => {
                return Err(e);
            },
        };
        let mut name = String::new();
        proof {
            reveal_strlit(".");
            assert("."@ =~= seq!['.']);
        }
        name.append(content_id);
        name.append(".");
        name.append(ext);
        match self.get(name.as_str()) {
            Some(b) => {
                let bytes = clone_bytes(b);
                Ok((bytes, mime))
            },
            None => Err(ServerErr::NotFound),
        }
    }
}

/// Law: idempotent ingestion. A byte-identical upload with the same
/// extension derives the same name, so the second ingestion finds the name
/// present and leaves the store — contents and file count — exactly as the
/// first left it.
pub proof fn lemma_ingest_idempotent(m0: Map<Seq<char>, Seq<u8>>, b: Seq<u8>, ext: Seq<char>)
    ensures
        ({
            let name = media_name_of(b, ext);
            let once = if m0.dom().contains(name) {
                m0
            } else {
                m0.insert(name, b)
            };
            let twice = if once.dom().contains(name) {
                once
            } else {
                once.insert(name, b)
            };
            once.dom().contains(name) && twice == once
        }),
{
}

/// Replacing the entry at `i` with one of the same name keeps names
/// distinct and updates the denoted map at just that name.
proof fn lemma_put_at(s0: Seq<(String, Vec<u8>)>, s1: Seq<(String, Vec<u8>)>, i: int)
    requires
        distinct_names(s0),
        0 <= i < s0.len(),
        s1.len() == s0.len(),
        s1[i].0@ == s0[i].0@,
        forall|k: int| 0 <= k < s0.len() && k != i ==> s1[k] == s0[k],
    ensures
        distinct_names(s1),
        entries_map(s1) == entries_map(s0).insert(s1[i].0@, s1[i].1@),
    decreases s0.len(),
{
    assert forall|a: int, b: int| 0 <= a < b < s1.len() implies s1[a].0@ != s1[b].0@ by {
        assert(s0[a].0@ != s0[b].0@);
    }
    if i == s0.len() - 1 {
        assert(s1.drop_last() =~= s0.drop_last());
        assert(entries_map(s1) =~= entries_map(s0).insert(s1[i].0@, s1[i].1@));
    } else {
        lemma_put_at(s0.drop_last(), s1.drop_last(), i);
        assert(s1.last() == s0.last());
        assert(entries_map(s1) == entries_map(s1.drop_last()).insert(s1.last().0@, s1.last().1@));
        assert(entries_map(s1) =~= entries_map(s0).insert(s1[i].0@, s1[i].1@));
    }
}

/// Relies on Vec's Clone: the copy holds the same bytes.
#[verifier::external_body]
fn clone_bytes(b: &Vec<u8>) -> (r: Vec<u8>)
    ensures
        r@ == b@,
{
    b.clone()
}

/// The keyed store of topic records — the revision-log database. Keys are
/// serialized owned-topic ids (or plain topic names), one record each.
pub struct TopicStore {
    records: Vec<(String, TopicData)>,
}

/// The map a sequence of key/record entries denotes.
pub open spec fn records_map(s: Seq<(String, TopicData)>) -> Map<Seq<char>, TopicDataView>
    decreases s.len(),
{
    if s.len() == 0 {
        Map::empty()
    } else {
        records_map(s.drop_last()).insert(s.last().0@, s.last().1@)
    }
}

/// Record keys are pairwise distinct.
pub open spec fn distinct_keys(s: Seq<(String, TopicData)>) -> bool {
    forall|i: int, j: int| 0 <= i < j < s.len() ==> s[i].0@ != s[j].0@
}

proof fn lemma_records_map_index(s: Seq<(String, TopicData)>, i: int)
    requires
        distinct_keys(s),
        0 <= i < s.len(),
    ensures
        records_map(s).dom().contains(s[i].0@),
        records_map(s)[s[i].0@] == s[i].1@,
    decreases s.len(),
{
    if i < s.len() - 1 {
        assert(distinct_keys(s.drop_last()));
        assert(s.drop_last()[i] == s[i]);
        lemma_records_map_index(s.drop_last(), i);
        assert(s[i].0@ != s.last().0@);
    }
}

proof fn lemma_records_map_absent(s: Seq<(String, TopicData)>, k: Seq<char>)
    requires
        forall|i: int| 0 <= i < s.len() ==> (#[trigger] s[i].0@) != k,
    ensures
        !records_map(s).dom().contains(k),
    decreases s.len(),
{
    if s.len() > 0 {
        assert(forall|i: int|
            0 <= i < s.drop_last().len() ==> (#[trigger] s.drop_last()[i].0@) != k);
        lemma_records_map_absent(s.drop_last(), k);
        assert(s.last().0@ != k);
    }
}

impl View for TopicStore {
    type V = Map<Seq<char>, TopicDataView>;

    closed spec fn view(&self) -> Map<Seq<char>, TopicDataView> {
        records_map(self.records@)
    }
}

impl TopicStore {
    /// Well-formed: one record per key.
    pub closed spec fn wf(&self) -> bool {
        distinct_keys(self.records@)
    }

    /// An empty store.
    pub fn new() -> (s: TopicStore)
        ensures
            s.wf(),
            s@ == Map::<Seq<char>, TopicDataView>::empty(),
    {
        TopicStore { records: Vec::new() }
    }

    /// The position of a key, if present.
    fn find(&self, key: &str) -> (r: Option<usize>)
        requires
            self.wf(),
        ensures
            match r {
                Some(i) => i < self.records@.len() && self.records@[i as int].0@ == key@
                    && self@.dom().contains(key@) && self@[key@] == self.records@[i as int].1@,
                None => !self@.dom().contains(key@),
            },
    {
        let mut i: usize = 0;
        let n = self.records.len();
        while i < n
            invariant
                i <= n,
                n == self.records@.len(),
                self.wf(),
                forall|k: int| 0 <= k < i ==> (#[trigger] self.records@[k].0@) != key@,
            decreases n - i,
        {
            if str_eq(self.records[i].0.as_str(), key) {
                proof {
                    lemma_records_map_index(self.records@, i as int);
                }
                return Some(i);
            }
            i += 1;
        }
        proof {
            lemma_records_map_absent(self.records@, key@);
        }
        None
    }

    /// Whether a record exists under this key.
    pub fn contains_key(&self, key: &str) -> (r: bool)
        requires
            self.wf(),
        ensures
            r == self@.dom().contains(key@),
    {
        self.find(key).is_some()
    }

    /// Read a record.
    pub fn get(&self, key: &str) -> (r: Option<&TopicData>)
        requires
            self.wf(),
        ensures
            match r {
                Some(t) => self@.dom().contains(key@) && t@ == self@[key@],
                None => !self@.dom().contains(key@),
            },
    {
        match self.find(key) {
            Some(i) => Some(&self.records[i].1),
            None => None,
        }
    }

    /// Take a record out, to modify and put back.
    pub fn remove(&mut self, key: &str) -> (r: Option<TopicData>)
        requires
            old(self).wf(),
        ensures
            final(self).wf(),
            final(self)@ == old(self)@.remove(key@),
            match r {
                Some(t) => old(self)@.dom().contains(key@) && t@ == old(self)@[key@],
                None => !old(self)@.dom().contains(key@),
            },
    {
        match self.find(key) {
            Some(i) => {
                let ghost s0 = self.records@;
                let (_, td) = self.records.remove(i);
                proof {
                    lemma_remove_at(s0, i as int);
                    assert(self.records@ =~= s0.remove(i as int));
                }
                Some(td)
            },
            None => {
                proof {
                    assert(self@ =~= old(self)@.remove(key@));
                }
                None
            },
        }
    }

    /// Write a record under a key, replacing any previous record.
    pub fn put(&mut self, key: String, record: TopicData)
        requires
            old(self).wf(),
        ensures
            final(self).wf(),
            final(self)@ == old(self)@.insert(key@, record@),
    {
        let ghost kview = key@;
        let removed = self.remove(key.as_str());
        let ghost s0 = self.records@;
        self.records.push((key, record));
        proof {
            assert(self.records@.drop_last() =~= s0);
            assert forall|a: int, b: int|
                0 <= a < b < self.records@.len() implies self.records@[a].0@
                != self.records@[b].0@ by {
                if b == self.records@.len() - 1 {
                    lemma_records_map_index(s0, a);
                }
            }
            assert(final(self)@ =~= old(self)@.insert(kview, record@));
        }
        let _ = removed;
    }
}

/// Removing the entry at `i` keeps keys distinct and removes exactly that
/// key from the denoted map.
proof fn lemma_remove_at(s: Seq<(String, TopicData)>, i: int)
    requires
        distinct_keys(s),
        0 <= i < s.len(),
    ensures
        distinct_keys(s.remove(i)),
        records_map(s.remove(i)) == records_map(s).remove(s[i].0@),
    decreases s.len(),
{
    let t = s.remove(i);
    assert forall|a: int, b: int| 0 <= a < b < t.len() implies t[a].0@ != t[b].0@ by {
        let a0 = if a < i {
            a
        } else {
            a + 1
        };
        let b0 = if b < i {
            b
        } else {
            b + 1
        };
        assert(t[a] == s[a0] && t[b] == s[b0]);
        assert(s[a0].0@ != s[b0].0@);
    }
    if i == s.len() - 1 {
        assert(s.remove(i) =~= s.drop_last());
        assert forall|j: int| 0 <= j < s.drop_last().len() implies (#[trigger] s.drop_last()[
        j].0@) != s[i].0@ by {
            assert(s.drop_last()[j] == s[j]);
        }
        lemma_records_map_absent(s.drop_last(), s[i].0@);
        assert(records_map(s.drop_last()) =~= records_map(s).remove(s[i].0@));
    } else {
        assert(distinct_keys(s.drop_last()));
        lemma_remove_at(s.drop_last(), i);
        assert(s.remove(i).drop_last() =~= s.drop_last().remove(i));
        assert(s.remove(i).last() == s.last());
        assert(records_map(s.remove(i)) == records_map(s.drop_last().remove(i)).insert(
            s.last().0@,
            s.last().1@,
        ));
        assert(s[i].0@ != s.last().0@);
        assert(records_map(s.remove(i)) =~= records_map(s).remove(s[i].0@));
    }
}

} // verus!
