//! The content-addressed blob cache: payload bytes stored once per content
//! hash, with their media metadata.
//!
//! Bytes are written durably through `cacache` under their SHA-256 content
//! address; the cache keeps an in-memory index (hash, bytes, metadata) that
//! is the verified model of what was stored. Identical bytes always map to
//! the same address, so a repeated `put` neither grows the cache nor changes
//! the returned hash.

use vstd::prelude::*;
use crate::frame::{Error, MimeType};

verus! {

/// What `cacache::write_hash_sync` returns for given bytes: the text of
/// their SHA-256 content address. The address depends on the bytes alone.
pub uninterp spec fn hash_of(b: Seq<u8>) -> Seq<char>;

/// Relies on `cacache::write_hash_sync`: writes the bytes durably under
/// their SHA-256 content address and returns that address; the address is a
/// function of the bytes alone. A storage failure surfaces as an error.
#[verifier::external_body]
fn cacache_write(dir: &str, data: &Vec<u8>) -> (r: Result<String, Error>)
    ensures
        r matches Ok(h) ==> h@ == hash_of(data@),
{
    match cacache::write_hash_sync(dir, data) {
        Ok(sri) => Ok(sri.to_string()),
        Err(_) => Err(Error::IoError),
    }
}

/// One stored blob: its content address, its bytes, and its media metadata.
pub struct BlobEntry {
    pub hash: String,
    pub bytes: Vec<u8>,
    pub mime_type: MimeType,
    pub content_type: String,
}

/// The mathematical value of a stored blob.
pub struct BlobModel {
    pub hash: Seq<char>,
    pub bytes: Seq<u8>,
    pub mime_type: MimeType,
    pub content_type: Seq<char>,
}

impl View for BlobEntry {
    type V = BlobModel;

    open spec fn view(&self) -> BlobModel {
        BlobModel {
            hash: self.hash@,
            bytes: self.bytes@,
            mime_type: self.mime_type,
            content_type: self.content_type@,
        }
    }
}

/// Is some entry stored under this hash?
pub open spec fn contains_hash(s: Seq<BlobModel>, h: Seq<char>) -> bool {
    exists|i: int| 0 <= i < s.len() && s[i].hash == h
}

/// The entry stored under this hash, scanning in storage order.
pub open spec fn lookup_hash(s: Seq<BlobModel>, h: Seq<char>) -> Option<BlobModel>
    decreases s.len(),
{
    if s.len() == 0 {
        None
    } else if s[0].hash == h {
        Some(s[0])
    } else {
        lookup_hash(s.skip(1), h)
    }
}

/// Storing bytes: a no-op when the content address is already present,
/// otherwise the new entry appended.
pub open spec fn put_spec(s: Seq<BlobModel>, e: BlobModel) -> Seq<BlobModel> {
    if contains_hash(s, e.hash) {
        s
    } else {
        s.push(e)
    }
}

/// The content-addressed blob cache: the directory of the durable store and
/// the verified in-memory index of everything stored through it.
pub struct BlobCache {
    pub dir: String,
    pub entries: Vec<BlobEntry>,
}

impl BlobCache {
    pub open spec fn model(self) -> Seq<BlobModel> {
        self.entries@.map_values(|e: BlobEntry| e@)
    }

    /// Well-formedness: one entry per content address, each stored under the
    /// address of its own bytes.
    pub open spec fn inv(self) -> bool {
        &&& forall|i: int, j: int|
            0 <= i < j < self.model().len() ==> self.model()[i].hash != self.model()[j].hash
        &&& forall|i: int|
            0 <= i < self.model().len() ==> self.model()[i].hash == hash_of(self.model()[i].bytes)
    }

    pub fn open(dir: String) -> (r: BlobCache)
        ensures
            r.inv(),
            r.model() == Seq::<BlobModel>::empty(),
    {
        let r = BlobCache { dir, entries: Vec::new() };
        proof {
            assert(r.model() =~= Seq::<BlobModel>::empty());
        }
        r
    }

    /// The number of distinct blobs stored.
    pub fn len(&self) -> (r: usize)
        ensures
            r == self.model().len(),
    {
        self.entries.len()
    }

    /// The index of the entry stored under `h`, if any.
    fn find(&self, h: &String) -> (r: Option<usize>)
        ensures
            match r {
                Some(i) => i < self.model().len() && self.model()[i as int].hash == h@,
                None => !contains_hash(self.model(), h@),
            },
    {
        let mut i: usize = 0;
        while i < self.entries.len()
            invariant
                i <= self.model().len(),
                forall|j: int| 0 <= j < i ==> self.model()[j].hash != h@,
            decreases self.model().len() - i,
        {
            if self.entries[i].hash.eq(h) {
                proof {
                    assert(self.model()[i as int].hash == h@);
                }
                return Some(i);
            }
            i = i + 1;
        }
        None
    }

    /// Stores the bytes under their content address, durably, deduplicated:
    /// when the address is already present nothing changes, and the same
    /// address is returned both times (the address is a function of the
    /// bytes alone). Fails only when durable storage fails, leaving the
    /// cache unchanged.
    pub fn put(&mut self, bytes: Vec<u8>, mime_type: MimeType, content_type: String) -> (r: Result<
        String,
        Error,
    >)
        requires
            old(self).inv(),
        ensures
            final(self).inv(),
            final(self).dir == old(self).dir,
            r matches Ok(h) ==> h@ == hash_of(bytes@) && final(self).model() == put_spec(
                old(self).model(),
                BlobModel {
                    hash: hash_of(bytes@),
                    bytes: bytes@,
                    mime_type: mime_type,
                    content_type: content_type@,
                },
            ),
            r matches Err(e) ==> e == Error::IoError && *final(self) == *old(self),
    {
        let h = match cacache_write(self.dir.as_str(), &bytes) {
            Ok(h) => h,
            Err(_) => {
                return Err(Error::IoError);
            },
        };
        let ghost entry = BlobModel {
            hash: hash_of(bytes@),
            bytes: bytes@,
            mime_type: mime_type,
            content_type: content_type@,
        };
        match self.find(&h) {
            Some(_) => Ok(h),
            None => {
                let ghost before = self.model();
                let r = h.clone();
                self.entries.push(BlobEntry { hash: h, bytes, mime_type, content_type });
                proof {
                    assert(self.model() =~= before.push(entry));
                }
                Ok(r)
            },
        }
    }

    /// The stored bytes under a content address, readable incrementally by
    /// the caller; `None` exactly when the address is unknown.
    pub fn get_stream(&self, h: &String) -> (r: Option<&Vec<u8>>)
        requires
            self.inv(),
        ensures
            match r {
                Some(b) => lookup_hash(self.model(), h@) matches Some(e) && e.bytes == b@,
                None => lookup_hash(self.model(), h@) is None,
            },
    {
        proof {
            lemma_lookup_hash(self.model(), h@);
        }
        match self.find(h) {
            Some(i) => {
                proof {
                    lemma_lookup_unique(self.model(), h@, i as int);
                }
                Some(&self.entries[i].bytes)
            },
            None => None,
        }
    }

    /// The stored metadata under a content address; `None` exactly when the
    /// address is unknown.
    pub fn get_meta(&self, h: &String) -> (r: Option<(MimeType, &String)>)
        requires
            self.inv(),
        ensures
            match r {
                Some(m) => lookup_hash(self.model(), h@) matches Some(e) && e.mime_type == m.0
                    && e.content_type == m.1@,
                None => lookup_hash(self.model(), h@) is None,
            },
    {
        proof {
            lemma_lookup_hash(self.model(), h@);
        }
        match self.find(h) {
            Some(i) => {
                proof {
                    lemma_lookup_unique(self.model(), h@, i as int);
                }
                Some((self.entries[i].mime_type, &self.entries[i].content_type))
            },
            None => None,
        }
    }
}

/// `lookup_hash` finds an entry exactly when one is stored under the hash.
pub proof fn lemma_lookup_hash(s: Seq<BlobModel>, h: Seq<char>)
    ensures
        lookup_hash(s, h) is Some <==> contains_hash(s, h),
        lookup_hash(s, h) matches Some(e) ==> e.hash == h && s.contains(e),
    decreases s.len(),
{
    if s.len() > 0 {
        lemma_lookup_hash(s.skip(1), h);
        if s[0].hash == h {
        } else {
            assert forall|i: int| 0 <= i < s.len() && s[i].hash == h implies contains_hash(
                s.skip(1),
                h,
            ) by {
                assert(s.skip(1)[i - 1] == s[i]);
            }
            match lookup_hash(s.skip(1), h) {
                Some(e) => {
                    assert(s.skip(1).contains(e));
                    let w = choose|w: int| 0 <= w < s.skip(1).len() && s.skip(1)[w] == e;
                    assert(s[w + 1] == e);
                },
                None => {},
            }
        }
    }
}

/// With one entry per hash, the entry `find` returns is the one `lookup_hash`
/// denotes.
proof fn lemma_lookup_unique(s: Seq<BlobModel>, h: Seq<char>, i: int)
    requires
        forall|a: int, b: int| 0 <= a < b < s.len() ==> s[a].hash != s[b].hash,
        0 <= i < s.len(),
        s[i].hash == h,
    ensures
        lookup_hash(s, h) == Some(s[i]),
    decreases s.len(),
{
    if i == 0 {
    } else {
        assert(s[0].hash != h);
        assert(s.skip(1)[i - 1] == s[i]);
        lemma_lookup_unique(s.skip(1), h, i - 1);
    }
}

/// Round-trip law: after storing bytes whose content address is either fresh
/// or already bound to those same bytes, reading the address back yields
/// exactly the stored bytes. (The one excluded input is a distinct byte
/// sequence already stored under the same SHA-256 address.)
pub proof fn lemma_put_get_round_trip(s: Seq<BlobModel>, e: BlobModel)
    requires
        e.hash == hash_of(e.bytes),
        contains_hash(s, e.hash) ==> (lookup_hash(s, e.hash) matches Some(p) && p.bytes == e.bytes),
    ensures
        lookup_hash(put_spec(s, e), e.hash) matches Some(p) && p.bytes == e.bytes,
{
    lemma_lookup_hash(s, e.hash);
    if !contains_hash(s, e.hash) {
        lemma_lookup_push(s, e);
    }
}

/// Looking up the hash of a freshly pushed entry finds that entry.
proof fn lemma_lookup_push(s: Seq<BlobModel>, e: BlobModel)
    requires
        !contains_hash(s, e.hash),
    ensures
        lookup_hash(s.push(e), e.hash) == Some(e),
    decreases s.len(),
{
    if s.len() == 0 {
        assert(s.push(e)[0] == e);
    } else {
        assert(s[0].hash != e.hash);
        assert(s.push(e)[0] == s[0]);
        assert forall|i: int| 0 <= i < s.skip(1).len() implies s.skip(1)[i].hash != e.hash by {
            assert(s.skip(1)[i] == s[i + 1]);
        }
        lemma_lookup_push(s.skip(1), e);
        assert(s.push(e).skip(1) =~= s.skip(1).push(e));
    }
}

/// Deduplication law: storing the same bytes a second time changes nothing —
/// the cache keeps its size and contents, and (by `put`'s contract) the
/// returned address is the same both times.
pub proof fn lemma_put_idempotent(s: Seq<BlobModel>, e: BlobModel)
    ensures
        put_spec(put_spec(s, e), e) == put_spec(s, e),
        put_spec(put_spec(s, e), e).len() == put_spec(s, e).len(),
{
    if !contains_hash(s, e.hash) {
        assert(s.push(e)[s.len() as int] == e);
        assert(contains_hash(s.push(e), e.hash));
    }
}

} // verus!
