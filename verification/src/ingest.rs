//! The streaming ingestion packet: a provisional capture that grows chunk by
//! chunk and is committed into the blob cache and the frame log at the end.
//!
//! The packet's id is minted when the stream begins and is kept end-to-end:
//! the placeholder item and the committed frame share it, so the view
//! projection updates the pending entry in place at commit time. After each
//! chunk the packet derives a live update — a short excerpt, a word count
//! and a character count of the accumulated content so far.

use vstd::prelude::*;
use crate::frame::{Error, Frame, MimeType};
use vstd::string::StringExecFns;
use crate::log::{FrameLog, insert_ordered};
use crate::cache::{BlobCache, hash_of, put_spec, BlobModel};

verus! {

/// What `String::from_utf8_lossy` returns for given bytes: the decoded text,
/// invalid sequences replaced; it depends on the bytes alone.
pub uninterp spec fn lossy_of(b: Seq<u8>) -> Seq<char>;

/// Are the bytes all ASCII?
pub open spec fn all_ascii(b: Seq<u8>) -> bool {
    forall|i: int| 0 <= i < b.len() ==> b[i] < 0x80
}

/// The bytes read one character each, as ASCII text is.
pub open spec fn ascii_chars(b: Seq<u8>) -> Seq<char> {
    b.map_values(|x: u8| x as char)
}

/// Relies on `String::from_utf8_lossy`: best-effort text of the bytes,
/// depending on the bytes alone; bytes that are all ASCII decode to exactly
/// their characters.
#[verifier::external_body]
fn lossy_string(b: &Vec<u8>) -> (r: String)
    ensures
        r@ == lossy_of(b@),
        all_ascii(b@) ==> r@ == ascii_chars(b@),
{
    String::from_utf8_lossy(b).into_owned()
}

/// Relies on `str::chars` (collected): the characters of the text, in order.
#[verifier::external_body]
fn chars_of(s: &str) -> (r: Vec<char>)
    ensures
        r@ == s@,
{
    s.chars().collect()
}

/// Relies on `String`'s `FromIterator` over characters: the text whose
/// characters are exactly the given ones, in order.
#[verifier::external_body]
fn string_from_chars(v: &Vec<char>) -> (r: String)
    ensures
        r@ == v@,
{
    v.iter().collect()
}

/// The whitespace the word count splits on: the Unicode `White_Space`
/// characters, the set `char::is_whitespace` holds.
pub open spec fn is_space(c: char) -> bool {
    ||| c as u32 == 0x09
    ||| c as u32 == 0x0A
    ||| c as u32 == 0x0B
    ||| c as u32 == 0x0C
    ||| c as u32 == 0x0D
    ||| c as u32 == 0x20
    ||| c as u32 == 0x85
    ||| c as u32 == 0xA0
    ||| c as u32 == 0x1680
    ||| (0x2000 <= c as u32 && c as u32 <= 0x200A)
    ||| c as u32 == 0x2028
    ||| c as u32 == 0x2029
    ||| c as u32 == 0x202F
    ||| c as u32 == 0x205F
    ||| c as u32 == 0x3000
}

/// The number of words in `s`: maximal runs of non-whitespace characters,
/// counted at the position where each run starts.
pub open spec fn count_words(s: Seq<char>) -> nat
    decreases s.len(),
{
    if s.len() == 0 {
        0
    } else {
        count_words(s.drop_last()) + (if !is_space(s.last()) && (s.len() == 1 || is_space(
            s[s.len() - 2],
        )) {
            1nat
        } else {
            0nat
        })
    }
}

/// The live update derived after a chunk: the first characters of the
/// accumulated content (at most 100), its word count and its character
/// count.
pub struct StreamUpdate {
    pub terse: String,
    pub words: usize,
    pub chars: usize,
}

/// How many characters the excerpt keeps.
pub open spec fn terse_len(n: nat) -> nat {
    if n < 100 {
        n
    } else {
        100
    }
}

/// The lifecycle of an in-flight capture.
#[derive(Clone, Copy, PartialEq, Eq, Structural, Debug)]
pub enum PacketState {
    Open,
    Committed,
}

/// An in-flight upload: the stable id minted at `begin`, the stack it
/// attaches to, its media metadata, and the bytes accumulated so far.
pub struct InProgressStream {
    pub id: u128,
    pub stack_id: Option<u128>,
    pub mime_type: MimeType,
    pub content_type: String,
    pub content: Vec<u8>,
    pub state: PacketState,
}

impl InProgressStream {
    /// Begins a capture: mints the packet's stable id from the log and
    /// returns the packet beside its placeholder frame — same id, no hash
    /// yet — for the caller to merge into the view projection.
    pub fn begin(
        log: &mut FrameLog,
        stack_id: Option<u128>,
        mime_type: MimeType,
        content_type: String,
        initial: Vec<u8>,
    ) -> (r: (InProgressStream, Frame))
        requires
            old(log).inv(),
            old(log).last_minted < u128::MAX,
        ensures
            final(log).inv(),
            final(log).model() == old(log).model(),
            final(log).last_minted == r.0.id,
            r.0.id > old(log).last_minted,
            r.0.state == PacketState::Open,
            r.0.stack_id == stack_id,
            r.0.content@ == initial@,
            r.0.mime_type == mime_type,
            r.0.content_type@ == content_type@,
            r.1@.id == r.0.id,
            r.1@.topic == "stream"@,
            r.1@.stack_id == stack_id,
            r.1@.hash is None,
    {
        let id = log.mint_id();
        let placeholder = Frame { id, topic: String::from_str("stream"), stack_id, hash: None };
        let packet = InProgressStream {
            id,
            stack_id,
            mime_type,
            content_type,
            content: initial,
            state: PacketState::Open,
        };
        (packet, placeholder)
    }

    /// Appends one chunk to the accumulation buffer.
    pub fn append(&mut self, chunk: &Vec<u8>)
        requires
            old(self).state == PacketState::Open,
            old(self).content@.len() + chunk@.len() <= usize::MAX,
        ensures
            final(self).content@ == old(self).content@ + chunk@,
            final(self).id == old(self).id,
            final(self).stack_id == old(self).stack_id,
            final(self).state == old(self).state,
            final(self).mime_type == old(self).mime_type,
            final(self).content_type == old(self).content_type,
    {
        let ghost before = self.content@;
        let mut i: usize = 0;
        while i < chunk.len()
            invariant
                i <= chunk@.len(),
                before.len() + chunk@.len() <= usize::MAX,
                self.content@ == before + chunk@.subrange(0, i as int),
                self.id == old(self).id,
                self.stack_id == old(self).stack_id,
                self.state == old(self).state,
                self.mime_type == old(self).mime_type,
                self.content_type == old(self).content_type,
            decreases chunk@.len() - i,
        {
            self.content.push(chunk[i]);
            proof {
                assert(self.content@ =~= before + chunk@.subrange(0, (i + 1) as int));
            }
            i = i + 1;
        }
        proof {
            assert(before + chunk@.subrange(0, chunk@.len() as int) =~= before + chunk@);
        }
    }

    /// The live update for the content accumulated so far: the first
    /// characters (at most 100) of its best-effort text, the word count and
    /// the character count of that text. ASCII content decodes to exactly
    /// its bytes, so for it the three results are pinned over the bytes
    /// alone.
    pub fn update(&self) -> (r: StreamUpdate)
        ensures
            r.terse@ == lossy_of(self.content@).take(terse_len(lossy_of(self.content@).len()) as int),
            r.words == count_words(lossy_of(self.content@)),
            r.chars == lossy_of(self.content@).len(),
            all_ascii(self.content@) ==> lossy_of(self.content@) == ascii_chars(self.content@),
    {
        let text = lossy_string(&self.content);
        let cs = chars_of(text.as_str());
        let words = word_count(&cs);
        let chars = cs.len();
        let mut head: Vec<char> = Vec::new();
        let mut i: usize = 0;
        let limit: usize = if cs.len() < 100 {
            cs.len()
        } else {
            100
        };
        while i < limit
            invariant
                i <= limit,
                limit <= cs@.len(),
                head@ == cs@.subrange(0, i as int),
            decreases limit - i,
        {
            head.push(cs[i]);
            proof {
                assert(head@ =~= cs@.subrange(0, (i + 1) as int));
            }
            i = i + 1;
        }
        let terse = string_from_chars(&head);
        proof {
            assert(head@ =~= lossy_of(self.content@).take(
                terse_len(lossy_of(self.content@).len()) as int,
            ));
        }
        StreamUpdate { terse, words, chars }
    }

    /// Commits the capture: writes the accumulated bytes into the blob cache
    /// under their content address, places a frame carrying that address —
    /// under the packet's own stable id — into the log at its ordered
    /// position, and closes the packet. Fails when durable storage fails or
    /// the id is already stored, leaving the packet open and the log
    /// unchanged.
    pub fn end_stream(&mut self, log: &mut FrameLog, cache: &mut BlobCache) -> (r: Result<
        Frame,
        Error,
    >)
        requires
            old(self).state == PacketState::Open,
            old(log).inv(),
            old(cache).inv(),
        ensures
            final(log).inv(),
            final(cache).inv(),
            final(self).id == old(self).id,
            final(self).content == old(self).content,
            final(self).stack_id == old(self).stack_id,
            r matches Ok(fr) ==> {
                &&& final(self).state == PacketState::Committed
                &&& fr@.id == old(self).id
                &&& fr@.topic == "stream"@
                &&& fr@.stack_id == old(self).stack_id
                &&& fr@.hash == Some(hash_of(old(self).content@))
                &&& final(log).model() == insert_ordered(old(log).model(), fr@)
                &&& final(log).model().contains(fr@)
                &&& final(cache).model() == put_spec(
                    old(cache).model(),
                    BlobModel {
                        hash: hash_of(old(self).content@),
                        bytes: old(self).content@,
                        mime_type: old(self).mime_type,
                        content_type: old(self).content_type@,
                    },
                )
            },
            r is Err ==> final(self).state == PacketState::Open && final(log).model() == old(
                log,
            ).model(),
            r is Err ==> final(cache).model() == old(cache).model() || final(cache).model()
                == put_spec(
                old(cache).model(),
                BlobModel {
                    hash: hash_of(old(self).content@),
                    bytes: old(self).content@,
                    mime_type: old(self).mime_type,
                    content_type: old(self).content_type@,
                },
            ),
    {
        let bytes = duplicate_bytes(&self.content);
        let h = match cache.put(bytes, self.mime_type, self.content_type.clone()) {
            Ok(h) => h,
            Err(_) => {
                return Err(Error::IoError);
            },
        };
        let frame = Frame {
            id: self.id,
            topic: String::from_str("stream"),
            stack_id: self.stack_id,
            hash: Some(h),
        };
        let out = frame.duplicate();
        let ghost lm = log.model();
        match log.insert_frame(frame) {
            Ok(_) => {
                proof {
                    crate::log::lemma_insert_ordered_sound(lm, out@);
                }
                self.state = PacketState::Committed;
                Ok(out)
            },
            Err(e) => Err(e),
        }
    }
}

/// The number of words in the characters, counted where each maximal
/// non-whitespace run starts.
pub fn word_count(cs: &Vec<char>) -> (r: usize)
    ensures
        r == count_words(cs@),
{
    let mut count: usize = 0;
    let mut i: usize = 0;
    while i < cs.len()
        invariant
            i <= cs@.len(),
            count == count_words(cs@.subrange(0, i as int)),
            count <= i,
        decreases cs@.len() - i,
    {
        let ghost prefix = cs@.subrange(0, i as int);
        let ghost next = cs@.subrange(0, (i + 1) as int);
        proof {
            assert(next.drop_last() =~= prefix);
            assert(next.last() == cs@[i as int]);
            if i > 0 {
                assert(next[next.len() - 2] == cs@[i - 1]);
            }
        }
        let c = cs[i];
        let starts = !is_space_exec(c) && (i == 0 || is_space_exec(cs[i - 1]));
        if starts {
            count = count + 1;
        }
        i = i + 1;
    }
    proof {
        assert(cs@.subrange(0, cs@.len() as int) == cs@);
    }
    count
}

/// Whether the word count splits at this character.
fn is_space_exec(c: char) -> (r: bool)
    ensures
        r == is_space(c),
{
    let n = c as u32;
    n == 0x09 || n == 0x0A || n == 0x0B || n == 0x0C || n == 0x0D || n == 0x20 || n == 0x85 || n
        == 0xA0 || n == 0x1680 || (0x2000 <= n && n <= 0x200A) || n == 0x2028 || n == 0x2029 || n
        == 0x202F || n == 0x205F || n == 0x3000
}

/// Copies a byte vector.
pub fn duplicate_bytes(v: &Vec<u8>) -> (r: Vec<u8>)
    ensures
        r@ == v@,
{
    let mut r: Vec<u8> = Vec::new();
    let mut i: usize = 0;
    while i < v.len()
        invariant
            i <= v@.len(),
            r@ == v@.subrange(0, i as int),
        decreases v@.len() - i,
    {
        r.push(v[i]);
        proof {
            assert(r@ =~= v@.subrange(0, (i + 1) as int));
        }
        i = i + 1;
    }
    proof {
        assert(v@.subrange(0, v@.len() as int) == v@);
    }
    r
}

} // verus!
