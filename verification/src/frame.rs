//! Frames: the immutable records of the append-only log, and the error
//! taxonomy shared by the store's operations.

use vstd::prelude::*;

verus! {

/// Errors surfaced by the store's operations.
///
/// `NotFound` marks an unknown identifier or content hash, `IoError` a
/// storage failure, `DecodeError` a payload that could not be decoded, and
/// `MalformedIdentifier` a request path segment that is not a valid
/// identifier.
#[derive(Clone, Copy, PartialEq, Eq, Structural, Debug)]
pub enum Error {
    NotFound,
    IoError,
    DecodeError,
    MalformedIdentifier,
}

/// The media type recorded for a blob.
#[derive(Clone, Copy, PartialEq, Eq, Structural, Debug)]
pub enum MimeType {
    TextPlain,
    ImagePng,
}

/// An immutable record of the frame log: a time-ordered unique `id`, a free
/// form `topic` naming the writer, an optional parent grouping frame, and an
/// optional content hash into the blob cache (absent while the frame is
/// provisional).
pub struct Frame {
    pub id: u128,
    pub topic: String,
    pub stack_id: Option<u128>,
    pub hash: Option<String>,
}

/// The mathematical value of a `Frame`: its fields with strings taken as
/// character sequences.
pub struct FrameModel {
    pub id: u128,
    pub topic: Seq<char>,
    pub stack_id: Option<u128>,
    pub hash: Option<Seq<char>>,
}

pub open spec fn view_of_opt_string(s: Option<String>) -> Option<Seq<char>> {
    match s {
        Some(h) => Some(h@),
        None => None,
    }
}

impl View for Frame {
    type V = FrameModel;

    open spec fn view(&self) -> FrameModel {
        FrameModel {
            id: self.id,
            topic: self.topic@,
            stack_id: self.stack_id,
            hash: view_of_opt_string(self.hash),
        }
    }
}

impl Frame {
    /// An exact copy; `Clone` on a type with `String` fields says nothing to
    /// the verifier, so the copy is spelled out.
    pub fn duplicate(&self) -> (r: Frame)
        ensures
            r@ == self@,
    {
        Frame {
            id: self.id,
            topic: self.topic.clone(),
            stack_id: self.stack_id,
            hash: match &self.hash {
                Some(h) => Some(h.clone()),
                None => None,
            },
        }
    }
}

/// Copies a vector of frames value for value.
pub fn duplicate_frames(v: &Vec<Frame>) -> (r: Vec<Frame>)
    ensures
        r@.len() == v@.len(),
        forall|j: int| 0 <= j < v@.len() ==> r@[j]@ == v@[j]@,
{
    let mut r: Vec<Frame> = Vec::new();
    let mut i: usize = 0;
    while i < v.len()
        invariant
            i <= v@.len(),
            r@.len() == i,
            forall|j: int| 0 <= j < i ==> r@[j]@ == v@[j]@,
        decreases v@.len() - i,
    {
        r.push(v[i].duplicate());
        i = i + 1;
    }
    r
}

} // verus!
