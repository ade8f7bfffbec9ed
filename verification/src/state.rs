//! The guarded shared state — frame log, blob cache, view projection and the
//! stack selection — and the decision logic of the HTTP surface.
//!
//! Request transport stays outside: callers hand in a method and a path and
//! take back a routing decision, and hand in an id and take back either the
//! resolved content with its media type or a not-found outcome. An unknown
//! id and a malformed id segment both end as not-found, never as an error.

use vstd::prelude::*;
use crate::frame::{Error, Frame, MimeType};
use crate::ids::{parse_id, parse_scru};
use vstd::string::StringExecFns;
use crate::log::FrameLog;
use crate::cache::{BlobCache, BlobModel, lookup_hash, contains_hash, put_spec, hash_of};
use crate::view::{ViewProjection, ItemModel, lookup_item, merge_spec, children_spec};
use crate::ingest::{InProgressStream, PacketState};

verus! {

/// The request methods the store serves.
#[derive(Clone, Copy, PartialEq, Eq, Structural, Debug)]
pub enum HttpMethod {
    Get,
    Post,
}

/// Where a request goes.
#[derive(Clone, Copy, PartialEq, Eq, Structural, Debug)]
pub enum Route {
    GetItem(u128),
    PostStream,
    NotFound,
}

/// Relies on `str::strip_prefix` with a one-character pattern: `Some` of the
/// rest exactly when the text starts with `/`.
#[verifier::external_body]
fn strip_slash(s: &str) -> (r: Option<&str>)
    ensures
        match r {
            Some(t) => s@ == seq!['/'] + t@,
            None => s@.len() == 0 || s@[0] != '/',
        },
{
    s.strip_prefix("/")
}

/// The routing table: `POST /` begins a streaming capture; `GET /{id}` with
/// a well-formed identifier fetches; anything else — a malformed identifier
/// included — is not found.
pub open spec fn route_spec(m: HttpMethod, path: Seq<char>) -> Route {
    if path.len() == 0 || path[0] != '/' {
        Route::NotFound
    } else {
        let rest = path.skip(1);
        match m {
            HttpMethod::Post => if rest.len() == 0 {
                Route::PostStream
            } else {
                Route::NotFound
            },
            HttpMethod::Get => match parse_scru(rest) {
                Some(id) => Route::GetItem(id),
                None => Route::NotFound,
            },
        }
    }
}

/// Routes one request line. A path whose segment is not a well-formed
/// identifier routes to `NotFound`, never to an error.
pub fn route(m: HttpMethod, path: &str) -> (r: Route)
    ensures
        r == route_spec(m, path@),
{
    match strip_slash(path) {
        None => Route::NotFound,
        Some(rest) => {
            proof {
                assert(path@.skip(1) =~= rest@);
            }
            match m {
                HttpMethod::Post => {
                    if rest.is_empty() {
                        Route::PostStream
                    } else {
                        Route::NotFound
                    }
                },
                HttpMethod::Get => {
                    match parse_id(rest) {
                        Some(id) => Route::GetItem(id),
                        None => Route::NotFound,
                    }
                },
            }
        },
    }
}

/// The media type inferred for captured bytes: the PNG signature marks an
/// image, anything else keeps the caller's default text type.
pub open spec fn inferred_mime(b: Seq<u8>, default: MimeType) -> (MimeType, Seq<char>) {
    if b.len() >= 4 && b[0] == 0x89u8 && b[1] == 0x50u8 && b[2] == 0x4eu8 && b[3] == 0x47u8 {
        (MimeType::ImagePng, "Image"@)
    } else {
        (default, "Text"@)
    }
}

/// Infers the media type and its display name from the leading bytes.
pub fn infer_mime_type(b: &Vec<u8>, default: MimeType) -> (r: (MimeType, String))
    ensures
        r.0 == inferred_mime(b@, default).0,
        r.1@ == inferred_mime(b@, default).1,
{
    if b.len() >= 4 && b[0] == 0x89u8 && b[1] == 0x50u8 && b[2] == 0x4eu8 && b[3] == 0x47u8 {
        (MimeType::ImagePng, String::from_str("Image"))
    } else {
        (default, String::from_str("Text"))
    }
}

/// The `Content-Type` a stored media type is served under; a blob without
/// metadata is served as generic binary.
pub open spec fn content_type_name(m: MimeType) -> Seq<char> {
    match m {
        MimeType::TextPlain => "text/plain"@,
        MimeType::ImagePng => "image/png"@,
    }
}

fn content_type_string(m: MimeType) -> (r: String)
    ensures
        r@ == content_type_name(m),
{
    match m {
        MimeType::TextPlain => String::from_str("text/plain"),
        MimeType::ImagePng => String::from_str("image/png"),
    }
}

/// What a fetch resolves to.
pub enum GetOutcome {
    NotFound,
    Content { bytes: Vec<u8>, content_type: String },
}

/// What the contract of `get_item` says a fetch of `id` resolves to.
pub open spec fn get_spec(items: Seq<ItemModel>, blobs: Seq<BlobModel>, id: u128) -> Option<
    (Seq<u8>, Seq<char>),
> {
    match lookup_item(items, id) {
        None => None,
        Some(it) => match it.hash {
            None => None,
            Some(h) => match lookup_hash(blobs, h) {
                None => None,
                Some(e) => Some((e.bytes, content_type_name(e.mime_type))),
            },
        },
    }
}

/// The shared mutable state every writer and consistent reader goes
/// through: the frame log, the blob cache, the view projection, and the
/// stack selection of the surrounding shell.
pub struct SharedState {
    pub log: FrameLog,
    pub cache: BlobCache,
    pub view: ViewProjection,
    pub selected: Option<u128>,
}

impl SharedState {
    pub open spec fn inv(self) -> bool {
        &&& self.log.inv()
        &&& self.cache.inv()
        &&& self.view.inv()
    }

    /// Opens the store rooted at a blob-cache directory, with an empty log,
    /// cache index, projection and selection.
    pub fn open(dir: String) -> (r: SharedState)
        ensures
            r.inv(),
            r.log.model() == Seq::<crate::frame::FrameModel>::empty(),
            r.log.last_minted == 0,
            r.cache.model() == Seq::<BlobModel>::empty(),
            r.view.model() == Seq::<ItemModel>::empty(),
            r.selected is None,
    {
        SharedState {
            log: FrameLog::open(),
            cache: BlobCache::open(dir),
            view: ViewProjection::new(),
            selected: None,
        }
    }

    /// The stack a new capture attaches to; `None` means top level.
    pub fn get_curr_stack(&self) -> (r: Option<u128>)
        ensures
            r == self.selected,
    {
        self.selected
    }

    /// Points the selection at a stack, or clears it.
    pub fn select(&mut self, s: Option<u128>)
        ensures
            *final(self) == (SharedState { selected: s, ..*old(self) }),
    {
        self.selected = s;
    }

    /// Merges a frame into the view projection (idempotently).
    pub fn merge(&mut self, f: &Frame)
        requires
            old(self).inv(),
        ensures
            final(self).inv(),
            final(self).view.model() == merge_spec(old(self).view.model(), f@),
            final(self).log == old(self).log,
            final(self).cache == old(self).cache,
            final(self).selected == old(self).selected,
    {
        self.view.merge(f);
    }

    /// Begins a streaming capture attached to the currently selected stack,
    /// clears the selection (the next independent capture defaults to top
    /// level), and merges the placeholder item so consumers see the pending
    /// entry at once.
    pub fn begin_stream(&mut self) -> (r: InProgressStream)
        requires
            old(self).inv(),
            old(self).log.last_minted < u128::MAX,
        ensures
            final(self).inv(),
            final(self).selected is None,
            r.state == PacketState::Open,
            r.stack_id == old(self).selected,
            r.content@ == Seq::<u8>::empty(),
            r.mime_type == MimeType::TextPlain,
            r.id > old(self).log.last_minted,
            final(self).log.model() == old(self).log.model(),
            final(self).log.last_minted == r.id,
            final(self).cache == old(self).cache,
            final(self).view.model() == merge_spec(
                old(self).view.model(),
                crate::frame::FrameModel {
                    id: r.id,
                    topic: "stream"@,
                    stack_id: old(self).selected,
                    hash: None,
                },
            ),
    {
        let stack = self.get_curr_stack();
        self.select(None);
        let empty: Vec<u8> = Vec::new();
        let (mime_type, content_type) = infer_mime_type(&empty, MimeType::TextPlain);
        let (packet, placeholder) = InProgressStream::begin(
            &mut self.log,
            stack,
            mime_type,
            content_type,
            empty,
        );
        self.view.merge(&placeholder);
        packet
    }

    /// Commits a streaming capture: stores its bytes, places the committed
    /// frame — same id as the placeholder — into the log, and merges it into
    /// the view so the pending item is resolved in place.
    pub fn end_stream(&mut self, packet: &mut InProgressStream) -> (r: Result<Frame, Error>)
        requires
            old(self).inv(),
            old(packet).state == PacketState::Open,
        ensures
            final(self).inv(),
            final(packet).id == old(packet).id,
            final(packet).content == old(packet).content,
            r matches Ok(fr) ==> {
                &&& final(packet).state == PacketState::Committed
                &&& fr@.id == old(packet).id
                &&& fr@.hash == Some(hash_of(old(packet).content@))
                &&& fr@.stack_id == old(packet).stack_id
                &&& final(self).log.model().contains(fr@)
                &&& final(self).cache.model() == put_spec(
                    old(self).cache.model(),
                    BlobModel {
                        hash: hash_of(old(packet).content@),
                        bytes: old(packet).content@,
                        mime_type: old(packet).mime_type,
                        content_type: old(packet).content_type@,
                    },
                )
                &&& final(self).view.model() == merge_spec(old(self).view.model(), fr@)
            },
            r is Err ==> final(packet).state == PacketState::Open && final(self).log.model() == old(
                self,
            ).log.model() && final(self).view.model() == old(self).view.model(),
            r is Err ==> final(self).cache.model() == old(self).cache.model()
                || final(self).cache.model() == put_spec(
                old(self).cache.model(),
                BlobModel {
                    hash: hash_of(old(packet).content@),
                    bytes: old(packet).content@,
                    mime_type: old(packet).mime_type,
                    content_type: old(packet).content_type@,
                },
            ),
    {
        let fr = match packet.end_stream(&mut self.log, &mut self.cache) {
            Ok(fr) => fr,
            Err(e) => {
                return Err(e);
            },
        };
        self.view.merge(&fr);
        Ok(fr)
    }

    /// Resolves a fetch of `id`: the stored bytes and their `Content-Type`
    /// for a committed item, and not-found exactly when the id is unknown,
    /// still provisional, or its content address is missing from the cache.
    pub fn get_item(&self, id: u128) -> (r: GetOutcome)
        requires
            self.inv(),
        ensures
            match get_spec(self.view.model(), self.cache.model(), id) {
                None => r is NotFound,
                Some(p) => r matches GetOutcome::Content { bytes, content_type } && bytes@ == p.0
                    && content_type@ == p.1,
            },
    {
        let item = match self.view.lookup(id) {
            Some(it) => it,
            None => {
                return GetOutcome::NotFound;
            },
        };
        let h = match &item.hash {
            Some(h) => h,
            None => {
                return GetOutcome::NotFound;
            },
        };
        let bytes = match self.cache.get_stream(h) {
            Some(b) => crate::ingest::duplicate_bytes(b),
            None => {
                return GetOutcome::NotFound;
            },
        };
        let meta = self.cache.get_meta(h);
        let content_type = match meta {
            Some((m, _)) => content_type_string(m),
            None => String::from_str("application/octet-stream"),
        };
        GetOutcome::Content { bytes, content_type }
    }

    /// The blob bytes of a stack's committed children, in first-merge order;
    /// provisional children and children whose content address is unknown
    /// contribute nothing.
    pub fn stack_content(&self, id: u128) -> (r: Vec<Vec<u8>>)
        requires
            self.inv(),
        ensures
            r@.map_values(|b: Vec<u8>| b@) == parts_of(
                children_spec(self.view.model(), id),
                self.cache.model(),
            ),
    {
        let children = self.view.children(id);
        let ghost cm = children_spec(self.view.model(), id);
        let mut r: Vec<Vec<u8>> = Vec::new();
        let mut i: usize = 0;
        while i < children.len()
            invariant
                i <= children@.len(),
                children@.map_values(|it: crate::view::Item| it@) == cm,
                self.inv(),
                r@.map_values(|b: Vec<u8>| b@) == parts_of(cm.subrange(0, i as int), self.cache.model()),
            decreases children@.len() - i,
        {
            let ghost prefix = cm.subrange(0, i as int);
            let ghost next = cm.subrange(0, (i + 1) as int);
            proof {
                assert(next.drop_last() =~= prefix);
                assert(children@[i as int]@ == cm[i as int]);
            }
            match &children[i].hash {
                Some(h) => {
                    match self.cache.get_stream(h) {
                        Some(b) => {
                            r.push(crate::ingest::duplicate_bytes(b));
                            proof {
                                assert(r@.map_values(|b: Vec<u8>| b@) =~= parts_of(
                                    next,
                                    self.cache.model(),
                                ));
                            }
                        },
                        None => {
                            proof {
                                assert(parts_of(next, self.cache.model()) =~= parts_of(
                                    prefix,
                                    self.cache.model(),
                                ));
                            }
                        },
                    }
                },
                None => {
                    proof {
                        assert(parts_of(next, self.cache.model()) =~= parts_of(
                            prefix,
                            self.cache.model(),
                        ));
                    }
                },
            }
            i = i + 1;
        }
        proof {
            assert(cm.subrange(0, cm.len() as int) == cm);
        }
        r
    }
}

/// The committed content of a list of items: each item's stored bytes, in
/// order, skipping provisional items and unknown content addresses.
pub open spec fn parts_of(items: Seq<ItemModel>, blobs: Seq<BlobModel>) -> Seq<Seq<u8>>
    decreases items.len(),
{
    if items.len() == 0 {
        Seq::empty()
    } else {
        let rest = parts_of(items.drop_last(), blobs);
        match items.last().hash {
            Some(h) => match lookup_hash(blobs, h) {
                Some(e) => rest.push(e.bytes),
                None => rest,
            },
            None => rest,
        }
    }
}

/// Not-found law: a fetch resolves to not-found exactly for an id that is
/// unknown to the view, still provisional, or whose content address is not
/// stored; a malformed path segment already routes to not-found.
pub proof fn lemma_not_found(items: Seq<ItemModel>, blobs: Seq<BlobModel>, id: u128)
    ensures
        get_spec(items, blobs, id) is None <==> {
            ||| lookup_item(items, id) is None
            ||| (lookup_item(items, id) matches Some(it) && it.hash is None)
            ||| (lookup_item(items, id) matches Some(it) && it.hash matches Some(h)
                && !contains_hash(blobs, h))
        },
{
    crate::view::lemma_lookup_item(items, id);
    match lookup_item(items, id) {
        None => {},
        Some(it) => {
            match it.hash {
                None => {},
                Some(h) => {
                    crate::cache::lemma_lookup_hash(blobs, h);
                },
            }
        },
    }
}

} // verus!
