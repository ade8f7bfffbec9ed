//! The fan-out broadcaster: an accumulated backlog of published frames and a
//! registry of live channels, with the background tailer's step.
//!
//! `subscribe` captures the backlog and registers the new channel in one
//! step, so no frame published between the two is lost or duplicated. A
//! channel is a position in the backlog: everything published after it is
//! that subscriber's pending delivery, drained by `take_pending`. A slow or
//! closed channel never blocks publication; closing one only stops its own
//! delivery. A closed channel stays registered as a dead entry — so the
//! other subscribers' handles stay stable — and every later drain skips it.

use vstd::prelude::*;
use crate::frame::{Frame, FrameModel, duplicate_frames};
use crate::log::{FrameLog, above, sorted_by_id, tail_of, lemma_tail_of_sound};
use crate::view::{ViewProjection, ItemModel, merge_spec};

verus! {

/// Frames merged into the projection one after another, in order.
pub open spec fn merge_all(items: Seq<ItemModel>, fs: Seq<FrameModel>) -> Seq<ItemModel>
    decreases fs.len(),
{
    if fs.len() == 0 {
        items
    } else {
        merge_spec(merge_all(items, fs.drop_last()), fs.last())
    }
}

/// One subscriber's live channel: whether it still listens, and how far into
/// the backlog it has been served.
#[derive(Clone, Copy)]
pub struct Channel {
    pub live: bool,
    pub cursor: usize,
}

pub struct ChannelModel {
    pub live: bool,
    pub cursor: int,
}

impl View for Channel {
    type V = ChannelModel;

    open spec fn view(&self) -> ChannelModel {
        ChannelModel { live: self.live, cursor: self.cursor as int }
    }
}

/// The broadcaster's mathematical value.
pub struct BcastModel {
    pub backlog: Seq<FrameModel>,
    pub channels: Seq<ChannelModel>,
}

/// Registering a subscriber: the backlog is untouched; the new channel
/// starts right after everything already published.
pub open spec fn subscribe_spec(m: BcastModel) -> BcastModel {
    BcastModel {
        backlog: m.backlog,
        channels: m.channels.push(ChannelModel { live: true, cursor: m.backlog.len() as int }),
    }
}

/// Publishing a record: appended to the backlog; every channel keeps its
/// position, so the record becomes pending for each live subscriber.
pub open spec fn publish_spec(m: BcastModel, f: FrameModel) -> BcastModel {
    BcastModel { backlog: m.backlog.push(f), channels: m.channels }
}

/// What a subscriber has not yet been served: the backlog past its cursor.
pub open spec fn pending_spec(m: BcastModel, i: int) -> Seq<FrameModel> {
    m.backlog.skip(m.channels[i].cursor)
}

/// How often `f` occurs in `s`.
pub open spec fn count_occ(s: Seq<FrameModel>, f: FrameModel) -> nat
    decreases s.len(),
{
    if s.len() == 0 {
        0
    } else {
        count_occ(s.drop_last(), f) + (if s.last() == f {
            1nat
        } else {
            0nat
        })
    }
}

/// The fan-out broadcaster.
pub struct FanOut {
    pub backlog: Vec<Frame>,
    pub channels: Vec<Channel>,
}

impl FanOut {
    pub open spec fn model(self) -> BcastModel {
        BcastModel {
            backlog: self.backlog@.map_values(|f: Frame| f@),
            channels: self.channels@.map_values(|c: Channel| c@),
        }
    }

    /// Well-formedness: no channel points past the backlog.
    pub open spec fn inv(self) -> bool {
        forall|i: int|
            0 <= i < self.model().channels.len() ==> 0 <= #[trigger] self.model().channels[i].cursor
                <= self.model().backlog.len()
    }

    pub fn new() -> (r: FanOut)
        ensures
            r.inv(),
            r.model().backlog == Seq::<FrameModel>::empty(),
            r.model().channels == Seq::<ChannelModel>::empty(),
    {
        let r = FanOut { backlog: Vec::new(), channels: Vec::new() };
        proof {
            assert(r.model().backlog =~= Seq::<FrameModel>::empty());
            assert(r.model().channels =~= Seq::<ChannelModel>::empty());
        }
        r
    }

    /// Atomically captures the accumulated backlog and registers a new live
    /// channel: the handle's pending delivery starts exactly after the
    /// returned backlog, so nothing published before is repeated and nothing
    /// published after is missed.
    pub fn subscribe(&mut self) -> (r: (Vec<Frame>, usize))
        requires
            old(self).inv(),
        ensures
            final(self).inv(),
            final(self).model() == subscribe_spec(old(self).model()),
            r.1 == old(self).model().channels.len(),
            r.0@.len() == old(self).model().backlog.len(),
            forall|j: int| 0 <= j < r.0@.len() ==> r.0@[j]@ == old(self).model().backlog[j],
            pending_spec(final(self).model(), r.1 as int) == Seq::<FrameModel>::empty(),
    {
        let backlog_copy = duplicate_frames(&self.backlog);
        let handle = self.channels.len();
        let ch = Channel { live: true, cursor: self.backlog.len() };
        let ghost before = self.model();
        self.channels.push(ch);
        proof {
            assert(self.model().backlog =~= before.backlog);
            assert(self.model().channels =~= before.channels.push(ch@));
            assert(pending_spec(self.model(), handle as int) =~= Seq::<FrameModel>::empty());
            assert forall|j: int| 0 <= j < backlog_copy@.len() implies backlog_copy@[j]@
                == before.backlog[j] by {
                assert(before.backlog[j] == self.backlog@[j]@);
            }
        }
        (backlog_copy, handle)
    }

    /// Appends the record to the backlog and thereby hands it, exactly once,
    /// to every live subscriber's pending delivery. No channel can block
    /// this: positions are untouched.
    pub fn publish(&mut self, f: &Frame)
        requires
            old(self).inv(),
        ensures
            final(self).inv(),
            final(self).model() == publish_spec(old(self).model(), f@),
    {
        let ghost before = self.model();
        self.backlog.push(f.duplicate());
        proof {
            assert(self.model().backlog =~= before.backlog.push(f@));
            assert(self.model().channels =~= before.channels);
        }
    }

    /// Stops delivery to one subscriber; every other channel and the backlog
    /// are untouched.
    pub fn close(&mut self, handle: usize)
        requires
            old(self).inv(),
        ensures
            final(self).inv(),
            final(self).model().backlog == old(self).model().backlog,
            final(self).model().channels.len() == old(self).model().channels.len(),
            forall|i: int|
                0 <= i < old(self).model().channels.len() && i != handle
                    ==> final(self).model().channels[i] == old(self).model().channels[i],
            handle < old(self).model().channels.len() ==> final(self).model().channels[
                handle as int
            ] == (ChannelModel {
                live: false,
                cursor: old(self).model().channels[handle as int].cursor,
            }),
    {
        if handle < self.channels.len() {
            let ghost before = self.model();
            let ch = self.channels[handle];
            self.channels.set(handle, Channel { live: false, cursor: ch.cursor });
            proof {
                assert(self.model().backlog =~= before.backlog);
                assert(self.model().channels =~= before.channels.update(
                    handle as int,
                    ChannelModel { live: false, cursor: before.channels[handle as int].cursor },
                ));
            }
        }
    }

    /// Drains one subscriber's pending records: returns everything published
    /// since its position and advances the position, so a record is served
    /// to this subscriber at most once across successive drains. A closed or
    /// unknown handle gets nothing.
    pub fn take_pending(&mut self, handle: usize) -> (r: Vec<Frame>)
        requires
            old(self).inv(),
        ensures
            final(self).inv(),
            final(self).model().backlog == old(self).model().backlog,
            final(self).model().channels.len() == old(self).model().channels.len(),
            forall|i: int|
                0 <= i < old(self).model().channels.len() && i != handle
                    ==> final(self).model().channels[i] == old(self).model().channels[i],
            handle < old(self).model().channels.len() && old(self).model().channels[
                handle as int
            ].live ==> {
                &&& r@.map_values(|f: Frame| f@) == pending_spec(old(self).model(), handle as int)
                &&& final(self).model().channels[handle as int] == (ChannelModel {
                    live: true,
                    cursor: old(self).model().backlog.len() as int,
                })
                &&& pending_spec(final(self).model(), handle as int) == Seq::<FrameModel>::empty()
            },
            !(handle < old(self).model().channels.len() && old(self).model().channels[
                handle as int
            ].live) ==> r@.len() == 0 && *final(self) == *old(self),
    {
        if handle >= self.channels.len() {
            return Vec::new();
        }
        let ch = self.channels[handle];
        if !ch.live {
            return Vec::new();
        }
        let ghost before = self.model();
        let mut r: Vec<Frame> = Vec::new();
        let mut i: usize = ch.cursor;
        proof {
            assert(before.channels[handle as int].cursor == ch.cursor as int);
        }
        while i < self.backlog.len()
            invariant
                ch.cursor <= i <= self.backlog@.len(),
                self == old(self),
                r@.len() == i - ch.cursor,
                forall|k: int| 0 <= k < r@.len() ==> r@[k]@ == self.model().backlog[ch.cursor + k],
            decreases self.backlog@.len() - i,
        {
            r.push(self.backlog[i].duplicate());
            proof {
                assert(self.backlog@[i as int]@ == self.model().backlog[i as int]);
            }
            i = i + 1;
        }
        proof {
            assert(r@.map_values(|f: Frame| f@) =~= self.model().backlog.subrange(
                ch.cursor as int,
                self.model().backlog.len() as int,
            ));
        }
        let pos = self.backlog.len();
        self.channels.set(handle, Channel { live: true, cursor: pos });
        proof {
            assert(self.model().backlog =~= before.backlog);
            assert(self.model().channels =~= before.channels.update(
                handle as int,
                ChannelModel { live: true, cursor: before.backlog.len() as int },
            ));
            assert(before.backlog.subrange(ch.cursor as int, before.backlog.len() as int)
                =~= pending_spec(before, handle as int));
            assert(pending_spec(self.model(), handle as int) =~= Seq::<FrameModel>::empty());
        }
        r
    }
}

/// The cursor after a tailer pass: unchanged on an empty read, else the
/// highest id seen (the last of the ascending read).
pub open spec fn next_cursor(s: Seq<FrameModel>, c: Option<u128>) -> Option<u128> {
    if tail_of(s, c).len() == 0 {
        c
    } else {
        Some(tail_of(s, c).last().id)
    }
}

/// One pass of the background tailer: reads every frame past the cursor
/// from the log, publishes each to the broadcaster and merges it into the
/// view projection in ascending id order, and returns the advanced cursor.
/// An empty log (or an up-to-date cursor) leaves everything unchanged; the
/// cursor never moves backwards.
pub fn tailer_step(
    log: &FrameLog,
    b: &mut FanOut,
    view: &mut ViewProjection,
    cursor: Option<u128>,
) -> (r: Option<u128>)
    requires
        log.inv(),
        old(b).inv(),
        old(view).inv(),
    ensures
        final(b).inv(),
        final(view).inv(),
        final(b).model().backlog == old(b).model().backlog + tail_of(log.model(), cursor),
        final(b).model().channels == old(b).model().channels,
        final(view).model() == merge_all(old(view).model(), tail_of(log.model(), cursor)),
        r == next_cursor(log.model(), cursor),
{
    let frames = log.read_from(cursor);
    let ghost t = tail_of(log.model(), cursor);
    let ghost before = b.model();
    let ghost view_before = view.model();
    let mut r = cursor;
    let mut i: usize = 0;
    while i < frames.len()
        invariant
            i <= frames@.len(),
            frames@.map_values(|f: Frame| f@) == t,
            b.inv(),
            view.inv(),
            b.model().backlog == before.backlog + t.subrange(0, i as int),
            b.model().channels == before.channels,
            view.model() == merge_all(view_before, t.subrange(0, i as int)),
            r == (if i == 0 {
                cursor
            } else {
                Some(t[i - 1].id)
            }),
        decreases frames@.len() - i,
    {
        b.publish(&frames[i]);
        view.merge(&frames[i]);
        r = Some(frames[i].id);
        proof {
            assert(frames@[i as int]@ == t[i as int]);
            assert(b.model().backlog =~= before.backlog + t.subrange(0, (i + 1) as int));
            assert(t.subrange(0, (i + 1) as int).drop_last() =~= t.subrange(0, i as int));
        }
        i = i + 1;
    }
    proof {
        assert(t.subrange(0, t.len() as int) == t);
        if t.len() == 0 {
            assert(b.model().backlog =~= before.backlog + t);
        }
    }
    r
}

/// Subscribe-atomicity law: when a record is published strictly between two
/// subscriptions, the earlier subscriber's pending delivery is exactly that
/// record (once), the later subscriber's captured backlog carries it exactly
/// once more than the earlier one's, and the later subscriber's pending
/// delivery is empty — nothing is lost and nothing is repeated across the
/// subscribe boundary.
pub proof fn lemma_subscribe_atomicity(m0: BcastModel, f: FrameModel)
    ensures
        ({
            let m1 = subscribe_spec(m0);
            let a = m0.channels.len() as int;
            let m2 = publish_spec(m1, f);
            let m3 = subscribe_spec(m2);
            let b = m2.channels.len() as int;
            &&& pending_spec(m3, a) == seq![f]
            &&& m2.backlog == m0.backlog.push(f)
            &&& count_occ(m2.backlog, f) == count_occ(m0.backlog, f) + 1
            &&& pending_spec(m3, b) == Seq::<FrameModel>::empty()
        }),
{
    let m1 = subscribe_spec(m0);
    let a = m0.channels.len() as int;
    let m2 = publish_spec(m1, f);
    let m3 = subscribe_spec(m2);
    let b = m2.channels.len() as int;
    assert(m3.channels[a].cursor == m0.backlog.len() as int);
    assert(pending_spec(m3, a) =~= seq![f]);
    assert(m2.backlog.drop_last() =~= m0.backlog);
    assert(pending_spec(m3, b) =~= Seq::<FrameModel>::empty());
}

/// Restart law for the tailer: after a pass over the log, a new pass that
/// resumes from the preserved cursor never republishes a frame the first
/// pass delivered, even when the log has grown in the meantime.
pub proof fn lemma_restart_no_republish(s: Seq<FrameModel>, s2: Seq<FrameModel>, c: Option<u128>)
    requires
        sorted_by_id(s),
        sorted_by_id(s2),
    ensures
        forall|g: FrameModel| #[trigger]
            tail_of(s, c).contains(g) ==> !tail_of(s2, next_cursor(s, c)).contains(g),
{
    lemma_tail_of_sound(s, c);
    lemma_tail_of_sound(s2, next_cursor(s, c));
    let t1 = tail_of(s, c);
    let c1 = next_cursor(s, c);
    let t2 = tail_of(s2, c1);
    assert forall|g: FrameModel| #[trigger] t1.contains(g) implies !t2.contains(g) by {
        let w = choose|w: int| 0 <= w < t1.len() && t1[w] == g;
        assert(g.id <= t1.last().id);
        if t2.contains(g) {
            let v = choose|v: int| 0 <= v < t2.len() && t2[v] == g;
            assert(above(c1, t2[v].id));
        }
    }
}

} // verus!
