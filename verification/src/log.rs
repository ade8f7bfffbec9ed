//! The append-only frame log: a durable, monotonically ordered sequence of
//! frames, read back from an arbitrary cursor.
//!
//! Every identifier handed out by `mint_id` is strictly greater than every
//! identifier the log minted before, so frames are totally ordered by `id`
//! even when a provisional frame is committed late (`insert_frame` places it
//! at its ordered position). `read_from` returns exactly the frames above a
//! cursor, in ascending id order, and never a frame at or below the cursor.

use vstd::prelude::*;
use crate::frame::{Error, Frame, FrameModel};
use crate::ids::mint_raw;

verus! {

/// Does `id` lie strictly above the cursor (`None` means "from the start")?
pub open spec fn above(c: Option<u128>, id: u128) -> bool {
    match c {
        None => true,
        Some(v) => id > v,
    }
}

/// Frames strictly ascending by id.
pub open spec fn sorted_by_id(s: Seq<FrameModel>) -> bool {
    forall|i: int, j: int| 0 <= i < j < s.len() ==> s[i].id < s[j].id
}

/// All ids in `s` at most `m`.
pub open spec fn ids_below(s: Seq<FrameModel>, m: u128) -> bool {
    forall|i: int| 0 <= i < s.len() ==> s[i].id <= m
}

/// The subsequence of `s` whose ids lie strictly above the cursor, in the
/// order of `s`.
pub open spec fn tail_of(s: Seq<FrameModel>, c: Option<u128>) -> Seq<FrameModel>
    decreases s.len(),
{
    if s.len() == 0 {
        Seq::empty()
    } else if above(c, s.last().id) {
        tail_of(s.drop_last(), c).push(s.last())
    } else {
        tail_of(s.drop_last(), c)
    }
}

/// `f` placed into the ascending sequence `s` at its ordered position.
pub open spec fn insert_ordered(s: Seq<FrameModel>, f: FrameModel) -> Seq<FrameModel>
    decreases s.len(),
{
    if s.len() == 0 {
        seq![f]
    } else if s.last().id < f.id {
        s.push(f)
    } else {
        insert_ordered(s.drop_last(), f).push(s.last())
    }
}

/// The durable, append-only frame log.
///
/// `frames` is the persisted history in ascending id order; `last_minted` is
/// the greatest identifier the log has ever handed out, which bounds every
/// stored id.
pub struct FrameLog {
    pub frames: Vec<Frame>,
    pub last_minted: u128,
}

impl FrameLog {
    /// The log's mathematical value: the frame records in storage order.
    pub open spec fn model(self) -> Seq<FrameModel> {
        self.frames@.map_values(|f: Frame| f@)
    }

    /// Well-formedness: ids strictly ascending and none above `last_minted`.
    pub open spec fn inv(self) -> bool {
        &&& sorted_by_id(self.model())
        &&& ids_below(self.model(), self.last_minted)
    }

    pub open spec fn contains_id_spec(self, id: u128) -> bool {
        exists|i: int| 0 <= i < self.model().len() && self.model()[i].id == id
    }

    /// Opens an empty log. Durable storage behind it is the caller's
    /// transport concern; the log itself is the ordered history.
    pub fn open() -> (r: FrameLog)
        ensures
            r.inv(),
            r.model() == Seq::<FrameModel>::empty(),
            r.last_minted == 0,
    {
        let r = FrameLog { frames: Vec::new(), last_minted: 0 };
        proof {
            assert(r.model() =~= Seq::<FrameModel>::empty());
        }
        r
    }

    /// Mints a fresh identifier strictly greater than every identifier this
    /// log has minted before, whatever the outside generator returned.
    pub fn mint_id(&mut self) -> (id: u128)
        requires
            old(self).inv(),
            old(self).last_minted < u128::MAX,
        ensures
            final(self).inv(),
            final(self).frames == old(self).frames,
            final(self).model() == old(self).model(),
            id == final(self).last_minted,
            id > old(self).last_minted,
    {
        let candidate = mint_raw();
        let id: u128 = if candidate > self.last_minted {
            candidate
        } else {
            self.last_minted + 1
        };
        self.last_minted = id;
        id
    }

    /// Appends a freshly minted frame at the end of the log and returns it.
    /// The new frame's id is strictly greater than every id already stored
    /// and every id minted before.
    pub fn append(&mut self, topic: String, stack_id: Option<u128>, hash: Option<String>) -> (r:
        Frame)
        requires
            old(self).inv(),
            old(self).last_minted < u128::MAX,
        ensures
            final(self).inv(),
            final(self).model() == old(self).model().push(r@),
            r@.id > old(self).last_minted,
            r@.id == final(self).last_minted,
            r@.topic == topic@,
            r@.stack_id == stack_id,
            r@.hash == crate::frame::view_of_opt_string(hash),
    {
        let id = self.mint_id();
        let f = Frame { id, topic, stack_id, hash };
        let r = f.duplicate();
        let ghost before = self.model();
        self.frames.push(f);
        proof {
            assert(self.model() =~= before.push(r@));
        }
        r
    }

    /// Whether a frame with this id is stored.
    pub fn contains_id(&self, id: u128) -> (r: bool)
        ensures
            r == self.contains_id_spec(id),
    {
        let mut i: usize = 0;
        while i < self.frames.len()
            invariant
                i <= self.model().len(),
                forall|j: int| 0 <= j < i ==> self.model()[j].id != id,
            decreases self.model().len() - i,
        {
            if self.frames[i].id == id {
                proof {
                    assert(self.model()[i as int].id == id);
                }
                return true;
            }
            i = i + 1;
        }
        false
    }

    /// Commits a frame whose id was minted earlier (a provisional packet's
    /// stable id), placing it at its ordered position. Rejected exactly when
    /// the id was never minted by this log or is already stored; the log is
    /// then unchanged.
    pub fn insert_frame(&mut self, f: Frame) -> (r: Result<(), Error>)
        requires
            old(self).inv(),
        ensures
            final(self).inv(),
            final(self).last_minted == old(self).last_minted,
            r is Ok <==> f@.id <= old(self).last_minted && !old(self).contains_id_spec(f@.id),
            r is Ok ==> final(self).model() == insert_ordered(old(self).model(), f@),
            r is Err ==> *final(self) == *old(self) && r == Err::<(), Error>(Error::IoError),
    {
        if f.id > self.last_minted || self.contains_id(f.id) {
            return Err(Error::IoError);
        }
        let ghost orig = self.model();
        let ghost fv = f@;
        let mut i: usize = self.frames.len();
        while i > 0 && self.frames[i - 1].id > f.id
            invariant
                i <= self.model().len(),
                forall|j: int| i <= j < self.model().len() ==> self.model()[j].id > fv.id,
                self.model() == orig,
                self == old(self),
                fv == f@,
            decreases i,
        {
            proof {
                assert(self.model()[(i - 1) as int].id == self.frames@[(i - 1) as int].id);
            }
            i = i - 1;
        }
        proof {
            lemma_insert_ordered_at(orig, fv, i as int);
        }
        self.frames.insert(i, f);
        proof {
            assert(self.model() =~= orig.subrange(0, i as int).push(fv) + orig.subrange(
                i as int,
                orig.len() as int,
            ));
        }
        Ok(())
    }

    /// A replayable snapshot of every frame with id strictly above the
    /// cursor (all frames when the cursor is absent), in ascending id order.
    /// No frame at or below the cursor is ever returned, and no frame above
    /// it is left out.
    pub fn read_from(&self, cursor: Option<u128>) -> (r: Vec<Frame>)
        requires
            self.inv(),
        ensures
            r@.map_values(|f: Frame| f@) == tail_of(self.model(), cursor),
    {
        let mut r: Vec<Frame> = Vec::new();
        let mut i: usize = 0;
        while i < self.frames.len()
            invariant
                i <= self.model().len(),
                self.inv(),
                r@.map_values(|f: Frame| f@) == tail_of(self.model().subrange(0, i as int), cursor),
            decreases self.model().len() - i,
        {
            let ghost prefix = self.model().subrange(0, i as int);
            let ghost next = self.model().subrange(0, (i + 1) as int);
            proof {
                assert(next.drop_last() =~= prefix);
                assert(next.last() == self.model()[i as int]);
            }
            let keep = match cursor {
                None => true,
                Some(c) => self.frames[i].id > c,
            };
            if keep {
                r.push(self.frames[i].duplicate());
                proof {
                    assert(r@.map_values(|f: Frame| f@) =~= tail_of(prefix, cursor).push(
                        self.model()[i as int],
                    ));
                }
            }
            i = i + 1;
        }
        proof {
            assert(self.model().subrange(0, self.model().len() as int) == self.model());
        }
        r
    }
}

/// The ordering law of cursor reads: for every cursor, every frame that
/// `read_from` returns (its result is `tail_of` of the log) has an id
/// strictly above the cursor, the result is strictly ascending by id when
/// the log is, every stored frame above the cursor is returned, and nothing
/// else is.
pub proof fn lemma_tail_of_sound(s: Seq<FrameModel>, c: Option<u128>)
    ensures
        forall|i: int| 0 <= i < tail_of(s, c).len() ==> above(c, tail_of(s, c)[i].id),
        sorted_by_id(s) ==> sorted_by_id(tail_of(s, c)),
        forall|i: int| 0 <= i < s.len() && above(c, s[i].id) ==> tail_of(s, c).contains(s[i]),
        forall|i: int| 0 <= i < tail_of(s, c).len() ==> s.contains(tail_of(s, c)[i]),
        tail_of(s, c).len() <= s.len(),
    decreases s.len(),
{
    if s.len() == 0 {
    } else {
        let d = s.drop_last();
        lemma_tail_of_sound(d, c);
        assert(forall|i: int| 0 <= i < d.len() ==> d[i] == s[i]);
        assert forall|i: int| 0 <= i < tail_of(s, c).len() implies s.contains(
            tail_of(s, c)[i],
        ) by {
            let t = tail_of(s, c);
            if above(c, s.last().id) {
                if i < t.len() - 1 {
                    assert(d.contains(tail_of(d, c)[i]));
                    let w = choose|w: int| 0 <= w < d.len() && d[w] == tail_of(d, c)[i];
                    assert(s[w] == t[i]);
                } else {
                    assert(s[s.len() - 1] == t[i]);
                }
            } else {
                assert(d.contains(tail_of(d, c)[i]));
                let w = choose|w: int| 0 <= w < d.len() && d[w] == tail_of(d, c)[i];
                assert(s[w] == t[i]);
            }
        }
        assert forall|i: int| 0 <= i < s.len() && above(c, s[i].id) implies tail_of(s, c).contains(
            s[i],
        ) by {
            let t = tail_of(s, c);
            if i == s.len() - 1 {
                assert(t[t.len() - 1] == s[i]);
            } else {
                assert(tail_of(d, c).contains(d[i]));
                let w = choose|w: int| 0 <= w < tail_of(d, c).len() && tail_of(d, c)[w] == d[i];
                assert(t[w] == s[i]);
            }
        }
        if sorted_by_id(s) {
            assert(sorted_by_id(d));
            assert forall|i: int, j: int|
                0 <= i < j < tail_of(s, c).len() implies tail_of(s, c)[i].id < tail_of(
                s,
                c,
            )[j].id by {
                let t = tail_of(s, c);
                if above(c, s.last().id) && j == t.len() - 1 {
                    assert(d.contains(tail_of(d, c)[i]));
                    let w = choose|w: int| 0 <= w < d.len() && d[w] == tail_of(d, c)[i];
                    assert(s[w].id < s.last().id);
                }
            }
        }
    }
}

/// Where the scan in `insert_frame` stops is exactly the ordered position:
/// placing the fresh frame there realises `insert_ordered`.
proof fn lemma_insert_ordered_at(s: Seq<FrameModel>, f: FrameModel, i: int)
    requires
        sorted_by_id(s),
        0 <= i <= s.len(),
        forall|j: int| i <= j < s.len() ==> s[j].id > f.id,
        i > 0 ==> s[i - 1].id <= f.id,
        forall|j: int| 0 <= j < s.len() ==> s[j].id != f.id,
    ensures
        insert_ordered(s, f) == s.subrange(0, i).push(f) + s.subrange(i, s.len() as int),
    decreases s.len(),
{
    if s.len() == 0 {
        assert(insert_ordered(s, f) =~= s.subrange(0, i).push(f) + s.subrange(
            i,
            s.len() as int,
        ));
    } else if s.last().id < f.id {
        assert(i == s.len());
        assert(insert_ordered(s, f) =~= s.subrange(0, i).push(f) + s.subrange(
            i,
            s.len() as int,
        ));
    } else {
        let d = s.drop_last();
        assert(i < s.len());
        assert(i > 0 ==> d[i - 1].id <= f.id);
        lemma_insert_ordered_at(d, f, i);
        assert(insert_ordered(s, f) == insert_ordered(d, f).push(s.last()));
        assert(d.subrange(0, i) =~= s.subrange(0, i));
        assert(insert_ordered(s, f) =~= s.subrange(0, i).push(f) + s.subrange(
            i,
            s.len() as int,
        ));
    }
}

/// Ordered insertion of a fresh id keeps the log strictly ascending and
/// bounded, stores the new frame, and keeps every stored frame.
pub proof fn lemma_insert_ordered_sound(s: Seq<FrameModel>, f: FrameModel)
    requires
        sorted_by_id(s),
        forall|j: int| 0 <= j < s.len() ==> s[j].id != f.id,
    ensures
        sorted_by_id(insert_ordered(s, f)),
        insert_ordered(s, f).len() == s.len() + 1,
        insert_ordered(s, f).contains(f),
        forall|j: int| 0 <= j < s.len() ==> insert_ordered(s, f).contains(s[j]),
        forall|j: int|
            0 <= j < insert_ordered(s, f).len() ==> insert_ordered(s, f)[j] == f || s.contains(
                insert_ordered(s, f)[j],
            ),
        forall|m: u128| ids_below(s, m) && f.id <= m ==> ids_below(insert_ordered(s, f), m),
    decreases s.len(),
{
    if s.len() == 0 {
    } else if s.last().id < f.id {
        assert(insert_ordered(s, f) == s.push(f));
        assert(insert_ordered(s, f)[s.len() as int] == f);
        assert forall|j: int| 0 <= j < s.len() implies insert_ordered(s, f).contains(s[j]) by {
            assert(insert_ordered(s, f)[j] == s[j]);
        }
    } else {
        let d = s.drop_last();
        lemma_insert_ordered_sound(d, f);
        let t = insert_ordered(s, f);
        let td = insert_ordered(d, f);
        assert(t == td.push(s.last()));
        assert(td.contains(f));
        let w = choose|w: int| 0 <= w < td.len() && td[w] == f;
        assert(t[w] == f);
        assert(t.contains(f));
        assert forall|j: int| 0 <= j < s.len() implies t.contains(s[j]) by {
            if j == s.len() - 1 {
                assert(t[t.len() - 1] == s[j]);
            } else {
                assert(td.contains(d[j]));
                let w2 = choose|w2: int| 0 <= w2 < td.len() && td[w2] == d[j];
                assert(t[w2] == s[j]);
            }
        }
        assert forall|j: int| 0 <= j < t.len() implies t[j] == f || s.contains(t[j]) by {
            if j == t.len() - 1 {
                assert(s.contains(s.last()));
            } else {
                if td[j] != f {
                    assert(d.contains(td[j]));
                    let w3 = choose|w3: int| 0 <= w3 < d.len() && d[w3] == td[j];
                    assert(s[w3] == t[j]);
                }
            }
        }
        assert forall|i: int, j: int| 0 <= i < j < t.len() implies t[i].id < t[j].id by {
            if j == t.len() - 1 {
                // every element of td is f or from d, both of id below s.last().id
                assert(t[i] == td[i]);
                if td[i] == f {
                } else {
                    assert(d.contains(td[i]));
                    let w4 = choose|w4: int| 0 <= w4 < d.len() && d[w4] == td[i];
                    assert(s[w4].id < s.last().id);
                }
            }
        }
    }
}

} // verus!
