//! The view projection: the read-side materialization of frames as items,
//! grouped into stacks.
//!
//! `merge` upserts an item keyed by the frame's id: a frame already seen
//! updates its item in place, so re-applying a frame never creates a
//! duplicate and never reorders anything. `children` lists a stack's items
//! in first-merge order.

use vstd::prelude::*;
use crate::frame::{Frame, FrameModel};

verus! {

/// The read-side materialization of one frame.
pub struct Item {
    pub id: u128,
    pub stack_id: Option<u128>,
    pub hash: Option<String>,
}

/// The mathematical value of an `Item`.
pub struct ItemModel {
    pub id: u128,
    pub stack_id: Option<u128>,
    pub hash: Option<Seq<char>>,
}

impl View for Item {
    type V = ItemModel;

    open spec fn view(&self) -> ItemModel {
        ItemModel {
            id: self.id,
            stack_id: self.stack_id,
            hash: crate::frame::view_of_opt_string(self.hash),
        }
    }
}

impl Item {
    /// An exact copy, spelled out because `Clone` on a type with a `String`
    /// field says nothing to the verifier.
    pub fn duplicate(&self) -> (r: Item)
        ensures
            r@ == self@,
    {
        Item {
            id: self.id,
            stack_id: self.stack_id,
            hash: match &self.hash {
                Some(h) => Some(h.clone()),
                None => None,
            },
        }
    }
}

/// The item a frame materializes as.
pub open spec fn item_of(f: FrameModel) -> ItemModel {
    ItemModel { id: f.id, stack_id: f.stack_id, hash: f.hash }
}

/// Does some item carry this id?
pub open spec fn has_id(s: Seq<ItemModel>, id: u128) -> bool {
    exists|i: int| 0 <= i < s.len() && s[i].id == id
}

/// The item carrying this id, scanning in first-merge order.
pub open spec fn lookup_item(s: Seq<ItemModel>, id: u128) -> Option<ItemModel>
    decreases s.len(),
{
    if s.len() == 0 {
        None
    } else if s[0].id == id {
        Some(s[0])
    } else {
        lookup_item(s.skip(1), id)
    }
}

/// `lookup_item` finds an item exactly when one carries the id; with unique
/// ids it is the item at any witnessing position.
pub proof fn lemma_lookup_item(s: Seq<ItemModel>, id: u128)
    ensures
        lookup_item(s, id) is Some <==> has_id(s, id),
        lookup_item(s, id) matches Some(it) ==> it.id == id && s.contains(it),
    decreases s.len(),
{
    if s.len() > 0 {
        lemma_lookup_item(s.skip(1), id);
        if s[0].id == id {
        } else {
            assert forall|i: int| 0 <= i < s.len() && s[i].id == id implies has_id(
                s.skip(1),
                id,
            ) by {
                assert(s.skip(1)[i - 1] == s[i]);
            }
            match lookup_item(s.skip(1), id) {
                Some(it) => {
                    assert(s.skip(1).contains(it));
                    let w = choose|w: int| 0 <= w < s.skip(1).len() && s.skip(1)[w] == it;
                    assert(s[w + 1] == it);
                },
                None => {},
            }
        }
    }
}

/// With unique ids, the item at a position carrying the id is the one
/// `lookup_item` denotes.
pub proof fn lemma_lookup_item_unique(s: Seq<ItemModel>, id: u128, i: int)
    requires
        forall|a: int, b: int| 0 <= a < b < s.len() ==> s[a].id != s[b].id,
        0 <= i < s.len(),
        s[i].id == id,
    ensures
        lookup_item(s, id) == Some(s[i]),
    decreases s.len(),
{
    if i == 0 {
    } else {
        assert(s[0].id != id);
        assert(s.skip(1)[i - 1] == s[i]);
        lemma_lookup_item_unique(s.skip(1), id, i - 1);
    }
}

/// Upserting a frame: the first item with the frame's id is replaced in
/// place; an unseen id is appended.
pub open spec fn merge_spec(s: Seq<ItemModel>, f: FrameModel) -> Seq<ItemModel>
    decreases s.len(),
{
    if s.len() == 0 {
        seq![item_of(f)]
    } else if s[0].id == f.id {
        seq![item_of(f)] + s.skip(1)
    } else {
        seq![s[0]] + merge_spec(s.skip(1), f)
    }
}

/// A stack's children: the items whose `stack_id` names it, in first-merge
/// order.
pub open spec fn children_spec(s: Seq<ItemModel>, stack: u128) -> Seq<ItemModel>
    decreases s.len(),
{
    if s.len() == 0 {
        Seq::empty()
    } else if s.last().stack_id == Some(stack) {
        children_spec(s.drop_last(), stack).push(s.last())
    } else {
        children_spec(s.drop_last(), stack)
    }
}

/// The projection: every item merged so far, in first-merge order, ids
/// unique.
pub struct ViewProjection {
    pub items: Vec<Item>,
}

impl ViewProjection {
    pub open spec fn model(self) -> Seq<ItemModel> {
        self.items@.map_values(|it: Item| it@)
    }

    /// Well-formedness: one item per id.
    pub open spec fn inv(self) -> bool {
        forall|i: int, j: int| 0 <= i < j < self.model().len() ==> self.model()[i].id
            != self.model()[j].id
    }

    pub fn new() -> (r: ViewProjection)
        ensures
            r.inv(),
            r.model() == Seq::<ItemModel>::empty(),
    {
        let r = ViewProjection { items: Vec::new() };
        proof {
            assert(r.model() =~= Seq::<ItemModel>::empty());
        }
        r
    }

    /// Point lookup by id.
    pub fn lookup(&self, id: u128) -> (r: Option<&Item>)
        requires
            self.inv(),
        ensures
            match r {
                Some(it) => lookup_item(self.model(), id) == Some(it@) && it@.id == id,
                None => lookup_item(self.model(), id) is None,
            },
    {
        proof {
            lemma_lookup_item(self.model(), id);
        }
        let mut i: usize = 0;
        while i < self.items.len()
            invariant
                i <= self.model().len(),
                self.inv(),
                forall|j: int| 0 <= j < i ==> self.model()[j].id != id,
            decreases self.model().len() - i,
        {
            if self.items[i].id == id {
                proof {
                    assert(self.model()[i as int].id == id);
                    lemma_lookup_item_unique(self.model(), id, i as int);
                }
                return Some(&self.items[i]);
            }
            i = i + 1;
        }
        None
    }

    /// Upserts the frame's item, keyed by id: idempotent, never a duplicate,
    /// first-merge order kept.
    pub fn merge(&mut self, f: &Frame)
        requires
            old(self).inv(),
        ensures
            final(self).inv(),
            final(self).model() == merge_spec(old(self).model(), f@),
    {
        let ghost orig = self.model();
        let ghost fv = f@;
        let mut i: usize = 0;
        while i < self.items.len()
            invariant
                i <= self.model().len(),
                forall|j: int| 0 <= j < i ==> self.model()[j].id != fv.id,
                self.model() == orig,
                self == old(self),
                old(self).inv(),
                fv == f@,
            decreases self.model().len() - i,
        {
            if self.items[i].id == f.id {
                proof {
                    assert(self.model()[i as int].id == fv.id);
                }
                let upd = Item {
                    id: f.id,
                    stack_id: f.stack_id,
                    hash: match &f.hash {
                        Some(h) => Some(h.clone()),
                        None => None,
                    },
                };
                proof {
                    assert(upd@ == item_of(fv));
                }
                self.items.set(i, upd);
                proof {
                    assert(self.model() =~= orig.update(i as int, item_of(fv)));
                    lemma_merge_updates(orig, fv, i as int);
                    lemma_merge_keeps_unique(orig, fv);
                }
                return ;
            }
            i = i + 1;
        }
        let fresh = Item {
            id: f.id,
            stack_id: f.stack_id,
            hash: match &f.hash {
                Some(h) => Some(h.clone()),
                None => None,
            },
        };
        proof {
            assert(fresh@ == item_of(fv));
        }
        self.items.push(fresh);
        proof {
            assert(self.model() =~= orig.push(item_of(fv)));
            lemma_merge_appends(orig, fv);
            lemma_merge_keeps_unique(orig, fv);
        }
    }

    /// The stack's children, in first-merge order.
    pub fn children(&self, stack: u128) -> (r: Vec<Item>)
        ensures
            r@.map_values(|it: Item| it@) == children_spec(self.model(), stack),
    {
        let mut r: Vec<Item> = Vec::new();
        let mut i: usize = 0;
        while i < self.items.len()
            invariant
                i <= self.model().len(),
                r@.map_values(|it: Item| it@) == children_spec(
                    self.model().subrange(0, i as int),
                    stack,
                ),
            decreases self.model().len() - i,
        {
            let ghost prefix = self.model().subrange(0, i as int);
            let ghost next = self.model().subrange(0, (i + 1) as int);
            proof {
                assert(next.drop_last() =~= prefix);
                assert(next.last() == self.model()[i as int]);
            }
            let keep = match self.items[i].stack_id {
                Some(sid) => sid == stack,
                None => false,
            };
            if keep {
                r.push(self.items[i].duplicate());
                proof {
                    assert(r@.map_values(|it: Item| it@) =~= children_spec(prefix, stack).push(
                        self.model()[i as int],
                    ));
                }
            }
            i = i + 1;
        }
        proof {
            assert(self.model().subrange(0, self.model().len() as int) == self.model());
        }
        r
    }
}

/// When the frame's id is unseen, merging appends its item.
proof fn lemma_merge_appends(s: Seq<ItemModel>, f: FrameModel)
    requires
        forall|j: int| 0 <= j < s.len() ==> s[j].id != f.id,
    ensures
        merge_spec(s, f) == s.push(item_of(f)),
    decreases s.len(),
{
    if s.len() == 0 {
        assert(merge_spec(s, f) =~= s.push(item_of(f)));
    } else {
        assert forall|j: int| 0 <= j < s.skip(1).len() implies s.skip(1)[j].id != f.id by {
            assert(s.skip(1)[j] == s[j + 1]);
        }
        lemma_merge_appends(s.skip(1), f);
        assert(merge_spec(s, f) =~= s.push(item_of(f)));
    }
}

/// When the frame's id sits first at position `i`, merging updates in place.
proof fn lemma_merge_updates(s: Seq<ItemModel>, f: FrameModel, i: int)
    requires
        0 <= i < s.len(),
        s[i].id == f.id,
        forall|j: int| 0 <= j < i ==> s[j].id != f.id,
    ensures
        merge_spec(s, f) == s.update(i, item_of(f)),
    decreases s.len(),
{
    if i == 0 {
        assert(merge_spec(s, f) =~= s.update(0, item_of(f)));
    } else {
        assert(s.skip(1)[i - 1] == s[i]);
        assert forall|j: int| 0 <= j < i - 1 implies s.skip(1)[j].id != f.id by {
            assert(s.skip(1)[j] == s[j + 1]);
        }
        lemma_merge_updates(s.skip(1), f, i - 1);
        assert(merge_spec(s, f) =~= s.update(i, item_of(f)));
    }
}

/// Merging keeps ids unique, keeps length except for a fresh id, and leaves
/// every other item in place.
pub proof fn lemma_merge_keeps_unique(s: Seq<ItemModel>, f: FrameModel)
    requires
        forall|i: int, j: int| 0 <= i < j < s.len() ==> s[i].id != s[j].id,
    ensures
        forall|i: int, j: int|
            0 <= i < j < merge_spec(s, f).len() ==> merge_spec(s, f)[i].id != merge_spec(
                s,
                f,
            )[j].id,
        has_id(s, f.id) ==> merge_spec(s, f).len() == s.len(),
        !has_id(s, f.id) ==> merge_spec(s, f).len() == s.len() + 1,
        forall|i: int|
            0 <= i < s.len() && s[i].id != f.id ==> merge_spec(s, f)[i] == s[i],
{
    if has_id(s, f.id) {
        let w = choose|w: int| 0 <= w < s.len() && s[w].id == f.id;
        let i = first_with_id(s, f.id, w);
        lemma_merge_updates(s, f, i);
    } else {
        lemma_merge_appends(s, f);
    }
}

/// The least index carrying the id, found below a known witness.
proof fn first_with_id(s: Seq<ItemModel>, id: u128, w: int) -> (i: int)
    requires
        0 <= w < s.len(),
        s[w].id == id,
    ensures
        0 <= i < s.len(),
        s[i].id == id,
        forall|j: int| 0 <= j < i ==> s[j].id != id,
    decreases w,
{
    if exists|j: int| 0 <= j < w && s[j].id == id {
        let w2 = choose|j: int| 0 <= j < w && s[j].id == id;
        first_with_id(s, id, w2)
    } else {
        w
    }
}

/// Idempotent-merge law: applying the same frame a second time changes
/// nothing, so a stack's children keep their length and contents.
pub proof fn lemma_merge_idempotent(s: Seq<ItemModel>, f: FrameModel)
    ensures
        merge_spec(merge_spec(s, f), f) == merge_spec(s, f),
        forall|stack: u128|
            children_spec(merge_spec(merge_spec(s, f), f), stack) == #[trigger] children_spec(
                merge_spec(s, f),
                stack,
            ),
    decreases s.len(),
{
    if s.len() == 0 {
        assert(merge_spec(merge_spec(s, f), f) =~= merge_spec(s, f));
    } else if s[0].id == f.id {
        let m = merge_spec(s, f);
        assert(m[0] == item_of(f));
        assert(m.skip(1) =~= s.skip(1));
        assert(merge_spec(m, f) =~= seq![item_of(f)] + m.skip(1));
        assert(merge_spec(m, f) =~= m);
    } else {
        let m = merge_spec(s, f);
        assert(m[0] == s[0]);
        lemma_merge_idempotent(s.skip(1), f);
        assert(m.skip(1) =~= merge_spec(s.skip(1), f));
        assert(merge_spec(m, f) =~= seq![m[0]] + merge_spec(m.skip(1), f));
        assert(merge_spec(m, f) =~= m);
    }
}

} // verus!
