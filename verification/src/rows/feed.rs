//! From row changes to the event feed.

use vstd::prelude::*;

use crate::company::{
    Company, CompanyModel, Entity, EventModel, EventOp, EventRow, EventTouch, TouchModel,
};
use crate::table::Duplicate;
use crate::text::{lemma_seen_push, owned, same, seen, Text};

verus! {

/// Whether a list of row changes names a thing already.
pub open spec fn names_entity(touches: Seq<TouchModel>, entity: Entity, id: Text) -> bool {
    exists|i: int|
        0 <= i < touches.len() && #[trigger] touches[i].entity == entity && touches[i].entity_id
            == id
}

/// The first row change of every thing, in order.
pub open spec fn first_touches(touches: Seq<TouchModel>) -> Seq<TouchModel>
    decreases touches.len(),
{
    if touches.len() == 0 {
        touches
    } else {
        let before = first_touches(touches.drop_last());
        if names_entity(before, touches.last().entity, touches.last().entity_id) {
            before
        } else {
            before.push(touches.last())
        }
    }
}

/// The event a row change comes to.
pub open spec fn event_of(touch: TouchModel, at: Text, actor: Text) -> EventModel {
    EventModel { entity: touch.entity, entity_id: touch.entity_id, op: touch.op, at, actor }
}

/// The events of a run of row changes.
pub open spec fn events_of(touches: Seq<TouchModel>, at: Text, actor: Text) -> Seq<EventModel> {
    Seq::new(touches.len(), |i: int| event_of(touches[i], at, actor))
}

impl CompanyModel {
    /// One more thing touched.
    pub open spec fn touch(self, entity: Entity, id: Text, op: EventOp) -> CompanyModel {
        CompanyModel {
            touches: self.touches.push(TouchModel { entity, entity_id: id, op }),
            ..self
        }
    }

    /// One more thing touched, unless it has been.
    pub open spec fn touch_once(self, entity: Entity, id: Text, op: EventOp) -> CompanyModel {
        if names_entity(self.touches, entity, id) {
            self
        } else {
            self.touch(entity, id, op)
        }
    }

    /// Every thing touched once, by its first change.
    pub open spec fn deduped(self) -> CompanyModel {
        CompanyModel { touches: first_touches(self.touches), ..self }
    }

    /// What was touched goes to the feed.
    pub open spec fn emitted(self, at: Text, actor: Text) -> CompanyModel {
        CompanyModel {
            events: self.events + events_of(self.touches, at, actor),
            touches: Seq::empty(),
            ..self
        }
    }

    /// The sequence number of the last event.
    pub open spec fn last_seq(self) -> int {
        self.event_base + self.events.len()
    }
}

/// What a run of row changes leaves of the feed order: the first change of a
/// thing is kept, every later one goes.
pub proof fn lemma_first_touches(touches: Seq<TouchModel>)
    ensures
        forall|i: int, j: int|
            0 <= i < j < first_touches(touches).len() ==> !(first_touches(touches)[i].entity
                == first_touches(touches)[j].entity && #[trigger] first_touches(
                touches,
            )[i].entity_id == #[trigger] first_touches(touches)[j].entity_id),
        forall|e: Entity, id: Text| #[trigger]
            names_entity(first_touches(touches), e, id) <==> names_entity(touches, e, id),
    decreases touches.len(),
{
    if touches.len() > 0 {
        let rest = touches.drop_last();
        let before = first_touches(rest);
        let last = touches.last();
        lemma_first_touches(rest);
        let all = first_touches(touches);
        assert forall|i: int, j: int| 0 <= i < j < all.len() implies !(all[i].entity
            == all[j].entity && #[trigger] all[i].entity_id == #[trigger] all[j].entity_id) by {
            if j == before.len() {
                assert(!names_entity(before, last.entity, last.entity_id));
                assert(all[i] == before[i]);
            } else {
                assert(all[i] == before[i]);
                assert(all[j] == before[j]);
            }
        }
        assert forall|e: Entity, id: Text| #[trigger]
            names_entity(all, e, id) <==> names_entity(touches, e, id) by {
            if names_entity(all, e, id) {
                let i = choose|i: int|
                    0 <= i < all.len() && #[trigger] all[i].entity == e && all[i].entity_id == id;
                if i < before.len() {
                    assert(before[i].entity == e);
                    assert(names_entity(before, e, id));
                    assert(names_entity(rest, e, id));
                    let k = choose|k: int|
                        0 <= k < rest.len() && #[trigger] rest[k].entity == e && rest[k].entity_id
                            == id;
                    assert(touches[k].entity == e);
                } else {
                    assert(touches[touches.len() - 1].entity == e);
                }
            }
            if names_entity(touches, e, id) {
                let k = choose|k: int|
                    0 <= k < touches.len() && #[trigger] touches[k].entity == e
                        && touches[k].entity_id == id;
                if k < rest.len() {
                    assert(rest[k].entity == e);
                    assert(names_entity(rest, e, id));
                    assert(names_entity(before, e, id));
                }
                if names_entity(before, e, id) {
                    let i = choose|i: int|
                        0 <= i < before.len() && #[trigger] before[i].entity == e
                            && before[i].entity_id == id;
                    assert(all[i].entity == e);
                } else {
                    assert(all[before.len() as int].entity == e);
                }
            }
        }
    }
}

/// Whether a list of row changes names a thing already.
pub fn names(touches: &Vec<EventTouch>, entity: Entity, id: &str) -> (r: bool)
    ensures
        r == names_entity(seen(touches@), entity, id@),
{
    let mut i: usize = 0;
    while i < touches.len()
        invariant
            i <= touches@.len(),
            forall|j: int|
                0 <= j < i ==> !(#[trigger] seen(touches@)[j].entity == entity
                    && seen(touches@)[j].entity_id == id@),
        decreases touches@.len() - i,
    {
        if touches[i].entity == entity && same(touches[i].entity_id.as_str(), id) {
            proof {
                assert(seen(touches@)[i as int].entity == entity);
            }
            return true;
        }
        i = i + 1;
    }
    false
}

impl Company {
    /// Note one more thing touched.
    pub fn touch(&mut self, entity: Entity, id: &str, op: EventOp)
        requires
            old(self).wf(),
        ensures
            final(self).wf(),
            final(self)@ == old(self)@.touch(entity, id@, op),
    {
        let touch = EventTouch { entity, entity_id: owned(id), op };
        proof {
            lemma_seen_push(self.touches@, touch);
        }
        self.touches.push(touch);
    }

    /// Note one more thing touched, unless it has been.
    pub fn touch_once(&mut self, entity: Entity, id: &str, op: EventOp)
        requires
            old(self).wf(),
        ensures
            final(self).wf(),
            final(self)@ == old(self)@.touch_once(entity, id@, op),
    {
        if !names(&self.touches, entity, id) {
            self.touch(entity, id, op);
        }
    }

    /// Keep the first row change of every thing.
    pub fn dedupe_touches(&mut self)
        requires
            old(self).wf(),
        ensures
            final(self).wf(),
            final(self)@ == old(self)@.deduped(),
    {
        let ghost all = seen(self.touches@);
        let mut kept: Vec<EventTouch> = Vec::new();
        let mut i: usize = 0;
        while i < self.touches.len()
            invariant
                i <= self.touches@.len(),
                all == seen(self.touches@),
                *self == *old(self),
                seen(kept@) == first_touches(all.take(i as int)),
            decreases self.touches@.len() - i,
        {
            proof {
                assert(all.take(i + 1).drop_last() =~= all.take(i as int));
                assert(all.take(i + 1).last() == self.touches@[i as int]@);
            }
            if !names(&kept, self.touches[i].entity, self.touches[i].entity_id.as_str()) {
                let touch = self.touches[i].duplicate();
                proof {
                    lemma_seen_push(kept@, touch);
                }
                kept.push(touch);
            }
            i = i + 1;
        }
        proof {
            assert(all.take(i as int) =~= all);
        }
        self.touches = kept;
    }

    /// Turn what was touched into events.
    pub fn emit(&mut self, at: &str, actor: &str)
        requires
            old(self).wf(),
        ensures
            final(self).wf(),
            final(self)@ == old(self)@.emitted(at@, actor@),
    {
        let ghost before = self@;
        let mut i: usize = 0;
        while i < self.touches.len()
            invariant
                i <= self.touches@.len(),
                self.wf(),
                self@ == (CompanyModel {
                    events: before.events + events_of(before.touches.take(i as int), at@, actor@),
                    ..before
                }),
            decreases self.touches@.len() - i,
        {
            let touch = &self.touches[i];
            let event = EventRow {
                entity: touch.entity,
                entity_id: touch.entity_id.clone(),
                op: touch.op,
                at: owned(at),
                actor: owned(actor),
            };
            proof {
                assert(before.touches == seen(self.touches@));
                assert(before.touches[i as int] == self.touches@[i as int]@);
                lemma_seen_push(self.events@, event);
                assert(before.events + events_of(before.touches.take(i + 1), at@, actor@) =~= (
                before.events + events_of(before.touches.take(i as int), at@, actor@)).push(
                    event@,
                ));
            }
            self.events.push(event);
            i = i + 1;
        }
        proof {
            assert(before.touches == seen(self.touches@));
            assert(before.touches.take(i as int) =~= before.touches);
        }
        self.touches = Vec::new();
        proof {
            assert(seen(self.touches@) =~= Seq::<TouchModel>::empty());
        }
    }

    /// The sequence number of the last event.
    pub fn last_seq(&self) -> (r: i64)
        requires
            self@.last_seq() <= i64::MAX,
        ensures
            r == self@.last_seq(),
    {
        proof {
            assert(self.events@.len() == seen(self.events@).len());
        }
        (self.event_base + self.events.len() as u64) as i64
    }

    /// Turn what was touched into one event to a thing.
    pub fn emit_once(&mut self, at: &str, actor: &str)
        requires
            old(self).wf(),
        ensures
            final(self).wf(),
            final(self)@ == old(self)@.deduped().emitted(at@, actor@),
    {
        self.dedupe_touches();
        self.emit(at, actor);
    }
}

} // verus!
