//! Deferred entity creation and removal: gameplay code queues spawns
//! and despawns during a frame, and the driver applies them between
//! passes, so the world is never mutated while it is being scanned.

use vstd::prelude::*;
use crate::world::EntityM;
use crate::world::EntityRec;
use crate::world::World;
use crate::world::slot_wf;

verus! {

/// A sequence of entities as world slots.
pub open spec fn as_slots(s: Seq<EntityM>) -> Seq<Option<EntityM>> {
    s.map_values(|e: EntityM| Option::Some(e))
}

/// Queue of entities to attach to the world.
pub struct Spawner {
    builders: Vec<EntityRec>,
}

impl View for Spawner {
    type V = Seq<EntityM>;

    closed spec fn view(&self) -> Seq<EntityM> {
        self.builders@.map_values(|r: EntityRec| r@)
    }
}

impl Spawner {
    /// Every queued entity could be stored in a world.
    pub open spec fn wf(self) -> bool {
        forall|k: int|
            0 <= k < self@.len() ==> slot_wf(Option::Some(#[trigger] self@[k]))
    }

    pub fn new() -> (r: Spawner)
        ensures
            r@ == Seq::<EntityM>::empty(),
            r.wf(),
    {
        let s = Spawner { builders: Vec::new() };
        proof {
            assert(s@ =~= Seq::<EntityM>::empty());
        }
        s
    }

    pub fn len(&self) -> (r: usize)
        ensures
            r == self@.len(),
    {
        self.builders.len()
    }

    /// Queue one entity for the next spawn step.
    pub fn add(&mut self, builder: EntityRec)
        requires
            old(self).wf(),
            slot_wf(Option::Some(builder@)),
        ensures
            final(self).wf(),
            final(self)@ == old(self)@.push(builder@),
    {
        let ghost gv = self@;
        self.builders.push(builder);
        proof {
            assert(self@ =~= gv.push(self.builders@.last()@));
        }
    }

    /// Attach every queued entity to the world, most recently queued
    /// first, and leave the queue empty.
    pub fn spawn(&mut self, world: &mut World)
        requires
            old(self).wf(),
            old(world).wf(),
            old(world)@.len() + old(self)@.len() <= 0xffff_ffff,
        ensures
            final(self)@ == Seq::<EntityM>::empty(),
            final(self).wf(),
            final(world).wf(),
            final(world)@ == old(world)@ + as_slots(old(self)@.reverse()),
    {
        let ghost oldb = self@;
        let ghost oldw = old(world)@;
        while self.builders.len() != 0
            invariant
                self.wf(),
                world.wf(),
                self@ =~= oldb.take(self@.len() as int),
                self@.len() <= oldb.len(),
                world@.len() + self@.len() <= 0xffff_ffff,
                world@ =~= oldw + as_slots(oldb.skip(self@.len() as int).reverse()),
            decreases self@.len(),
        {
            let ghost k = self@.len() as int;
            let ghost bpre = self.builders@;
            match self.builders.pop() {
                Option::None => {
                    proof {
                        assert(false);
                    }
                },
                Option::Some(builder) => {
                    proof {
                        assert(builder == bpre[k - 1]);
                        assert(bpre.map_values(|r: EntityRec| r@)[k - 1] == bpre[k - 1]@);
                        assert(builder@ == oldb[k - 1]);
                        assert(self.builders@ =~= bpre.subrange(0, k - 1));
                        assert forall|t: int| 0 <= t < k - 1 implies #[trigger] self@[t]
                            == oldb.take(k - 1)[t] by {
                            assert(self@[t] == self.builders@[t]@);
                            assert(self.builders@[t] == bpre[t]);
                            assert(bpre.map_values(|r: EntityRec| r@)[t] == bpre[t]@);
                        }
                        assert(self@ =~= oldb.take(k - 1));
                        assert(slot_wf(Option::Some(oldb[k - 1])));
                    }
                    let EntityRec { body, mover, sensor, tags } = builder;
                    world.spawn(body, mover, sensor, tags);
                    proof {
                        assert(oldb.skip(k - 1) =~= seq![oldb[k - 1]] + oldb.skip(k));
                        assert(oldb.skip(k - 1).reverse() =~= oldb.skip(k).reverse().push(
                            oldb[k - 1],
                        ));
                        assert(world@ =~= oldw + as_slots(oldb.skip(k - 1).reverse()));
                    }
                },
            }
        }
        proof {
            assert(self@ =~= Seq::<EntityM>::empty());
            assert(oldb.skip(0) =~= oldb);
            assert(world@ =~= oldw + as_slots(oldb.reverse()));
        }
    }
}

/// Queue of entity identifiers to remove from the world.
pub struct Despawner {
    entities: Vec<u32>,
}

impl View for Despawner {
    type V = Seq<u32>;

    closed spec fn view(&self) -> Seq<u32> {
        self.entities@
    }
}

/// The world after vacating the first `n` queued identifiers in order;
/// identifiers outside the world are ignored.
pub open spec fn spec_despawn_upto(
    w: Seq<Option<EntityM>>, ids: Seq<u32>, n: nat,
) -> Seq<Option<EntityM>>
    decreases n,
{
    if n == 0 {
        w
    } else {
        let prev = spec_despawn_upto(w, ids, (n - 1) as nat);
        if ids[n - 1] < prev.len() {
            prev.update(ids[n - 1] as int, Option::None)
        } else {
            prev
        }
    }
}

impl Despawner {
    pub fn new() -> (r: Despawner)
        ensures
            r@ == Seq::<u32>::empty(),
    {
        Despawner { entities: Vec::new() }
    }

    /// Queue one entity for the next despawn step.
    pub fn add(&mut self, entity: u32)
        ensures
            final(self)@ == old(self)@.push(entity),
    {
        self.entities.push(entity);
    }

    /// Vacate every queued entity's slot, in queue order, ignoring
    /// stale identifiers, and leave the queue empty.
    pub fn despawn(&mut self, world: &mut World)
        requires
            old(world).wf(),
        ensures
            final(self)@ == Seq::<u32>::empty(),
            final(world).wf(),
            final(world)@ == spec_despawn_upto(old(world)@, old(self)@, old(self)@.len()),
    {
        let ghost ids = self@;
        let ghost oldw = old(world)@;
        let n: usize = self.entities.len();
        let mut i: usize = 0;
        while i < n
            invariant
                world.wf(),
                n == ids.len(),
                self@ == ids,
                n == self.entities@.len(),
                i <= n,
                world@ == spec_despawn_upto(oldw, ids, i as nat),
            decreases n - i,
        {
            let id: u32 = self.entities[i];
            world.despawn(id);
            i = i + 1;
        }
        self.entities.clear();
    }
}

} // verus!
