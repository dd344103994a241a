//! Flat component storage: each entity is a slot holding an optional
//! body, mover and sensor, plus opaque capability tags. Entity
//! identifiers are slot indices and are never reused; a despawned slot
//! stays vacant. Index-based access lets one entity's resolution write
//! its own position while the broad phase reads every other body.

use vstd::prelude::*;
use crate::body::KaAABB;
use crate::body::KaMoveable;
use crate::body::KaSensor;
use crate::geom::Vec2i;
use crate::geom::DISP_BOUND;
use crate::geom::EXT_BOUND;
use crate::geom::POS_BOUND;
use crate::geom::SNAP_SQ;
use crate::geom::VEL_BOUND;
use crate::geom::mul64;
use crate::sweep::Sweep;
use crate::sweep::SweptRes;
use crate::sweep::lemma_swept_wf;
use crate::sweep::spec_swept;
use crate::sweep::swept_aabb;
use crate::sweep::swept_no_hit;

verus! {

/// Mathematical model of a body.
pub ghost struct BodyM {
    pub pos: Vec2i,
    pub half_e: Vec2i,
    pub collision_layer: i32,
    pub collision_mask: i32,
    pub solid: bool,
    pub one_way: bool,
    pub collision_exceptions: Seq<u32>,
}

impl BodyM {
    /// Geometric bounds every stored body satisfies.
    pub open spec fn wf(self) -> bool {
        &&& self.pos.bounded(POS_BOUND as int)
        &&& 0 <= self.half_e.x <= EXT_BOUND
        &&& 0 <= self.half_e.y <= EXT_BOUND
    }
}

/// Mathematical model of a sensor.
pub ghost struct SensorM {
    pub mask: i32,
    pub active: bool,
    pub overlapping: Seq<u32>,
}

impl View for KaAABB {
    type V = BodyM;

    open spec fn view(&self) -> BodyM {
        BodyM {
            pos: self.pos,
            half_e: self.half_e,
            collision_layer: self.collision_layer,
            collision_mask: self.collision_mask,
            solid: self.solid,
            one_way: self.one_way,
            collision_exceptions: self.collision_exceptions@,
        }
    }
}

impl View for KaSensor {
    type V = SensorM;

    open spec fn view(&self) -> SensorM {
        SensorM { mask: self.mask, active: self.active, overlapping: self.overlapping@ }
    }
}

/// One entity: optional components and opaque capability tags.
pub struct EntityRec {
    pub body: Option<KaAABB>,
    pub mover: Option<KaMoveable>,
    pub sensor: Option<KaSensor>,
    pub tags: Vec<u32>,
}

/// Mathematical model of an entity. Movers are plain data and stand
/// for themselves.
pub ghost struct EntityM {
    pub body: Option<BodyM>,
    pub mover: Option<KaMoveable>,
    pub sensor: Option<SensorM>,
    pub tags: Seq<u32>,
}

impl View for EntityRec {
    type V = EntityM;

    open spec fn view(&self) -> EntityM {
        EntityM {
            body: match self.body {
                Option::None => Option::None,
                Option::Some(b) => Option::Some(b@),
            },
            mover: self.mover,
            sensor: match self.sensor {
                Option::None => Option::None,
                Option::Some(s) => Option::Some(s@),
            },
            tags: self.tags@,
        }
    }
}

/// The model of a world: one optional entity per slot.
pub open spec fn slots_view(slots: Seq<Option<EntityRec>>) -> Seq<Option<EntityM>> {
    slots.map_values(
        |s: Option<EntityRec>|
            match s {
                Option::None => Option::None,
                Option::Some(r) => Option::Some(r@),
            },
    )
}

/// A slot model whose stored components satisfy their bounds.
pub open spec fn slot_wf(s: Option<EntityM>) -> bool {
    match s {
        Option::None => true,
        Option::Some(r) => {
            &&& (r.body matches Option::Some(b) ==> b.wf())
            &&& (r.mover matches Option::Some(m) ==> m.wf())
        },
    }
}

/// Every slot of a world model is well formed and identifiers fit the
/// opaque 32-bit entity id.
pub open spec fn world_wf(w: Seq<Option<EntityM>>) -> bool {
    &&& w.len() <= 0xffff_ffff
    &&& forall|k: int| 0 <= k < w.len() ==> slot_wf(#[trigger] w[k])
}

/// The shared world all systems run over.
pub struct World {
    slots: Vec<Option<EntityRec>>,
}

impl View for World {
    type V = Seq<Option<EntityM>>;

    closed spec fn view(&self) -> Seq<Option<EntityM>> {
        slots_view(self.slots@)
    }
}

impl World {
    /// Every world reachable through this interface is well formed.
    pub open spec fn wf(self) -> bool {
        world_wf(self@)
    }

    pub fn new() -> (r: World)
        ensures
            r@ == Seq::<Option<EntityM>>::empty(),
            r.wf(),
    {
        let w = World { slots: Vec::new() };
        proof {
            assert(w@ =~= Seq::<Option<EntityM>>::empty());
        }
        w
    }

    pub fn len(&self) -> (r: usize)
        ensures
            r == self@.len(),
    {
        self.slots.len()
    }

    /// Attach an entity in a fresh slot; its identifier is the slot
    /// index.
    pub fn spawn(
        &mut self,
        body: Option<KaAABB>,
        mover: Option<KaMoveable>,
        sensor: Option<KaSensor>,
        tags: Vec<u32>,
    ) -> (id: u32)
        requires
            old(self).wf(),
            old(self)@.len() < 0xffff_ffff,
            body matches Option::Some(b) ==> b@.wf(),
            mover matches Option::Some(m) ==> m.wf(),
        ensures
            final(self).wf(),
            id == old(self)@.len(),
            final(self)@ == old(self)@.push(
                Option::Some(
                    EntityM {
                        body: match body {
                            Option::None => Option::None,
                            Option::Some(b) => Option::Some(b@),
                        },
                        mover,
                        sensor: match sensor {
                            Option::None => Option::None,
                            Option::Some(s) => Option::Some(s@),
                        },
                        tags: tags@,
                    },
                ),
            ),
    {
        let id: usize = self.slots.len();
        let ghost gv = self@;
        self.slots.push(Option::Some(EntityRec { body, mover, sensor, tags }));
        proof {
            assert(self@ =~= gv.push(Option::Some(self.slots@.last()->Some_0@)));
        }
        id as u32
    }

    /// Vacate a slot; a stale identifier outside the world is ignored.
    /// Returns whether an entity was removed.
    pub fn despawn(&mut self, id: u32) -> (r: bool)
        requires
            old(self).wf(),
        ensures
            final(self).wf(),
            id < old(self)@.len() ==> final(self)@ == old(self)@.update(id as int, Option::None)
                && r == (old(self)@[id as int] is Some),
            id >= old(self)@.len() ==> final(self)@ == old(self)@ && !r,
    {
        let idx: usize = id as usize;
        if idx >= self.slots.len() {
            proof {
                assert(self@ =~= old(self)@);
            }
            return false;
        }
        let was: bool = match &self.slots[idx] {
            Option::None => false,
            Option::Some(_) => true,
        };
        let ghost gv = self@;
        self.slots[idx] = Option::None;
        proof {
            assert(self@ =~= gv.update(id as int, Option::None::<EntityM>));
        }
        was
    }

    /// Borrow the body of an entity, if the slot is live and holds one.
    pub fn get_body(&self, id: u32) -> (r: Option<&KaAABB>)
        ensures
            ({
                let w = self@;
                if id < w.len() {
                    match w[id as int] {
                        Option::Some(rec) => match rec.body {
                            Option::Some(b) => r matches Option::Some(rb) && rb@ == b,
                            Option::None => r is None,
                        },
                        Option::None => r is None,
                    }
                } else {
                    r is None
                }
            }),
    {
        let idx: usize = id as usize;
        if idx >= self.slots.len() {
            return Option::None;
        }
        match &self.slots[idx] {
            Option::None => Option::None,
            Option::Some(rec) => match &rec.body {
                Option::None => Option::None,
                Option::Some(b) => Option::Some(b),
            },
        }
    }

    /// The mover of an entity, if the slot is live and holds one;
    /// movers are plain data and are returned by value.
    pub fn get_mover(&self, id: u32) -> (r: Option<KaMoveable>)
        ensures
            ({
                let w = self@;
                if id < w.len() {
                    match w[id as int] {
                        Option::Some(rec) => r == rec.mover,
                        Option::None => r is None,
                    }
                } else {
                    r is None
                }
            }),
    {
        let idx: usize = id as usize;
        if idx >= self.slots.len() {
            return Option::None;
        }
        match &self.slots[idx] {
            Option::None => Option::None,
            Option::Some(rec) => match &rec.mover {
                Option::None => Option::None,
                Option::Some(m) => Option::Some(
                    KaMoveable {
                        velocity: m.velocity,
                        on_wall: m.on_wall,
                        on_floor: m.on_floor,
                        on_ceilling: m.on_ceilling,
                        pushable: m.pushable,
                        external_forces: m.external_forces,
                        external_friction: m.external_friction,
                        slide: m.slide,
                    },
                ),
            },
        }
    }

    /// Borrow the sensor of an entity, if the slot is live and holds
    /// one.
    pub fn get_sensor(&self, id: u32) -> (r: Option<&KaSensor>)
        ensures
            ({
                let w = self@;
                if id < w.len() {
                    match w[id as int] {
                        Option::Some(rec) => match rec.sensor {
                            Option::Some(s) => r matches Option::Some(rs) && rs@ == s,
                            Option::None => r is None,
                        },
                        Option::None => r is None,
                    }
                } else {
                    r is None
                }
            }),
    {
        let idx: usize = id as usize;
        if idx >= self.slots.len() {
            return Option::None;
        }
        match &self.slots[idx] {
            Option::None => Option::None,
            Option::Some(rec) => match &rec.sensor {
                Option::None => Option::None,
                Option::Some(s) => Option::Some(s),
            },
        }
    }

    /// The resolved position of an entity's body, for drawable
    /// synchronization.
    pub fn body_position(&self, id: u32) -> (r: Option<Vec2i>)
        ensures
            ({
                let w = self@;
                if id < w.len() {
                    match w[id as int] {
                        Option::Some(rec) => match rec.body {
                            Option::Some(b) => r == Option::Some(b.pos),
                            Option::None => r is None,
                        },
                        Option::None => r is None,
                    }
                } else {
                    r is None
                }
            }),
    {
        match self.get_body(id) {
            Option::None => Option::None,
            Option::Some(b) => Option::Some(Vec2i { x: b.pos.x, y: b.pos.y }),
        }
    }

    /// Replace the mover of a live entity; ignored for a vacant or
    /// missing slot.
    pub fn set_mover(&mut self, id: u32, mover: Option<KaMoveable>)
        requires
            old(self).wf(),
            mover matches Option::Some(m) ==> m.wf(),
        ensures
            final(self).wf(),
            ({
                let w = old(self)@;
                if id < w.len() {
                    match w[id as int] {
                        Option::Some(rec) => final(self)@ == w.update(
                            id as int,
                            Option::Some(EntityM { mover, ..rec }),
                        ),
                        Option::None => final(self)@ == w,
                    }
                } else {
                    final(self)@ == w
                }
            }),
    {
        let idx: usize = id as usize;
        if idx >= self.slots.len() {
            proof {
                assert(self@ =~= old(self)@);
            }
            return ;
        }
        let ghost gv = self@;
        let mut slot: Option<EntityRec> = Option::None;
        core::mem::swap(&mut slot, &mut self.slots[idx]);
        match slot {
            Option::None => {
                self.slots[idx] = Option::None;
                proof {
                    assert(self@ =~= gv);
                }
            },
            Option::Some(rec) => {
                let newrec = EntityRec { mover, ..rec };
                self.slots[idx] = Option::Some(newrec);
                proof {
                    assert(self@ =~= gv.update(
                        id as int,
                        Option::Some(EntityM { mover, ..gv[id as int]->Some_0 }),
                    ));
                }
            },
        }
    }

    /// Replace the body of a live entity; ignored for a vacant or
    /// missing slot.
    pub fn set_body(&mut self, id: u32, body: Option<KaAABB>)
        requires
            old(self).wf(),
            body matches Option::Some(b) ==> b@.wf(),
        ensures
            final(self).wf(),
            ({
                let w = old(self)@;
                if id < w.len() {
                    match w[id as int] {
                        Option::Some(rec) => final(self)@ == w.update(
                            id as int,
                            Option::Some(
                                EntityM {
                                    body: match body {
                                        Option::None => Option::None,
                                        Option::Some(b) => Option::Some(b@),
                                    },
                                    ..rec
                                },
                            ),
                        ),
                        Option::None => final(self)@ == w,
                    }
                } else {
                    final(self)@ == w
                }
            }),
    {
        let idx: usize = id as usize;
        if idx >= self.slots.len() {
            proof {
                assert(self@ =~= old(self)@);
            }
            return ;
        }
        let ghost gv = self@;
        let mut slot: Option<EntityRec> = Option::None;
        core::mem::swap(&mut slot, &mut self.slots[idx]);
        match slot {
            Option::None => {
                self.slots[idx] = Option::None;
                proof {
                    assert(self@ =~= gv);
                }
            },
            Option::Some(rec) => {
                let ghost bm = if body is Some {
                    Option::Some(body->Some_0@)
                } else {
                    Option::None
                };
                let newrec = EntityRec { body, ..rec };
                self.slots[idx] = Option::Some(newrec);
                proof {
                    assert(self@ =~= gv.update(
                        id as int,
                        Option::Some(EntityM { body: bm, ..gv[id as int]->Some_0 }),
                    ));
                }
            },
        }
    }

    /// Replace the sensor of a live entity; ignored for a vacant or
    /// missing slot.
    pub fn set_sensor(&mut self, id: u32, sensor: Option<KaSensor>)
        requires
            old(self).wf(),
        ensures
            final(self).wf(),
            ({
                let w = old(self)@;
                if id < w.len() {
                    match w[id as int] {
                        Option::Some(rec) => final(self)@ == w.update(
                            id as int,
                            Option::Some(
                                EntityM {
                                    sensor: match sensor {
                                        Option::None => Option::None,
                                        Option::Some(s) => Option::Some(s@),
                                    },
                                    ..rec
                                },
                            ),
                        ),
                        Option::None => final(self)@ == w,
                    }
                } else {
                    final(self)@ == w
                }
            }),
    {
        let idx: usize = id as usize;
        if idx >= self.slots.len() {
            proof {
                assert(self@ =~= old(self)@);
            }
            return ;
        }
        let ghost gv = self@;
        let mut slot: Option<EntityRec> = Option::None;
        core::mem::swap(&mut slot, &mut self.slots[idx]);
        match slot {
            Option::None => {
                self.slots[idx] = Option::None;
                proof {
                    assert(self@ =~= gv);
                }
            },
            Option::Some(rec) => {
                let ghost sm = if sensor is Some {
                    Option::Some(sensor->Some_0@)
                } else {
                    Option::None
                };
                let newrec = EntityRec { sensor, ..rec };
                self.slots[idx] = Option::Some(newrec);
                proof {
                    assert(self@ =~= gv.update(
                        id as int,
                        Option::Some(EntityM { sensor: sm, ..gv[id as int]->Some_0 }),
                    ));
                }
            },
        }
    }
}

/// The swept test of a probe box against a stored body.
pub open spec fn spec_swept_b(p1: Vec2i, e1: Vec2i, b2: BodyM, vel: Vec2i) -> SweptRes {
    spec_swept(
        p1.x as int, p1.y as int, e1.x as int, e1.y as int,
        b2.pos.x as int, b2.pos.y as int, b2.half_e.x as int, b2.half_e.y as int,
        vel.x as int, vel.y as int,
    )
}

/// Entity `j` is an eligible obstacle for the mover in slot `i`, whose
/// box currently stands at `(p1, e1)`: a different, live, solid body
/// whose layer intersects the mover's mask, with no pairwise exception
/// in either direction, and, for a one-way obstacle, whose top edge
/// still lies below the mover's bottom edge.
pub open spec fn spec_eligible(
    w: Seq<Option<EntityM>>, i: int, j: int, p1: Vec2i, e1: Vec2i,
) -> bool {
    &&& 0 <= i < w.len()
    &&& 0 <= j < w.len()
    &&& j != i
    &&& w[i] is Some
    &&& w[i]->Some_0.body is Some
    &&& w[j] is Some
    &&& w[j]->Some_0.body is Some
    &&& ({
        let b1 = w[i]->Some_0.body->Some_0;
        let b2 = w[j]->Some_0.body->Some_0;
        &&& b2.solid
        &&& b2.collision_layer & b1.collision_mask != 0
        &&& !b1.collision_exceptions.contains(j as u32)
        &&& !b2.collision_exceptions.contains(i as u32)
        &&& !(b2.one_way && p1.y + e1.y > b2.pos.y - b2.half_e.y)
    })
}

/// Running outcome of a broad-phase scan: the best sweep so far and
/// the entity that produced it.
pub ghost struct BestHit {
    pub s: SweptRes,
    pub who: Option<u32>,
}

impl BestHit {
    /// Shape facts every accumulator satisfies.
    pub open spec fn wf(self) -> bool {
        &&& self.s.den >= 1
        &&& 0 <= self.s.num <= self.s.den
        &&& -1 <= self.s.nx <= 1
        &&& -1 <= self.s.ny <= 1
        &&& self.s.nx * self.s.ny == 0
    }
}

/// Broad phase over the first `n` slots: each eligible obstacle is
/// swept, and a candidate replaces the accumulator exactly when its
/// time of impact is strictly smaller.
pub open spec fn spec_best_upto(
    w: Seq<Option<EntityM>>, i: int, p1: Vec2i, e1: Vec2i, vel: Vec2i, init: BestHit, n: nat,
) -> BestHit
    decreases n,
{
    if n == 0 {
        init
    } else {
        let prev = spec_best_upto(w, i, p1, e1, vel, init, (n - 1) as nat);
        let j = n - 1;
        if spec_eligible(w, i, j as int, p1, e1) {
            let c = spec_swept_b(p1, e1, w[j as int]->Some_0.body->Some_0, vel);
            if c.num * prev.s.den < prev.s.num * c.den {
                BestHit { s: c, who: Option::Some(j as u32) }
            } else {
                prev
            }
        } else {
            prev
        }
    }
}

/// Broad phase over the whole world.
pub open spec fn spec_best(
    w: Seq<Option<EntityM>>, i: int, p1: Vec2i, e1: Vec2i, vel: Vec2i, init: BestHit,
) -> BestHit {
    spec_best_upto(w, i, p1, e1, vel, init, w.len())
}

/// The broad-phase accumulator keeps its shape, and a replaced
/// accumulator records a strictly earlier contact with its obstacle.
pub proof fn lemma_best_wf(
    w: Seq<Option<EntityM>>, i: int, p1: Vec2i, e1: Vec2i, vel: Vec2i, init: BestHit, n: nat,
)
    requires
        init.wf(),
    ensures
        ({
            let r = spec_best_upto(w, i, p1, e1, vel, init, n);
            &&& r.wf()
            &&& r.s.num * init.s.den <= init.s.num * r.s.den
        }),
    decreases n,
{
    if n > 0 {
        lemma_best_wf(w, i, p1, e1, vel, init, (n - 1) as nat);
        let prev = spec_best_upto(w, i, p1, e1, vel, init, (n - 1) as nat);
        let j = n - 1;
        if spec_eligible(w, i, j as int, p1, e1) {
            let b2 = w[j as int]->Some_0.body->Some_0;
            let c = spec_swept_b(p1, e1, b2, vel);
            lemma_swept_wf(
                p1.x as int, p1.y as int, e1.x as int, e1.y as int,
                b2.pos.x as int, b2.pos.y as int, b2.half_e.x as int, b2.half_e.y as int,
                vel.x as int, vel.y as int,
            );
            if c.num * prev.s.den < prev.s.num * c.den {
                assert(c.num * init.s.den <= init.s.num * c.den) by (nonlinear_arith)
                    requires
                        c.num * prev.s.den < prev.s.num * c.den,
                        prev.s.num * init.s.den <= init.s.num * prev.s.den,
                        c.den >= 1,
                        prev.s.den >= 1,
                        init.s.den >= 1,
                        0 <= c.num,
                        0 <= prev.s.num,
                        0 <= init.s.num,
                ;
            }
        }
    }
}

impl World {
    /// One broad-phase scan for the mover in slot `i`, standing at
    /// `(p1, e1)` and moving by `vel`, starting from the given
    /// accumulator.
    fn broad_phase(
        &self, i: usize, p1: Vec2i, e1: Vec2i, vel: Vec2i, init_s: Sweep, init_who: Option<u32>,
    ) -> (r: (Sweep, Option<u32>))
        requires
            self.wf(),
            i < self@.len(),
            self@[i as int] is Some,
            self@[i as int]->Some_0.body is Some,
            p1.bounded(POS_BOUND as int),
            0 <= e1.x <= EXT_BOUND && 0 <= e1.y <= EXT_BOUND,
            vel.bounded(DISP_BOUND as int),
        ensures
            ({
                let bh = spec_best(
                    self@, i as int, p1, e1, vel, BestHit { s: init_s@, who: init_who },
                );
                r.0@ == bh.s && r.1 == bh.who
            }),
    {
        let ghost init = BestHit { s: init_s@, who: init_who };
        let n: usize = self.slots.len();
        let mut cur: Sweep = init_s;
        let mut who: Option<u32> = init_who;
        let mut j: usize = 0;
        while j < n
            invariant
                self.wf(),
                n == self@.len(),
                n == self.slots@.len(),
                i < n,
                self@[i as int] is Some,
                self@[i as int]->Some_0.body is Some,
                p1.bounded(POS_BOUND as int),
                0 <= e1.x <= EXT_BOUND && 0 <= e1.y <= EXT_BOUND,
                vel.bounded(DISP_BOUND as int),
                j <= n,
                ({
                    let bh = spec_best_upto(self@, i as int, p1, e1, vel, init, j as nat);
                    cur@ == bh.s && who == bh.who
                }),
            decreases n - j,
        {
            proof {
                assert(self@[j as int] == match self.slots@[j as int] {
                    Option::None => Option::None::<EntityM>,
                    Option::Some(r) => Option::Some(r@),
                });
                assert(self@[i as int] == match self.slots@[i as int] {
                    Option::None => Option::None::<EntityM>,
                    Option::Some(r) => Option::Some(r@),
                });
                assert(slot_wf(self@[j as int]));
            }
            if j != i {
                match &self.slots[j] {
                    Option::None => (),
                    Option::Some(rec2) => {
                        match &rec2.body {
                            Option::None => (),
                            Option::Some(b2) => {
                                match &self.slots[i] {
                                    Option::None => (),
                                    Option::Some(rec1) => {
                                        match &rec1.body {
                                            Option::None => (),
                                            Option::Some(b1) => {
                                                let eligible: bool = b2.solid
                                                    && (b2.collision_layer & b1.collision_mask
                                                    != 0) && !b1.have_exception(j as u32)
                                                    && !b2.have_exception(i as u32)
                                                    && !(b2.one_way && p1.y + e1.y > b2.pos.y
                                                    - b2.half_e.y);
                                                proof {
                                                    assert(eligible == spec_eligible(
                                                        self@, i as int, j as int, p1, e1,
                                                    ));
                                                }
                                                if eligible {
                                                    let c: Sweep = swept_aabb(
                                                        &p1, &e1, &b2.pos, &b2.half_e, &vel,
                                                    );
                                                    if mul64(c.num, cur.den) < mul64(
                                                        cur.num, c.den,
                                                    ) {
                                                        cur = c;
                                                        who = Option::Some(j as u32);
                                                    }
                                                }
                                            },
                                        }
                                    },
                                }
                            },
                        }
                    },
                }
            }
            j = j + 1;
        }
        (cur, who)
    }
}

/// A velocity whose squared length falls below the snap threshold
/// becomes exactly zero, eliminating sub-pixel drift.
pub open spec fn spec_snap(v: Vec2i) -> Vec2i {
    if v.x * v.x + v.y * v.y < SNAP_SQ {
        Vec2i { x: 0, y: 0 }
    } else {
        v
    }
}

/// The raw per-second velocity of a mover this frame: intrinsic
/// velocity plus accumulated external forces, snapped to zero when
/// nearly still.
pub open spec fn spec_raw_velocity(m: KaMoveable) -> Vec2i {
    spec_snap(
        Vec2i {
            x: (m.velocity.x + m.external_forces.x) as i64,
            y: (m.velocity.y + m.external_forces.y) as i64,
        },
    )
}

/// The step displacement of a mover: raw velocity scaled by the frame
/// time.
pub open spec fn spec_displacement(m: KaMoveable, dt: int) -> Vec2i {
    let raw = spec_raw_velocity(m);
    Vec2i {
        x: crate::geom::spec_scale_dt(raw.x as int, dt) as i64,
        y: crate::geom::spec_scale_dt(raw.y as int, dt) as i64,
    }
}

/// The external forces after one frame of frictional decay, snapped to
/// zero when nearly spent.
pub open spec fn spec_decayed_forces(m: KaMoveable, dt: int) -> Vec2i {
    spec_snap(
        Vec2i {
            x: crate::geom::spec_decay(
                m.external_forces.x as int, m.external_friction as int, dt,
            ) as i64,
            y: crate::geom::spec_decay(
                m.external_forces.y as int, m.external_friction as int, dt,
            ) as i64,
        },
    )
}

/// The position after applying the winning fraction of a displacement
/// and the skin-width bias along the collision normal.
pub open spec fn spec_apply(p: Vec2i, v: Vec2i, s: SweptRes) -> Vec2i {
    Vec2i {
        x: crate::geom::spec_apply_coord(p.x as int, v.x as int, s.num, s.den, s.nx) as i64,
        y: crate::geom::spec_apply_coord(p.y as int, v.y as int, s.num, s.den, s.ny) as i64,
    }
}

/// The remainder of a blocked displacement projected onto the tangent
/// of the collision normal, for the slide pass.
pub open spec fn spec_slide_velocity(v: Vec2i, s: SweptRes) -> Vec2i {
    let dot = v.x * s.ny + v.y * s.nx;
    let q = crate::geom::div_trunc(dot * (s.den - s.num), s.den);
    Vec2i { x: (q * s.ny) as i64, y: (q * s.nx) as i64 }
}

/// Contact classification by normal: a horizontal normal records a
/// wall, a negative vertical normal a floor, anything else a ceiling.
pub open spec fn spec_classify(m: KaMoveable, nx: int, ny: int, who: Option<u32>) -> KaMoveable {
    if nx != 0 {
        KaMoveable { on_wall: who, ..m }
    } else if ny < 0 {
        KaMoveable { on_floor: who, ..m }
    } else {
        KaMoveable { on_ceilling: who, ..m }
    }
}

/// One entity's movement resolution, as a transformation of the world
/// model: contacts reset, forces decayed, displacement swept against
/// every eligible obstacle, the winning fraction applied with the skin
/// bias, the contact classified, and, when blocked and sliding, one
/// further tangential pass.
pub open spec fn spec_move_one(w: Seq<Option<EntityM>>, dt: int, i: int) -> Seq<Option<EntityM>> {
    if 0 <= i < w.len() && w[i] is Some && w[i]->Some_0.body is Some
        && w[i]->Some_0.mover is Some {
        let rec = w[i]->Some_0;
        let b = rec.body->Some_0;
        let m = rec.mover->Some_0;
        let disp = spec_displacement(m, dt);
        let ef2 = spec_decayed_forces(m, dt);
        let m1 = KaMoveable {
            on_wall: Option::None,
            on_floor: Option::None,
            on_ceilling: Option::None,
            external_forces: ef2,
            ..m
        };
        let h1 = spec_best(
            w, i, b.pos, b.half_e, disp,
            BestHit { s: swept_no_hit(), who: Option::None },
        );
        let p1 = spec_apply(b.pos, disp, h1.s);
        let m2 = spec_classify(m1, h1.s.nx, h1.s.ny, h1.who);
        if h1.s.num < h1.s.den && m.slide {
            let sv = spec_slide_velocity(disp, h1.s);
            let h2 = spec_best(
                w, i, p1, b.half_e, sv,
                BestHit { s: SweptRes { num: 1, den: 1, ..h1.s }, who: h1.who },
            );
            let p2 = spec_apply(p1, sv, h2.s);
            let m3 = spec_classify(m2, h2.s.nx, h2.s.ny, h2.who);
            w.update(
                i,
                Option::Some(
                    EntityM {
                        body: Option::Some(BodyM { pos: p2, ..b }),
                        mover: Option::Some(m3),
                        ..rec
                    },
                ),
            )
        } else {
            w.update(
                i,
                Option::Some(
                    EntityM {
                        body: Option::Some(BodyM { pos: p1, ..b }),
                        mover: Option::Some(m2),
                        ..rec
                    },
                ),
            )
        }
    } else {
        w
    }
}

/// The movement pass over the first `n` slots, each entity resolved in
/// slot order against the then-current world.
pub open spec fn spec_move_upto(w: Seq<Option<EntityM>>, dt: int, n: nat) -> Seq<Option<EntityM>>
    decreases n,
{
    if n == 0 {
        w
    } else {
        spec_move_one(spec_move_upto(w, dt, (n - 1) as nat), dt, n - 1)
    }
}

/// The whole movement pass.
pub open spec fn spec_move_all(w: Seq<Option<EntityM>>, dt: int) -> Seq<Option<EntityM>> {
    spec_move_upto(w, dt, w.len())
}

/// The movement pass never changes the number of slots.
pub proof fn lemma_move_upto_len(w: Seq<Option<EntityM>>, dt: int, n: nat)
    ensures
        spec_move_upto(w, dt, n).len() == w.len(),
    decreases n,
{
    if n > 0 {
        lemma_move_upto_len(w, dt, (n - 1) as nat);
    }
}

/// Snap a velocity to zero when its squared length falls below the
/// threshold.
fn snap64(v: Vec2i) -> (r: Vec2i)
    requires
        v.bounded(2 * VEL_BOUND as int),
    ensures
        r == spec_snap(v),
{
    let sx: i128 = mul64(v.x, v.x);
    let sy: i128 = mul64(v.y, v.y);
    proof {
        assert(0 <= v.x * v.x <= 4 * VEL_BOUND * VEL_BOUND && 0 <= v.y * v.y <= 4 * VEL_BOUND
            * VEL_BOUND) by (nonlinear_arith)
            requires
                -2 * VEL_BOUND <= v.x <= 2 * VEL_BOUND,
                -2 * VEL_BOUND <= v.y <= 2 * VEL_BOUND,
        ;
    }
    if sx + sy < (SNAP_SQ as i128) {
        Vec2i { x: 0, y: 0 }
    } else {
        Vec2i { x: v.x, y: v.y }
    }
}

/// The tangential remainder of a blocked displacement, on machine
/// words.
fn slide_velocity64(v: Vec2i, s: Sweep) -> (r: Vec2i)
    requires
        s.den >= 1,
        0 <= s.num <= s.den,
        -1 <= s.nx <= 1,
        -1 <= s.ny <= 1,
        s.nx * s.ny == 0,
        v.bounded(DISP_BOUND as int),
    ensures
        r == spec_slide_velocity(v, s@),
        r.bounded(DISP_BOUND as int),
{
    let t1: i128 = mul64(v.x, s.ny);
    let t2: i128 = mul64(v.y, s.nx);
    proof {
        assert(-DISP_BOUND <= v.x * s.ny + v.y * s.nx <= DISP_BOUND) by (nonlinear_arith)
            requires
                -1 <= s.nx <= 1,
                -1 <= s.ny <= 1,
                s.nx * s.ny == 0,
                -DISP_BOUND <= v.x <= DISP_BOUND,
                -DISP_BOUND <= v.y <= DISP_BOUND,
        ;
    }
    let dot: i64 = (t1 + t2) as i64;
    let p: i128 = mul64(dot, s.den - s.num);
    proof {
        crate::geom::lemma_muldiv_bound(dot as int, s.den - s.num, s.den as int);
        assert(crate::geom::abs(dot as int * (s.den - s.num)) <= DISP_BOUND
            * 0x7fff_ffff_ffff_ffff) by (nonlinear_arith)
            requires
                -DISP_BOUND <= dot <= DISP_BOUND,
                0 <= s.den - s.num <= 0x7fff_ffff_ffff_ffff,
        ;
    }
    let q128: i128 = crate::geom::div_trunc_i128(p, s.den as i128);
    let q: i64 = q128 as i64;
    let rx128: i128 = mul64(q, s.ny);
    let ry128: i128 = mul64(q, s.nx);
    proof {
        assert(-DISP_BOUND <= q * s.ny <= DISP_BOUND && -DISP_BOUND <= q * s.nx <= DISP_BOUND)
            by (nonlinear_arith)
            requires
                -1 <= s.nx <= 1,
                -1 <= s.ny <= 1,
                -DISP_BOUND <= q <= DISP_BOUND,
        ;
    }
    Vec2i { x: rx128 as i64, y: ry128 as i64 }
}

/// Contact classification, on machine words.
fn classify64(m: KaMoveable, nx: i64, ny: i64, who: Option<u32>) -> (r: KaMoveable)
    ensures
        r == spec_classify(m, nx as int, ny as int, who),
{
    if nx != 0 {
        KaMoveable { on_wall: who, ..m }
    } else if ny < 0 {
        KaMoveable { on_floor: who, ..m }
    } else {
        KaMoveable { on_ceilling: who, ..m }
    }
}

/// Movement resolution: for every entity holding both a body and a
/// mover, in slot order, reset contacts, decay external forces, sweep
/// the step displacement against every eligible solid body, move by the
/// winning fraction plus the skin bias, classify the contact, and, when
/// blocked with sliding enabled, run exactly one further tangential
/// pass. Later entities see the already-resolved positions of earlier
/// ones. `delta_ms` is the elapsed frame time in milliseconds.
pub fn ka_aabb_move(world: &mut World, delta_ms: u32)
    requires
        old(world).wf(),
        delta_ms <= crate::geom::DT_MAX_MS,
    ensures
        final(world).wf(),
        final(world)@ == spec_move_all(old(world)@, delta_ms as int),
{
    let ghost dt = delta_ms as int;
    let n: usize = world.slots.len();
    let mut i: usize = 0;
    while i < n
        invariant
            world.wf(),
            delta_ms <= crate::geom::DT_MAX_MS,
            n == world@.len(),
            n == world.slots@.len(),
            n == old(world)@.len(),
            i <= n,
            world@ == spec_move_upto(old(world)@, dt, i as nat),
            dt == delta_ms as int,
        decreases n - i,
    {
        let ghost wi = world@;
        proof {
            assert(world@[i as int] == match world.slots@[i as int] {
                Option::None => Option::None::<EntityM>,
                Option::Some(r) => Option::Some(r@),
            });
            assert(slot_wf(world@[i as int]));
        }
        let mut present: bool = false;
        let mut pos1: Vec2i = Vec2i { x: 0, y: 0 };
        let mut he1: Vec2i = Vec2i { x: 0, y: 0 };
        let mut m: KaMoveable = KaMoveable::default();
        match &world.slots[i] {
            Option::None => (),
            Option::Some(rec) => {
                match &rec.body {
                    Option::None => (),
                    Option::Some(b) => {
                        match &rec.mover {
                            Option::None => (),
                            Option::Some(mv) => {
                                present = true;
                                pos1 = b.pos;
                                he1 = b.half_e;
                                m = *mv;
                            },
                        }
                    },
                }
            },
        }
        if present {
            let ghost recm = wi[i as int]->Some_0;
            let ghost bm = recm.body->Some_0;
            proof {
                assert(m == recm.mover->Some_0);
                assert(pos1 == bm.pos && he1 == bm.half_e);
                assert(m.wf());
                assert(bm.wf());
            }
            let efx: i64 = crate::geom::decay64(m.external_forces.x, m.external_friction, delta_ms);
            let efy: i64 = crate::geom::decay64(m.external_forces.y, m.external_friction, delta_ms);
            let ef2: Vec2i = snap64(Vec2i { x: efx, y: efy });
            let raw: Vec2i = snap64(
                Vec2i {
                    x: m.velocity.x + m.external_forces.x,
                    y: m.velocity.y + m.external_forces.y,
                },
            );
            let disp: Vec2i = Vec2i {
                x: crate::geom::scale_dt64(raw.x, delta_ms),
                y: crate::geom::scale_dt64(raw.y, delta_ms),
            };
            proof {
                assert(ef2 == spec_decayed_forces(m, dt));
                assert(disp == spec_displacement(m, dt));
            }
            let init1: Sweep = Sweep { nx: 0, ny: 0, num: 1, den: 1 };
            let (s1, who1) = world.broad_phase(i, pos1, he1, disp, init1, Option::None);
            let ghost h1 = spec_best(
                wi, i as int, pos1, he1, disp, BestHit { s: swept_no_hit(), who: Option::None },
            );
            proof {
                assert(init1@ == swept_no_hit());
                assert(s1@ == h1.s && who1 == h1.who);
                lemma_best_wf(
                    wi, i as int, pos1, he1, disp,
                    BestHit { s: swept_no_hit(), who: Option::None }, wi.len(),
                );
            }
            let npos1: Vec2i = Vec2i {
                x: crate::geom::apply_coord(pos1.x, disp.x, s1.num, s1.den, s1.nx),
                y: crate::geom::apply_coord(pos1.y, disp.y, s1.num, s1.den, s1.ny),
            };
            let m1: KaMoveable = KaMoveable {
                on_wall: Option::None,
                on_floor: Option::None,
                on_ceilling: Option::None,
                external_forces: ef2,
                ..m
            };
            let m2: KaMoveable = classify64(m1, s1.nx, s1.ny, who1);
            proof {
                assert(npos1 == spec_apply(pos1, disp, h1.s));
            }
            let newpos: Vec2i;
            let newm: KaMoveable;
            if s1.num < s1.den && m.slide {
                let sv: Vec2i = slide_velocity64(disp, s1);
                let init2: Sweep = Sweep { nx: s1.nx, ny: s1.ny, num: 1, den: 1 };
                let (s2, who2) = world.broad_phase(i, npos1, he1, sv, init2, who1);
                let ghost h2 = spec_best(
                    wi, i as int, npos1, he1, sv,
                    BestHit { s: SweptRes { num: 1, den: 1, ..h1.s }, who: h1.who },
                );
                proof {
                    assert(init2@ == SweptRes { num: 1, den: 1, ..h1.s });
                    assert(s2@ == h2.s && who2 == h2.who);
                    lemma_best_wf(
                        wi, i as int, npos1, he1, sv,
                        BestHit { s: SweptRes { num: 1, den: 1, ..h1.s }, who: h1.who },
                        wi.len(),
                    );
                }
                let npos2: Vec2i = Vec2i {
                    x: crate::geom::apply_coord(npos1.x, sv.x, s2.num, s2.den, s2.nx),
                    y: crate::geom::apply_coord(npos1.y, sv.y, s2.num, s2.den, s2.ny),
                };
                let m3: KaMoveable = classify64(m2, s2.nx, s2.ny, who2);
                proof {
                    assert(sv == spec_slide_velocity(disp, h1.s));
                    assert(npos2 == spec_apply(npos1, sv, h2.s));
                }
                newpos = npos2;
                newm = m3;
            } else {
                newpos = npos1;
                newm = m2;
            }
            let mut slot: Option<EntityRec> = Option::None;
            core::mem::swap(&mut slot, &mut world.slots[i]);
            match slot {
                Option::None => {
                    proof {
                        assert(false);
                    }
                },
                Option::Some(rec) => {
                    let EntityRec { body, mover: _, sensor, tags } = rec;
                    match body {
                        Option::None => {
                            proof {
                                assert(false);
                            }
                        },
                        Option::Some(b) => {
                            let nb = KaAABB {
                                pos: newpos,
                                half_e: b.half_e,
                                collision_layer: b.collision_layer,
                                collision_mask: b.collision_mask,
                                solid: b.solid,
                                one_way: b.one_way,
                                collision_exceptions: b.collision_exceptions,
                            };
                            world.slots[i] = Option::Some(
                                EntityRec {
                                    body: Option::Some(nb),
                                    mover: Option::Some(newm),
                                    sensor,
                                    tags,
                                },
                            );
                        },
                    }
                },
            }
            proof {
                assert(world@ =~= wi.update(
                    i as int,
                    Option::Some(
                        EntityM {
                            body: Option::Some(BodyM { pos: newpos, ..bm }),
                            mover: Option::Some(newm),
                            ..recm
                        },
                    ),
                ));
                assert(world@ == spec_move_one(wi, dt, i as int));
                assert(forall|k: int| 0 <= k < n ==> slot_wf(#[trigger] world@[k]));
            }
        } else {
            proof {
                assert(world@ == spec_move_one(wi, dt, i as int));
            }
        }
        i = i + 1;
    }
    proof {
        lemma_move_upto_len(old(world)@, dt, n as nat);
        assert(world@ == spec_move_all(old(world)@, dt));
    }
}

/// Entity `j` overlaps the sensing entity `i` under the effective
/// mask: a different live body whose layer intersects the mask, with no
/// pairwise exception in either direction, whose box overlaps the
/// sensing body's box (touching counts).
pub open spec fn spec_sense_eligible(w: Seq<Option<EntityM>>, i: int, j: int, mask: i32) -> bool {
    &&& 0 <= i < w.len()
    &&& 0 <= j < w.len()
    &&& j != i
    &&& w[i] is Some
    &&& w[i]->Some_0.body is Some
    &&& w[j] is Some
    &&& w[j]->Some_0.body is Some
    &&& ({
        let b1 = w[i]->Some_0.body->Some_0;
        let b2 = w[j]->Some_0.body->Some_0;
        &&& b2.collision_layer & mask != 0
        &&& !b1.collision_exceptions.contains(j as u32)
        &&& !b2.collision_exceptions.contains(i as u32)
        &&& crate::geom::spec_overlaps(b1.pos, b1.half_e, b2.pos, b2.half_e)
    })
}

/// The overlap list of a sensing entity over the first `n` slots, in
/// slot order.
pub open spec fn spec_overlap_list_upto(
    w: Seq<Option<EntityM>>, i: int, mask: i32, n: nat,
) -> Seq<u32>
    decreases n,
{
    if n == 0 {
        Seq::<u32>::empty()
    } else {
        let prev = spec_overlap_list_upto(w, i, mask, (n - 1) as nat);
        if spec_sense_eligible(w, i, (n - 1) as int, mask) {
            prev.push((n - 1) as u32)
        } else {
            prev
        }
    }
}

/// A sensor's effective mask: its own, or the owning body's collision
/// mask when the sensor's is zero.
pub open spec fn spec_effective_mask(s: SensorM, b: BodyM) -> i32 {
    if s.mask != 0 {
        s.mask
    } else {
        b.collision_mask
    }
}

/// One entity's sensing pass on the world model: an inactive sensor is
/// cleared; an active one gets the overlap list recomputed from
/// scratch.
pub open spec fn spec_sense_one(w: Seq<Option<EntityM>>, i: int) -> Seq<Option<EntityM>> {
    if 0 <= i < w.len() && w[i] is Some && w[i]->Some_0.body is Some
        && w[i]->Some_0.sensor is Some {
        let rec = w[i]->Some_0;
        let b = rec.body->Some_0;
        let s = rec.sensor->Some_0;
        let newover = if !s.active {
            Seq::<u32>::empty()
        } else {
            spec_overlap_list_upto(w, i, spec_effective_mask(s, b), w.len())
        };
        w.update(
            i,
            Option::Some(
                EntityM {
                    sensor: Option::Some(SensorM { overlapping: newover, ..s }),
                    ..rec
                },
            ),
        )
    } else {
        w
    }
}

/// The sensing pass over the first `n` slots.
pub open spec fn spec_sense_upto(w: Seq<Option<EntityM>>, n: nat) -> Seq<Option<EntityM>>
    decreases n,
{
    if n == 0 {
        w
    } else {
        spec_sense_one(spec_sense_upto(w, (n - 1) as nat), n - 1)
    }
}

/// The whole sensing pass.
pub open spec fn spec_sense_all(w: Seq<Option<EntityM>>) -> Seq<Option<EntityM>> {
    spec_sense_upto(w, w.len())
}

/// The sensing pass never changes the number of slots.
pub proof fn lemma_sense_upto_len(w: Seq<Option<EntityM>>, n: nat)
    ensures
        spec_sense_upto(w, n).len() == w.len(),
    decreases n,
{
    if n > 0 {
        lemma_sense_upto_len(w, (n - 1) as nat);
    }
}

impl World {
    /// Scan every other body for overlaps with the sensing entity `i`
    /// under the given mask.
    fn sense_scan(&self, i: usize, mask: i32) -> (r: Vec<u32>)
        requires
            self.wf(),
            i < self@.len(),
            self@[i as int] is Some,
            self@[i as int]->Some_0.body is Some,
        ensures
            r@ == spec_overlap_list_upto(self@, i as int, mask, self@.len()),
    {
        let n: usize = self.slots.len();
        let mut out: Vec<u32> = Vec::new();
        let mut j: usize = 0;
        while j < n
            invariant
                self.wf(),
                n == self@.len(),
                n == self.slots@.len(),
                i < n,
                self@[i as int] is Some,
                self@[i as int]->Some_0.body is Some,
                j <= n,
                out@ == spec_overlap_list_upto(self@, i as int, mask, j as nat),
            decreases n - j,
        {
            proof {
                assert(self@[j as int] == match self.slots@[j as int] {
                    Option::None => Option::None::<EntityM>,
                    Option::Some(r) => Option::Some(r@),
                });
                assert(self@[i as int] == match self.slots@[i as int] {
                    Option::None => Option::None::<EntityM>,
                    Option::Some(r) => Option::Some(r@),
                });
                assert(slot_wf(self@[j as int]));
                assert(slot_wf(self@[i as int]));
            }
            if j != i {
                match &self.slots[j] {
                    Option::None => (),
                    Option::Some(rec2) => {
                        match &rec2.body {
                            Option::None => (),
                            Option::Some(b2) => {
                                match &self.slots[i] {
                                    Option::None => (),
                                    Option::Some(rec1) => {
                                        match &rec1.body {
                                            Option::None => (),
                                            Option::Some(b1) => {
                                                let hit: bool = (b2.collision_layer & mask != 0)
                                                    && !b1.have_exception(j as u32)
                                                    && !b2.have_exception(i as u32)
                                                    && crate::geom::overlaps(
                                                    &b1.pos, &b1.half_e, &b2.pos, &b2.half_e,
                                                );
                                                proof {
                                                    assert(hit == spec_sense_eligible(
                                                        self@, i as int, j as int, mask,
                                                    ));
                                                }
                                                if hit {
                                                    out.push(j as u32);
                                                }
                                            },
                                        }
                                    },
                                }
                            },
                        }
                    },
                }
            }
            j = j + 1;
        }
        out
    }
}

/// Sensing: for every entity holding a body and a sensor, clear the
/// overlap list, and for an active sensor recompute it from scratch
/// under the effective mask. Sensors never affect bodies, so every
/// sensor reads the same positions.
pub fn ka_aabb_sense(world: &mut World)
    requires
        old(world).wf(),
    ensures
        final(world).wf(),
        final(world)@ == spec_sense_all(old(world)@),
{
    let n: usize = world.slots.len();
    let mut i: usize = 0;
    while i < n
        invariant
            world.wf(),
            n == world@.len(),
            n == world.slots@.len(),
            n == old(world)@.len(),
            i <= n,
            world@ == spec_sense_upto(old(world)@, i as nat),
        decreases n - i,
    {
        let ghost wi = world@;
        proof {
            assert(world@[i as int] == match world.slots@[i as int] {
                Option::None => Option::None::<EntityM>,
                Option::Some(r) => Option::Some(r@),
            });
        }
        let mut present: bool = false;
        let mut active: bool = false;
        let mut mask: i32 = 0;
        match &world.slots[i] {
            Option::None => (),
            Option::Some(rec) => {
                match &rec.body {
                    Option::None => (),
                    Option::Some(b) => {
                        match &rec.sensor {
                            Option::None => (),
                            Option::Some(sn) => {
                                present = true;
                                active = sn.active;
                                mask = if sn.mask != 0 {
                                    sn.mask
                                } else {
                                    b.collision_mask
                                };
                            },
                        }
                    },
                }
            },
        }
        if present {
            let ghost recm = wi[i as int]->Some_0;
            let ghost sm = recm.sensor->Some_0;
            proof {
                assert(mask == spec_effective_mask(sm, recm.body->Some_0));
            }
            let newover: Vec<u32> = if active {
                world.sense_scan(i, mask)
            } else {
                Vec::new()
            };
            let mut slot: Option<EntityRec> = Option::None;
            core::mem::swap(&mut slot, &mut world.slots[i]);
            match slot {
                Option::None => {
                    proof {
                        assert(false);
                    }
                },
                Option::Some(rec) => {
                    let EntityRec { body, mover, sensor, tags } = rec;
                    match sensor {
                        Option::None => {
                            proof {
                                assert(false);
                            }
                        },
                        Option::Some(sn) => {
                            let ns = KaSensor {
                                mask: sn.mask,
                                active: sn.active,
                                overlapping: newover,
                            };
                            world.slots[i] = Option::Some(
                                EntityRec { body, mover, sensor: Option::Some(ns), tags },
                            );
                        },
                    }
                },
            }
            proof {
                assert(world@ =~= wi.update(
                    i as int,
                    Option::Some(
                        EntityM {
                            sensor: Option::Some(SensorM { overlapping: newover@, ..sm }),
                            ..recm
                        },
                    ),
                ));
                assert(world@ == spec_sense_one(wi, i as int));
                assert(forall|k: int| 0 <= k < n ==> slot_wf(#[trigger] world@[k]));
            }
        } else {
            proof {
                assert(world@ == spec_sense_one(wi, i as int));
            }
        }
        i = i + 1;
    }
    proof {
        lemma_sense_upto_len(old(world)@, n as nat);
        assert(world@ == spec_sense_all(old(world)@));
    }
}

/// One frame of the collision core: the movement pass, then the
/// sensing pass.
pub fn ka_aabb_update(world: &mut World, delta_ms: u32)
    requires
        old(world).wf(),
        delta_ms <= crate::geom::DT_MAX_MS,
    ensures
        final(world).wf(),
        final(world)@ == spec_sense_all(spec_move_all(old(world)@, delta_ms as int)),
{
    ka_aabb_move(world, delta_ms);
    ka_aabb_sense(world);
}

/// Entity `j`'s body overlaps the probe box under the mask; the probe
/// query has no identity and honors no exceptions.
pub open spec fn spec_probe_hit(
    w: Seq<Option<EntityM>>, j: int, pos: Vec2i, half_e: Vec2i, mask: i32, tag: Option<u32>,
) -> bool {
    &&& 0 <= j < w.len()
    &&& w[j] is Some
    &&& w[j]->Some_0.body is Some
    &&& (tag matches Option::Some(t) ==> w[j]->Some_0.tags.contains(t))
    &&& ({
        let b2 = w[j]->Some_0.body->Some_0;
        &&& b2.collision_layer & mask != 0
        &&& crate::geom::spec_overlaps(pos, half_e, b2.pos, b2.half_e)
    })
}

/// The entities hit by a probe over the first `n` slots, in slot
/// order.
pub open spec fn spec_probe_list_upto(
    w: Seq<Option<EntityM>>, pos: Vec2i, half_e: Vec2i, mask: i32, tag: Option<u32>, n: nat,
) -> Seq<u32>
    decreases n,
{
    if n == 0 {
        Seq::<u32>::empty()
    } else {
        let prev = spec_probe_list_upto(w, pos, half_e, mask, tag, (n - 1) as nat);
        if spec_probe_hit(w, (n - 1) as int, pos, half_e, mask, tag) {
            prev.push((n - 1) as u32)
        } else {
            prev
        }
    }
}

impl World {
    fn probe_scan(&self, pos: Vec2i, half_e: Vec2i, mask: i32, tag: Option<u32>) -> (r: Vec<u32>)
        requires
            self.wf(),
            pos.bounded(POS_BOUND as int),
            0 <= half_e.x <= EXT_BOUND && 0 <= half_e.y <= EXT_BOUND,
        ensures
            r@ == spec_probe_list_upto(self@, pos, half_e, mask, tag, self@.len()),
    {
        let n: usize = self.slots.len();
        let mut out: Vec<u32> = Vec::new();
        let mut j: usize = 0;
        while j < n
            invariant
                self.wf(),
                n == self@.len(),
                n == self.slots@.len(),
                pos.bounded(POS_BOUND as int),
                0 <= half_e.x <= EXT_BOUND && 0 <= half_e.y <= EXT_BOUND,
                j <= n,
                out@ == spec_probe_list_upto(self@, pos, half_e, mask, tag, j as nat),
            decreases n - j,
        {
            proof {
                assert(self@[j as int] == match self.slots@[j as int] {
                    Option::None => Option::None::<EntityM>,
                    Option::Some(r) => Option::Some(r@),
                });
                assert(slot_wf(self@[j as int]));
            }
            match &self.slots[j] {
                Option::None => (),
                Option::Some(rec2) => {
                    match &rec2.body {
                        Option::None => (),
                        Option::Some(b2) => {
                            let tag_ok: bool = match tag {
                                Option::None => true,
                                Option::Some(t) => contains_u32(&rec2.tags, t),
                            };
                            let hit: bool = tag_ok && (b2.collision_layer & mask != 0)
                                && crate::geom::overlaps(&pos, &half_e, &b2.pos, &b2.half_e);
                            proof {
                                assert(hit == spec_probe_hit(
                                    self@, j as int, pos, half_e, mask, tag,
                                ));
                            }
                            if hit {
                                out.push(j as u32);
                            }
                        },
                    }
                },
            }
            j = j + 1;
        }
        out
    }
}

/// Whether a vector of identifiers contains the given one.
fn contains_u32(v: &Vec<u32>, x: u32) -> (r: bool)
    ensures
        r == v@.contains(x),
{
    let n: usize = v.len();
    let mut i: usize = 0;
    while i < n
        invariant
            n == v@.len(),
            i <= n,
            forall|k: int| 0 <= k < i ==> v@[k] != x,
        decreases n - i,
    {
        if v[i] == x {
            return true;
        }
        i = i + 1;
    }
    false
}

/// Every entity whose body overlaps the probe box under the mask,
/// without needing a body or sensor of one's own.
pub fn get_overlapping(world: &World, pos: &Vec2i, half_e: &Vec2i, mask: i32) -> (r: Vec<u32>)
    requires
        world.wf(),
        pos.bounded(POS_BOUND as int),
        0 <= half_e.x <= EXT_BOUND && 0 <= half_e.y <= EXT_BOUND,
    ensures
        r@ == spec_probe_list_upto(
            world@, *pos, *half_e, mask, Option::None, world@.len(),
        ),
{
    world.probe_scan(
        Vec2i { x: pos.x, y: pos.y }, Vec2i { x: half_e.x, y: half_e.y }, mask, Option::None,
    )
}

/// Like `get_overlapping`, restricted to entities carrying the given
/// capability tag.
pub fn get_overlapping_with(
    world: &World, pos: &Vec2i, half_e: &Vec2i, mask: i32, tag: u32,
) -> (r: Vec<u32>)
    requires
        world.wf(),
        pos.bounded(POS_BOUND as int),
        0 <= half_e.x <= EXT_BOUND && 0 <= half_e.y <= EXT_BOUND,
    ensures
        r@ == spec_probe_list_upto(
            world@, *pos, *half_e, mask, Option::Some(tag), world@.len(),
        ),
{
    world.probe_scan(
        Vec2i { x: pos.x, y: pos.y }, Vec2i { x: half_e.x, y: half_e.y }, mask,
        Option::Some(tag),
    )
}

/// A broad-phase scan never selects an obstacle that is not eligible.
pub proof fn lemma_best_skips(
    w: Seq<Option<EntityM>>, i: int, p1: Vec2i, e1: Vec2i, vel: Vec2i, init: BestHit, n: nat,
    j: int,
)
    requires
        w.len() <= 0xffff_ffff,
        0 <= j < w.len(),
        !spec_eligible(w, i, j, p1, e1),
        init.who != Option::Some(j as u32),
    ensures
        spec_best_upto(w, i, p1, e1, vel, init, n).who != Option::Some(j as u32),
    decreases n,
{
    if n > 0 {
        lemma_best_skips(w, i, p1, e1, vel, init, (n - 1) as nat, j);
    }
}

/// A sensing scan never reports an entity that is not eligible.
pub proof fn lemma_sense_skips(w: Seq<Option<EntityM>>, i: int, mask: i32, n: nat, j: int)
    requires
        w.len() <= 0xffff_ffff,
        0 <= j < w.len(),
        n <= w.len(),
        !spec_sense_eligible(w, i, j, mask),
    ensures
        !spec_overlap_list_upto(w, i, mask, n).contains(j as u32),
    decreases n,
{
    if n > 0 {
        lemma_sense_skips(w, i, mask, (n - 1) as nat, j);
        let prev = spec_overlap_list_upto(w, i, mask, (n - 1) as nat);
        if spec_sense_eligible(w, i, (n - 1) as int, mask) {
            assert(n - 1 != j);
            assert(forall|e: u32| prev.push((n - 1) as u32).contains(e) ==> prev.contains(e)
                || e == (n - 1) as u32) by {
                assert(forall|k: int| 0 <= k < prev.push((n - 1) as u32).len()
                    ==> prev.push((n - 1) as u32)[k] == if k < prev.len() {
                        prev[k]
                    } else {
                        (n - 1) as u32
                    });
            }
        }
    }
}

/// Mask independence for movement: an obstacle whose layer does not
/// intersect the mover's mask is never the winning contact, whatever
/// the geometry.
pub proof fn lemma_mask_no_collide(
    w: Seq<Option<EntityM>>, i: int, p1: Vec2i, e1: Vec2i, vel: Vec2i, init: BestHit, n: nat,
    j: int,
)
    requires
        w.len() <= 0xffff_ffff,
        0 <= i < w.len(),
        0 <= j < w.len(),
        w[i] is Some && w[i]->Some_0.body is Some,
        w[j] is Some && w[j]->Some_0.body is Some,
        w[j]->Some_0.body->Some_0.collision_layer & w[i]->Some_0.body->Some_0.collision_mask
            == 0,
        init.who != Option::Some(j as u32),
    ensures
        spec_best_upto(w, i, p1, e1, vel, init, n).who != Option::Some(j as u32),
{
    lemma_best_skips(w, i, p1, e1, vel, init, n, j);
}

/// Mask independence for sensing: an entity whose layer does not
/// intersect the effective mask is never reported, whatever the
/// geometry.
pub proof fn lemma_mask_no_sense(w: Seq<Option<EntityM>>, i: int, mask: i32, n: nat, j: int)
    requires
        w.len() <= 0xffff_ffff,
        0 <= j < w.len(),
        n <= w.len(),
        w[j] is Some && w[j]->Some_0.body is Some ==> w[j]->Some_0.body->Some_0.collision_layer
            & mask == 0,
    ensures
        !spec_overlap_list_upto(w, i, mask, n).contains(j as u32),
{
    lemma_sense_skips(w, i, mask, n, j);
}

/// A pairwise exception registered on either side suppresses solid
/// collision between the pair, in both roles.
pub proof fn lemma_exception_no_collide(
    w: Seq<Option<EntityM>>, i: int, p1: Vec2i, e1: Vec2i, vel: Vec2i, init: BestHit, n: nat,
    j: int,
)
    requires
        w.len() <= 0xffff_ffff,
        0 <= i < w.len(),
        0 <= j < w.len(),
        w[i] is Some && w[i]->Some_0.body is Some,
        w[j] is Some && w[j]->Some_0.body is Some,
        w[i]->Some_0.body->Some_0.collision_exceptions.contains(j as u32)
            || w[j]->Some_0.body->Some_0.collision_exceptions.contains(i as u32),
        init.who != Option::Some(j as u32),
        i < 0x1_0000_0000 && j < 0x1_0000_0000,
    ensures
        spec_best_upto(w, i, p1, e1, vel, init, n).who != Option::Some(j as u32),
{
    lemma_best_skips(w, i, p1, e1, vel, init, n, j);
}

/// A pairwise exception registered on either side suppresses sensing
/// between the pair.
pub proof fn lemma_exception_no_sense(w: Seq<Option<EntityM>>, i: int, mask: i32, n: nat, j: int)
    requires
        w.len() <= 0xffff_ffff,
        0 <= i < w.len(),
        0 <= j < w.len(),
        n <= w.len(),
        (w[i] is Some && w[i]->Some_0.body is Some && w[j] is Some
            && w[j]->Some_0.body is Some) ==> (
            w[i]->Some_0.body->Some_0.collision_exceptions.contains(j as u32)
            || w[j]->Some_0.body->Some_0.collision_exceptions.contains(i as u32)),
    ensures
        !spec_overlap_list_upto(w, i, mask, n).contains(j as u32),
{
    lemma_sense_skips(w, i, mask, n, j);
}

/// One-way filtering: a mover whose bottom edge already lies below a
/// one-way obstacle's top edge is never blocked by that obstacle, on
/// any axis and in either sweep pass.
pub proof fn lemma_one_way_no_collide(
    w: Seq<Option<EntityM>>, i: int, p1: Vec2i, e1: Vec2i, vel: Vec2i, init: BestHit, n: nat,
    j: int,
)
    requires
        w.len() <= 0xffff_ffff,
        0 <= j < w.len(),
        w[j] is Some && w[j]->Some_0.body is Some,
        w[j]->Some_0.body->Some_0.one_way,
        p1.y + e1.y > w[j]->Some_0.body->Some_0.pos.y - w[j]->Some_0.body->Some_0.half_e.y,
        init.who != Option::Some(j as u32),
    ensures
        spec_best_upto(w, i, p1, e1, vel, init, n).who != Option::Some(j as u32),
{
    lemma_best_skips(w, i, p1, e1, vel, init, n, j);
}

/// Mask/layer independence and exception suppression, at the level of
/// one resolved frame: a pair whose masks do not react in either
/// direction, or with a pairwise exception on either side, leaves no
/// contact of the mover on that obstacle, whatever the geometry.
pub proof fn lemma_filtered_pair_never_contacted(
    w: Seq<Option<EntityM>>, dt: int, i: int, j: int,
)
    requires
        world_wf(w),
        0 <= i < w.len(),
        0 <= j < w.len(),
        w[i] is Some && w[i]->Some_0.body is Some && w[i]->Some_0.mover is Some,
        w[j] is Some && w[j]->Some_0.body is Some,
        (w[j]->Some_0.body->Some_0.collision_layer & w[i]->Some_0.body->Some_0.collision_mask
            == 0) || w[i]->Some_0.body->Some_0.collision_exceptions.contains(j as u32)
            || w[j]->Some_0.body->Some_0.collision_exceptions.contains(i as u32),
    ensures
        ({
            let m = spec_move_one(w, dt, i)[i]->Some_0.mover->Some_0;
            &&& m.on_wall != Option::Some(j as u32)
            &&& m.on_floor != Option::Some(j as u32)
            &&& m.on_ceilling != Option::Some(j as u32)
        }),
{
    let rec = w[i]->Some_0;
    let b = rec.body->Some_0;
    let m = rec.mover->Some_0;
    let disp = spec_displacement(m, dt);
    let init1 = BestHit { s: swept_no_hit(), who: Option::None };
    let h1 = spec_best(w, i, b.pos, b.half_e, disp, init1);
    lemma_best_skips(w, i, b.pos, b.half_e, disp, init1, w.len(), j);
    let p1 = spec_apply(b.pos, disp, h1.s);
    if h1.s.num < h1.s.den && m.slide {
        let sv = spec_slide_velocity(disp, h1.s);
        let init2 = BestHit { s: SweptRes { num: 1, den: 1, ..h1.s }, who: h1.who };
        lemma_best_skips(w, i, p1, b.half_e, sv, init2, w.len(), j);
    }
}

/// The sensing counterpart: an excepted pair is never reported,
/// whatever masks and geometry say.
pub proof fn lemma_excepted_pair_never_sensed(w: Seq<Option<EntityM>>, i: int, j: int)
    requires
        world_wf(w),
        0 <= i < w.len(),
        0 <= j < w.len(),
        w[i] is Some && w[i]->Some_0.body is Some && w[i]->Some_0.sensor is Some,
        w[j] is Some && w[j]->Some_0.body is Some,
        w[i]->Some_0.body->Some_0.collision_exceptions.contains(j as u32)
            || w[j]->Some_0.body->Some_0.collision_exceptions.contains(i as u32),
    ensures
        !spec_sense_one(w, i)[i]->Some_0.sensor->Some_0.overlapping.contains(j as u32),
{
    let rec = w[i]->Some_0;
    let b = rec.body->Some_0;
    let sn = rec.sensor->Some_0;
    if sn.active {
        lemma_sense_skips(w, i, spec_effective_mask(sn, b), w.len(), j);
    }
}

impl KaAABB {
    /// Probe query without an identity of one's own; see
    /// `get_overlapping`.
    pub fn get_overlapping(world: &World, pos: &Vec2i, half_e: &Vec2i, mask: i32) -> (r: Vec<u32>)
        requires
            world.wf(),
            pos.bounded(POS_BOUND as int),
            0 <= half_e.x <= EXT_BOUND && 0 <= half_e.y <= EXT_BOUND,
        ensures
            r@ == spec_probe_list_upto(
                world@, *pos, *half_e, mask, Option::None, world@.len(),
            ),
    {
        get_overlapping(world, pos, half_e, mask)
    }

    /// Probe query restricted to a capability tag; see
    /// `get_overlapping_with`.
    pub fn get_overlapping_with(
        world: &World, pos: &Vec2i, half_e: &Vec2i, mask: i32, tag: u32,
    ) -> (r: Vec<u32>)
        requires
            world.wf(),
            pos.bounded(POS_BOUND as int),
            0 <= half_e.x <= EXT_BOUND && 0 <= half_e.y <= EXT_BOUND,
        ensures
            r@ == spec_probe_list_upto(
                world@, *pos, *half_e, mask, Option::Some(tag), world@.len(),
            ),
    {
        get_overlapping_with(world, pos, half_e, mask, tag)
    }
}

/// Along a broad-phase scan the accumulated time of impact never
/// increases.
pub proof fn lemma_best_nonincreasing(
    w: Seq<Option<EntityM>>, i: int, p1: Vec2i, e1: Vec2i, vel: Vec2i, init: BestHit,
    m: nat, n: nat,
)
    requires
        init.wf(),
        m <= n,
    ensures
        ({
            let a = spec_best_upto(w, i, p1, e1, vel, init, n);
            let b = spec_best_upto(w, i, p1, e1, vel, init, m);
            a.s.num * b.s.den <= b.s.num * a.s.den
        }),
    decreases n,
{
    lemma_best_wf(w, i, p1, e1, vel, init, m);
    lemma_best_wf(w, i, p1, e1, vel, init, n);
    let b = spec_best_upto(w, i, p1, e1, vel, init, m);
    if m < n {
        lemma_best_nonincreasing(w, i, p1, e1, vel, init, m, (n - 1) as nat);
        lemma_best_wf(w, i, p1, e1, vel, init, (n - 1) as nat);
        let prev = spec_best_upto(w, i, p1, e1, vel, init, (n - 1) as nat);
        let a = spec_best_upto(w, i, p1, e1, vel, init, n);
        let j = n - 1;
        if spec_eligible(w, i, j as int, p1, e1) {
            let b2 = w[j as int]->Some_0.body->Some_0;
            let c = spec_swept_b(p1, e1, b2, vel);
            lemma_swept_wf(
                p1.x as int, p1.y as int, e1.x as int, e1.y as int,
                b2.pos.x as int, b2.pos.y as int, b2.half_e.x as int, b2.half_e.y as int,
                vel.x as int, vel.y as int,
            );
            if c.num * prev.s.den < prev.s.num * c.den {
                assert(c.num * b.s.den <= b.s.num * c.den) by (nonlinear_arith)
                    requires
                        c.num * prev.s.den < prev.s.num * c.den,
                        prev.s.num * b.s.den <= b.s.num * prev.s.den,
                        c.den >= 1,
                        prev.s.den >= 1,
                        b.s.den >= 1,
                        0 <= c.num,
                        0 <= prev.s.num,
                        0 <= b.s.num,
                ;
            }
        }
    }
}

/// Minimality of the broad phase: the kept time of impact is no later
/// than any eligible obstacle's own sweep.
pub proof fn lemma_best_minimal(
    w: Seq<Option<EntityM>>, i: int, p1: Vec2i, e1: Vec2i, vel: Vec2i, init: BestHit, n: nat,
    j: int,
)
    requires
        init.wf(),
        0 <= j < n,
        n <= w.len(),
        spec_eligible(w, i, j, p1, e1),
    ensures
        ({
            let r = spec_best_upto(w, i, p1, e1, vel, init, n);
            let c = spec_swept_b(p1, e1, w[j]->Some_0.body->Some_0, vel);
            r.s.num * c.den <= c.num * r.s.den
        }),
{
    let b2 = w[j]->Some_0.body->Some_0;
    let c = spec_swept_b(p1, e1, b2, vel);
    lemma_swept_wf(
        p1.x as int, p1.y as int, e1.x as int, e1.y as int,
        b2.pos.x as int, b2.pos.y as int, b2.half_e.x as int, b2.half_e.y as int,
        vel.x as int, vel.y as int,
    );
    let before = spec_best_upto(w, i, p1, e1, vel, init, j as nat);
    let at = spec_best_upto(w, i, p1, e1, vel, init, (j + 1) as nat);
    lemma_best_wf(w, i, p1, e1, vel, init, j as nat);
    lemma_best_wf(w, i, p1, e1, vel, init, (j + 1) as nat);
    if c.num * before.s.den < before.s.num * c.den {
        assert(at.s == c);
    } else {
        assert(at.s.num * c.den <= c.num * at.s.den) by (nonlinear_arith)
            requires
                at.s == before.s,
                !(c.num * before.s.den < before.s.num * c.den),
                c.den >= 1,
                before.s.den >= 1,
        ;
    }
    lemma_best_nonincreasing(w, i, p1, e1, vel, init, (j + 1) as nat, n);
    lemma_best_wf(w, i, p1, e1, vel, init, n);
    let r = spec_best_upto(w, i, p1, e1, vel, init, n);
    assert(r.s.num * c.den <= c.num * r.s.den) by (nonlinear_arith)
        requires
            r.s.num * at.s.den <= at.s.num * r.s.den,
            at.s.num * c.den <= c.num * at.s.den,
            r.s.den >= 1,
            at.s.den >= 1,
            c.den >= 1,
            0 <= r.s.num,
            0 <= at.s.num,
            0 <= c.num,
    ;
}

/// Soundness of the broad phase: a reported winner is an eligible
/// obstacle and the kept normal and fraction are exactly its sweep.
pub proof fn lemma_best_sound(
    w: Seq<Option<EntityM>>, i: int, p1: Vec2i, e1: Vec2i, vel: Vec2i, init: BestHit, n: nat,
    j: int,
)
    requires
        n <= w.len(),
        w.len() <= 0xffff_ffff,
        0 <= j < w.len(),
        init.who != Option::Some(j as u32),
        spec_best_upto(w, i, p1, e1, vel, init, n).who == Option::Some(j as u32),
    ensures
        spec_eligible(w, i, j, p1, e1),
        spec_best_upto(w, i, p1, e1, vel, init, n).s == spec_swept_b(
            p1, e1, w[j]->Some_0.body->Some_0, vel,
        ),
    decreases n,
{
    if n > 0 {
        let prev = spec_best_upto(w, i, p1, e1, vel, init, (n - 1) as nat);
        let r = spec_best_upto(w, i, p1, e1, vel, init, n);
        if r != prev {
            assert(r.who == Option::Some((n - 1) as u32));
        } else {
            lemma_best_sound(w, i, p1, e1, vel, init, (n - 1) as nat, j);
        }
    }
}

} // verus!
