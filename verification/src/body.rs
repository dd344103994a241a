//! The three collision components: a solid axis-aligned body, a mover
//! carrying velocity and contact state, and a sensor reporting overlaps.

use vstd::prelude::*;
use crate::geom::Vec2i;
use crate::geom::DISP_BOUND;
use crate::geom::EXT_BOUND;
use crate::geom::FRICTION_BOUND;
use crate::geom::POS_BOUND;
use crate::geom::VEL_BOUND;

verus! {

/// Axis-aligned collision volume: center position, half-extents,
/// layer/mask bitmasks, solidity flags, and pairwise exceptions by
/// opaque entity identifier.
pub struct KaAABB {
    pub pos: Vec2i,
    pub half_e: Vec2i,
    pub collision_layer: i32,
    pub collision_mask: i32,
    pub solid: bool,
    pub one_way: bool,
    pub collision_exceptions: Vec<u32>,
}

/// Velocity and contact state driving swept resolution for a body.
/// `pushable` is a reserved capability for body-to-body push
/// propagation; the resolution pass does not consume it yet.
#[derive(Clone, Copy)]
pub struct KaMoveable {
    pub velocity: Vec2i,
    pub on_wall: Option<u32>,
    pub on_floor: Option<u32>,
    pub on_ceilling: Option<u32>,
    pub pushable: bool,
    pub external_forces: Vec2i,
    pub external_friction: i64,
    pub slide: bool,
}

/// Non-solid overlap reporter attached to a body.
pub struct KaSensor {
    pub mask: i32,
    pub active: bool,
    pub overlapping: Vec<u32>,
}

impl KaSensor {
    pub fn new() -> (r: KaSensor)
        ensures
            r.mask == 0 && r.active && r.overlapping@ == Seq::<u32>::empty(),
    {
        KaSensor { mask: 0, active: true, overlapping: Vec::new() }
    }

    pub fn new_with_mask(mask: i32) -> (r: KaSensor)
        ensures
            r.mask == mask && r.active && r.overlapping@ == Seq::<u32>::empty(),
    {
        KaSensor { mask, active: true, overlapping: Vec::new() }
    }
}

/// The contact entities of a mover in reporting order: floor, then
/// wall, then ceiling.
pub open spec fn spec_contact_list(m: KaMoveable) -> Seq<u32> {
    let f = match m.on_floor {
        Option::None => Seq::<u32>::empty(),
        Option::Some(e) => seq![e],
    };
    let w = match m.on_wall {
        Option::None => Seq::<u32>::empty(),
        Option::Some(e) => seq![e],
    };
    let c = match m.on_ceilling {
        Option::None => Seq::<u32>::empty(),
        Option::Some(e) => seq![e],
    };
    f + w + c
}

impl KaMoveable {
    /// Field bounds every mover stored in a world satisfies.
    pub open spec fn wf(self) -> bool {
        &&& self.velocity.bounded(VEL_BOUND as int)
        &&& self.external_forces.bounded(VEL_BOUND as int)
        &&& 0 <= self.external_friction <= FRICTION_BOUND
    }

    pub fn new(velocity_x: i64, velocity_y: i64, pushable: bool) -> (r: KaMoveable)
        requires
            -VEL_BOUND <= velocity_x <= VEL_BOUND,
            -VEL_BOUND <= velocity_y <= VEL_BOUND,
        ensures
            r == (KaMoveable {
                velocity: Vec2i { x: velocity_x, y: velocity_y },
                pushable,
                ..KaMoveable::spec_default()
            }),
            r.wf(),
    {
        KaMoveable {
            velocity: Vec2i { x: velocity_x, y: velocity_y },
            pushable,
            ..KaMoveable::default()
        }
    }

    pub fn set_velocity(&mut self, x: i64, y: i64)
        requires
            -VEL_BOUND <= x <= VEL_BOUND,
            -VEL_BOUND <= y <= VEL_BOUND,
        ensures
            *final(self) == (KaMoveable { velocity: Vec2i { x, y }, ..*old(self) }),
    {
        self.velocity.x = x;
        self.velocity.y = y;
    }

    /// The entities contacted this frame: floor, wall, then ceiling.
    pub fn get_collisions(&self) -> (r: Vec<u32>)
        ensures
            r@ == spec_contact_list(*self),
    {
        let mut entities: Vec<u32> = Vec::new();
        match self.on_floor {
            Option::None => (),
            Option::Some(e) => {
                entities.push(e);
            },
        };
        match self.on_wall {
            Option::None => (),
            Option::Some(e) => {
                entities.push(e);
            },
        };
        match self.on_ceilling {
            Option::None => (),
            Option::Some(e) => {
                entities.push(e);
            },
        };
        assert(entities@ =~= spec_contact_list(*self));
        entities
    }

    /// The mover a plain `default()` call returns.
    pub open spec fn spec_default() -> KaMoveable {
        KaMoveable {
            velocity: Vec2i { x: 0, y: 0 },
            on_wall: Option::None,
            on_floor: Option::None,
            on_ceilling: Option::None,
            pushable: true,
            external_forces: Vec2i { x: 0, y: 0 },
            external_friction: 10,
            slide: true,
        }
    }
}

impl Default for KaMoveable {
    /// At rest, no contacts, pushable, sliding, friction of ten inverse
    /// seconds.
    fn default() -> (r: KaMoveable)
        ensures
            r == KaMoveable::spec_default(),
            r.wf(),
    {
        KaMoveable {
            velocity: Vec2i { x: 0, y: 0 },
            on_wall: Option::None,
            on_floor: Option::None,
            on_ceilling: Option::None,
            pushable: true,
            external_forces: Vec2i { x: 0, y: 0 },
            external_friction: 10,
            slide: true,
        }
    }
}

/// A layer or mask with one bit set or cleared.
pub open spec fn spec_set_bit(layer: i32, bit: i32, value: bool) -> i32
    recommends
        0 <= bit < 32,
{
    if value {
        layer | (1i32 << (bit as u32))
    } else {
        layer & !(1i32 << (bit as u32))
    }
}

/// Whether one bit of a layer or mask is set.
pub open spec fn spec_get_bit(layer: i32, bit: i32) -> bool
    recommends
        0 <= bit < 32,
{
    layer & (1i32 << (bit as u32)) != 0
}

/// A layer value with the given bits OR-ed onto `init`.
pub open spec fn spec_layer_of(bits: Seq<i32>, init: i32) -> i32
    decreases bits.len(),
{
    if bits.len() == 0 {
        init
    } else {
        spec_layer_of(bits.drop_last(), init) | (1i32 << (bits.last() as u32))
    }
}

/// Setting one bit changes that bit to the given value and no other.
pub proof fn lemma_set_get_bit(layer: i32, bit: i32, b: i32, value: bool)
    requires
        0 <= bit < 32,
        0 <= b < 32,
    ensures
        spec_get_bit(spec_set_bit(layer, bit, value), b) == if b == bit {
            value
        } else {
            spec_get_bit(layer, b)
        },
{
    if value {
        assert(((layer | (1i32 << (bit as u32))) & (1i32 << (b as u32)) != 0) == if b == bit {
            true
        } else {
            layer & (1i32 << (b as u32)) != 0
        }) by (bit_vector)
            requires
                0 <= bit < 32,
                0 <= b < 32,
        ;
    } else {
        assert(((layer & !(1i32 << (bit as u32))) & (1i32 << (b as u32)) != 0) == if b == bit {
            false
        } else {
            layer & (1i32 << (b as u32)) != 0
        }) by (bit_vector)
            requires
                0 <= bit < 32,
                0 <= b < 32,
        ;
    }
}

impl KaAABB {
    /// Geometric bounds every body stored in a world satisfies.
    pub open spec fn wf(self) -> bool {
        &&& self.pos.bounded(POS_BOUND as int)
        &&& 0 <= self.half_e.x <= EXT_BOUND
        &&& 0 <= self.half_e.y <= EXT_BOUND
    }

    /// A body at `(x, y)` of full width `w` and height `h`; the stored
    /// half-extents are the halved sizes, rounded down.
    pub fn new(
        x: i64, y: i64, w: i64, h: i64,
        collision_layer: i32, collision_mask: i32, solid: bool, one_way: bool,
    ) -> (r: KaAABB)
        requires
            -POS_BOUND <= x <= POS_BOUND,
            -POS_BOUND <= y <= POS_BOUND,
            0 <= w <= 2 * EXT_BOUND,
            0 <= h <= 2 * EXT_BOUND,
        ensures
            r.pos == (Vec2i { x, y }),
            r.half_e.x == w / 2 && r.half_e.y == h / 2,
            r.collision_layer == collision_layer,
            r.collision_mask == collision_mask,
            r.solid == solid,
            r.one_way == one_way,
            r.collision_exceptions@ == Seq::<u32>::empty(),
            r.wf(),
    {
        KaAABB {
            pos: Vec2i { x, y },
            half_e: Vec2i { x: w / 2, y: h / 2 },
            collision_layer,
            collision_mask,
            solid,
            one_way,
            collision_exceptions: Vec::new(),
        }
    }

    /// Every field other than the exception list is equal.
    pub open spec fn same_but_exceptions(a: KaAABB, b: KaAABB) -> bool {
        &&& a.pos == b.pos
        &&& a.half_e == b.half_e
        &&& a.collision_layer == b.collision_layer
        &&& a.collision_mask == b.collision_mask
        &&& a.solid == b.solid
        &&& a.one_way == b.one_way
    }

    /// Every field other than the two bitmasks is equal.
    pub open spec fn same_but_masks(a: KaAABB, b: KaAABB) -> bool {
        &&& a.pos == b.pos
        &&& a.half_e == b.half_e
        &&& a.solid == b.solid
        &&& a.one_way == b.one_way
        &&& a.collision_exceptions@ == b.collision_exceptions@
    }

    /// OR the given bits onto this body's collision layer.
    pub fn set_collision_layer(&mut self, bits: &[i32])
        requires
            forall|i: int| 0 <= i < bits@.len() ==> 0 <= #[trigger] bits@[i] < 32,
        ensures
            final(self).collision_layer == spec_layer_of(bits@, old(self).collision_layer),
            final(self).collision_mask == old(self).collision_mask,
            KaAABB::same_but_masks(*final(self), *old(self)),
    {
        let n: usize = bits.len();
        let mut i: usize = 0;
        while i < n
            invariant
                n == bits@.len(),
                i <= n,
                forall|k: int| 0 <= k < bits@.len() ==> 0 <= #[trigger] bits@[k] < 32,
                self.collision_layer == spec_layer_of(bits@.take(i as int), old(self).collision_layer),
                self.collision_mask == old(self).collision_mask,
                KaAABB::same_but_masks(*self, *old(self)),
            decreases n - i,
        {
            let bit: i32 = bits[i];
            self.collision_layer = self.collision_layer | (1i32 << (bit as u32));
            proof {
                assert(bits@.take(i + 1).drop_last() =~= bits@.take(i as int));
            }
            i = i + 1;
        }
        proof {
            assert(bits@.take(n as int) =~= bits@);
        }
    }

    /// A fresh layer value with the given bits OR-ed together.
    pub fn create_collision_layer(bits: &[i32]) -> (r: i32)
        requires
            forall|i: int| 0 <= i < bits@.len() ==> 0 <= #[trigger] bits@[i] < 32,
        ensures
            r == spec_layer_of(bits@, 0),
    {
        let n: usize = bits.len();
        let mut layer: i32 = 0;
        let mut i: usize = 0;
        while i < n
            invariant
                n == bits@.len(),
                i <= n,
                forall|k: int| 0 <= k < bits@.len() ==> 0 <= #[trigger] bits@[k] < 32,
                layer == spec_layer_of(bits@.take(i as int), 0),
            decreases n - i,
        {
            let bit: i32 = bits[i];
            layer = layer | (1i32 << (bit as u32));
            proof {
                assert(bits@.take(i + 1).drop_last() =~= bits@.take(i as int));
            }
            i = i + 1;
        }
        proof {
            assert(bits@.take(n as int) =~= bits@);
        }
        layer
    }

    /// Set or clear one bit of a layer value in place.
    pub fn set_collision_bit(layer: &mut i32, bit: i32, value: bool)
        requires
            0 <= bit < 32,
        ensures
            *final(layer) == spec_set_bit(*old(layer), bit, value),
    {
        if value {
            *layer = *layer | (1i32 << (bit as u32));
        } else {
            *layer = *layer & !(1i32 << (bit as u32));
        }
    }

    /// Whether one bit of a layer value is set.
    pub fn get_collision_bit(layer: i32, bit: i32) -> (r: bool)
        requires
            0 <= bit < 32,
        ensures
            r == spec_get_bit(layer, bit),
    {
        if layer & (1i32 << (bit as u32)) == 0 {
            return false;
        }
        true
    }

    pub fn set_collision_layer_bit(&mut self, bit: i32, value: bool)
        requires
            0 <= bit < 32,
        ensures
            final(self).collision_layer == spec_set_bit(old(self).collision_layer, bit, value),
            final(self).collision_mask == old(self).collision_mask,
            KaAABB::same_but_masks(*final(self), *old(self)),
    {
        let mut layer: i32 = self.collision_layer;
        KaAABB::set_collision_bit(&mut layer, bit, value);
        self.collision_layer = layer;
    }

    pub fn get_collision_layer_bit(&self, bit: i32) -> (r: bool)
        requires
            0 <= bit < 32,
        ensures
            r == spec_get_bit(self.collision_layer, bit),
    {
        KaAABB::get_collision_bit(self.collision_layer, bit)
    }

    pub fn set_collision_mask_bit(&mut self, bit: i32, value: bool)
        requires
            0 <= bit < 32,
        ensures
            final(self).collision_mask == spec_set_bit(old(self).collision_mask, bit, value),
            final(self).collision_layer == old(self).collision_layer,
            KaAABB::same_but_masks(*final(self), *old(self)),
    {
        let mut mask: i32 = self.collision_mask;
        KaAABB::set_collision_bit(&mut mask, bit, value);
        self.collision_mask = mask;
    }

    pub fn get_collision_mask_bit(&self, bit: i32) -> (r: bool)
        requires
            0 <= bit < 32,
        ensures
            r == spec_get_bit(self.collision_mask, bit),
    {
        KaAABB::get_collision_bit(self.collision_mask, bit)
    }

    /// The body lists this entity identifier as a pairwise exception.
    pub fn have_exception(&self, id: u32) -> (r: bool)
        ensures
            r == self.collision_exceptions@.contains(id),
    {
        let n: usize = self.collision_exceptions.len();
        let mut i: usize = 0;
        while i < n
            invariant
                n == self.collision_exceptions@.len(),
                i <= n,
                forall|k: int| 0 <= k < i ==> self.collision_exceptions@[k] != id,
            decreases n - i,
        {
            if self.collision_exceptions[i] == id {
                return true;
            }
            i = i + 1;
        }
        false
    }

    /// Record a pairwise exception unless it is already listed.
    pub fn add_exception(&mut self, id: u32)
        ensures
            final(self).collision_exceptions@ == if old(self).collision_exceptions@.contains(id) {
                old(self).collision_exceptions@
            } else {
                old(self).collision_exceptions@.push(id)
            },
            final(self).collision_exceptions@.contains(id),
            KaAABB::same_but_exceptions(*final(self), *old(self)),
            final(self).collision_layer == old(self).collision_layer,
            final(self).collision_mask == old(self).collision_mask,
    {
        if !self.have_exception(id) {
            self.collision_exceptions.push(id);
            proof {
                assert(self.collision_exceptions@[self.collision_exceptions@.len() - 1] == id);
            }
        }
    }

    /// Static box-overlap test; touching boxes count as overlapping.
    pub fn overlaps(pos1: &Vec2i, half_e1: &Vec2i, pos2: &Vec2i, half_e2: &Vec2i) -> (r: bool)
        requires
            pos1.bounded(POS_BOUND as int),
            pos2.bounded(POS_BOUND as int),
            half_e1.bounded(EXT_BOUND as int),
            half_e2.bounded(EXT_BOUND as int),
        ensures
            r == crate::geom::spec_overlaps(*pos1, *half_e1, *pos2, *half_e2),
    {
        crate::geom::overlaps(pos1, half_e1, pos2, half_e2)
    }

    /// Overlap of two boxes given by their corner extremes; touching
    /// counts.
    pub fn overlap_min_max(min1: &Vec2i, max1: &Vec2i, min2: &Vec2i, max2: &Vec2i) -> (r: bool)
        ensures
            r == (min1.x <= max2.x && min2.x <= max1.x && min1.y <= max2.y && min2.y <= max1.y),
    {
        crate::geom::overlap_min_max(min1, max1, min2, max2)
    }

    /// Swept test of a moving box against a stationary one; exact
    /// counterpart of `crate::sweep::spec_swept`.
    pub fn swept_aabb(
        pos1: &Vec2i, half_e1: &Vec2i, pos2: &Vec2i, half_e2: &Vec2i, vel: &Vec2i,
    ) -> (r: crate::sweep::Sweep)
        requires
            pos1.bounded(POS_BOUND as int),
            pos2.bounded(POS_BOUND as int),
            half_e1.bounded(EXT_BOUND as int),
            half_e2.bounded(EXT_BOUND as int),
            vel.bounded(DISP_BOUND as int),
        ensures
            r@ == crate::sweep::spec_swept(
                pos1.x as int, pos1.y as int, half_e1.x as int, half_e1.y as int,
                pos2.x as int, pos2.y as int, half_e2.x as int, half_e2.y as int,
                vel.x as int, vel.y as int,
            ),
    {
        crate::sweep::swept_aabb(pos1, half_e1, pos2, half_e2, vel)
    }

    /// Layer/mask gate: this body reacts to the other when the other's
    /// layer intersects this body's mask.
    pub fn can_collide(&self, other: &KaAABB) -> (r: bool)
        ensures
            r == (other.collision_layer & self.collision_mask != 0),
    {
        if other.collision_layer & self.collision_mask == 0 {
            return false;
        }
        true
    }
}

impl Default for KaAABB {
    /// A point body at the origin: solid, reacting to nothing.
    fn default() -> (r: KaAABB)
        ensures
            r.pos == (Vec2i { x: 0, y: 0 }),
            r.half_e == (Vec2i { x: 0, y: 0 }),
            r.collision_layer == 0,
            r.collision_mask == 0,
            r.solid,
            !r.one_way,
            r.collision_exceptions@ == Seq::<u32>::empty(),
            r.wf(),
    {
        KaAABB {
            pos: Vec2i { x: 0, y: 0 },
            half_e: Vec2i { x: 0, y: 0 },
            collision_layer: 0,
            collision_mask: 0,
            solid: true,
            one_way: false,
            collision_exceptions: Vec::new(),
        }
    }
}

} // verus!
