//! Physics and collision core of a small 2D game toolkit: axis-aligned
//! bodies with layer/mask filtering, continuous (swept) collision
//! resolution with a single slide pass, sensor overlap queries, and the
//! small pure state machines around them.

pub mod actions;
pub mod body;
pub mod csv_loader;
pub mod frames;
pub mod game;
pub mod geom;
pub mod noise;
pub mod spawner;
pub mod sprite;
pub mod sweep;
pub mod world;

pub use actions::ActionState;
pub use actions::Actions;
pub use actions::key_transition;
pub use actions::pad_axis_transition;
pub use actions::pad_button_transition;
pub use body::KaAABB;
pub use body::KaMoveable;
pub use body::KaSensor;
pub use csv_loader::load_csv_from_bytes;
pub use frames::frame_step;
pub use game::NoSoundError;
pub use geom::DT_MAX_MS;
pub use geom::EXT_BOUND;
pub use geom::MARGIN;
pub use geom::POS_BOUND;
pub use geom::VEL_BOUND;
pub use geom::Vec2i;
pub use geom::overlap_min_max;
pub use geom::overlaps;
pub use noise::noise_image_bytes;
pub use noise::noise_image_bytes_shaded;
pub use spawner::Despawner;
pub use spawner::Spawner;
pub use sprite::ka_sprite_z_order;
pub use sweep::Sweep;
pub use sweep::swept_aabb;
pub use world::EntityRec;
pub use world::World;
pub use world::get_overlapping;
pub use world::get_overlapping_with;
pub use world::ka_aabb_move;
pub use world::ka_aabb_sense;
pub use world::ka_aabb_update;
