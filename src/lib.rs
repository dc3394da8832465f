//! A two-dimensional particle sandbox: bodies evolved tick by tick under
//! gravity, Coulomb forces, elastic collisions, damping and wall containment.
//!
//! All physical quantities are fixed-point integers. Lengths (positions,
//! radii, the arena) are measured in `1 / SCALE` of a pixel, velocities in
//! those units per tick, masses and charges in whole units. Every update
//! saturates at the bounds in `models`, so a tick always completes with
//! bounded state. Velocity changes are rounded toward zero to whole units,
//! so effects below one unit per tick (a weak distant force) vanish; a finer
//! `SCALE` resolves them.

pub mod arith;
pub mod controls;
pub mod laws;
pub mod models;
pub mod phys;
pub mod stepper;

pub use arith::{isqrt_exec, SCALE};
pub use controls::{
    add_particle, collection_is_valid, detect_drag, enable_collisions, enable_damping,
    enable_electrostatics, enable_grid, enable_gravity, enable_pause, enable_vectors, end_drag,
    expand_all, get_collection, get_params, handle_drag, params_are_valid, particle_is_valid,
    remove_particle, set_c_val, set_collection, set_d_val, set_g_val, set_height, set_k_val,
    set_params, set_width, shrink_all, slow_down, speed_up,
};
pub use models::{
    Particle, ParticleError, SysParams, CHARGE_MAX, COEF_MAX, DAMPING_DENOM, MASS_MAX, POS_MAX,
    RADIUS_MAX, VEL_MAX,
};
pub use phys::{
    calc_collision, calc_coloumb, calc_damping, calc_gravity, calc_wall_collision,
    collision_detected, recalc_position,
};
pub use stepper::{field_probe, step_system};
