use vstd::prelude::*;

verus! {

/// Largest magnitude of a position coordinate, in length units.
pub const POS_MAX: i64 = 0x4000_0000;

/// Largest magnitude of a velocity component, in length units per tick.
pub const VEL_MAX: i64 = 0x4000_0000;

/// Largest mass.
pub const MASS_MAX: i64 = 0x100_0000;

/// Largest radius, in length units.
pub const RADIUS_MAX: i64 = 0x1000_0000;

/// Largest magnitude of a charge.
pub const CHARGE_MAX: i64 = 0x100_0000;

/// Largest magnitude of the gravity and Coulomb constants.
pub const COEF_MAX: i64 = 0x100_0000_0000;

/// Damping fractions are given in parts of `DAMPING_DENOM`.
pub const DAMPING_DENOM: i64 = 1_000_000;

/// One simulated body.
#[derive(Clone, Copy, Debug, PartialEq, Eq, Structural)]
pub struct Particle {
    pub mass: i64,
    pub radius: i64,
    pub pos_x: i64,
    pub pos_y: i64,
    pub vel_x: i64,
    pub vel_y: i64,
    pub charge: i64,
    /// Set while the body is held by the pointer; the physics ignores it.
    pub drag_detect: bool,
}

/// Why a body could not be built.
#[derive(Clone, Copy, Debug, PartialEq, Eq, Structural)]
pub enum ParticleError {
    /// The mass is zero or negative.
    NonPositiveMass,
    /// The radius is zero or negative.
    NonPositiveRadius,
    /// A field lies beyond the bounds of this module.
    OutOfRange,
}

impl Particle {
    /// The body's fields lie within the bounds the physics is built for.
    pub open spec fn wf(&self) -> bool {
        &&& 1 <= self.mass <= MASS_MAX
        &&& 1 <= self.radius <= RADIUS_MAX
        &&& -POS_MAX <= self.pos_x <= POS_MAX
        &&& -POS_MAX <= self.pos_y <= POS_MAX
        &&& -VEL_MAX <= self.vel_x <= VEL_MAX
        &&& -VEL_MAX <= self.vel_y <= VEL_MAX
        &&& -CHARGE_MAX <= self.charge <= CHARGE_MAX
    }

    /// Builds a body that is not being dragged, rejecting
    /// a non-positive mass or radius and fields out of range.
    pub fn new(
        mass: i64,
        radius: i64,
        pos_x: i64,
        pos_y: i64,
        vel_x: i64,
        vel_y: i64,
        charge: i64,
    ) -> (r: Result<Particle, ParticleError>)
        ensures
            mass <= 0 ==> r == Err::<Particle, ParticleError>(ParticleError::NonPositiveMass),
            mass > 0 && radius <= 0 ==> r == Err::<Particle, ParticleError>(
                ParticleError::NonPositiveRadius,
            ),
            mass > 0 && radius > 0 ==> match r {
                Ok(p) => p.wf() && p == (Particle {
                    mass,
                    radius,
                    pos_x,
                    pos_y,
                    vel_x,
                    vel_y,
                    charge,
                    drag_detect: false,
                }),
                Err(e) => e == ParticleError::OutOfRange && !(Particle {
                    mass,
                    radius,
                    pos_x,
                    pos_y,
                    vel_x,
                    vel_y,
                    charge,
                    drag_detect: false,
                }).wf(),
            },
    {
        if mass <= 0 {
            return Err(ParticleError::NonPositiveMass);
        }
        if radius <= 0 {
            return Err(ParticleError::NonPositiveRadius);
        }
        let p = Particle { mass, radius, pos_x, pos_y, vel_x, vel_y, charge, drag_detect: false };
        if mass > MASS_MAX || radius > RADIUS_MAX || pos_x < -POS_MAX || pos_x > POS_MAX || pos_y
            < -POS_MAX || pos_y > POS_MAX || vel_x < -VEL_MAX || vel_x > VEL_MAX || vel_y
            < -VEL_MAX || vel_y > VEL_MAX || charge < -CHARGE_MAX || charge > CHARGE_MAX {
            return Err(ParticleError::OutOfRange);
        }
        Ok(p)
    }
}

/// The simulation session: the bodies and the settings of each tick.
pub struct SysParams {
    pub coll: Vec<Particle>,
    pub collisions_on: bool,
    pub gravity_on: bool,
    pub elec_on: bool,
    pub damping_on: bool,
    pub grid_on: bool,
    pub vectors_on: bool,
    pub is_paused: bool,
    /// Speed limit of the integrator, in length units per tick.
    pub c_val: i64,
    /// Gravity constant.
    pub g_val: i64,
    /// Coulomb constant.
    pub k_val: i64,
    /// Damping fraction, in parts of `DAMPING_DENOM`.
    pub d_val: i64,
    /// Arena width, in length units.
    pub width: i64,
    /// Arena height, in length units.
    pub height: i64,
}

/// All bodies of the sequence are well formed.
pub open spec fn all_wf(s: Seq<Particle>) -> bool {
    forall|k: int| 0 <= k < s.len() ==> (#[trigger] s[k]).wf()
}

impl SysParams {
    /// The settings lie within the bounds the physics is built for.
    pub open spec fn settings_wf(&self) -> bool {
        &&& 1 <= self.c_val <= VEL_MAX
        &&& -COEF_MAX <= self.g_val <= COEF_MAX
        &&& -COEF_MAX <= self.k_val <= COEF_MAX
        &&& 0 <= self.d_val < DAMPING_DENOM
        &&& 1 <= self.width <= POS_MAX
        &&& 1 <= self.height <= POS_MAX
    }

    /// Settings and bodies are well formed.
    pub open spec fn wf(&self) -> bool {
        &&& self.settings_wf()
        &&& all_wf(self.coll@)
    }
}

} // verus!
