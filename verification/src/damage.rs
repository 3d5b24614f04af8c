//! Damage from falling and drowning.
//!
//! Times are nanoseconds.

use crate::protocol::{ClientToServer, DamageCause, MAX_HP};
use vstd::prelude::*;

verus! {

/// Air for this long under water: 10 s.
pub const AIR_MAX: u64 = 10_000_000_000;

/// Time between two blows of drowning: 1 s.
pub const DROWN_TICK: u64 = 1_000_000_000;

/// Strength of a blow of drowning.
pub const DROWN_DAMAGE: u16 = 1;

/// Blocks that can be fallen without damage.
pub const SAFE_FALL_HEIGHT: i64 = 3;

/// Damage of a fall: one for each whole block beyond the safe height, at most
/// all health.
pub open spec fn damage_of_fall(excess: int) -> int {
    if excess <= 0 {
        0
    } else if excess > MAX_HP {
        MAX_HP as int
    } else {
        excess
    }
}

/// Damage of a fall that was `excess` whole blocks higher than is safe.
pub fn fall_damage(excess: i64) -> (damage: u16)
    ensures
        damage == damage_of_fall(excess as int),
{
    if excess <= 0 {
        0
    } else if excess > MAX_HP as i64 {
        MAX_HP
    } else {
        excess as u16
    }
}

/// What to report of a landing, if anything: only in survival, and only where
/// it hurts.
pub fn report_fall_damage(survival: bool, landed: Option<i64>) -> (report: Option<ClientToServer>)
    ensures
        report == match landed {
            Some(excess) => if survival && excess > 0 {
                Some(
                    ClientToServer::ReportDamage {
                        amount: damage_of_fall(excess as int) as u16,
                        cause: DamageCause::Fall,
                    },
                )
            } else {
                None
            },
            None => None,
        },
{
    match landed {
        Some(excess) => {
            let amount: u16 = fall_damage(excess);
            if survival && amount > 0 {
                Some(ClientToServer::ReportDamage { amount, cause: DamageCause::Fall })
            } else {
                None
            }
        },
        None => None,
    }
}

/// Air left under water.
#[derive(Clone, Copy, Debug, PartialEq, Eq, Structural)]
pub struct Submersion {
    pub air_remaining: u64,
    /// Time towards the next blow, once there is no air.
    pub drown_tick: u64,
}

/// Full of air.
pub open spec fn surfaced() -> Submersion {
    Submersion { air_remaining: AIR_MAX, drown_tick: 0 }
}

impl Default for Submersion {
    fn default() -> (s: Submersion)
        ensures
            s == surfaced(),
    {
        Submersion { air_remaining: AIR_MAX, drown_tick: 0 }
    }
}

/// Air left after a frame under water.
pub open spec fn air_after(air: int, dt: int) -> int {
    if air > dt {
        air - dt
    } else {
        0
    }
}

/// Whether a frame under water brings a blow: there is no air left, and a
/// second without it is over.
pub open spec fn drowns(s: Submersion, dt: u64) -> bool {
    air_after(s.air_remaining as int, dt as int) == 0 && s.drown_tick + dt >= DROWN_TICK
}

/// The air after a frame with the eyes under water or not.
pub open spec fn submersion_after(s: Submersion, under: bool, dt: u64) -> Submersion {
    let air = air_after(s.air_remaining as int, dt as int);
    if !under {
        surfaced()
    } else if air > 0 {
        Submersion { air_remaining: air as u64, drown_tick: 0 }
    } else if drowns(s, dt) {
        Submersion { air_remaining: 0, drown_tick: (s.drown_tick + dt - DROWN_TICK) as u64 }
    } else {
        Submersion { air_remaining: 0, drown_tick: (s.drown_tick + dt) as u64 }
    }
}

impl Submersion {
    /// Takes up a frame of `dt`. Outside survival, and before the player is
    /// placed, nothing changes.
    pub fn update_drowning(&mut self, survival: bool, spawned: bool, eye_in_water: bool, dt: u64) -> (report:
        Option<ClientToServer>)
        requires
            old(self).drown_tick + dt <= u64::MAX,
        ensures
            *final(self) == if survival && spawned {
                submersion_after(*old(self), eye_in_water, dt)
            } else {
                *old(self)
            },
            report == if survival && spawned && eye_in_water && drowns(*old(self), dt) {
                Some(
                    ClientToServer::ReportDamage {
                        amount: DROWN_DAMAGE,
                        cause: DamageCause::Drown,
                    },
                )
            } else {
                None
            },
    {
        if !survival || !spawned {
            return None;
        }
        if !eye_in_water {
            *self = Submersion::default();
            return None;
        }
        self.air_remaining = if self.air_remaining > dt { self.air_remaining - dt } else { 0 };
        if self.air_remaining > 0 {
            self.drown_tick = 0;
            return None;
        }
        self.drown_tick = self.drown_tick + dt;
        if self.drown_tick >= DROWN_TICK {
            self.drown_tick = self.drown_tick - DROWN_TICK;
            Some(
                ClientToServer::ReportDamage { amount: DROWN_DAMAGE, cause: DamageCause::Drown },
            )
        } else {
            None
        }
    }
}

/// Nobody drowns while any air is left, and coming up gives all of it back.
pub proof fn law_air_protects(s: Submersion, dt: u64)
    ensures
        s.air_remaining > dt ==> !drowns(s, dt),
        submersion_after(s, false, dt) == surfaced(),
        !drowns(surfaced(), dt) || dt >= AIR_MAX,
{
}

/// A fall costs one point for every whole block beyond what is safe, up to all
/// twenty; a safe one costs nothing, and a higher one never less.
pub proof fn law_falls_cost_their_height(excess: int, more: int)
    requires
        excess <= more,
    ensures
        excess <= 0 ==> damage_of_fall(excess) == 0,
        0 < excess <= 20 ==> damage_of_fall(excess) == excess,
        excess >= 20 ==> damage_of_fall(excess) == 20,
        damage_of_fall(excess) <= damage_of_fall(more),
{
}

/// Under water the air runs down by the time that passes, to nothing after ten
/// seconds in all; only then time towards a blow is counted, and each blow
/// takes a second of it.
pub proof fn law_air_runs_down(s: Submersion, dt: u64)
    requires
        s.drown_tick + dt <= u64::MAX,
    ensures
        s.air_remaining > dt ==> {
            &&& submersion_after(s, true, dt).air_remaining == s.air_remaining - dt
            &&& submersion_after(s, true, dt).drown_tick == 0
        },
        s.air_remaining <= dt ==> {
            let after = submersion_after(s, true, dt);
            &&& after.air_remaining == 0
            &&& drowns(s, dt) <==> s.drown_tick + dt >= 1_000_000_000
            &&& drowns(s, dt) ==> after.drown_tick == s.drown_tick + dt - 1_000_000_000
            &&& !drowns(s, dt) ==> after.drown_tick == s.drown_tick + dt
        },
        submersion_after(s, false, dt).air_remaining == 10_000_000_000,
        submersion_after(s, false, dt).drown_tick == 0,
{
}

} // verus!
