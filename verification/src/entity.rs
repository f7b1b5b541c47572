//! The kinds of live simulation objects and their attributes.

use vstd::prelude::*;

verus! {

/// The single controllable actor: a position on the plane plus the
/// informational attributes `health` and `ammo` (declared by the design but
/// not yet consumed by any rule; `health` is the target of the hit hook).
#[derive(Clone, Copy, PartialEq, Eq, Structural)]
pub struct ActorData {
    pub x: i64,
    pub y: i64,
    pub health: i64,
    pub ammo: i64,
}

/// A placed device ("bomb") counting down to detonation. Its position is
/// fixed at creation; `expires_at` is the clock tick at which it detonates.
#[derive(Clone, Copy, PartialEq, Eq, Structural)]
pub struct DeviceData {
    pub x: i64,
    pub y: i64,
    pub expires_at: u64,
}

/// A transient damaging area ("explosion") left by a detonation, an
/// axis-aligned box of full extents `width` x `height` centered at `(x, y)`.
/// `expires_at` is the clock tick at which it disappears.
#[derive(Clone, Copy, PartialEq, Eq, Structural)]
pub struct HazardData {
    pub x: i64,
    pub y: i64,
    pub width: u64,
    pub height: u64,
    pub expires_at: u64,
}

/// A live simulation object: one tagged variant per entity kind.
#[derive(Clone, Copy, PartialEq, Eq, Structural)]
pub enum Entity {
    Actor(ActorData),
    Device(DeviceData),
    Hazard(HazardData),
}

/// The kind of an entity, without its attributes.
#[derive(Clone, Copy, PartialEq, Eq, Structural, Debug)]
pub enum Kind {
    Actor,
    Device,
    Hazard,
}

impl Entity {
    /// The kind tag of this entity.
    pub open spec fn kind(self) -> Kind {
        match self {
            Entity::Actor(_) => Kind::Actor,
            Entity::Device(_) => Kind::Device,
            Entity::Hazard(_) => Kind::Hazard,
        }
    }

    /// Whether this entity carries a lifecycle countdown.
    pub open spec fn is_timed(self) -> bool {
        self is Device || self is Hazard
    }

    /// The clock tick at which a timed entity expires.
    pub open spec fn deadline(self) -> u64 {
        match self {
            Entity::Actor(_) => 0,
            Entity::Device(d) => d.expires_at,
            Entity::Hazard(h) => h.expires_at,
        }
    }

    /// A timed entity is expired once the clock has reached its deadline.
    pub open spec fn is_expired(self, now: u64) -> bool {
        self.is_timed() && self.deadline() <= now
    }

    /// The actor attributes of an `Actor` entity.
    pub open spec fn as_actor(self) -> ActorData
        recommends
            self is Actor,
    {
        match self {
            Entity::Actor(a) => a,
            _ => arbitrary(),
        }
    }

    /// The device attributes of a `Device` entity.
    pub open spec fn as_device(self) -> DeviceData
        recommends
            self is Device,
    {
        match self {
            Entity::Device(d) => d,
            _ => arbitrary(),
        }
    }

    /// The hazard attributes of a `Hazard` entity.
    pub open spec fn as_hazard(self) -> HazardData
        recommends
            self is Hazard,
    {
        match self {
            Entity::Hazard(h) => h,
            _ => arbitrary(),
        }
    }

    /// Whether this entity's countdown has run out at clock tick `now`.
    pub fn expired_at(&self, now: u64) -> (r: bool)
        ensures
            r == self.is_expired(now),
    {
        match self {
            Entity::Actor(_) => false,
            Entity::Device(d) => d.expires_at <= now,
            Entity::Hazard(h) => h.expires_at <= now,
        }
    }

    /// The exact kind tag, computed at run time.
    pub fn kind_of(&self) -> (k: Kind)
        ensures
            k == self.kind(),
    {
        match self {
            Entity::Actor(_) => Kind::Actor,
            Entity::Device(_) => Kind::Device,
            Entity::Hazard(_) => Kind::Hazard,
        }
    }
}

} // verus!
