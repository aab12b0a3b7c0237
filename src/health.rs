use vstd::prelude::*;

verus! {

/// The largest health an entity can have.
#[derive(Clone, Copy, Debug, PartialEq, Eq, Structural)]
pub struct MaxHealth(pub u32);

/// The health an entity has left. An entity without it has no health left.
#[derive(Clone, Copy, Debug, PartialEq, Eq, Structural)]
pub struct Health(u32);

/// A request to change an entity's health by a signed amount.
#[derive(Clone, Copy, Debug, PartialEq, Eq, Structural)]
pub struct AdjustHealth(pub i32);

/// `x` brought into `[lo, hi]`.
pub open spec fn clamp(x: int, lo: int, hi: int) -> int {
    if x < lo {
        lo
    } else if x > hi {
        hi
    } else {
        x
    }
}

/// Current health as a number: an absent value counts as zero.
pub open spec fn health_value(h: Option<Health>) -> int {
    match h {
        Some(h) => h.spec_get() as int,
        None => 0,
    }
}

/// The health that an adjustment by `delta` leads to.
pub open spec fn clamped_health(current: Option<Health>, max: MaxHealth, delta: i32) -> int {
    clamp(health_value(current) + delta, 0, max.0 as int)
}

/// The health value `v`.
pub closed spec fn health_of(v: u32) -> Health {
    Health(v)
}

pub proof fn lemma_health_of(v: u32)
    ensures
        health_of(v).spec_get() == v,
{
}

/// The health attribute after an adjustment by `delta`: absent when the
/// clamped value is zero.
pub open spec fn adjusted(current: Option<Health>, max: MaxHealth, delta: i32) -> Option<Health> {
    if clamped_health(current, max, delta) > 0 {
        Some(health_of(clamped_health(current, max, delta) as u32))
    } else {
        None
    }
}

impl Health {
    pub closed spec fn spec_get(&self) -> u32 {
        self.0
    }

    pub fn new(val: u32) -> (h: Health)
        ensures
            h.spec_get() == val,
            h == health_of(val),
    {
        Health(val)
    }

    #[verifier::when_used_as_spec(spec_get)]
    pub fn get(&self) -> (r: u32)
        ensures
            r == self.spec_get(),
    {
        self.0
    }
}

impl MaxHealth {
    pub fn get(&self) -> (r: u32)
        ensures
            r == self.0,
    {
        self.0
    }
}

/// The health left after adjusting `current` by `delta`, clamped into
/// `[0, max]`; `None` when nothing is left.
pub fn adjust_health(current: Option<Health>, max: MaxHealth, delta: i32) -> (r: Option<Health>)
    ensures
        r is Some <==> clamped_health(current, max, delta) > 0,
        r matches Some(h) ==> h.spec_get() == clamped_health(current, max, delta),
        r == adjusted(current, max, delta),
{
    let cur: i64 = match current {
        Some(h) => h.get() as i64,
        None => 0,
    };
    let sum: i64 = cur + delta as i64;
    let m: i64 = max.0 as i64;
    let new_health: i64 = if sum < 0 {
        0
    } else if sum > m {
        m
    } else {
        sum
    };
    if new_health == 0 {
        None
    } else {
        Some(Health(new_health as u32))
    }
}

} // verus!
