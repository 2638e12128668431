//! Decision precedence of the policy engine. Lower number = applied first.
use vstd::prelude::*;

verus! {

pub const EXPLICIT_POLICY: u8 = 1;

pub const TIER_HEALTH: u8 = 2;

pub const CONSISTENCY: u8 = 3;

pub const AUTHZ_DENY: u8 = 4;

pub const LATENCY: u8 = 5;

pub const CAPACITY: u8 = 6;

pub const DEFAULT_TIER: u8 = 7;

} // verus!
