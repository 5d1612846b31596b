//! What a class of cooling device may safely be asked to do.
//!
//! The policies are part of the program and are chosen by id: no stored or received
//! text carries a number that safety rests on. An id that is not known stands for the
//! generic pump, the policy that protects most.

use crate::profile::HARD_PUMP_CPU_FLOOR_PCT;
use crate::text::str_eq;
use vstd::prelude::*;

verus! {

/// The lowest duty that any pump may be driven to, in percent, whatever a policy says.
pub const ABSOLUTE_PUMP_FLOOR_PCT: i32 = 20;

/// The id that a cooling device without one is taken to have.
pub const DEFAULT_POLICY_ID: &'static str = "generic_pump";

/// What a class of cooling device may safely be asked to do.
#[derive(Debug, Clone, Copy)]
pub struct DevicePolicy {
    /// Stable id.
    pub id: &'static str,
    /// Name for display.
    pub display_name: &'static str,
    /// The lowest duty that the device may be driven to, in percent.
    pub minimum_safe_pwm: i32,
    /// Whether the device may be stopped. No pump may.
    pub supports_stop: bool,
    /// How long the device ignores its duty after power-on; `None` is not known.
    pub startup_override_seconds: Option<u32>,
    /// The lowest speed that is plausible.
    pub expected_rpm_min: Option<u16>,
    /// The highest speed that is plausible.
    pub expected_rpm_max: Option<u16>,
    /// Whether the device may override its duty by itself.
    pub internal_control_possible: bool,
}

/// The policy for a pump of unknown make.
pub open spec fn pump_policy() -> DevicePolicy {
    DevicePolicy {
        id: "generic_pump",
        display_name: "Generic pump (unknown hardware)",
        minimum_safe_pwm: HARD_PUMP_CPU_FLOOR_PCT,
        supports_stop: false,
        startup_override_seconds: None,
        expected_rpm_min: None,
        expected_rpm_max: None,
        internal_control_possible: false,
    }
}

/// The policy for an ordinary fan, which has no floor of its own.
pub open spec fn fan_policy() -> DevicePolicy {
    DevicePolicy {
        id: "generic_fan",
        display_name: "Generic fan",
        minimum_safe_pwm: 0,
        supports_stop: true,
        startup_override_seconds: None,
        expected_rpm_min: None,
        expected_rpm_max: None,
        internal_control_possible: false,
    }
}

/// Every policy there is.
pub open spec fn all_policies() -> Seq<DevicePolicy> {
    seq![pump_policy(), fan_policy()]
}

/// The policy for a pump of unknown make.
pub fn generic_pump() -> (r: DevicePolicy)
    ensures
        r == pump_policy(),
{
    DevicePolicy {
        id: "generic_pump",
        display_name: "Generic pump (unknown hardware)",
        minimum_safe_pwm: HARD_PUMP_CPU_FLOOR_PCT,
        supports_stop: false,
        startup_override_seconds: None,
        expected_rpm_min: None,
        expected_rpm_max: None,
        internal_control_possible: false,
    }
}

/// The policy for an ordinary fan.
pub fn generic_fan() -> (r: DevicePolicy)
    ensures
        r == fan_policy(),
{
    DevicePolicy {
        id: "generic_fan",
        display_name: "Generic fan",
        minimum_safe_pwm: 0,
        supports_stop: true,
        startup_override_seconds: None,
        expected_rpm_min: None,
        expected_rpm_max: None,
        internal_control_possible: false,
    }
}

/// Every policy there is.
pub fn policies() -> (r: Vec<DevicePolicy>)
    ensures
        r@ == all_policies(),
{
    let r: Vec<DevicePolicy> = vec![generic_pump(), generic_fan()];
    assert(r@ =~= all_policies());
    r
}

/// The policy of an id.
pub open spec fn policy_of(id: Seq<char>) -> DevicePolicy {
    if id == "generic_fan"@ {
        fan_policy()
    } else {
        pump_policy()
    }
}

/// The policy of an id. One that is not known stands for the generic pump.
pub fn resolve(id: &str) -> (r: DevicePolicy)
    ensures
        r == policy_of(id@),
{
    if str_eq(id, "generic_fan") {
        generic_fan()
    } else {
        generic_pump()
    }
}

/// The higher of two duties.
pub open spec fn higher(a: i32, b: i32) -> i32 {
    if a >= b {
        a
    } else {
        b
    }
}

/// The lowest duty of a header under a policy.
pub open spec fn policy_floor(policy: DevicePolicy, pump_protected: bool) -> i32 {
    if !pump_protected {
        higher(policy.minimum_safe_pwm, 0)
    } else if policy.supports_stop {
        higher(HARD_PUMP_CPU_FLOOR_PCT, ABSOLUTE_PUMP_FLOOR_PCT)
    } else {
        higher(policy.minimum_safe_pwm, ABSOLUTE_PUMP_FLOOR_PCT)
    }
}

/// The lowest duty of a header under a policy, in percent.
///
/// On a header that is protected as a pump's, only a policy that is a pump's counts: one
/// that permits a stop gives way to the generic pump. Below the absolute floor no policy
/// reaches.
pub fn resolve_policy_floor(policy: &DevicePolicy, pump_protected: bool) -> (r: i32)
    ensures
        r == policy_floor(*policy, pump_protected),
{
    if !pump_protected {
        return if policy.minimum_safe_pwm >= 0 {
            policy.minimum_safe_pwm
        } else {
            0
        };
    }
    let declared: i32 = if policy.supports_stop {
        generic_pump().minimum_safe_pwm
    } else {
        policy.minimum_safe_pwm
    };
    if declared >= ABSOLUTE_PUMP_FLOOR_PCT {
        declared
    } else {
        ABSOLUTE_PUMP_FLOOR_PCT
    }
}

/// Whether a header may be stopped under a policy. One that is protected as a pump's
/// never may.
pub fn stop_permitted(policy: &DevicePolicy, pump_protected: bool) -> (r: bool)
    ensures
        r == (!pump_protected && policy.supports_stop),
{
    !pump_protected && policy.supports_stop
}

// ---------------------------------------------------------------------------
// Laws
// ---------------------------------------------------------------------------

/// Whatever a policy says, the floor of a pump is never below the absolute one, and so
/// never a stop.
pub proof fn no_policy_stalls_a_pump(policy: DevicePolicy)
    ensures
        policy_floor(policy, true) >= ABSOLUTE_PUMP_FLOOR_PCT,
        policy_floor(policy, true) > 0,
{
}

/// The floor that is told for a pump is the floor that the engine holds it to, for every
/// policy there is.
pub proof fn told_floor_is_the_enforced_floor(i: int)
    requires
        0 <= i < all_policies().len(),
    ensures
        policy_floor(all_policies()[i], true) == HARD_PUMP_CPU_FLOOR_PCT,
        !all_policies()[i].supports_stop ==> all_policies()[i].minimum_safe_pwm
            >= ABSOLUTE_PUMP_FLOOR_PCT,
{
}

/// A policy is found by its own id, and an id that no policy has stands for the generic
/// pump.
pub proof fn unknown_ids_get_the_most_protection(id: Seq<char>)
    ensures
        forall|i: int|
            0 <= i < all_policies().len() && (#[trigger] all_policies()[i]).id@ == id
                ==> policy_of(id) == all_policies()[i],
        (forall|i: int|
            0 <= i < all_policies().len() ==> (#[trigger] all_policies()[i]).id@ != id)
            ==> policy_of(id) == pump_policy(),
{
    reveal_strlit("generic_pump");
    reveal_strlit("generic_fan");
    assert(all_policies()[0] == pump_policy());
    assert(all_policies()[1] == fan_policy());
    assert("generic_pump"@.len() != "generic_fan"@.len());
}

/// The floor of a header. As a pump's it is never below 20 percent, and 30 percent under a
/// policy that permits a stop; a policy of a pump's that asks for more gets more. Without
/// protection the policy's own floor counts, and one below nothing is nothing.
pub proof fn floors_go_by_protection(policy: DevicePolicy)
    ensures
        policy.supports_stop ==> policy_floor(policy, true) == 30,
        !policy.supports_stop && policy.minimum_safe_pwm >= 20 ==> policy_floor(policy, true)
            == policy.minimum_safe_pwm,
        !policy.supports_stop && policy.minimum_safe_pwm < 20 ==> policy_floor(policy, true) == 20,
        policy.minimum_safe_pwm >= 0 ==> policy_floor(policy, false) == policy.minimum_safe_pwm,
        policy.minimum_safe_pwm < 0 ==> policy_floor(policy, false) == 0,
{
}

/// There is one policy that permits a stop, that of an ordinary fan, and it has no floor;
/// the pump's has a floor of 30 percent. An id stands for the fan's policy only letter for
/// letter.
pub proof fn only_a_fan_may_stop(id: Seq<char>)
    ensures
        policy_of(id).supports_stop <==> id == "generic_fan"@,
        policy_of(id).minimum_safe_pwm == (if id == "generic_fan"@ {
            0i32
        } else {
            30
        }),
        all_policies().len() == 2,
        DEFAULT_POLICY_ID@ == "generic_pump"@,
        policy_of(DEFAULT_POLICY_ID@) == pump_policy(),
{
    reveal_strlit("generic_fan");
    reveal_strlit("generic_pump");
    assert("generic_fan"@.len() == 11);
    assert("generic_pump"@.len() == 12);
}

} // verus!
