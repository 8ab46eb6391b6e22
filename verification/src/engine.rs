//! The configurable engine: the force-law configuration, the ensemble, the
//! partitioned force-evaluation phase and the step driver.
//!
//! The evaluation phase writes, for every particle, the sum of all configured
//! contributions into its accumulator. The result is a function of the
//! previous state alone, so evaluating the partitions in any order — or
//! concurrently, one worker per partition — yields the same state;
//! `lemma_evaluation_deterministic` states that. Drag reads only the owning
//! particle's velocity, so it is folded into the same per-particle pass.

use vstd::prelude::*;
use vstd::arithmetic::div_mod::lemma_div_by_self;
use vstd::arithmetic::div_mod::lemma_div_is_ordered;
use vstd::arithmetic::div_mod::lemma_div_pos_is_pos;
use crate::SimError;
use crate::fixed::SCALE;
use crate::fixed::div_scale;
use crate::fixed::lemma_div_scale_neg;
use crate::fixed::lemma_mul_scale_neg;
use crate::fixed::lemma_scale_identity;
use crate::fixed::lemma_scale_nonneg;
use crate::fixed::lemma_scale_zero;
use crate::fixed::mag;
use crate::fixed::mul_scale;
use crate::forces::Falloff;
use crate::forces::charge_cap;
use crate::forces::charge_scaled;
use crate::forces::charge_strength;
use crate::forces::drag;
use crate::forces::drag_force;
use crate::forces::lemma_charge_scaled_cap;
use crate::forces::lemma_radial_bound_mono;
use crate::forces::lemma_radial_force_bound;
use crate::forces::lemma_drag_opposes;
use crate::forces::lemma_spring_antisymmetric;
use crate::forces::lemma_spring_force_bound;
use crate::forces::radial;
use crate::forces::radial_bound;
use crate::forces::radial_force;
use crate::forces::spring;
use crate::forces::spring_bound;
use crate::forces::spring_force;
use crate::particle::CHARGE_LIMIT;
use crate::particle::COORD_LIMIT;
use crate::particle::FORCE_LIMIT;
use crate::particle::Particle;
use crate::particle::advanced;
use crate::particle::integrated;
use crate::particle::lemma_advanced_is_integrated;
use crate::partition::lemma_part_start_ordered;
use crate::partition::part_start;
use crate::partition::worker_range;
use crate::topology::neighbor;
use crate::topology::neighbor_of;
use crate::vec3::V3i;
use crate::vec3::Vec3;
use crate::vec3::v3i_add;
use crate::vec3::v3i_bounded;
use crate::vec3::v3i_zero;
use crate::vec3::vec3_bounded;
use crate::vec3::vec3_within;

verus! {

/// One configured force law. The strength's sign selects attraction or
/// repulsion for the radial family (positive repels); charge-weighted radial
/// laws multiply in the product of the two particles' charges; springs couple
/// each particle `i` to `(i + offset) % n`; drag acts on each particle alone.
#[derive(Clone, Copy, Debug, PartialEq, Eq, Structural)]
pub enum ForceLaw {
    /// All-pairs radial force, clamped at `min_radius2` (squared fixed-point
    /// units).
    Radial { strength: i64, min_radius2: i64, falloff: Falloff },
    /// All-pairs radial force scaled by the product of the charges.
    ChargeRadial { strength: i64, min_radius2: i64, falloff: Falloff },
    /// Ring-neighbor spring coupling by a topology offset.
    Spring { strength: i64, offset: usize },
    /// Velocity-proportional drag; the coefficient is at least one whole
    /// unit.
    Drag { coefficient: i64 },
}

/// A run's configuration: the fixed time step and the force-law list.
#[derive(Debug)]
pub struct Config {
    pub dt: i64,
    pub laws: Vec<ForceLaw>,
}

/// A bound on the magnitude of any single contribution component of a law,
/// over all pairs of well-formed particles.
pub open spec fn law_pair_bound(law: ForceLaw) -> int {
    match law {
        ForceLaw::Radial { strength, min_radius2, falloff } => radial_bound(
            strength as int,
            min_radius2 as int,
            falloff,
        ),
        ForceLaw::ChargeRadial { strength, min_radius2, falloff } => radial_bound(
            charge_cap(strength as int),
            min_radius2 as int,
            falloff,
        ),
        ForceLaw::Spring { strength, offset } => spring_bound(strength as int),
        ForceLaw::Drag { coefficient } => COORD_LIMIT as int,
    }
}

/// Structural validity of one law for an ensemble of `n` particles.
pub open spec fn law_wf(law: ForceLaw, n: int) -> bool {
    match law {
        ForceLaw::Radial { strength, min_radius2, falloff } => min_radius2 >= 1 && radial_bound(
            strength as int,
            min_radius2 as int,
            falloff,
        ) <= FORCE_LIMIT,
        ForceLaw::ChargeRadial { strength, min_radius2, falloff } => min_radius2 >= 1 && mag(
            strength as int,
        ) <= FORCE_LIMIT && radial_bound(charge_cap(strength as int), min_radius2 as int, falloff)
            <= FORCE_LIMIT,
        ForceLaw::Spring { strength, offset } => (offset as int) < n && spring_bound(
            strength as int,
        ) <= FORCE_LIMIT,
        ForceLaw::Drag { coefficient } => coefficient >= SCALE,
    }
}

/// A bound on the magnitude of the whole per-particle contribution of one
/// law for one step: all-pairs laws contribute up to `n - 1` times.
pub open spec fn law_total_bound(law: ForceLaw, n: int) -> int {
    match law {
        ForceLaw::Radial { strength, min_radius2, falloff } => (n - 1) * law_pair_bound(law),
        ForceLaw::ChargeRadial { strength, min_radius2, falloff } => (n - 1) * law_pair_bound(law),
        ForceLaw::Spring { strength, offset } => law_pair_bound(law),
        ForceLaw::Drag { coefficient } => law_pair_bound(law),
    }
}

/// A bound on the magnitude of the accumulated force on any one particle
/// under the whole law list.
pub open spec fn laws_bound(laws: Seq<ForceLaw>, n: int) -> int
    decreases laws.len(),
{
    if laws.len() == 0 {
        0
    } else {
        laws_bound(laws.drop_last(), n) + law_total_bound(laws.last(), n)
    }
}

/// A valid configuration for an ensemble of `n` particles: the time step in
/// `(0, 1]` whole units, every law structurally valid, and the total force
/// bound within the representable accumulator range.
pub open spec fn config_wf(dt: int, laws: Seq<ForceLaw>, n: int) -> bool {
    &&& 1 <= dt <= SCALE
    &&& 1 <= n
    &&& forall|l: int| 0 <= l < laws.len() ==> law_wf(#[trigger] laws[l], n)
    &&& laws_bound(laws, n) <= FORCE_LIMIT
}

/// Pair and total bounds of a valid law are nonnegative.
pub proof fn lemma_law_bounds_nonneg(law: ForceLaw, n: int)
    requires
        law_wf(law, n),
        n >= 1,
    ensures
        law_pair_bound(law) >= 0,
        law_total_bound(law, n) >= 0,
{
    match law {
        ForceLaw::Radial { strength, min_radius2, falloff } => {
            lemma_radial_bound_nonneg(strength as int, min_radius2 as int, falloff);
            lemma_pairs_scale(law_pair_bound(law), n);
        },
        ForceLaw::ChargeRadial { strength, min_radius2, falloff } => {
            lemma_charge_cap_nonneg(strength as int);
            lemma_radial_bound_nonneg(charge_cap(strength as int), min_radius2 as int, falloff);
            lemma_pairs_scale(law_pair_bound(law), n);
        },
        ForceLaw::Spring { strength, offset } => {
            assert(mag(strength as int) * (2 * COORD_LIMIT as int) >= 0) by (nonlinear_arith)
                requires
                    mag(strength as int) >= 0,
            ;
            lemma_div_pos_is_pos(mag(strength as int) * (2 * COORD_LIMIT as int), SCALE as int);
        },
        ForceLaw::Drag { coefficient } => {},
    }
}

/// Nonnegativity of the radial bound.
proof fn lemma_radial_bound_nonneg(s: int, r2: int, falloff: Falloff)
    requires
        r2 >= 1,
    ensures
        radial_bound(s, r2, falloff) >= 0,
{
    assert(mag(s) * SCALE as int * SCALE as int >= 0 && mag(s) * SCALE as int >= 0)
        by (nonlinear_arith)
        requires
            mag(s) >= 0,
    ;
    lemma_div_pos_is_pos(mag(s) * SCALE as int * SCALE as int, r2);
}

/// Nonnegativity of the charge cap.
proof fn lemma_charge_cap_nonneg(s: int)
    ensures
        charge_cap(s) >= 0,
{
    assert(mag(s) * CHARGE_LIMIT as int >= 0) by (nonlinear_arith)
        requires
            mag(s) >= 0,
    ;
    lemma_div_pos_is_pos(mag(s) * CHARGE_LIMIT as int, SCALE as int);
    let m1 = (mag(s) * CHARGE_LIMIT as int) / SCALE as int;
    assert(m1 * CHARGE_LIMIT as int >= 0) by (nonlinear_arith)
        requires
            m1 >= 0,
    ;
    lemma_div_pos_is_pos(m1 * CHARGE_LIMIT as int, SCALE as int);
}

/// `(n - 1)` copies of a nonnegative pair bound are nonnegative.
proof fn lemma_pairs_scale(b: int, n: int)
    requires
        b >= 0,
        n >= 1,
    ensures
        (n - 1) * b >= 0,
{
    assert((n - 1) * b >= 0) by (nonlinear_arith)
        requires
            b >= 0,
            n >= 1,
    ;
}

/// A prefix of a valid law list never exceeds the whole list's bound.
pub proof fn lemma_laws_bound_grows(laws: Seq<ForceLaw>, n: int, l: int)
    requires
        n >= 1,
        0 <= l <= laws.len(),
        forall|j: int| l <= j < laws.len() ==> law_wf(#[trigger] laws[j], n),
    ensures
        laws_bound(laws.take(l), n) <= laws_bound(laws, n),
    decreases laws.len() - l,
{
    if l == laws.len() {
        assert(laws.take(l) =~= laws);
    } else {
        lemma_laws_bound_grows(laws, n, l + 1);
        assert(laws.take(l + 1).drop_last() =~= laws.take(l));
        assert(laws.take(l + 1).last() == laws[l]);
        lemma_law_bounds_nonneg(laws[l], n);
    }
}

/// Whether one law is admissible for an ensemble of `n` particles.
fn law_admissible(law: &ForceLaw, n: usize) -> (ok: bool)
    requires
        n >= 1,
    ensures
        ok == law_wf(*law, n as int),
{
    match *law {
        ForceLaw::Radial { strength, min_radius2, falloff } => min_radius2 >= 1 && radial_bound_ok(
            strength,
            min_radius2,
            falloff,
        ),
        ForceLaw::ChargeRadial { strength, min_radius2, falloff } => {
            if min_radius2 < 1 {
                false
            } else if !(-FORCE_LIMIT <= strength && strength <= FORCE_LIMIT) {
                false
            } else {
                let cap = charge_cap_exec(strength);
                radial_bound_ok(cap, min_radius2, falloff)
            }
        },
        ForceLaw::Spring { strength, offset } => {
            if offset >= n {
                false
            } else {
                let sm: u128 = if strength < 0 {
                    (-(strength as i128)) as u128
                } else {
                    strength as u128
                };
                proof {
                    lemma_strength_products_fit(sm as int);
                }
                sm * (2 * COORD_LIMIT as u128) / (SCALE as u128) <= FORCE_LIMIT as u128
            }
        },
        ForceLaw::Drag { coefficient } => coefficient >= SCALE,
    }
}

/// Whether the radial bound for these parameters fits the accumulator range.
fn radial_bound_ok(strength: i64, min_radius2: i64, falloff: Falloff) -> (ok: bool)
    requires
        min_radius2 >= 1,
    ensures
        ok == (radial_bound(strength as int, min_radius2 as int, falloff) <= FORCE_LIMIT),
{
    let sm: u128 = if strength < 0 {
        (-(strength as i128)) as u128
    } else {
        strength as u128
    };
    proof {
        lemma_strength_products_fit(sm as int);
    }
    match falloff {
        Falloff::InverseSquare => sm * (SCALE as u128) * (SCALE as u128) / (min_radius2 as u128)
            <= FORCE_LIMIT as u128,
        Falloff::InverseLinear => sm * (SCALE as u128) <= FORCE_LIMIT as u128,
    }
}

/// The charge cap of an in-range strength, computed exactly.
fn charge_cap_exec(strength: i64) -> (c: i64)
    requires
        mag(strength as int) <= FORCE_LIMIT,
    ensures
        c == charge_cap(strength as int),
        0 <= c,
{
    proof {
        lemma_charge_cap_nonneg(strength as int);
        lemma_charge_cap_small(strength as int);
    }
    let sm: u128 = if strength < 0 {
        (-(strength as i128)) as u128
    } else {
        strength as u128
    };
    (sm * (CHARGE_LIMIT as u128) / (SCALE as u128) * (CHARGE_LIMIT as u128) / (SCALE as u128))
        as i64
}

/// The charge cap of an in-range strength fits the executable range.
proof fn lemma_charge_cap_small(s: int)
    requires
        mag(s) <= FORCE_LIMIT,
    ensures
        charge_cap(s) <= 0x10_0000_0000_0000,
{
    assert(mag(s) * CHARGE_LIMIT as int <= FORCE_LIMIT as int * CHARGE_LIMIT as int)
        by (nonlinear_arith)
        requires
            0 <= mag(s) <= FORCE_LIMIT,
    ;
    vstd::arithmetic::div_mod::lemma_div_is_ordered(mag(s) * CHARGE_LIMIT as int,
        FORCE_LIMIT as int * CHARGE_LIMIT as int, SCALE as int);
    assert(FORCE_LIMIT as int * CHARGE_LIMIT as int / SCALE as int == 0x1_0000_0000_0000)
        by (nonlinear_arith);
    let m1 = (mag(s) * CHARGE_LIMIT as int) / SCALE as int;
    assert(m1 * CHARGE_LIMIT as int <= 0x1_0000_0000_0000 * CHARGE_LIMIT as int)
        by (nonlinear_arith)
        requires
            0 <= m1 <= 0x1_0000_0000_0000,
    ;
    vstd::arithmetic::div_mod::lemma_div_is_ordered(m1 * CHARGE_LIMIT as int, 0x1_0000_0000_0000
        * CHARGE_LIMIT as int, SCALE as int);
    assert(0x1_0000_0000_0000 * CHARGE_LIMIT as int / SCALE as int == 0x10_0000_0000_0000)
        by (nonlinear_arith);
}

/// The whole per-particle bound of one admissible law, computed exactly.
fn law_total_bound_exec(law: &ForceLaw, n: usize) -> (b: u128)
    requires
        n >= 1,
        law_wf(*law, n as int),
    ensures
        b == law_total_bound(*law, n as int),
        b <= 0x1000_0000_0000_0000_0000_0000_0000,
{
    proof {
        lemma_law_bounds_nonneg(*law, n as int);
    }
    match *law {
        ForceLaw::Radial { strength, min_radius2, falloff } => {
            let pb = radial_bound_u128(strength, min_radius2, falloff);
            proof {
                assert((n as int - 1) * law_pair_bound(*law) <= 0x1_0000_0000_0000_0000
                    * 0x1000_0000_0000) by (nonlinear_arith)
                    requires
                        0 <= n as int - 1 <= 0x1_0000_0000_0000_0000,
                        0 <= law_pair_bound(*law) <= 0x1000_0000_0000,
                ;
            }
            (n as u128 - 1) * pb
        },
        ForceLaw::ChargeRadial { strength, min_radius2, falloff } => {
            let cap = charge_cap_exec(strength);
            let pb = radial_bound_u128(cap, min_radius2, falloff);
            proof {
                assert((n as int - 1) * law_pair_bound(*law) <= 0x1_0000_0000_0000_0000
                    * 0x1000_0000_0000) by (nonlinear_arith)
                    requires
                        0 <= n as int - 1 <= 0x1_0000_0000_0000_0000,
                        0 <= law_pair_bound(*law) <= 0x1000_0000_0000,
                ;
            }
            (n as u128 - 1) * pb
        },
        ForceLaw::Spring { strength, offset } => {
            let sm: u128 = if strength < 0 {
                (-(strength as i128)) as u128
            } else {
                strength as u128
            };
            proof {
                lemma_strength_products_fit(sm as int);
            }
            sm * (2 * COORD_LIMIT as u128) / (SCALE as u128)
        },
        ForceLaw::Drag { coefficient } => COORD_LIMIT as u128,
    }
}

/// Products of a strength magnitude with the scale stay far inside `u128`.
proof fn lemma_strength_products_fit(sm: int)
    requires
        0 <= sm <= 0x8000_0000_0000_0000,
    ensures
        sm * SCALE as int <= 0x8000_0000_0000_0000 * 0x1_0000,
        sm * SCALE as int * SCALE as int <= 0x8000_0000_0000_0000 * 0x1_0000 * 0x1_0000,
        sm * (2 * COORD_LIMIT as int) <= 0x8000_0000_0000_0000 * 0x1_0000_0000,
{
    assert(sm * SCALE as int <= 0x8000_0000_0000_0000 * 0x1_0000 && sm * SCALE as int
        * SCALE as int <= 0x8000_0000_0000_0000 * 0x1_0000 * 0x1_0000 && sm * (2
        * COORD_LIMIT as int) <= 0x8000_0000_0000_0000 * 0x1_0000_0000) by (nonlinear_arith)
        requires
            0 <= sm <= 0x8000_0000_0000_0000,
    ;
}

/// The radial bound for in-range parameters, computed exactly.
fn radial_bound_u128(strength: i64, min_radius2: i64, falloff: Falloff) -> (b: u128)
    requires
        min_radius2 >= 1,
        radial_bound(strength as int, min_radius2 as int, falloff) <= FORCE_LIMIT,
    ensures
        b == radial_bound(strength as int, min_radius2 as int, falloff),
        b <= FORCE_LIMIT as u128,
{
    let sm: u128 = if strength < 0 {
        (-(strength as i128)) as u128
    } else {
        strength as u128
    };
    proof {
        lemma_strength_products_fit(sm as int);
    }
    match falloff {
        Falloff::InverseSquare => sm * (SCALE as u128) * (SCALE as u128) / (min_radius2 as u128),
        Falloff::InverseLinear => sm * (SCALE as u128),
    }
}

impl Config {
    /// Validate and build a configuration for an ensemble of `n` particles:
    /// the time step must lie in `(0, 1]` whole units, each law must be
    /// structurally valid, and the strengths must be weak enough that no
    /// accumulated force can leave the representable range.
    pub fn new(dt: i64, laws: Vec<ForceLaw>, n: usize) -> (r: Result<Config, SimError>)
        ensures
            config_wf(dt as int, laws@, n as int) ==> (r is Ok && r->Ok_0.dt == dt
                && r->Ok_0.laws@ == laws@),
            !config_wf(dt as int, laws@, n as int) ==> r == Err::<Config, SimError>(
                SimError::InvalidConfig,
            ),
    {
        if dt < 1 || dt > SCALE || n == 0 {
            return Err(SimError::InvalidConfig);
        }
        let mut total: u128 = 0;
        let mut l: usize = 0;
        while l < laws.len()
            invariant
                0 <= l <= laws@.len(),
                1 <= n,
                total == laws_bound(laws@.take(l as int), n as int),
                total <= FORCE_LIMIT as u128,
                forall|j: int| 0 <= j < l ==> law_wf(#[trigger] laws@[j], n as int),
            decreases laws@.len() - l,
        {
            let law = laws[l];
            if !law_admissible(&law, n) {
                return Err(SimError::InvalidConfig);
            }
            let tb = law_total_bound_exec(&law, n);
            proof {
                assert(laws@.take(l as int + 1).drop_last() =~= laws@.take(l as int));
                assert(laws@.take(l as int + 1).last() == laws@[l as int]);
            }
            if total + tb > FORCE_LIMIT as u128 {
                proof {
                    if config_wf(dt as int, laws@, n as int) {
                        lemma_laws_bound_grows(laws@, n as int, l as int + 1);
                    }
                }
                return Err(SimError::InvalidConfig);
            }
            total = total + tb;
            l = l + 1;
        }
        proof {
            assert(laws@.take(laws@.len() as int) =~= laws@);
        }
        Ok(Config { dt, laws })
    }
}


/// The contribution of one all-pairs law to particle `i` from particle `j`.
pub open spec fn pair_law_force(s: Seq<Particle>, law: ForceLaw, i: int, j: int) -> V3i {
    match law {
        ForceLaw::Radial { strength, min_radius2, falloff } => radial_force(
            strength as int,
            min_radius2 as int,
            falloff,
            s[i].position,
            s[j].position,
        ),
        ForceLaw::ChargeRadial { strength, min_radius2, falloff } => radial_force(
            charge_scaled(strength as int, s[i].charge as int, s[j].charge as int),
            min_radius2 as int,
            falloff,
            s[i].position,
            s[j].position,
        ),
        ForceLaw::Spring { strength, offset } => v3i_zero(),
        ForceLaw::Drag { coefficient } => v3i_zero(),
    }
}

/// The sum of one all-pairs law's contributions to `i` from every `j < m`
/// other than `i` itself.
pub open spec fn pair_sum(s: Seq<Particle>, law: ForceLaw, i: int, m: int) -> V3i
    decreases m,
{
    if m <= 0 {
        v3i_zero()
    } else if m - 1 == i {
        pair_sum(s, law, i, m - 1)
    } else {
        v3i_add(pair_sum(s, law, i, m - 1), pair_law_force(s, law, i, m - 1))
    }
}

/// How many indices below `m` contribute to particle `i`.
pub open spec fn pair_count(i: int, m: int) -> int {
    if 0 <= i < m {
        m - 1
    } else {
        m
    }
}

/// The whole contribution of one law to particle `i`.
pub open spec fn law_force(s: Seq<Particle>, law: ForceLaw, i: int) -> V3i {
    match law {
        ForceLaw::Radial { strength, min_radius2, falloff } => pair_sum(s, law, i, s.len() as int),
        ForceLaw::ChargeRadial { strength, min_radius2, falloff } => pair_sum(
            s,
            law,
            i,
            s.len() as int,
        ),
        ForceLaw::Spring { strength, offset } => spring_force(
            strength as int,
            s[i].position,
            s[neighbor_of(i, offset as int, s.len() as int)].position,
        ),
        ForceLaw::Drag { coefficient } => drag_force(coefficient as int, s[i].velocity),
    }
}

/// The force the evaluation phase computes for particle `i`: the sum of
/// every configured law's contribution, evaluated on the snapshot `s`.
pub open spec fn force_on(s: Seq<Particle>, laws: Seq<ForceLaw>, i: int) -> V3i
    decreases laws.len(),
{
    if laws.len() == 0 {
        v3i_zero()
    } else {
        v3i_add(force_on(s, laws.drop_last(), i), law_force(s, laws.last(), i))
    }
}

/// Every particle of the sequence is well-formed.
pub open spec fn ensemble_wf(s: Seq<Particle>) -> bool {
    forall|i: int| 0 <= i < s.len() ==> (#[trigger] s[i]).wf()
}

/// One pair contribution of a valid law stays within the law's pair bound.
proof fn lemma_pair_force_bound(s: Seq<Particle>, law: ForceLaw, i: int, j: int)
    requires
        ensemble_wf(s),
        law_wf(law, s.len() as int),
        0 <= i < s.len(),
        0 <= j < s.len(),
    ensures
        v3i_bounded(pair_law_force(s, law, i, j), law_pair_bound(law)),
{
    match law {
        ForceLaw::Radial { strength, min_radius2, falloff } => {
            lemma_radial_force_bound(strength as int, min_radius2 as int, falloff, s[i].position,
                s[j].position);
        },
        ForceLaw::ChargeRadial { strength, min_radius2, falloff } => {
            let eff = charge_scaled(strength as int, s[i].charge as int, s[j].charge as int);
            lemma_charge_scaled_cap(strength as int, s[i].charge as int, s[j].charge as int);
            lemma_radial_force_bound(eff, min_radius2 as int, falloff, s[i].position,
                s[j].position);
            lemma_radial_bound_mono(eff, charge_cap(strength as int), min_radius2 as int, falloff);
        },
        ForceLaw::Spring { strength, offset } => {
            lemma_law_bounds_nonneg(law, s.len() as int);
        },
        ForceLaw::Drag { coefficient } => {},
    }
}

/// A partial pair sum stays within the matching multiple of the pair bound.
proof fn lemma_pair_sum_bound(s: Seq<Particle>, law: ForceLaw, i: int, m: int)
    requires
        ensemble_wf(s),
        law_wf(law, s.len() as int),
        0 <= i < s.len(),
        0 <= m <= s.len(),
    ensures
        v3i_bounded(pair_sum(s, law, i, m), pair_count(i, m) * law_pair_bound(law)),
    decreases m,
{
    lemma_law_bounds_nonneg(law, s.len() as int);
    let b = law_pair_bound(law);
    if m <= 0 {
        assert(pair_count(i, 0) * b == 0) by (nonlinear_arith);
    } else {
        lemma_pair_sum_bound(s, law, i, m - 1);
        if m - 1 == i {
        } else {
            lemma_pair_force_bound(s, law, i, m - 1);
            assert((pair_count(i, m - 1) + 1) * b == pair_count(i, m - 1) * b + b)
                by (nonlinear_arith);
        }
    }
}

/// The whole contribution of one valid law stays within the law's total
/// bound.
proof fn lemma_law_force_bound(s: Seq<Particle>, law: ForceLaw, i: int)
    requires
        ensemble_wf(s),
        law_wf(law, s.len() as int),
        s.len() >= 1,
        0 <= i < s.len(),
    ensures
        v3i_bounded(law_force(s, law, i), law_total_bound(law, s.len() as int)),
{
    let n = s.len() as int;
    match law {
        ForceLaw::Radial { strength, min_radius2, falloff } => {
            lemma_pair_sum_bound(s, law, i, n);
        },
        ForceLaw::ChargeRadial { strength, min_radius2, falloff } => {
            lemma_pair_sum_bound(s, law, i, n);
        },
        ForceLaw::Spring { strength, offset } => {
            lemma_spring_force_bound(strength as int, s[i].position,
                s[neighbor_of(i, offset as int, n)].position);
            assert(0 <= neighbor_of(i, offset as int, n) < n) by {
                vstd::arithmetic::div_mod::lemma_mod_division_less_than_divisor(
                    i + offset as int, n);
            }
        },
        ForceLaw::Drag { coefficient } => {
            crate::forces::lemma_drag_opposes(coefficient as int, s[i].velocity);
        },
    }
}

/// The accumulated force of a valid configuration stays within the
/// configuration's bound.
pub proof fn lemma_force_on_bound(s: Seq<Particle>, laws: Seq<ForceLaw>, i: int)
    requires
        ensemble_wf(s),
        s.len() >= 1,
        0 <= i < s.len(),
        forall|l: int| 0 <= l < laws.len() ==> law_wf(#[trigger] laws[l], s.len() as int),
    ensures
        v3i_bounded(force_on(s, laws, i), laws_bound(laws, s.len() as int)),
    decreases laws.len(),
{
    if laws.len() == 0 {
    } else {
        assert(forall|l: int|
            0 <= l < laws.drop_last().len() ==> law_wf(#[trigger] laws.drop_last()[l],
            s.len() as int));
        lemma_force_on_bound(s, laws.drop_last(), i);
        lemma_law_force_bound(s, laws.last(), i);
    }
}

/// The fixed-size ordered collection of all particles in a run.
#[derive(Debug)]
pub struct Ensemble {
    pub particles: Vec<Particle>,
}

impl Ensemble {
    /// Every particle is within the representable range.
    pub open spec fn wf(&self) -> bool {
        ensemble_wf(self.particles@)
    }

    /// Validate and take ownership of an initial particle list.
    pub fn new(particles: Vec<Particle>) -> (r: Result<Ensemble, SimError>)
        ensures
            ensemble_wf(particles@) ==> (r is Ok && r->Ok_0.particles@ == particles@),
            !ensemble_wf(particles@) ==> r == Err::<Ensemble, SimError>(SimError::OutOfBounds),
    {
        let mut i: usize = 0;
        while i < particles.len()
            invariant
                0 <= i <= particles@.len(),
                forall|j: int| 0 <= j < i ==> (#[trigger] particles@[j]).wf(),
            decreases particles@.len() - i,
        {
            let p = particles[i];
            let ok = p.inertia >= 1 && vec3_within(&p.position, COORD_LIMIT) && vec3_within(
                &p.velocity,
                COORD_LIMIT,
            ) && vec3_within(&p.pending_acceleration, FORCE_LIMIT) && -CHARGE_LIMIT <= p.charge
                && p.charge <= CHARGE_LIMIT;
            if !ok {
                return Err(SimError::OutOfBounds);
            }
            i = i + 1;
        }
        Ok(Ensemble { particles })
    }

    /// The number of particles; fixed for the lifetime of a run.
    pub fn len(&self) -> (n: usize)
        ensures
            n == self.particles@.len(),
    {
        self.particles.len()
    }

    /// A read-only snapshot of every particle's position, in index order:
    /// what the rendering sink is handed once per frame.
    pub fn positions(&self) -> (ps: Vec<Vec3>)
        ensures
            ps@.len() == self.particles@.len(),
            forall|i: int| 0 <= i < ps@.len() ==> ps@[i] == self.particles@[i].position,
    {
        let mut ps: Vec<Vec3> = Vec::new();
        let mut i: usize = 0;
        while i < self.particles.len()
            invariant
                0 <= i <= self.particles@.len(),
                ps@.len() == i,
                forall|j: int| 0 <= j < i ==> ps@[j] == self.particles@[j].position,
            decreases self.particles@.len() - i,
        {
            let p = self.particles[i];
            ps.push(p.position);
            i = i + 1;
        }
        ps
    }
}

/// The full configured force on particle `i`, computed from a read-only
/// snapshot of the ensemble: the work one worker performs for one particle
/// it owns.
pub fn accel_for(ens: &Ensemble, cfg: &Config, i: usize) -> (f: Vec3)
    requires
        ens.wf(),
        config_wf(cfg.dt as int, cfg.laws@, ens.particles@.len() as int),
        i < ens.particles@.len(),
    ensures
        f.x == force_on(ens.particles@, cfg.laws@, i as int).x,
        f.y == force_on(ens.particles@, cfg.laws@, i as int).y,
        f.z == force_on(ens.particles@, cfg.laws@, i as int).z,
        vec3_bounded(f, FORCE_LIMIT as int),
{
    let ghost s = ens.particles@;
    let n = ens.particles.len();
    let pi = ens.particles[i];
    let mut fx: i64 = 0;
    let mut fy: i64 = 0;
    let mut fz: i64 = 0;
    let mut l: usize = 0;
    while l < cfg.laws.len()
        invariant
            ens.wf(),
            config_wf(cfg.dt as int, cfg.laws@, n as int),
            s == ens.particles@,
            n == s.len(),
            i < n,
            pi == s[i as int],
            0 <= l <= cfg.laws@.len(),
            fx == force_on(s, cfg.laws@.take(l as int), i as int).x,
            fy == force_on(s, cfg.laws@.take(l as int), i as int).y,
            fz == force_on(s, cfg.laws@.take(l as int), i as int).z,
            mag(fx as int) <= laws_bound(cfg.laws@.take(l as int), n as int),
            mag(fy as int) <= laws_bound(cfg.laws@.take(l as int), n as int),
            mag(fz as int) <= laws_bound(cfg.laws@.take(l as int), n as int),
            laws_bound(cfg.laws@.take(l as int), n as int) <= FORCE_LIMIT,
        decreases cfg.laws@.len() - l,
    {
        let law = cfg.laws[l];
        let ghost prefix = cfg.laws@.take(l as int);
        let ghost prefix1 = cfg.laws@.take(l as int + 1);
        proof {
            assert(prefix1.drop_last() =~= prefix);
            assert(prefix1.last() == law);
            lemma_laws_bound_grows(cfg.laws@, n as int, l as int + 1);
            lemma_law_bounds_nonneg(law, n as int);
            lemma_law_force_bound(s, law, i as int);
        }
        match law {
            ForceLaw::Radial { strength, min_radius2, falloff } => {
                let ghost base = force_on(s, prefix, i as int);
                let ghost bb = laws_bound(prefix, n as int);
                let ghost pb = law_pair_bound(law);
                let mut j: usize = 0;
                while j < n
                    invariant
                        ens.wf(),
                        s == ens.particles@,
                        n == s.len(),
                        i < n,
                        pi == s[i as int],
                        law == (ForceLaw::Radial { strength, min_radius2, falloff }),
                        law_wf(law, n as int),
                        0 <= j <= n,
                        base == force_on(s, prefix, i as int),
                        bb == laws_bound(prefix, n as int),
                        pb == law_pair_bound(law),
                        bb + law_total_bound(law, n as int) <= FORCE_LIMIT,
                        mag(base.x) <= bb && mag(base.y) <= bb && mag(base.z) <= bb,
                        fx == v3i_add(base, pair_sum(s, law, i as int, j as int)).x,
                        fy == v3i_add(base, pair_sum(s, law, i as int, j as int)).y,
                        fz == v3i_add(base, pair_sum(s, law, i as int, j as int)).z,
                    decreases n - j,
                {
                    if j != i {
                        let pj = ens.particles[j];
                        let c = radial(strength, min_radius2, falloff, &pi.position, &pj.position);
                        proof {
                            lemma_pair_force_bound(s, law, i as int, j as int);
                            lemma_pair_sum_bound(s, law, i as int, j as int);
                            lemma_pair_sum_bound(s, law, i as int, j as int + 1);
                            lemma_sum_fits(bb, pb, pair_count(i as int, j as int),
                                law_total_bound(law, n as int), n as int);
                        }
                        fx = fx + c.x;
                        fy = fy + c.y;
                        fz = fz + c.z;
                    }
                    j = j + 1;
                }
                proof {
                    lemma_pair_sum_bound(s, law, i as int, n as int);
                }
            },
            ForceLaw::ChargeRadial { strength, min_radius2, falloff } => {
                let ghost base = force_on(s, prefix, i as int);
                let ghost bb = laws_bound(prefix, n as int);
                let ghost pb = law_pair_bound(law);
                let mut j: usize = 0;
                while j < n
                    invariant
                        ens.wf(),
                        s == ens.particles@,
                        n == s.len(),
                        i < n,
                        pi == s[i as int],
                        law == (ForceLaw::ChargeRadial { strength, min_radius2, falloff }),
                        law_wf(law, n as int),
                        0 <= j <= n,
                        base == force_on(s, prefix, i as int),
                        bb == laws_bound(prefix, n as int),
                        pb == law_pair_bound(law),
                        bb + law_total_bound(law, n as int) <= FORCE_LIMIT,
                        mag(base.x) <= bb && mag(base.y) <= bb && mag(base.z) <= bb,
                        fx == v3i_add(base, pair_sum(s, law, i as int, j as int)).x,
                        fy == v3i_add(base, pair_sum(s, law, i as int, j as int)).y,
                        fz == v3i_add(base, pair_sum(s, law, i as int, j as int)).z,
                    decreases n - j,
                {
                    if j != i {
                        let pj = ens.particles[j];
                        proof {
                            lemma_charge_scaled_cap(strength as int, pi.charge as int,
                                pj.charge as int);
                            lemma_radial_bound_mono(charge_scaled(strength as int, pi.charge as int,
                                pj.charge as int), charge_cap(strength as int), min_radius2 as int,
                                falloff);
                        }
                        let eff = charge_strength(strength, pi.charge, pj.charge);
                        let c = radial(eff, min_radius2, falloff, &pi.position, &pj.position);
                        proof {
                            lemma_pair_force_bound(s, law, i as int, j as int);
                            lemma_pair_sum_bound(s, law, i as int, j as int);
                            lemma_pair_sum_bound(s, law, i as int, j as int + 1);
                            lemma_sum_fits(bb, pb, pair_count(i as int, j as int),
                                law_total_bound(law, n as int), n as int);
                        }
                        fx = fx + c.x;
                        fy = fy + c.y;
                        fz = fz + c.z;
                    }
                    j = j + 1;
                }
                proof {
                    lemma_pair_sum_bound(s, law, i as int, n as int);
                }
            },
            ForceLaw::Spring { strength, offset } => {
                let j = neighbor(i, offset, n);
                let pj = ens.particles[j];
                let c = spring(strength, &pi.position, &pj.position);
                proof {
                    lemma_spring_force_bound(strength as int, pi.position, pj.position);
                }
                fx = fx + c.x;
                fy = fy + c.y;
                fz = fz + c.z;
            },
            ForceLaw::Drag { coefficient } => {
                let c = drag(coefficient, &pi.velocity);
                proof {
                    crate::forces::lemma_drag_opposes(coefficient as int, pi.velocity);
                }
                fx = fx + c.x;
                fy = fy + c.y;
                fz = fz + c.z;
            },
        }
        l = l + 1;
    }
    proof {
        assert(cfg.laws@.take(cfg.laws@.len() as int) =~= cfg.laws@);
    }
    Vec3 { x: fx, y: fy, z: fz }
}

/// A partial accumulator plus one more bounded contribution stays within the
/// running bound.
proof fn lemma_sum_fits(bb: int, pb: int, count: int, total: int, n: int)
    requires
        pb >= 0,
        0 <= count <= n - 2,
        total == (n - 1) * pb,
    ensures
        count * pb + pb <= total,
        (count + 1) * pb == count * pb + pb,
{
    assert((count + 1) * pb == count * pb + pb && (count + 1) * pb <= (n - 1) * pb)
        by (nonlinear_arith)
        requires
            pb >= 0,
            count + 1 <= n - 1,
    ;
}


/// The particle with its accumulator replaced by the given force vector.
pub open spec fn with_force(p: Particle, f: V3i) -> Particle {
    Particle {
        position: p.position,
        velocity: p.velocity,
        pending_acceleration: Vec3 { x: f.x as i64, y: f.y as i64, z: f.z as i64 },
        inertia: p.inertia,
        charge: p.charge,
    }
}

/// The state the evaluation phase produces from snapshot `pre`: every
/// accumulator holds that particle's configured force; positions,
/// velocities, inertias and charges are untouched. The worker count does not
/// appear: the evaluated state is a function of the snapshot and the law
/// list alone.
pub open spec fn evaluated(pre: Seq<Particle>, laws: Seq<ForceLaw>) -> Seq<Particle> {
    Seq::new(pre.len(), |i: int| with_force(pre[i], force_on(pre, laws, i)))
}

/// Evaluating the same snapshot under the same laws gives the same state,
/// whatever partitioning or worker count produced each result: the
/// concurrent evaluation phase is equivalent to the sequential one.
pub proof fn lemma_evaluation_deterministic(
    pre: Seq<Particle>,
    laws: Seq<ForceLaw>,
    post1: Seq<Particle>,
    post2: Seq<Particle>,
)
    requires
        post1 == evaluated(pre, laws),
        post2 == evaluated(pre, laws),
    ensures
        post1 == post2,
{
}


/// One computed force vector matches the model value and is in range.
pub open spec fn force_matches(v: Vec3, f: V3i) -> bool {
    v.x == f.x && v.y == f.y && v.z == f.z && vec3_bounded(v, FORCE_LIMIT as int)
}

/// Worker `w`'s output holds exactly the forces of its sub-range.
pub open spec fn worker_out_ok(
    out: Seq<Vec3>,
    pre: Seq<Particle>,
    laws: Seq<ForceLaw>,
    t: int,
    w: int,
    n: int,
) -> bool {
    let lo = part_start(n, t, w);
    let hi = part_start(n, t, w + 1);
    &&& out.len() == hi - lo
    &&& 0 <= lo <= hi <= n
    &&& forall|j: int| 0 <= j < out.len() ==> force_matches(#[trigger] out[j], force_on(pre, laws, lo + j))
}

/// The first `k` workers' outputs all hold their sub-ranges' forces.
pub open spec fn outs_ok(
    outs: Seq<Vec<Vec3>>,
    pre: Seq<Particle>,
    laws: Seq<ForceLaw>,
    t: int,
    k: int,
    n: int,
) -> bool {
    forall|w: int| 0 <= w < k ==> worker_out_ok((#[trigger] outs[w])@, pre, laws, t, w, n)
}

/// The forces for the particles of one partition, computed from a read-only
/// snapshot of the whole ensemble: one worker's computation.
pub fn eval_partition(ens: &Ensemble, cfg: &Config, lo: usize, hi: usize) -> (out: Vec<Vec3>)
    requires
        ens.wf(),
        config_wf(cfg.dt as int, cfg.laws@, ens.particles@.len() as int),
        lo <= hi <= ens.particles@.len(),
    ensures
        out@.len() == hi - lo,
        forall|k: int|
            0 <= k < out@.len() ==> {
                let f = force_on(ens.particles@, cfg.laws@, lo + k);
                (#[trigger] out@[k]).x == f.x && out@[k].y == f.y && out@[k].z == f.z
                    && vec3_bounded(out@[k], FORCE_LIMIT as int)
            },
{
    let mut out: Vec<Vec3> = Vec::new();
    let mut i: usize = lo;
    while i < hi
        invariant
            ens.wf(),
            config_wf(cfg.dt as int, cfg.laws@, ens.particles@.len() as int),
            lo <= i <= hi <= ens.particles@.len(),
            out@.len() == i - lo,
            forall|k: int|
                0 <= k < out@.len() ==> {
                    let f = force_on(ens.particles@, cfg.laws@, lo + k);
                    (#[trigger] out@[k]).x == f.x && out@[k].y == f.y && out@[k].z == f.z
                        && vec3_bounded(out@[k], FORCE_LIMIT as int)
                },
        decreases hi - i,
    {
        let f = accel_for(ens, cfg, i);
        out.push(f);
        i = i + 1;
    }
    out
}

/// Write one partition's computed forces into the accumulators of exactly
/// the particles of that partition — the only writes a worker performs, so
/// two workers with disjoint partitions never write the same particle.
pub fn apply_partition(ens: &mut Ensemble, lo: usize, forces: &Vec<Vec3>)
    requires
        lo + forces@.len() <= old(ens).particles@.len(),
    ensures
        final(ens).particles@.len() == old(ens).particles@.len(),
        forall|i: int|
            lo <= i < lo + forces@.len() ==> final(ens).particles@[i] == (Particle {
                pending_acceleration: forces@[i - lo],
                ..old(ens).particles@[i]
            }),
        forall|i: int|
            (0 <= i < lo || lo + forces@.len() <= i < old(ens).particles@.len())
                ==> final(ens).particles@[i] == old(ens).particles@[i],
{
    let n = ens.particles.len();
    let mut k: usize = 0;
    while k < forces.len()
        invariant
            lo + forces@.len() <= n,
            n == ens.particles@.len(),
            ens.particles@.len() == old(ens).particles@.len(),
            0 <= k <= forces@.len(),
            forall|i: int|
                lo <= i < lo + k ==> ens.particles@[i] == (Particle {
                    pending_acceleration: forces@[i - lo],
                    ..old(ens).particles@[i]
                }),
            forall|i: int|
                (0 <= i < lo || lo + k <= i < old(ens).particles@.len()) ==> ens.particles@[i]
                    == old(ens).particles@[i],
        decreases forces@.len() - k,
    {
        let i = lo + k;
        let mut p = ens.particles[i];
        p.pending_acceleration = forces[k];
        ens.particles[i] = p;
        k = k + 1;
    }
}

/// One full evaluation phase: partition `[0, n)` over the workers, compute
/// every partition's forces from the shared snapshot, then write each
/// partition's results into its own particles. The outcome is `evaluated`,
/// whatever the worker count.
pub fn evaluate_forces(ens: &mut Ensemble, cfg: &Config, workers: usize)
    requires
        old(ens).wf(),
        config_wf(cfg.dt as int, cfg.laws@, old(ens).particles@.len() as int),
        workers >= 1,
    ensures
        final(ens).particles@ == evaluated(old(ens).particles@, cfg.laws@),
        final(ens).wf(),
{
    let ghost pre = ens.particles@;
    let n = ens.particles.len();
    let mut outs: Vec<Vec<Vec3>> = Vec::new();
    let mut k: usize = 0;
    while k < workers
        invariant
            ens.wf(),
            config_wf(cfg.dt as int, cfg.laws@, n as int),
            pre == ens.particles@,
            n == pre.len(),
            workers >= 1,
            0 <= k <= workers,
            outs@.len() == k,
            outs_ok(outs@, pre, cfg.laws@, workers as int, k as int, n as int),
        decreases workers - k,
    {
        let (lo, hi) = worker_range(n, workers, k);
        let out = eval_partition(ens, cfg, lo, hi);
        let ghost prev_outs = outs@;
        outs.push(out);
        proof {
            assert(outs@ == prev_outs.push(out));
            assert(outs@[k as int] == out);
            assert(worker_out_ok(out@, pre, cfg.laws@, workers as int, k as int, n as int));
            assert(forall|w: int| 0 <= w < k ==> outs@[w] == prev_outs[w]);
        }
        k = k + 1;
    }
    proof {
        lemma_part_start_ordered(n as int, workers as int, 0, 0);
    }
    let mut w: usize = 0;
    while w < workers
        invariant
            config_wf(cfg.dt as int, cfg.laws@, n as int),
            n == pre.len(),
            workers >= 1,
            0 <= w <= workers,
            outs@.len() == workers,
            ens.particles@.len() == n,
            outs_ok(outs@, pre, cfg.laws@, workers as int, workers as int, n as int),
            forall|i: int|
                0 <= i < part_start(n as int, workers as int, w as int) ==> ens.particles@[i]
                    == with_force(pre[i], force_on(pre, cfg.laws@, i)),
            forall|i: int|
                part_start(n as int, workers as int, w as int) <= i < n ==> ens.particles@[i]
                    == pre[i],
        decreases workers - w,
    {
        let (lo, hi) = worker_range(n, workers, w);
        let out = &outs[w];
        apply_partition(ens, lo, out);
        proof {
            lemma_part_start_ordered(n as int, workers as int, w as int, w as int + 1);
        }
        w = w + 1;
    }
    proof {
        lemma_part_start_ordered(n as int, workers as int, workers as int, workers as int);
        assert(ens.particles@ =~= evaluated(pre, cfg.laws@));
        assert forall|i: int| 0 <= i < n implies (#[trigger] ens.particles@[i]).wf() by {
            lemma_force_on_bound(pre, cfg.laws@, i);
        }
    }
}

/// The particle's kinematic state is within the representable coordinate
/// range.
pub open spec fn within_limits(p: Particle) -> bool {
    vec3_bounded(p.position, COORD_LIMIT as int) && vec3_bounded(p.velocity, COORD_LIMIT as int)
}

/// Advancing `p` by `dt` lands inside the representable range.
pub open spec fn advance_stays(p: Particle, dt: int) -> bool {
    forall|q: Particle| #[trigger] advanced(p, dt, q) ==> within_limits(q)
}

/// The integrator's update equations determine the result completely.
pub proof fn lemma_advanced_functional(pre: Particle, dt: int, q1: Particle, q2: Particle)
    requires
        advanced(pre, dt, q1),
        advanced(pre, dt, q2),
    ensures
        q1 == q2,
{
    assert(q1.position == q2.position);
    assert(q1.velocity == q2.velocity);
    assert(q1.pending_acceleration == q2.pending_acceleration);
}

/// The sequential post-barrier phase: advance every particle by the
/// configured time step. The new state is committed only when every new
/// position and velocity is representable; otherwise the step reports
/// divergence and leaves the ensemble exactly as the evaluation phase left
/// it.
pub fn integrate(ens: &mut Ensemble, cfg: &Config) -> (r: Result<(), SimError>)
    requires
        old(ens).wf(),
        1 <= cfg.dt <= SCALE,
    ensures
        (r is Ok) <==> (forall|i: int|
            0 <= i < old(ens).particles@.len() ==> advance_stays(#[trigger] old(
                ens,
            ).particles@[i], cfg.dt as int)),
        r is Ok ==> {
            &&& final(ens).particles@.len() == old(ens).particles@.len()
            &&& forall|i: int|
                0 <= i < old(ens).particles@.len() ==> advanced(old(ens).particles@[i],
                cfg.dt as int, #[trigger] final(ens).particles@[i])
            &&& final(ens).wf()
        },
        r is Err ==> r == Err::<(), SimError>(SimError::Diverged) && final(ens).particles@
            == old(ens).particles@,
{
    let n = ens.particles.len();
    let mut advanced_particles: Vec<Particle> = Vec::new();
    let mut i: usize = 0;
    while i < n
        invariant
            ens.wf(),
            ens == old(ens),
            1 <= cfg.dt <= SCALE,
            n == ens.particles@.len(),
            0 <= i <= n,
            advanced_particles@.len() == i,
            forall|j: int|
                0 <= j < i ==> advanced(ens.particles@[j], cfg.dt as int,
                #[trigger] advanced_particles@[j]),
            forall|j: int|
                0 <= j < i ==> within_limits(#[trigger] advanced_particles@[j])
                    && advanced_particles@[j].wf(),
        decreases n - i,
    {
        let mut p = ens.particles[i];
        p.advance(cfg.dt);
        if !(vec3_within(&p.position, COORD_LIMIT) && vec3_within(&p.velocity, COORD_LIMIT)) {
            proof {
                assert(!advance_stays(ens.particles@[i as int], cfg.dt as int));
            }
            return Err(SimError::Diverged);
        }
        advanced_particles.push(p);
        i = i + 1;
    }
    proof {
        assert forall|i2: int|
            0 <= i2 < n implies advance_stays(#[trigger] ens.particles@[i2], cfg.dt as int) by {
            assert forall|q: Particle|
                #[trigger] advanced(ens.particles@[i2], cfg.dt as int, q) implies within_limits(
                q,
            ) by {
                lemma_advanced_functional(ens.particles@[i2], cfg.dt as int, q,
                    advanced_particles@[i2]);
            }
        }
    }
    ens.particles = advanced_particles;
    Ok(())
}

/// One full simulation step: the partitioned evaluation phase computes and
/// writes every particle's force; after the barrier the integrator advances
/// every particle. Reports divergence, leaving the evaluated accumulators in
/// place, when the new state would leave the representable range.
pub fn step(ens: &mut Ensemble, cfg: &Config, workers: usize) -> (r: Result<(), SimError>)
    requires
        old(ens).wf(),
        config_wf(cfg.dt as int, cfg.laws@, old(ens).particles@.len() as int),
        workers >= 1,
    ensures
        (r is Ok) <==> (forall|i: int|
            0 <= i < old(ens).particles@.len() ==> advance_stays(#[trigger] evaluated(old(
                ens,
            ).particles@, cfg.laws@)[i], cfg.dt as int)),
        r is Ok ==> {
            &&& final(ens).particles@.len() == old(ens).particles@.len()
            &&& forall|i: int|
                0 <= i < old(ens).particles@.len() ==> advanced(evaluated(old(ens).particles@,
                cfg.laws@)[i], cfg.dt as int, #[trigger] final(ens).particles@[i])
            &&& final(ens).wf()
        },
        r is Err ==> r == Err::<(), SimError>(SimError::Diverged) && final(ens).particles@
            == evaluated(old(ens).particles@, cfg.laws@) && final(ens).wf(),
{
    evaluate_forces(ens, cfg, workers);
    integrate(ens, cfg)
}


/// With a single particle no law contributes: the radial families have no
/// partner, a spring couples the particle to itself at zero extension, and
/// drag vanishes at zero velocity.
proof fn lemma_singleton_force_zero(s: Seq<Particle>, laws: Seq<ForceLaw>)
    requires
        s.len() == 1,
        s[0].velocity.x == 0,
        s[0].velocity.y == 0,
        s[0].velocity.z == 0,
        forall|l: int| 0 <= l < laws.len() ==> law_wf(#[trigger] laws[l], 1),
    ensures
        force_on(s, laws, 0) == v3i_zero(),
    decreases laws.len(),
{
    if laws.len() == 0 {
    } else {
        assert(forall|l: int|
            0 <= l < laws.drop_last().len() ==> law_wf(#[trigger] laws.drop_last()[l], 1));
        lemma_singleton_force_zero(s, laws.drop_last());
        let law = laws.last();
        assert(law_wf(law, 1));
        match law {
            ForceLaw::Radial { strength, min_radius2, falloff } => {
                assert(pair_sum(s, law, 0, 1) == pair_sum(s, law, 0, 0));
            },
            ForceLaw::ChargeRadial { strength, min_radius2, falloff } => {
                assert(pair_sum(s, law, 0, 1) == pair_sum(s, law, 0, 0));
            },
            ForceLaw::Spring { strength, offset } => {
                assert(offset == 0);
                assert(neighbor_of(0, 0, 1) == 0) by {
                    assert(0int % 1int == 0);
                }
                lemma_scale_zero(strength as int, 1);
            },
            ForceLaw::Drag { coefficient } => {
                lemma_scale_zero(0, coefficient as int);
            },
        }
    }
}

/// An isolated particle at rest is a fixed point of the whole step: with no
/// partner, no extension and no motion every configured law contributes
/// nothing, and integrating a zero accumulator at zero velocity moves
/// nothing. Since the state returns unchanged, any number of steps leaves it
/// unchanged.
pub proof fn lemma_zero_force_fixed_point(
    s: Seq<Particle>,
    laws: Seq<ForceLaw>,
    dt: int,
    post: Seq<Particle>,
)
    requires
        s.len() == 1,
        s[0].wf(),
        s[0].velocity.x == 0,
        s[0].velocity.y == 0,
        s[0].velocity.z == 0,
        s[0].pending_acceleration.x == 0,
        s[0].pending_acceleration.y == 0,
        s[0].pending_acceleration.z == 0,
        config_wf(dt, laws, 1),
        post.len() == 1,
        advanced(evaluated(s, laws)[0], dt, post[0]),
    ensures
        post == s,
{
    lemma_singleton_force_zero(s, laws);
    let mid = evaluated(s, laws)[0];
    assert(mid.pending_acceleration == s[0].pending_acceleration);
    assert(mid == s[0]);
    lemma_scale_zero(0, s[0].inertia as int);
    lemma_scale_zero(dt, 1);
    assert(post[0].velocity.x == 0 && post[0].velocity.y == 0 && post[0].velocity.z == 0);
    assert(post[0].position == s[0].position);
    assert(post[0] == s[0]);
    assert(post =~= s);
}

/// One axis of the two-particle spring step.
proof fn lemma_spring_axis_mirror(p0: int, p1: int, m: int, f: int, dt: int, st: int)
    requires
        m >= 1,
        dt >= 1,
        f == mul_scale(st, p1 - p0),
    ensures
        mul_scale(mul_scale(div_scale(-f, m), dt), dt) == -mul_scale(
            mul_scale(div_scale(f, m), dt),
            dt,
        ),
        st >= 0 && p0 <= p1 ==> mul_scale(mul_scale(div_scale(f, m), dt), dt) >= 0,
{
    lemma_div_scale_neg(f, m);
    let a = div_scale(f, m);
    lemma_mul_scale_neg(a, dt);
    let u = mul_scale(a, dt);
    lemma_mul_scale_neg(u, dt);
    if st >= 0 && p0 <= p1 {
        lemma_scale_nonneg(st, p1 - p0);
        lemma_scale_nonneg(f, m);
        lemma_scale_nonneg(a, dt);
        lemma_scale_nonneg(u, dt);
    }
}

/// Spring symmetry over one step: two particles of equal inertia at rest,
/// coupled by one ring spring, move by exactly opposite displacements — the
/// midpoint is preserved, the positions mirror around it — and, for a
/// positive strength, each moves toward the other.
pub proof fn lemma_spring_step_mirror(
    s: Seq<Particle>,
    strength: i64,
    dt: int,
    post: Seq<Particle>,
)
    requires
        s.len() == 2,
        s[0].wf(),
        s[1].wf(),
        s[0].velocity.x == 0 && s[0].velocity.y == 0 && s[0].velocity.z == 0,
        s[1].velocity.x == 0 && s[1].velocity.y == 0 && s[1].velocity.z == 0,
        s[0].inertia == s[1].inertia,
        spring_bound(strength as int) <= FORCE_LIMIT,
        1 <= dt <= SCALE,
        post.len() == 2,
        advanced(
            evaluated(s, seq![(ForceLaw::Spring { strength, offset: 1 })])[0],
            dt,
            post[0],
        ),
        advanced(
            evaluated(s, seq![(ForceLaw::Spring { strength, offset: 1 })])[1],
            dt,
            post[1],
        ),
    ensures
        post[0].position.x + post[1].position.x == s[0].position.x + s[1].position.x,
        post[0].position.y + post[1].position.y == s[0].position.y + s[1].position.y,
        post[0].position.z + post[1].position.z == s[0].position.z + s[1].position.z,
        strength >= 0 && s[0].position.x <= s[1].position.x ==> post[0].position.x
            >= s[0].position.x && post[1].position.x <= s[1].position.x,
        strength >= 0 && s[0].position.y <= s[1].position.y ==> post[0].position.y
            >= s[0].position.y && post[1].position.y <= s[1].position.y,
        strength >= 0 && s[0].position.z <= s[1].position.z ==> post[0].position.z
            >= s[0].position.z && post[1].position.z <= s[1].position.z,
{
    let laws = seq![(ForceLaw::Spring { strength, offset: 1 })];
    assert(neighbor_of(0, 1, 2) == 1) by {
        assert(1int % 2int == 1);
    }
    assert(neighbor_of(1, 1, 2) == 0) by {
        assert(2int % 2int == 0);
    }
    let f0 = spring_force(strength as int, s[0].position, s[1].position);
    let f1 = spring_force(strength as int, s[1].position, s[0].position);
    lemma_spring_antisymmetric(strength as int, s[0].position, s[1].position);
    lemma_spring_force_bound(strength as int, s[0].position, s[1].position);
    lemma_spring_force_bound(strength as int, s[1].position, s[0].position);
    assert(laws.len() == 1);
    assert(laws.last() == (ForceLaw::Spring { strength, offset: 1 }));
    assert(laws.drop_last().len() == 0);
    assert(force_on(s, laws.drop_last(), 0) == v3i_zero());
    assert(force_on(s, laws.drop_last(), 1) == v3i_zero());
    assert(v3i_add(v3i_zero(), f0) == f0);
    assert(v3i_add(v3i_zero(), f1) == f1);
    assert(force_on(s, laws, 0) == f0);
    assert(force_on(s, laws, 1) == f1);
    let m = s[0].inertia as int;
    lemma_spring_axis_mirror(s[0].position.x as int, s[1].position.x as int, m, f0.x, dt,
        strength as int);
    lemma_spring_axis_mirror(s[0].position.y as int, s[1].position.y as int, m, f0.y, dt,
        strength as int);
    lemma_spring_axis_mirror(s[0].position.z as int, s[1].position.z as int, m, f0.z, dt,
        strength as int);
}

/// One axis of the drag step.
proof fn lemma_drag_axis_slows(v: int, c: int)
    requires
        c >= SCALE,
        mag(v) <= COORD_LIMIT,
    ensures
        v >= 0 ==> 0 <= v - div_scale(v, c) <= v,
        v <= 0 ==> v <= v - div_scale(v, c) <= 0,
        mag(v) * SCALE as int >= c ==> mag(v - div_scale(v, c)) < mag(v),
{
    crate::fixed::lemma_div_scale_bound(v, c, mag(v), SCALE as int);
    vstd::arithmetic::div_mod::lemma_div_by_multiple(mag(v), SCALE as int);
    assert(mag(v) * SCALE as int == SCALE as int * mag(v)) by (nonlinear_arith);
    lemma_div_pos_is_pos(mag(v) * SCALE as int, c);
    if v == 0 {
        lemma_scale_zero(0, c);
    }
    if mag(v) * SCALE as int >= c {
        lemma_div_by_self(c);
        lemma_div_is_ordered(c, mag(v) * SCALE as int, c);
        assert((mag(v) * SCALE as int) / c >= 1);
    }
}

/// Drag monotonicity: under the drag law alone, with unit inertia and a unit
/// time step, one step never reverses any velocity component and never
/// increases its magnitude; it strictly decreases every component whose
/// magnitude is at least the drag coefficient's worth of resolution. Since
/// the new speed is no larger, the same holds again at the next step: speed
/// decreases toward zero.
pub proof fn lemma_drag_monotone(s: Seq<Particle>, coefficient: i64, q: Particle)
    requires
        s.len() == 1,
        vec3_bounded(s[0].velocity, COORD_LIMIT as int),
        s[0].inertia == SCALE,
        coefficient >= SCALE,
        advanced(evaluated(s, seq![(ForceLaw::Drag { coefficient })])[0], SCALE as int, q),
    ensures
        s[0].velocity.x >= 0 ==> 0 <= q.velocity.x <= s[0].velocity.x,
        s[0].velocity.x <= 0 ==> s[0].velocity.x <= q.velocity.x <= 0,
        s[0].velocity.y >= 0 ==> 0 <= q.velocity.y <= s[0].velocity.y,
        s[0].velocity.y <= 0 ==> s[0].velocity.y <= q.velocity.y <= 0,
        s[0].velocity.z >= 0 ==> 0 <= q.velocity.z <= s[0].velocity.z,
        s[0].velocity.z <= 0 ==> s[0].velocity.z <= q.velocity.z <= 0,
        mag(s[0].velocity.x as int) * SCALE as int >= coefficient ==> mag(q.velocity.x as int)
            < mag(s[0].velocity.x as int),
        mag(s[0].velocity.y as int) * SCALE as int >= coefficient ==> mag(q.velocity.y as int)
            < mag(s[0].velocity.y as int),
        mag(s[0].velocity.z as int) * SCALE as int >= coefficient ==> mag(q.velocity.z as int)
            < mag(s[0].velocity.z as int),
{
    let laws = seq![(ForceLaw::Drag { coefficient })];
    let vel = s[0].velocity;
    let f = drag_force(coefficient as int, vel);
    lemma_drag_opposes(coefficient as int, vel);
    assert(laws.len() == 1);
    assert(laws.last() == (ForceLaw::Drag { coefficient }));
    assert(laws.drop_last().len() == 0);
    assert(force_on(s, laws.drop_last(), 0) == v3i_zero());
    assert(v3i_add(v3i_zero(), f) == f);
    assert(force_on(s, laws, 0) == f);
    lemma_scale_identity(f.x);
    lemma_scale_identity(f.y);
    lemma_scale_identity(f.z);
    lemma_scale_identity(div_scale(f.x, SCALE as int));
    lemma_scale_identity(div_scale(f.y, SCALE as int));
    lemma_scale_identity(div_scale(f.z, SCALE as int));
    lemma_drag_axis_slows(vel.x as int, coefficient as int);
    lemma_drag_axis_slows(vel.y as int, coefficient as int);
    lemma_drag_axis_slows(vel.z as int, coefficient as int);
}



/// The state one whole committed step leaves behind: evaluation on the
/// snapshot, then integration of every particle.
pub open spec fn step_state(pre: Seq<Particle>, laws: Seq<ForceLaw>, dt: int) -> Seq<Particle> {
    Seq::new(pre.len(), |i: int| integrated(evaluated(pre, laws)[i], dt))
}

/// The state after `k` whole steps.
pub open spec fn run_state(pre: Seq<Particle>, laws: Seq<ForceLaw>, dt: int, k: nat) -> Seq<
    Particle,
>
    decreases k,
{
    if k == 0 {
        pre
    } else {
        step_state(run_state(pre, laws, dt, (k - 1) as nat), laws, dt)
    }
}

/// What a committed step ensures pins the new state down to `step_state`:
/// together with `run_state` this describes a whole run.
pub proof fn lemma_step_is_step_state(
    pre: Seq<Particle>,
    laws: Seq<ForceLaw>,
    dt: int,
    post: Seq<Particle>,
)
    requires
        post.len() == pre.len(),
        forall|i: int|
            0 <= i < pre.len() ==> advanced(evaluated(pre, laws)[i], dt, #[trigger] post[i]),
    ensures
        post == step_state(pre, laws, dt),
{
    assert forall|i: int| 0 <= i < pre.len() implies #[trigger] post[i] == step_state(
        pre,
        laws,
        dt,
    )[i] by {
        lemma_advanced_is_integrated(evaluated(pre, laws)[i], dt, post[i]);
    }
    assert(post =~= step_state(pre, laws, dt));
}

/// The fixed point holds over a whole run: however many steps are taken, an
/// isolated particle at rest is exactly where it began.
pub proof fn lemma_fixed_point_forever(s: Seq<Particle>, laws: Seq<ForceLaw>, dt: int, k: nat)
    requires
        s.len() == 1,
        s[0].wf(),
        s[0].velocity.x == 0,
        s[0].velocity.y == 0,
        s[0].velocity.z == 0,
        s[0].pending_acceleration.x == 0,
        s[0].pending_acceleration.y == 0,
        s[0].pending_acceleration.z == 0,
        config_wf(dt, laws, 1),
    ensures
        run_state(s, laws, dt, k) == s,
    decreases k,
{
    if k != 0 {
        lemma_fixed_point_forever(s, laws, dt, (k - 1) as nat);
        lemma_singleton_force_zero(s, laws);
        assert(evaluated(s, laws)[0] == s[0]);
        lemma_scale_zero(0, s[0].inertia as int);
        lemma_scale_zero(dt, 1);
        assert(integrated(s[0], dt) == s[0]);
        assert(step_state(s, laws, dt) =~= s);
    }
}

/// Drag monotonicity over a whole run: under the drag law alone, with unit
/// inertia and unit time step, no velocity component ever changes sign and
/// no component's magnitude ever grows, however many steps are taken.
pub proof fn lemma_drag_monotone_run(s: Seq<Particle>, coefficient: i64, k: nat)
    requires
        s.len() == 1,
        vec3_bounded(s[0].velocity, COORD_LIMIT as int),
        s[0].inertia == SCALE,
        coefficient >= SCALE,
    ensures
        ({
            let post = run_state(s, seq![(ForceLaw::Drag { coefficient })], SCALE as int, k);
            &&& post.len() == 1
            &&& post[0].inertia == SCALE
            &&& vec3_bounded(post[0].velocity, COORD_LIMIT as int)
            &&& s[0].velocity.x >= 0 ==> 0 <= post[0].velocity.x <= s[0].velocity.x
            &&& s[0].velocity.x <= 0 ==> s[0].velocity.x <= post[0].velocity.x <= 0
            &&& s[0].velocity.y >= 0 ==> 0 <= post[0].velocity.y <= s[0].velocity.y
            &&& s[0].velocity.y <= 0 ==> s[0].velocity.y <= post[0].velocity.y <= 0
            &&& s[0].velocity.z >= 0 ==> 0 <= post[0].velocity.z <= s[0].velocity.z
            &&& s[0].velocity.z <= 0 ==> s[0].velocity.z <= post[0].velocity.z <= 0
        }),
    decreases k,
{
    let laws = seq![(ForceLaw::Drag { coefficient })];
    if k != 0 {
        lemma_drag_monotone_run(s, coefficient, (k - 1) as nat);
        let mid = run_state(s, laws, SCALE as int, (k - 1) as nat);
        let post = run_state(s, laws, SCALE as int, k);
        let vel = mid[0].velocity;
        let f = drag_force(coefficient as int, vel);
        lemma_drag_opposes(coefficient as int, vel);
        assert(laws.len() == 1);
        assert(laws.last() == (ForceLaw::Drag { coefficient }));
        assert(laws.drop_last().len() == 0);
        assert(force_on(mid, laws.drop_last(), 0) == v3i_zero());
        assert(v3i_add(v3i_zero(), f) == f);
        assert(force_on(mid, laws, 0) == f);
        lemma_scale_identity(f.x);
        lemma_scale_identity(f.y);
        lemma_scale_identity(f.z);
        lemma_scale_identity(div_scale(f.x, SCALE as int));
        lemma_scale_identity(div_scale(f.y, SCALE as int));
        lemma_scale_identity(div_scale(f.z, SCALE as int));
        lemma_drag_axis_slows(vel.x as int, coefficient as int);
        lemma_drag_axis_slows(vel.y as int, coefficient as int);
        lemma_drag_axis_slows(vel.z as int, coefficient as int);
        assert(post[0] == integrated(evaluated(mid, laws)[0], SCALE as int));
    }
}

} // verus!
