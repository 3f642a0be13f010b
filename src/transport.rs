use vstd::prelude::*;

verus! {

/// What the shading of one hit gathers besides the local surface colour.
#[derive(Debug, Clone, Copy, PartialEq, Eq, Structural)]
pub struct Plan {
    /// The budget of the mirror-reflection ray, if one is cast.
    pub reflect: Option<i32>,
    /// The budget of the refraction ray, if one is cast.
    pub refract: Option<i32>,
    /// Whether reflected and refracted light are weighed by the Fresnel
    /// reflectance rather than simply added.
    pub fresnel: bool,
}

/// The budget of a secondary ray spawned by a ray with `remaining` left, when
/// the material asks for one: one unit less, and none once nothing is left.
pub open spec fn secondary(remaining: i32, wanted: bool) -> Option<i32> {
    if wanted && remaining > 0 {
        Some((remaining - 1) as i32)
    } else {
        None
    }
}

/// The plan for a hit on a material that is `reflective` and/or
/// `transparent`, reached by a ray with `remaining` budget.
pub open spec fn plan_of(remaining: i32, reflective: bool, transparent: bool) -> Plan {
    Plan {
        reflect: secondary(remaining, reflective),
        refract: secondary(remaining, transparent),
        fresnel: reflective && transparent,
    }
}

/// Decides the secondary rays of a hit: a reflected ray for a reflective
/// material, a refracted ray for a transparent one, each only while budget
/// remains and each with one unit less; the Fresnel blend applies to a
/// material that is both.
pub fn plan_hit(remaining: i32, reflective: bool, transparent: bool) -> (r: Plan)
    ensures
        r == plan_of(remaining, reflective, transparent),
{
    let reflect = if reflective && remaining > 0 {
        Some(remaining - 1)
    } else {
        None
    };
    let refract = if transparent && remaining > 0 {
        Some(remaining - 1)
    } else {
        None
    };
    Plan { reflect, refract, fresnel: reflective && transparent }
}

/// Every secondary ray has a budget that is non-negative and strictly below
/// that of the ray it came from, and a ray with no budget left spawns none:
/// the recursion of reflection and refraction ends, whatever the scene.
pub proof fn lemma_budget_decreases(remaining: i32, reflective: bool, transparent: bool)
    ensures
        plan_of(remaining, reflective, transparent).reflect matches Some(d) ==> 0 <= d < remaining,
        plan_of(remaining, reflective, transparent).refract matches Some(d) ==> 0 <= d < remaining,
        remaining <= 0 ==> plan_of(remaining, reflective, transparent).reflect is None,
        remaining <= 0 ==> plan_of(remaining, reflective, transparent).refract is None,
{
}

/// The number of nested reflections that follow a ray with budget
/// `remaining` between surfaces that all reflect.
pub open spec fn mirror_chain(remaining: i32) -> nat
    decreases (if remaining > 0 { remaining as int } else { 0 }),
{
    match plan_of(remaining, true, false).reflect {
        Some(d) => 1 + mirror_chain(d),
        None => 0,
    }
}

/// Between two mirrors that face each other a ray with budget `remaining`
/// leads to exactly `remaining` nested reflections (none for a budget of zero
/// or below), after which the recursion stops.
pub proof fn lemma_mirror_chain_bounded(remaining: i32)
    ensures
        mirror_chain(remaining) == (if remaining > 0 { remaining as nat } else { 0 }),
    decreases (if remaining > 0 { remaining as int } else { 0 }),
{
    if remaining > 0 {
        lemma_mirror_chain_bounded((remaining - 1) as i32);
    }
}

} // verus!
