use vstd::prelude::*;

verus! {

/// Which of a two-source pattern's sources colours a point.
#[derive(Debug, Clone, Copy, PartialEq, Eq, Structural)]
pub enum Pick {
    First,
    Second,
}

/// Cells whose floor sum is even take the first source, odd ones the second.
pub open spec fn by_parity(sum: int) -> Pick {
    if sum % 2 == 0 {
        Pick::First
    } else {
        Pick::Second
    }
}

/// The source of a stripe pattern at a point whose x has floor `fx`.
pub open spec fn stripe_choice(fx: int) -> Pick {
    by_parity(fx)
}

/// The source of a ring pattern at a point whose distance from the y axis has
/// floor `fr`.
pub open spec fn ring_choice(fr: int) -> Pick {
    by_parity(fr)
}

/// The source of a 3-D checker pattern at a point whose coordinates have
/// floors `fx`, `fy`, `fz`; on (near-)planar geometry the y term is dropped.
pub open spec fn checker_choice(fx: int, fy: int, fz: int, planar: bool) -> Pick {
    if planar {
        by_parity(fx + fz)
    } else {
        by_parity(fx + fy + fz)
    }
}

/// The source of a UV checker pattern at texture cell (`fu`, `fv`).
pub open spec fn checker_uv_choice(fu: int, fv: int) -> Pick {
    by_parity(fu + fv)
}

fn is_odd(n: i64) -> (r: bool)
    ensures
        r == (n as int % 2 != 0),
{
    n % 2 != 0
}

/// Picks the source whose parity matches that of the floors whose oddness is
/// given, without forming their sum.
fn pick_of_odd_count(odd: bool) -> (r: Pick)
    ensures
        r == (if odd { Pick::Second } else { Pick::First }),
{
    if odd {
        Pick::Second
    } else {
        Pick::First
    }
}

proof fn lemma_sum_parity(a: int, b: int)
    ensures
        ((a + b) % 2 != 0) == ((a % 2 != 0) != (b % 2 != 0)),
{
}

/// The source of a stripe pattern at a point whose x has floor `fx`.
pub fn stripe_pick(fx: i64) -> (r: Pick)
    ensures
        r == stripe_choice(fx as int),
{
    pick_of_odd_count(is_odd(fx))
}

/// The source of a ring pattern at a point whose distance from the y axis
/// has floor `fr`.
pub fn ring_pick(fr: i64) -> (r: Pick)
    ensures
        r == ring_choice(fr as int),
{
    pick_of_odd_count(is_odd(fr))
}

/// The source of a 3-D checker pattern at a point whose coordinates have
/// floors `fx`, `fy`, `fz`; `planar` drops the y term.
pub fn checker_pick(fx: i64, fy: i64, fz: i64, planar: bool) -> (r: Pick)
    ensures
        r == checker_choice(fx as int, fy as int, fz as int, planar),
{
    proof {
        lemma_sum_parity(fx as int, fz as int);
        lemma_sum_parity(fx as int, fy as int);
        lemma_sum_parity(fx + fy, fz as int);
    }
    let odd_xz = is_odd(fx) != is_odd(fz);
    if planar {
        pick_of_odd_count(odd_xz)
    } else {
        pick_of_odd_count(odd_xz != is_odd(fy))
    }
}

/// The source of a UV checker pattern at texture cell (`fu`, `fv`).
pub fn checker_uv_pick(fu: i64, fv: i64) -> (r: Pick)
    ensures
        r == checker_uv_choice(fu as int, fv as int),
{
    proof {
        lemma_sum_parity(fu as int, fv as int);
    }
    pick_of_odd_count(is_odd(fu) != is_odd(fv))
}

/// A checker pattern changes source at every integer boundary of x, of z and,
/// off planar geometry, of y, each on its own; on planar geometry y plays no
/// part.
pub proof fn lemma_checker_alternates(fx: int, fy: int, fz: int, planar: bool)
    ensures
        checker_choice(fx + 1, fy, fz, planar) != checker_choice(fx, fy, fz, planar),
        checker_choice(fx, fy, fz + 1, planar) != checker_choice(fx, fy, fz, planar),
        !planar ==> checker_choice(fx, fy + 1, fz, planar) != checker_choice(fx, fy, fz, planar),
        planar ==> checker_choice(fx, fy + 1, fz, planar) == checker_choice(fx, fy, fz, planar),
{
}

/// Stripes alternate at every integer boundary of x.
pub proof fn lemma_stripes_alternate(fx: int)
    ensures
        stripe_choice(fx + 1) != stripe_choice(fx),
{
}

} // verus!
