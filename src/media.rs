use vstd::prelude::*;

verus! {

/// The objects a ray is inside of, in order of entry, after it crosses the
/// surface of `o`: crossing an object it is inside of means leaving it,
/// crossing any other object means entering it.
pub open spec fn toggled(inside: Seq<usize>, o: usize) -> Seq<usize> {
    if inside.contains(o) {
        inside.remove(inside.index_of(o))
    } else {
        inside.push(o)
    }
}

/// The objects a ray is inside of after crossing, in order, the surfaces of
/// the objects in `crossed` (starting outside all of them).
pub open spec fn inside_after(crossed: Seq<usize>) -> Seq<usize>
    decreases crossed.len(),
{
    if crossed.len() == 0 {
        Seq::empty()
    } else {
        toggled(inside_after(crossed.drop_last()), crossed.last())
    }
}

/// The object whose medium surrounds the ray: the one entered last, or none
/// when the ray travels through empty space.
pub open spec fn innermost(inside: Seq<usize>) -> Option<usize> {
    if inside.len() == 0 {
        None
    } else {
        Some(inside.last())
    }
}

proof fn lemma_toggled_distinct(inside: Seq<usize>, o: usize)
    requires
        inside.no_duplicates(),
    ensures
        toggled(inside, o).no_duplicates(),
{
    if inside.contains(o) {
        let i = inside.index_of(o);
        let r = inside.remove(i);
        assert forall|a: int, b: int| 0 <= a < r.len() && 0 <= b < r.len() && a != b implies r[a]
            != r[b] by {
            let sa = if a < i { a } else { a + 1 };
            let sb = if b < i { b } else { b + 1 };
            assert(r[a] == inside[sa]);
            assert(r[b] == inside[sb]);
        }
    }
}

proof fn lemma_inside_after_distinct(crossed: Seq<usize>)
    ensures
        inside_after(crossed).no_duplicates(),
    decreases crossed.len(),
{
    if crossed.len() > 0 {
        lemma_inside_after_distinct(crossed.drop_last());
        lemma_toggled_distinct(inside_after(crossed.drop_last()), crossed.last());
    }
}

fn toggle(inside: &mut Vec<usize>, o: usize)
    requires
        old(inside)@.no_duplicates(),
    ensures
        final(inside)@ == toggled(old(inside)@, o),
{
    let ghost start = old(inside)@;
    let mut j: usize = 0;
    while j < inside.len()
        invariant
            inside@ == start,
            start == old(inside)@,
            start.no_duplicates(),
            j <= start.len(),
            forall|k: int| 0 <= k < j ==> start[k] != o,
        decreases inside.len() - j,
    {
        if inside[j] == o {
            proof {
                assert(start.contains(o));
                let c = start.index_of(o);
                assert(start[c] == o);
                assert(c == j);
            }
            inside.remove(j);
            return;
        }
        j += 1;
    }
    proof {
        assert(!start.contains(o));
    }
    inside.push(o);
}

fn innermost_of(inside: &Vec<usize>) -> (r: Option<usize>)
    ensures
        r == innermost(inside@),
{
    if inside.len() == 0 {
        None
    } else {
        Some(inside[inside.len() - 1])
    }
}

/// Which objects' media lie on either side of the surface crossed at position
/// `hit` of `crossed`, the objects of a ray's intersections sorted by distance.
/// The first is the medium the ray arrives through, the second the one it
/// continues into; `None` stands for empty space (refractive index 1).
pub fn media_at_hit(crossed: &Vec<usize>, hit: usize) -> (r: (Option<usize>, Option<usize>))
    requires
        hit < crossed.len(),
    ensures
        r.0 == innermost(inside_after(crossed@.take(hit as int))),
        r.1 == innermost(inside_after(crossed@.take(hit + 1))),
{
    let mut inside: Vec<usize> = Vec::new();
    let mut i: usize = 0;
    while i < hit
        invariant
            i <= hit < crossed.len(),
            inside@ == inside_after(crossed@.take(i as int)),
        decreases hit - i,
    {
        proof {
            lemma_inside_after_distinct(crossed@.take(i as int));
            assert(crossed@.take(i + 1).drop_last() =~= crossed@.take(i as int));
        }
        toggle(&mut inside, crossed[i]);
        i += 1;
    }
    let before = innermost_of(&inside);
    proof {
        lemma_inside_after_distinct(crossed@.take(hit as int));
        assert(crossed@.take(hit + 1).drop_last() =~= crossed@.take(hit as int));
    }
    toggle(&mut inside, crossed[hit]);
    let after = innermost_of(&inside);
    (before, after)
}

} // verus!
