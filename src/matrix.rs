use vstd::prelude::*;

verus! {

/// `m` is an n × n matrix, held row by row.
pub open spec fn is_square<T>(m: Seq<Vec<T>>, n: nat) -> bool {
    &&& m.len() == n
    &&& forall|i: int| 0 <= i < n ==> (#[trigger] m[i])@.len() == n
}

/// The entry at (i, j) of `m`.
pub open spec fn entry<T>(m: Seq<Vec<T>>, i: int, j: int) -> T {
    m[i]@[j]
}

/// The index in the full matrix of index `i` once index `k` is taken out.
pub open spec fn skipping(i: int, k: int) -> int {
    if i < k {
        i
    } else {
        i + 1
    }
}

/// Whether the cofactor at (row, col) is the minor negated: the sign of a
/// cofactor is + where row + col is even and - where it is odd.
pub fn cofactor_negated(row: usize, col: usize) -> (r: bool)
    ensures
        r == ((row + col) % 2 == 1),
{
    (row % 2 == 1) != (col % 2 == 1)
}

/// The n × n matrix with rows and columns swapped.
pub fn transpose<T: Copy>(m: &Vec<Vec<T>>, n: usize) -> (r: Vec<Vec<T>>)
    requires
        is_square(m@, n as nat),
    ensures
        is_square(r@, n as nat),
        forall|i: int, j: int| 0 <= i < n && 0 <= j < n ==> entry(r@, i, j) == entry(m@, j, i),
{
    let mut r: Vec<Vec<T>> = Vec::new();
    let mut i: usize = 0;
    while i < n
        invariant
            i <= n,
            is_square(m@, n as nat),
            r@.len() == i,
            forall|a: int| 0 <= a < i ==> (#[trigger] r@[a])@.len() == n,
            forall|a: int, b: int| 0 <= a < i && 0 <= b < n ==> entry(r@, a, b) == entry(m@, b, a),
        decreases n - i,
    {
        let mut row: Vec<T> = Vec::new();
        let mut j: usize = 0;
        while j < n
            invariant
                j <= n,
                i < n,
                is_square(m@, n as nat),
                row@.len() == j,
                forall|b: int| 0 <= b < j ==> row@[b] == entry(m@, b, i as int),
            decreases n - j,
        {
            assert(m@[j as int]@.len() == n);
            row.push(m[j][i]);
            j += 1;
        }
        r.push(row);
        i += 1;
    }
    r
}

/// The (n - 1) × (n - 1) matrix left when row `row` and column `col` of the
/// n × n matrix `m` are taken out.
pub fn submatrix<T: Copy>(m: &Vec<Vec<T>>, n: usize, row: usize, col: usize) -> (r: Vec<Vec<T>>)
    requires
        is_square(m@, n as nat),
        row < n,
        col < n,
    ensures
        is_square(r@, (n - 1) as nat),
        forall|i: int, j: int|
            0 <= i < n - 1 && 0 <= j < n - 1 ==> entry(r@, i, j) == entry(
                m@,
                skipping(i, row as int),
                skipping(j, col as int),
            ),
{
    let mut r: Vec<Vec<T>> = Vec::new();
    let mut src_row: usize = 0;
    while src_row < n
        invariant
            src_row <= n,
            row < n,
            col < n,
            is_square(m@, n as nat),
            r@.len() == (if src_row <= row { src_row as int } else { src_row - 1 }),
            forall|a: int| 0 <= a < r@.len() ==> (#[trigger] r@[a])@.len() == n - 1,
            forall|a: int, b: int|
                0 <= a < r@.len() && 0 <= b < n - 1 ==> entry(r@, a, b) == entry(
                    m@,
                    skipping(a, row as int),
                    skipping(b, col as int),
                ),
        decreases n - src_row,
    {
        if src_row != row {
            let ghost a = r@.len() as int;
            assert(skipping(a, row as int) == src_row);
            let mut out: Vec<T> = Vec::new();
            let mut src_col: usize = 0;
            while src_col < n
                invariant
                    src_col <= n,
                    src_row < n,
                    col < n,
                    is_square(m@, n as nat),
                    out@.len() == (if src_col <= col { src_col as int } else { src_col - 1 }),
                    forall|b: int|
                        0 <= b < out@.len() ==> out@[b] == entry(
                            m@,
                            src_row as int,
                            skipping(b, col as int),
                        ),
                decreases n - src_col,
            {
                if src_col != col {
                    assert(m@[src_row as int]@.len() == n);
                    assert(skipping(out@.len() as int, col as int) == src_col);
                    out.push(m[src_row][src_col]);
                }
                src_col += 1;
            }
            let ghost before = r@;
            let ghost fresh = out@;
            assert(fresh.len() == n - 1);
            r.push(out);
            assert forall|a2: int, b: int|
                0 <= a2 < r@.len() && 0 <= b < n - 1 implies entry(r@, a2, b) == entry(
                m@,
                skipping(a2, row as int),
                skipping(b, col as int),
            ) by {
                if a2 < a {
                    assert(r@[a2] == before[a2]);
                    assert(entry(before, a2, b) == entry(m@, skipping(a2, row as int), skipping(b, col as int)));
                } else {
                    assert(r@[a2]@ == fresh);
                    assert(fresh[b] == entry(m@, src_row as int, skipping(b, col as int)));
                }
            }
        }
        src_row += 1;
    }
    r
}

} // verus!
