//! Choosing among candidates: the first one with the smallest key, and
//! Manhattan distances on the grid.

use vstd::prelude::*;

verus! {

/// Manhattan distance between two cells.
pub open spec fn manhattan(a: (i32, i32), b: (i32, i32)) -> int {
    let dx = a.0 - b.0;
    let dz = a.1 - b.1;
    (if dx < 0 { -dx } else { dx }) + (if dz < 0 { -dz } else { dz })
}

/// The key is under the cap; no cap admits every key.
pub open spec fn below(k: int, cap: Option<u64>) -> bool {
    match cap {
        Some(c) => k < c,
        None => true,
    }
}

/// Candidate `j` takes part: it is marked eligible and its key is under the cap.
pub open spec fn eligible(keys: Seq<u64>, ok: Seq<bool>, cap: Option<u64>, j: int) -> bool {
    ok[j] && below(keys[j] as int, cap)
}

/// `i` is eligible with the smallest key, and no earlier eligible key is as small.
pub open spec fn is_first_min(keys: Seq<u64>, ok: Seq<bool>, cap: Option<u64>, i: int) -> bool {
    &&& 0 <= i < keys.len()
    &&& eligible(keys, ok, cap, i)
    &&& forall|j: int| 0 <= j < keys.len() && #[trigger] eligible(keys, ok, cap, j) ==> keys[i] <= keys[j]
    &&& forall|j: int| 0 <= j < i && #[trigger] eligible(keys, ok, cap, j) ==> keys[i] < keys[j]
}

/// No candidate is eligible.
pub open spec fn none_eligible(keys: Seq<u64>, ok: Seq<bool>, cap: Option<u64>) -> bool {
    forall|j: int| 0 <= j < keys.len() ==> !#[trigger] eligible(keys, ok, cap, j)
}

/// The first eligible candidate with the smallest key, if any.
pub open spec fn spec_first_min(keys: Seq<u64>, ok: Seq<bool>, cap: Option<u64>) -> Option<int> {
    if exists|i: int| is_first_min(keys, ok, cap, i) {
        Some(choose|i: int| is_first_min(keys, ok, cap, i))
    } else {
        None
    }
}

/// At most one candidate is the first smallest.
pub proof fn lemma_first_min_unique(keys: Seq<u64>, ok: Seq<bool>, cap: Option<u64>, a: int, b: int)
    requires
        is_first_min(keys, ok, cap, a),
        is_first_min(keys, ok, cap, b),
    ensures
        a == b,
{
    if a < b {
        assert(eligible(keys, ok, cap, a));
    } else if b < a {
        assert(eligible(keys, ok, cap, b));
    }
}

/// An option of a position, as a whole number.
pub open spec fn opt_int(r: Option<usize>) -> Option<int> {
    match r {
        Some(i) => Some(i as int),
        None => None,
    }
}

/// The position of the first eligible smallest key, if any: a candidate
/// replaces the current best only when strictly smaller.
pub fn first_min(keys: &[u64], ok: &[bool], cap: Option<u64>) -> (r: Option<usize>)
    requires
        ok@.len() == keys@.len(),
    ensures
        opt_int(r) == spec_first_min(keys@, ok@, cap),
        match r {
            Some(i) => is_first_min(keys@, ok@, cap, i as int),
            None => none_eligible(keys@, ok@, cap),
        },
{
    let mut best: Option<usize> = None;
    let mut i: usize = 0;
    while i < keys.len()
        invariant
            0 <= i <= keys@.len(),
            ok@.len() == keys@.len(),
            match best {
                Some(b) => {
                    &&& b < i
                    &&& eligible(keys@, ok@, cap, b as int)
                    &&& forall|j: int| 0 <= j < i && #[trigger] eligible(keys@, ok@, cap, j) ==> keys@[b as int] <= keys@[j]
                    &&& forall|j: int| 0 <= j < b && #[trigger] eligible(keys@, ok@, cap, j) ==> keys@[b as int] < keys@[j]
                },
                None => forall|j: int| 0 <= j < i ==> !#[trigger] eligible(keys@, ok@, cap, j),
            },
        decreases keys@.len() - i,
    {
        let k = keys[i];
        let better = if !ok[i] {
            false
        } else {
            match best {
                Some(b) => k < keys[b],
                None => match cap {
                    Some(c) => k < c,
                    None => true,
                },
            }
        };
        if better {
            best = Some(i);
        }
        i = i + 1;
    }
    proof {
        match best {
            Some(b) => {
                assert(is_first_min(keys@, ok@, cap, b as int));
                if exists|i: int| is_first_min(keys@, ok@, cap, i) {
                    let c = choose|i: int| is_first_min(keys@, ok@, cap, i);
                    lemma_first_min_unique(keys@, ok@, cap, b as int, c);
                }
            },
            None => {},
        }
    }
    best
}

/// The chosen candidate is eligible and its key is no larger than that of
/// any candidate marked eligible, whether under the cap or not.
pub proof fn lemma_first_min_choice(keys: Seq<u64>, ok: Seq<bool>, cap: Option<u64>)
    requires
        ok.len() == keys.len(),
    ensures
        spec_first_min(keys, ok, cap) matches Some(i) ==> {
            &&& is_first_min(keys, ok, cap, i)
            &&& forall|j: int| 0 <= j < keys.len() && ok[j] ==> keys[i] <= keys[j]
        },
{
    if let Some(i) = spec_first_min(keys, ok, cap) {
        assert(is_first_min(keys, ok, cap, i));
        assert forall|j: int| 0 <= j < keys.len() && ok[j] implies keys[i] <= keys[j] by {
            if !eligible(keys, ok, cap, j) {
                assert(below(keys[i] as int, cap));
            }
        }
    }
}

/// The Manhattan distance of two cells is at most twice the span of `i32`.
pub proof fn lemma_manhattan_bounds(a: (i32, i32), b: (i32, i32))
    ensures
        0 <= manhattan(a, b) <= 0x2_0000_0000,
{
}

/// The cell chosen by distance is marked eligible, closer than the cap, and
/// at least as near to `from` as every cell marked eligible.
pub proof fn lemma_nearest_choice(from: (i32, i32), cells: Seq<(i32, i32)>, ok: Seq<bool>, cap: Option<u64>)
    requires
        ok.len() == cells.len(),
    ensures
        spec_first_min(distances(from, cells), ok, cap) matches Some(i) ==> {
            &&& 0 <= i < cells.len()
            &&& ok[i]
            &&& below(manhattan(from, cells[i]), cap)
            &&& forall|j: int| 0 <= j < cells.len() && ok[j] ==> manhattan(from, cells[i]) <= manhattan(from, cells[j])
        },
{
    let d = distances(from, cells);
    lemma_first_min_choice(d, ok, cap);
    if let Some(i) = spec_first_min(d, ok, cap) {
        lemma_manhattan_bounds(from, cells[i]);
        assert(d[i] as int == manhattan(from, cells[i]));
        assert forall|j: int| 0 <= j < cells.len() && ok[j] implies manhattan(from, cells[i]) <= manhattan(from, cells[j]) by {
            lemma_manhattan_bounds(from, cells[j]);
            assert(d[j] as int == manhattan(from, cells[j]));
        }
    }
}

/// Distances from `from` to each cell.
pub open spec fn distances(from: (i32, i32), cells: Seq<(i32, i32)>) -> Seq<u64> {
    Seq::new(cells.len(), |k: int| manhattan(from, cells[k]) as u64)
}

/// Manhattan distance, exact for every pair of cells.
pub fn manhattan_distance(a: (i32, i32), b: (i32, i32)) -> (r: u64)
    ensures
        r == manhattan(a, b),
{
    let dx: i64 = a.0 as i64 - b.0 as i64;
    let dz: i64 = a.1 as i64 - b.1 as i64;
    let ax: u64 = if dx < 0 { (-dx) as u64 } else { dx as u64 };
    let az: u64 = if dz < 0 { (-dz) as u64 } else { dz as u64 };
    ax + az
}

/// Distances from `from` to each of `cells`, in order.
pub fn distances_to(from: (i32, i32), cells: &[(i32, i32)]) -> (r: Vec<u64>)
    ensures
        r@ == distances(from, cells@),
{
    let mut out: Vec<u64> = Vec::new();
    let mut i: usize = 0;
    while i < cells.len()
        invariant
            0 <= i <= cells@.len(),
            out@ == distances(from, cells@).subrange(0, i as int),
        decreases cells@.len() - i,
    {
        let d = manhattan_distance(from, cells[i]);
        out.push(d);
        i = i + 1;
    }
    assert(out@ == distances(from, cells@));
    out
}

/// The first of the eligible `cells` nearest to `from` among those closer than `cap`.
pub fn nearest_cell(from: (i32, i32), cells: &[(i32, i32)], ok: &[bool], cap: Option<u64>) -> (r: Option<usize>)
    requires
        ok@.len() == cells@.len(),
    ensures
        opt_int(r) == spec_first_min(distances(from, cells@), ok@, cap),
        match r {
            Some(i) => is_first_min(distances(from, cells@), ok@, cap, i as int),
            None => none_eligible(distances(from, cells@), ok@, cap),
        },
{
    let d = distances_to(from, cells);
    first_min(d.as_slice(), ok, cap)
}

/// Every candidate marked eligible.
pub open spec fn all_true(n: int) -> Seq<bool> {
    Seq::new(n as nat, |k: int| true)
}

/// A list of `n` marks, all set.
pub fn all_eligible(n: usize) -> (r: Vec<bool>)
    ensures
        r@ == all_true(n as int),
{
    let mut out: Vec<bool> = Vec::new();
    let mut i: usize = 0;
    while i < n
        invariant
            0 <= i <= n,
            out@ == all_true(i as int),
        decreases n - i,
    {
        out.push(true);
        proof {
            assert(out@ =~= all_true(i + 1));
        }
        i = i + 1;
    }
    out
}

} // verus!
