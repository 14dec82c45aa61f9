//! The planet's shape, as far as it can be counted: which shape a seed picks and what it
//! is called, how its surface is cut into triangles, and which vertices are one point.
//!
//! Where the vertices lie is worked out elsewhere. Every shape is built from rectangular
//! patches, so the triangles follow from the size of each patch alone.

use std::collections::HashMap;
use vstd::arithmetic::div_mod::lemma_fundamental_div_mod_converse;
use vstd::prelude::*;
use vstd::std_specs::hash::*;

use crate::ordering::{first, is_first, lemma_first, lemma_first_exists};
use crate::rng::{law_units_are_draws_cut, Rng, RngView};

verus! {

#[derive(Clone, Copy, Debug, PartialEq, Eq, Structural)]
pub enum Family {
    Donut,
    Ellipsoid,
    Knot,
    Cube,
    Capsule,
    Cone,
    Asteroid,
}

/// How many families of shapes there are.
pub const FAMILIES: usize = 7;

impl Family {
    pub open spec fn numbered(n: nat) -> Family {
        if n == 0 {
            Family::Donut
        } else if n == 1 {
            Family::Ellipsoid
        } else if n == 2 {
            Family::Knot
        } else if n == 3 {
            Family::Cube
        } else if n == 4 {
            Family::Capsule
        } else if n == 5 {
            Family::Cone
        } else {
            Family::Asteroid
        }
    }

    pub open spec fn title(self) -> Seq<char> {
        match self {
            Family::Donut => "Donut"@,
            Family::Ellipsoid => "Ellipsoid"@,
            Family::Knot => "Knot"@,
            Family::Cube => "Cube"@,
            Family::Capsule => "Capsule"@,
            Family::Cone => "Cone"@,
            Family::Asteroid => "Asteroid"@,
        }
    }

    /// Draws a family.
    pub fn draw(rng: &mut Rng) -> (family: Family)
        ensures
            family == Family::numbered(old(rng)@.picked(FAMILIES as nat)),
            final(rng)@ == old(rng)@.next(),
    {
        match rng.below(FAMILIES) {
            0 => Family::Donut,
            1 => Family::Ellipsoid,
            2 => Family::Knot,
            3 => Family::Cube,
            4 => Family::Capsule,
            5 => Family::Cone,
            _ => Family::Asteroid,
        }
    }

    pub fn name(self) -> (name: &'static str)
        ensures
            name@ == self.title(),
    {
        match self {
            Family::Donut => "Donut",
            Family::Ellipsoid => "Ellipsoid",
            Family::Knot => "Knot",
            Family::Cube => "Cube",
            Family::Capsule => "Capsule",
            Family::Cone => "Cone",
            Family::Asteroid => "Asteroid",
        }
    }

    /// Whether a shape wobbles, and the random stream after that is decided.
    pub open spec fn wobbling(self, rng: RngView) -> (bool, RngView) {
        if self == Family::Asteroid {
            (false, rng)
        } else {
            (rng.unit() < 0x80_0000, rng.next())
        }
    }

    /// Decides whether a shape wobbles: every other one, by the toss of a coin. An
    /// asteroid is uneven as it is, and no coin is tossed for it.
    pub fn wobbles(self, rng: &mut Rng) -> (r: bool)
        ensures
            (r, final(rng)@) == self.wobbling(old(rng)@),
            self == Family::Asteroid ==> !r && final(rng)@ == old(rng)@,
            self != Family::Asteroid ==> r == (old(rng)@.unit() < 0x80_0000) && final(rng)@ == old(
                rng,
            )@.next(),
    {
        if self == Family::Asteroid {
            false
        } else {
            rng.unit() < 0x80_0000
        }
    }

    pub open spec fn patch_sizes(self, capped: bool) -> Seq<(u32, u32)> {
        match self {
            Family::Donut => seq![(160, 72)],
            Family::Ellipsoid => seq![(64, 40)],
            Family::Knot => seq![(320, 24)],
            Family::Cube => seq![(8, 8), (8, 8), (8, 8), (8, 8), (8, 8), (8, 8)],
            Family::Capsule => seq![(28, 10), (28, 10), (28, 10)],
            Family::Cone => if capped {
                seq![(28, 10), (28, 4), (28, 4)]
            } else {
                seq![(28, 10), (28, 4)]
            },
            Family::Asteroid => seq![(64, 40)],
        }
    }

    /// The patches that a shape is built from, by how many cells each has either way. A
    /// cone whose tip is a point is not capped.
    pub fn patches(self, capped: bool) -> (sizes: Vec<(u32, u32)>)
        ensures
            sizes@ == self.patch_sizes(capped),
    {
        let sizes = match self {
            Family::Donut => vec![(160, 72)],
            Family::Ellipsoid => vec![(64, 40)],
            Family::Knot => vec![(320, 24)],
            Family::Cube => vec![(8, 8), (8, 8), (8, 8), (8, 8), (8, 8), (8, 8)],
            Family::Capsule => vec![(28, 10), (28, 10), (28, 10)],
            Family::Cone => {
                if capped {
                    vec![(28, 10), (28, 4), (28, 4)]
                } else {
                    vec![(28, 10), (28, 4)]
                }
            },
            Family::Asteroid => vec![(64, 40)],
        };
        assert(sizes@ =~= self.patch_sizes(capped));
        sizes
    }
}

/// What a planet is called.
pub open spec fn named(family: Family, wobbly: bool) -> Seq<char> {
    if wobbly {
        "Wobbly "@ + family.title()
    } else {
        family.title()
    }
}

pub fn shape_name(family: Family, wobbly: bool) -> (name: String)
    ensures
        name@ == named(family, wobbly),
        name@ == if wobbly {
            "Wobbly "@ + family.title()
        } else {
            family.title()
        },
{
    if wobbly {
        let mut name = "Wobbly ".to_owned();
        name.append(family.name());
        name
    } else {
        family.name().to_owned()
    }
}

/// How often each kind of knot winds around, either way.
pub open spec fn windings(n: int) -> (u32, u32) {
    seq![(2u32, 3u32), (3, 2), (2, 5), (3, 4), (3, 5), (4, 3)][n]
}

/// Draws how a knot winds.
pub fn draw_windings(rng: &mut Rng) -> (w: (u32, u32))
    ensures
        w == windings(old(rng)@.picked(6) as int),
        final(rng)@ == old(rng)@.next(),
{
    match rng.below(6) {
        0 => (2, 3),
        1 => (3, 2),
        2 => (2, 5),
        3 => (3, 4),
        4 => (3, 5),
        _ => (4, 3),
    }
}

/// How many vertices a patch has.
pub open spec fn patch_vertices(nu: int, nv: int) -> int {
    (nu + 1) * (nv + 1)
}

/// How many corners of triangles a patch has: two triangles a cell.
pub open spec fn patch_corners(nu: int, nv: int) -> int {
    nu * nv * 6
}

/// The vertex at a corner of a triangle of a patch whose vertices start at `base`. The
/// cells go row by row, and each is cut along the same diagonal.
pub open spec fn patch_corner(base: int, nv: int, k: int) -> int {
    let cell = k / 6;
    let a = base + (cell / nv) * (nv + 1) + cell % nv;
    let b = a + nv + 1;
    seq![a, b, a + 1, b, b + 1, a + 1][k % 6]
}

proof fn lemma_cell(nv: int, i: int, j: int)
    requires
        0 <= i,
        0 <= j < nv,
    ensures
        (i * nv + j) / nv == i,
        (i * nv + j) % nv == j,
{
    lemma_fundamental_div_mod_converse(i * nv + j, nv, i, j);
}

proof fn lemma_corner_bounds(base: int, nu: int, nv: int, k: int)
    requires
        0 < nv,
        0 <= k < patch_corners(nu, nv),
    ensures
        base <= patch_corner(base, nv, k) < base + patch_vertices(nu, nv),
{
    let cell = k / 6;
    let i = cell / nv;
    let j = cell % nv;
    assert(cell < nu * nv) by (nonlinear_arith)
        requires
            cell == k / 6,
            0 <= k < nu * nv * 6,
    ;
    assert(0 <= j < nv && cell == i * nv + j) by (nonlinear_arith)
        requires
            i == cell / nv,
            j == cell % nv,
            nv > 0,
    ;
    assert(0 <= i) by (nonlinear_arith)
        requires
            i == cell / nv,
            cell >= 0,
            nv > 0,
    ;
    assert(i < nu) by (nonlinear_arith)
        requires
            cell == i * nv + j,
            0 <= j < nv,
            cell < nu * nv,
    ;
    assert(0 <= i * (nv + 1)) by (nonlinear_arith)
        requires
            0 <= i,
            0 < nv,
    ;
    assert(i * (nv + 1) + j + nv + 2 < (nu + 1) * (nv + 1)) by (nonlinear_arith)
        requires
            0 <= i < nu,
            0 <= j < nv,
    ;
    let a = base + i * (nv + 1) + j;
    let b = a + nv + 1;
    let corners = seq![a, b, a + 1, b, b + 1, a + 1];
    assert(patch_corner(base, nv, k) == corners[k % 6]);
    assert(forall|m: int| 0 <= m < 6 ==> a <= #[trigger] corners[m] <= b + 1);
}

/// Adds the triangles of a patch whose vertices start at `base`.
fn push_patch(indices: &mut Vec<u32>, base: u32, nu: u32, nv: u32)
    requires
        nv > 0,
        base + patch_vertices(nu as int, nv as int) <= u32::MAX,
    ensures
        final(indices)@.len() == old(indices)@.len() + patch_corners(nu as int, nv as int),
        forall|k: int|
            0 <= k < old(indices)@.len() ==> #[trigger] final(indices)@[k] == old(indices)@[k],
        forall|k: int|
            0 <= k < patch_corners(nu as int, nv as int) ==> #[trigger] final(indices)@[old(
                indices,
            )@.len() + k] == patch_corner(base as int, nv as int, k),
{
    let ghost was = indices@;
    assert((nu + 1) * (nv + 1) >= nv + 1) by (nonlinear_arith)
        requires
            nu >= 0,
            nv >= 0,
    ;
    let stride: u32 = nv + 1;
    let mut i: u32 = 0;
    let mut row: u32 = base;
    while i < nu
        invariant
            i <= nu,
            nv > 0,
            stride == nv + 1,
            base + patch_vertices(nu as int, nv as int) <= u32::MAX,
            row == base + i * (nv + 1),
            indices@.len() == was.len() + i * nv * 6,
            forall|k: int| 0 <= k < was.len() ==> #[trigger] indices@[k] == was[k],
            forall|k: int|
                0 <= k < i * nv * 6 ==> #[trigger] indices@[was.len() + k] == patch_corner(
                    base as int,
                    nv as int,
                    k,
                ),
        decreases nu - i,
    {
        assert(i * (nv + 1) + (nv + 1) + (nv + 1) <= (nu + 1) * (nv + 1)) by (nonlinear_arith)
            requires
                i < nu,
        ;
        assert((i + 1) * (nv + 1) == i * (nv + 1) + (nv + 1)) by (nonlinear_arith);
        assert((i + 1) * nv * 6 == i * nv * 6 + nv * 6) by (nonlinear_arith);
        assert(i * nv >= 0) by (nonlinear_arith);
        let mut j: u32 = 0;
        while j < nv
            invariant
                i < nu,
                j <= nv,
                nv > 0,
                stride == nv + 1,
                row == base + i * (nv + 1),
                row + 2 * (nv + 1) <= u32::MAX,
                i * nv >= 0,
                indices@.len() == was.len() + i * nv * 6 + j * 6,
                forall|k: int| 0 <= k < was.len() ==> #[trigger] indices@[k] == was[k],
                forall|k: int|
                    0 <= k < i * nv * 6 + j * 6 ==> #[trigger] indices@[was.len() + k]
                        == patch_corner(base as int, nv as int, k),
            decreases nv - j,
        {
            let ghost before = indices@;
            let a: u32 = row + j;
            let b: u32 = a + stride;
            indices.push(a);
            indices.push(b);
            indices.push(a + 1);
            indices.push(b);
            indices.push(b + 1);
            indices.push(a + 1);
            proof {
                lemma_cell(nv as int, i as int, j as int);
                let first = i * nv * 6 + j * 6;
                assert forall|k: int| 0 <= k < first + 6 implies #[trigger] indices@[was.len() + k]
                    == patch_corner(base as int, nv as int, k) by {
                    if k < first {
                        assert(indices@[was.len() + k] == before[was.len() + k]);
                    } else {
                        let m = k - first;
                        assert(k == (i * nv + j) * 6 + m) by (nonlinear_arith)
                            requires
                                k == i * nv * 6 + j * 6 + m,
                        ;
                        assert(k / 6 == i * nv + j && k % 6 == m);
                    }
                }
            }
            j += 1;
        }
        i += 1;
        row += stride;
    }
}

/// How many vertices a mesh of patches has.
pub open spec fn vertex_total(sizes: Seq<(u32, u32)>) -> int
    decreases sizes.len(),
{
    if sizes.len() == 0 {
        0
    } else {
        vertex_total(sizes.drop_last()) + patch_vertices(
            sizes.last().0 as int,
            sizes.last().1 as int,
        )
    }
}

/// The triangles of a mesh of patches, three vertices each. The vertices of each patch
/// follow those of the one before.
pub open spec fn triangles(sizes: Seq<(u32, u32)>) -> Seq<int>
    decreases sizes.len(),
{
    if sizes.len() == 0 {
        Seq::empty()
    } else {
        let nu = sizes.last().0 as int;
        let nv = sizes.last().1 as int;
        let base = vertex_total(sizes.drop_last());
        triangles(sizes.drop_last()) + Seq::new(
            patch_corners(nu, nv) as nat,
            |k: int| patch_corner(base, nv, k),
        )
    }
}

pub open spec fn as_ints(s: Seq<u32>) -> Seq<int> {
    s.map_values(|x: u32| x as int)
}

proof fn lemma_patch_vertices_positive(nu: int, nv: int)
    requires
        0 <= nu,
        0 <= nv,
    ensures
        patch_vertices(nu, nv) > 0,
        patch_corners(nu, nv) >= 0,
{
    assert((nu + 1) * (nv + 1) > 0) by (nonlinear_arith)
        requires
            0 <= nu,
            0 <= nv,
    ;
    assert(nu * nv >= 0) by (nonlinear_arith)
        requires
            0 <= nu,
            0 <= nv,
    ;
}

proof fn lemma_vertex_total_grows(sizes: Seq<(u32, u32)>, i: int)
    requires
        0 <= i <= sizes.len(),
    ensures
        0 <= vertex_total(sizes.take(i)) <= vertex_total(sizes),
    decreases sizes.len(),
{
    if sizes.len() > 0 {
        lemma_patch_vertices_positive(sizes.last().0 as int, sizes.last().1 as int);
        if i == sizes.len() {
            lemma_vertex_total_grows(sizes.drop_last(), i - 1);
            assert(sizes.take(i) =~= sizes);
            assert(sizes.drop_last().take(i - 1) =~= sizes.drop_last());
        } else {
            lemma_vertex_total_grows(sizes.drop_last(), i);
            assert(sizes.drop_last().take(i) =~= sizes.take(i));
        }
    }
}

/// The triangles of a mesh of patches.
pub fn mesh_indices(sizes: &Vec<(u32, u32)>) -> (indices: Vec<u32>)
    requires
        vertex_total(sizes@) <= u32::MAX,
        forall|i: int| 0 <= i < sizes@.len() ==> (#[trigger] sizes@[i]).1 > 0,
    ensures
        as_ints(indices@) == triangles(sizes@),
{
    let mut indices: Vec<u32> = Vec::new();
    let mut base: u32 = 0;
    let mut i: usize = 0;
    assert(as_ints(indices@) =~= triangles(sizes@.take(0)));
    while i < sizes.len()
        invariant
            i <= sizes.len(),
            vertex_total(sizes@) <= u32::MAX,
            forall|i: int| 0 <= i < sizes@.len() ==> (#[trigger] sizes@[i]).1 > 0,
            base == vertex_total(sizes@.take(i as int)),
            as_ints(indices@) == triangles(sizes@.take(i as int)),
        decreases sizes.len() - i,
    {
        let (nu, nv) = sizes[i];
        let ghost before = indices@;
        proof {
            lemma_vertex_total_grows(sizes@, i + 1);
            lemma_patch_vertices_positive(nu as int, nv as int);
            assert(sizes@.take(i + 1).drop_last() =~= sizes@.take(i as int));
        }
        push_patch(&mut indices, base, nu, nv);
        proof {
            let added = Seq::new(
                patch_corners(nu as int, nv as int) as nat,
                |k: int| patch_corner(base as int, nv as int, k),
            );
            assert forall|k: int| 0 <= k < indices@.len() implies #[trigger] as_ints(indices@)[k]
                == (as_ints(before) + added)[k] by {
                if k >= before.len() {
                    assert(indices@[before.len() + (k - before.len())] == patch_corner(
                        base as int,
                        nv as int,
                        k - before.len(),
                    ));
                }
            }
            assert(as_ints(indices@) =~= as_ints(before) + added);
        }
        base = base + vertices_of(nu, nv);
        i += 1;
    }
    assert(sizes@.take(i as int) =~= sizes@);
    indices
}

fn vertices_of(nu: u32, nv: u32) -> (n: u32)
    requires
        patch_vertices(nu as int, nv as int) <= u32::MAX,
    ensures
        n == patch_vertices(nu as int, nv as int),
{
    assert((nu + 1) * (nv + 1) >= nu + 1 && (nu + 1) * (nv + 1) >= nv + 1) by (nonlinear_arith)
        requires
            nu >= 0,
            nv >= 0,
    ;
    (nu + 1) * (nv + 1)
}

/// Every corner of every triangle is a vertex of the mesh.
pub proof fn law_triangles_stay_in_the_mesh(sizes: Seq<(u32, u32)>)
    requires
        forall|i: int| 0 <= i < sizes.len() ==> (#[trigger] sizes[i]).1 > 0,
    ensures
        forall|k: int|
            0 <= k < triangles(sizes).len() ==> 0 <= #[trigger] triangles(sizes)[k] < vertex_total(
                sizes,
            ),
    decreases sizes.len(),
{
    if sizes.len() > 0 {
        let fewer = sizes.drop_last();
        let nu = sizes.last().0 as int;
        let nv = sizes.last().1 as int;
        assert forall|i: int| 0 <= i < fewer.len() implies (#[trigger] fewer[i]).1 > 0 by {
            assert(sizes[i].1 > 0);
        }
        assert(sizes[sizes.len() - 1].1 > 0);
        law_triangles_stay_in_the_mesh(fewer);
        lemma_patch_vertices_positive(nu, nv);
        let base = vertex_total(fewer);
        lemma_vertex_total_grows(fewer, 0);
        assert forall|k: int| 0 <= k < triangles(sizes).len() implies 0 <= #[trigger] triangles(
            sizes,
        )[k] < vertex_total(sizes) by {
            let n = triangles(fewer).len();
            if k >= n {
                lemma_corner_bounds(base, nu, nv, k - n);
                assert(triangles(sizes)[k] == patch_corner(base, nv, k - n));
            } else {
                assert(triangles(sizes)[k] == triangles(fewer)[k]);
            }
        }
    }
}

/// Where a vertex is on the grid that points are told apart on.
pub type Cell = (i32, i32, i32);

pub open spec fn is_cell(c: Cell) -> spec_fn(Cell) -> bool {
    |d: Cell| d == c
}

spec fn packed(c: Cell) -> int {
    ((c.0 + 0x8000_0000) * 0x1_0000_0000 + (c.1 + 0x8000_0000)) * 0x1_0000_0000 + (c.2
        + 0x8000_0000)
}

fn pack(c: Cell) -> (n: u128)
    ensures
        n == packed(c),
{
    let a: u128 = (c.0 as i64 + 0x8000_0000) as u128;
    let b: u128 = (c.1 as i64 + 0x8000_0000) as u128;
    let d: u128 = (c.2 as i64 + 0x8000_0000) as u128;
    (a * 0x1_0000_0000 + b) * 0x1_0000_0000 + d
}

/// Finds the vertices that are one point: for each, the first one in its cell.
pub fn weld(cells: &Vec<Cell>) -> (points: Vec<usize>)
    ensures
        points@.len() == cells@.len(),
        forall|i: int|
            0 <= i < cells@.len() ==> first(cells@, is_cell(cells@[i])) == Some(
                #[trigger] points@[i] as int,
            ),
{
    broadcast use group_hash_axioms;

    let mut seen: HashMap<u128, usize> = HashMap::new();
    let mut points: Vec<usize> = Vec::new();
    let mut i: usize = 0;
    while i < cells.len()
        invariant
            i <= cells.len(),
            points@.len() == i,
            obeys_key_model::<u128>(),
            builds_valid_hashers::<std::hash::RandomState>(),
            forall|n: u128|
                #[trigger] seen@.contains_key(n) ==> {
                    let j = seen@[n] as int;
                    0 <= j < i && packed(cells@[j]) == n && is_first(cells@, is_cell(cells@[j]), j)
                },
            forall|j: int|
                0 <= j < i ==> exists|n: u128|
                    n == packed(#[trigger] cells@[j]) && #[trigger] seen@.contains_key(n),
            forall|j: int|
                0 <= j < i ==> first(cells@, is_cell(cells@[j])) == Some(
                    #[trigger] points@[j] as int,
                ),
        decreases cells.len() - i,
    {
        let n = pack(cells[i]);
        let ghost before = seen@;
        let known = match seen.get(&n) {
            Some(j) => Some(*j),
            None => None,
        };
        match known {
            Some(j) => {
                proof {
                    assert(seen@.contains_key(n));
                    assert(cells@[j as int] == cells@[i as int]);
                    lemma_first(cells@, is_cell(cells@[i as int]), j as int);
                }
                points.push(j);
            },
            None => {
                proof {
                    assert forall|j: int| 0 <= j < i implies !is_cell(cells@[i as int])(
                        #[trigger] cells@[j],
                    ) by {
                        let m = choose|m: u128|
                            m == packed(cells@[j]) && #[trigger] seen@.contains_key(m);
                        assert(m != n);
                    }
                    lemma_first(cells@, is_cell(cells@[i as int]), i as int);
                }
                seen.insert(n, i);
                points.push(i);
            },
        }
        proof {
            assert(seen@.contains_key(n));
            assert forall|j: int| 0 <= j < i + 1 implies exists|m: u128|
                m == packed(#[trigger] cells@[j]) && #[trigger] seen@.contains_key(m) by {
                if j < i {
                    let m = choose|m: u128|
                        m == packed(cells@[j]) && #[trigger] before.contains_key(m);
                    assert(seen@.contains_key(m));
                } else {
                    assert(n == packed(cells@[j]));
                }
            }
        }
        i += 1;
    }
    points
}

/// Welding is what it says: two vertices are one point exactly if they share a cell, and
/// a point stands for itself.
pub proof fn law_welding_joins_equal_cells(cells: Seq<Cell>, i: int, j: int)
    requires
        0 <= i < cells.len(),
        0 <= j < cells.len(),
    ensures
        (first(cells, is_cell(cells[i])) == first(cells, is_cell(cells[j]))) <==> cells[i]
            == cells[j],
        first(cells, is_cell(cells[i])) matches Some(p) && first(cells, is_cell(cells[p])) == Some(
            p,
        ),
{
    lemma_first_exists(cells, is_cell(cells[i]), i);
    lemma_first_exists(cells, is_cell(cells[j]), j);
    let p = first(cells, is_cell(cells[i]))->0;
    assert(cells[p] == cells[i]);
}

/// Each cell of a patch is cut in two: from its corner `a` the next vertex in its row is
/// `a + 1`, and the one across lies a row of `nv + 1` further. The two triangles share the
/// diagonal from `a + 1` to the vertex across from `a`.
pub proof fn law_cells_are_cut_in_two(base: int, nv: int, i: int, j: int)
    requires
        0 <= i,
        0 <= j < nv,
    ensures
        ({
            let k = 6 * (i * nv + j);
            let a = base + i * (nv + 1) + j;
            &&& patch_corner(base, nv, k) == a
            &&& patch_corner(base, nv, k + 1) == a + nv + 1
            &&& patch_corner(base, nv, k + 2) == a + 1
            &&& patch_corner(base, nv, k + 3) == a + nv + 1
            &&& patch_corner(base, nv, k + 4) == a + nv + 2
            &&& patch_corner(base, nv, k + 5) == a + 1
        }),
{
    lemma_cell(nv, i, j);
    let cell = i * nv + j;
    assert(forall|m: int| 0 <= m < 6 ==> #[trigger] ((6 * cell + m) / 6) == cell);
    assert(forall|m: int| 0 <= m < 6 ==> #[trigger] ((6 * cell + m) % 6) == m);
    assert((6 * cell + 0) / 6 == cell && (6 * cell + 0) % 6 == 0);
    assert((6 * cell + 1) / 6 == cell && (6 * cell + 1) % 6 == 1);
    assert((6 * cell + 2) / 6 == cell && (6 * cell + 2) % 6 == 2);
    assert((6 * cell + 3) / 6 == cell && (6 * cell + 3) % 6 == 3);
    assert((6 * cell + 4) / 6 == cell && (6 * cell + 4) % 6 == 4);
    assert((6 * cell + 5) / 6 == cell && (6 * cell + 5) % 6 == 5);
}

/// A patch more adds its own vertices behind those of the others, and two triangles for each
/// of its cells.
pub proof fn law_patches_are_put_together(sizes: Seq<(u32, u32)>, nu: u32, nv: u32)
    ensures
        vertex_total(Seq::empty()) == 0,
        triangles(Seq::empty()).len() == 0,
        vertex_total(sizes.push((nu, nv))) - vertex_total(sizes) == (nu + 1) * (nv + 1),
        ({
            let all = triangles(sizes.push((nu, nv)));
            let n = triangles(sizes).len() as int;
            &&& all.len() == n + 6 * (nu * nv)
            &&& all.take(n) == triangles(sizes)
            &&& forall|k: int|
                0 <= k < 6 * (nu * nv) ==> #[trigger] all[n + k] == patch_corner(
                    vertex_total(sizes),
                    nv as int,
                    k,
                )
        }),
{
    let more = sizes.push((nu, nv));
    assert(more.drop_last() =~= sizes);
    lemma_patch_vertices_positive(nu as int, nv as int);
    assert(nu * nv * 6 == 6 * (nu * nv)) by (nonlinear_arith);
    assert(triangles(more).take(triangles(sizes).len() as int) =~= triangles(sizes));
}

/// The seven families are drawn alike, each has a name of its own, and a planet that wobbles
/// is called so.
pub proof fn law_families_have_names(n: nat, m: nat, f: Family)
    requires
        n < m < 7,
    ensures
        Family::numbered(n) != Family::numbered(m),
        Family::numbered(n).title() != Family::numbered(m).title(),
        named(f, false) == f.title(),
        named(f, true) == "Wobbly "@ + f.title(),
        Family::numbered(0) == Family::Donut && Family::Donut.title() == "Donut"@,
        Family::numbered(1) == Family::Ellipsoid && Family::Ellipsoid.title() == "Ellipsoid"@,
        Family::numbered(2) == Family::Knot && Family::Knot.title() == "Knot"@,
        Family::numbered(3) == Family::Cube && Family::Cube.title() == "Cube"@,
        Family::numbered(4) == Family::Capsule && Family::Capsule.title() == "Capsule"@,
        Family::numbered(5) == Family::Cone && Family::Cone.title() == "Cone"@,
        Family::numbered(6) == Family::Asteroid && Family::Asteroid.title() == "Asteroid"@,
{
    reveal_strlit("Donut");
    reveal_strlit("Ellipsoid");
    reveal_strlit("Knot");
    reveal_strlit("Cube");
    reveal_strlit("Capsule");
    reveal_strlit("Cone");
    reveal_strlit("Asteroid");
    assert("Donut"@.len() == 5 && "Ellipsoid"@.len() == 9 && "Capsule"@.len() == 7);
    assert("Asteroid"@.len() == 8 && "Knot"@.len() == 4 && "Cube"@.len() == 4 && "Cone"@.len()
        == 4);
    assert("Knot"@[0] == 'K' && "Cube"@[0] == 'C' && "Cone"@[0] == 'C');
    assert("Cube"@[1] == 'u' && "Cone"@[1] == 'o');
}

/// Half of what is drawn makes a shape wobble, but never an asteroid, which draws nothing.
pub proof fn law_half_the_shapes_wobble(f: Family, rng: RngView)
    ensures
        f != Family::Asteroid ==> (f.wobbling(rng).0 <==> rng.drawn() < 0x8000_0000)
            && f.wobbling(rng).1 == rng.next(),
        f == Family::Asteroid ==> !f.wobbling(rng).0 && f.wobbling(rng).1 == rng,
{
    law_units_are_draws_cut(rng);
}

/// Only a cone has a cap, which is a patch more like its foot, and a cube has six faces
/// alike.
pub proof fn law_cones_may_be_capped(f: Family)
    ensures
        f != Family::Cone ==> f.patch_sizes(true) == f.patch_sizes(false),
        f == Family::Cone ==> f.patch_sizes(true) == f.patch_sizes(false).push(
            f.patch_sizes(false)[1],
        ),
        f == Family::Cube ==> f.patch_sizes(false).len() == 6 && forall|i: int|
            0 <= i < 6 ==> #[trigger] f.patch_sizes(false)[i] == (8u32, 8u32),
        f == Family::Ellipsoid ==> f.patch_sizes(false) == Family::Asteroid.patch_sizes(false),
{
    if f == Family::Cone {
        assert(f.patch_sizes(true) =~= f.patch_sizes(false).push(f.patch_sizes(false)[1]));
    }
}

/// Shapes have the surface they are meant to have, by the cells of their patches.
pub proof fn law_shapes_have_their_patches(capped: bool)
    ensures
        Family::Donut.patch_sizes(capped) == seq![(160u32, 72u32)],
        Family::Ellipsoid.patch_sizes(capped) == seq![(64u32, 40u32)],
        Family::Knot.patch_sizes(capped) == seq![(320u32, 24u32)],
        Family::Capsule.patch_sizes(capped) == seq![(28u32, 10u32), (28, 10), (28, 10)],
        Family::Cone.patch_sizes(false) == seq![(28u32, 10u32), (28, 4)],
{
}

/// A knot winds around either way by numbers from 2 to 5 that have no divisor in common,
/// so that it is one, and no two of the six wind alike.
pub proof fn law_knots_are_knotted(n: int, m: int, d: int)
    requires
        0 <= n < m < 6,
    ensures
        windings(n) != windings(m),
        2 <= windings(n).0 <= 5 && 2 <= windings(n).1 <= 5,
        2 <= windings(m).0 <= 5 && 2 <= windings(m).1 <= 5,
        2 <= d <= 5 ==> windings(n).0 as int % d != 0 || windings(n).1 as int % d != 0,
        2 <= d <= 5 ==> windings(m).0 as int % d != 0 || windings(m).1 as int % d != 0,
        windings(0) == (2u32, 3u32) && windings(1) == (3u32, 2u32),
        windings(2) == (2u32, 5u32) && windings(3) == (3u32, 4u32),
        windings(4) == (3u32, 5u32) && windings(5) == (4u32, 3u32),
{
    if d == 2 {
        assert(3int % 2 == 1 && 5int % 2 == 1);
        assert(3int % d == 1 && 5int % d == 1);
    } else if d == 3 {
        assert(2int % 3 == 2 && 4int % 3 == 1 && 5int % 3 == 2);
        assert(2int % d == 2 && 4int % d == 1 && 5int % d == 2);
    } else if d == 4 {
        assert(2int % 4 == 2 && 3int % 4 == 3 && 5int % 4 == 1);
        assert(2int % d == 2 && 3int % d == 3 && 5int % d == 1);
    } else if d == 5 {
        assert(2int % 5 == 2 && 3int % 5 == 3 && 4int % 5 == 4);
        assert(2int % d == 2 && 3int % d == 3 && 4int % d == 4);
    }
}

/// A vertex is welded to the earliest one in its cell.
pub proof fn law_welding_goes_to_the_earliest(cells: Seq<Cell>, i: int)
    requires
        0 <= i < cells.len(),
    ensures
        first(cells, is_cell(cells[i])) matches Some(p) && 0 <= p <= i && cells[p] == cells[i]
            && forall|j: int| 0 <= j < p ==> #[trigger] cells[j] != cells[i],
{
    lemma_first_exists(cells, is_cell(cells[i]), i);
    let p = first(cells, is_cell(cells[i]))->0;
    assert(is_first(cells, is_cell(cells[i]), p));
    assert forall|j: int| 0 <= j < p implies #[trigger] cells[j] != cells[i] by {
        assert(!is_cell(cells[i])(cells[j]));
    }
}

} // verus!
