//! Topology of the grid mesher for 2.5-D point clouds: which grid cells
//! become vertices, and which triangles join adjacent occupied cells.
//!
//! The grid has `cols * rows` cells stored row by row. A cell is occupied
//! when at least one point falls in it. The caller bins the points and
//! averages their heights; this module numbers the occupied cells and builds
//! the faces.

use vstd::prelude::*;

verus! {

/// Largest number of cells a grid may have.
pub const MAX_GRID_CELLS: u64 = 10000000;

/// The gap bridged when a request does not name a positive one.
pub const DEFAULT_MAX_GAP: i32 = 2;

/// The maximum gap used for a requested value: positive values are kept,
/// others become the default.
pub fn effective_max_gap(requested: i32) -> (r: i32)
    ensures
        r == if requested > 0 {
            requested
        } else {
            DEFAULT_MAX_GAP
        },
{
    if requested > 0 {
        requested
    } else {
        DEFAULT_MAX_GAP
    }
}

/// A grid of `cols` by `rows` cells can be meshed: at least two cells each
/// way, and no more than the cell limit.
pub open spec fn spec_grid_dims_ok(cols: nat, rows: nat) -> bool {
    cols >= 2 && rows >= 2 && cols * rows <= MAX_GRID_CELLS
}

/// Whether a grid of `cols` by `rows` cells can be meshed.
pub fn grid_dims_ok(cols: usize, rows: usize) -> (r: bool)
    ensures
        r == spec_grid_dims_ok(cols as nat, rows as nat),
{
    if cols < 2 || rows < 2 {
        return false;
    }
    let c = cols as u128;
    let r = rows as u128;
    assert(c * r <= 0xffff_ffff_ffff_ffff * 0xffff_ffff_ffff_ffffu128) by (nonlinear_arith)
        requires
            c <= 0xffff_ffff_ffff_ffff,
            r <= 0xffff_ffff_ffff_ffff,
    ;
    c * r <= MAX_GRID_CELLS as u128
}

/// The cell a point lands in, given its column and row counted from the
/// grid's low corner; points past the far edge go to the last column or row.
pub fn cell_index(col: usize, row: usize, cols: usize, rows: usize) -> (r: usize)
    requires
        spec_grid_dims_ok(cols as nat, rows as nat),
    ensures
        r == (if row < rows {
            row
        } else {
            (rows - 1) as usize
        }) * cols + (if col < cols {
            col
        } else {
            (cols - 1) as usize
        }),
        r < cols * rows,
{
    let c = if col < cols {
        col
    } else {
        cols - 1
    };
    let rr = if row < rows {
        row
    } else {
        rows - 1
    };
    proof {
        lemma_cell_in_grid(c as int, rr as int, cols as int, rows as int);
    }
    rr * cols + c
}

/// A cell inside the grid has an index below the cell count.
pub proof fn lemma_cell_in_grid(c: int, r: int, cols: int, rows: int)
    requires
        0 <= c < cols,
        0 <= r < rows,
    ensures
        0 <= r * cols + c < cols * rows,
{
    assert(0 <= r * cols + c < cols * rows) by (nonlinear_arith)
        requires
            0 <= c < cols,
            0 <= r < rows,
    ;
}

/// Number of occupied cells among the first `i`.
pub open spec fn occupied_before(counts: Seq<u32>, i: int) -> nat
    decreases i,
{
    if i <= 0 {
        0
    } else {
        occupied_before(counts, i - 1) + if counts[i - 1] > 0 {
            1nat
        } else {
            0nat
        }
    }
}

/// The vertex number of each cell: occupied cells are numbered in cell
/// order from zero, empty cells get -1.
pub open spec fn spec_vertex_index(counts: Seq<u32>, i: int) -> int {
    if counts[i] > 0 {
        occupied_before(counts, i) as int
    } else {
        -1
    }
}

pub proof fn lemma_occupied_before_monotone(counts: Seq<u32>, i: int, j: int)
    requires
        0 <= i <= j,
    ensures
        occupied_before(counts, i) <= occupied_before(counts, j),
        occupied_before(counts, j) <= occupied_before(counts, i) + (j - i),
    decreases j - i,
{
    if i < j {
        lemma_occupied_before_monotone(counts, i, j - 1);
    }
}

/// Numbering law: occupied cells get distinct vertex numbers, increasing
/// in cell order, all below the vertex count.
pub proof fn lemma_vertex_numbers_distinct(counts: Seq<u32>, i: int, j: int)
    requires
        0 <= i < j < counts.len(),
        counts[i] > 0,
        counts[j] > 0,
    ensures
        0 <= spec_vertex_index(counts, i) < spec_vertex_index(counts, j),
        spec_vertex_index(counts, j) < occupied_before(counts, counts.len() as int),
{
    lemma_occupied_before_monotone(counts, i + 1, j);
    lemma_occupied_before_monotone(counts, j + 1, counts.len() as int);
}

/// Numbers the occupied cells: returns each cell's vertex number (-1 for
/// an empty cell) and the number of vertices.
pub fn assign_vertex_indices(counts: &Vec<u32>) -> (r: (Vec<i32>, usize))
    requires
        counts@.len() <= i32::MAX,
    ensures
        r.0@.len() == counts@.len(),
        forall|i: int| 0 <= i < counts@.len() ==> r.0@[i] == spec_vertex_index(counts@, i),
        r.1 == occupied_before(counts@, counts@.len() as int),
{
    let n = counts.len();
    let mut index: Vec<i32> = Vec::new();
    let mut next: usize = 0;
    let mut i: usize = 0;
    while i < n
        invariant
            n == counts@.len(),
            n <= i32::MAX,
            i <= n,
            index@.len() == i,
            next == occupied_before(counts@, i as int),
            next <= i,
            forall|j: int| 0 <= j < i ==> index@[j] == spec_vertex_index(counts@, j),
        decreases n - i,
    {
        if counts[i] > 0 {
            index.push(next as i32);
            next = next + 1;
        } else {
            index.push(-1);
        }
        i = i + 1;
    }
    (index, next)
}

/// The corners of quad `q` (top-left, top-right, bottom-left,
/// bottom-right) as cell indices.
pub open spec fn quad_row(q: int, cols: int) -> int {
    q / (cols - 1)
}

pub open spec fn quad_col(q: int, cols: int) -> int {
    q % (cols - 1)
}

pub open spec fn corner(vi: Seq<i32>, cols: int, q: int, dr: int, dc: int) -> i32 {
    vi[(quad_row(q, cols) + dr) * cols + quad_col(q, cols) + dc]
}

/// The faces contributed by quad `q`. With all four corners present the
/// quad gives two triangles when it is flat enough; otherwise, when gaps may
/// be bridged, each present three-corner subset gives one triangle.
pub open spec fn quad_faces(vi: Seq<i32>, cols: int, flat: Seq<bool>, max_gap: i32, q: int) -> Seq<
    i32,
> {
    let tl = corner(vi, cols, q, 0, 0);
    let tr = corner(vi, cols, q, 0, 1);
    let bl = corner(vi, cols, q, 1, 0);
    let br = corner(vi, cols, q, 1, 1);
    if tl >= 0 && tr >= 0 && bl >= 0 && br >= 0 {
        if flat[q] {
            seq![tl, bl, tr, tr, bl, br]
        } else {
            Seq::empty()
        }
    } else if max_gap > 1 {
        (if tl >= 0 && tr >= 0 && bl >= 0 {
            seq![tl, bl, tr]
        } else {
            Seq::empty()
        }) + (if tl >= 0 && tr >= 0 && br >= 0 {
            seq![tl, br, tr]
        } else {
            Seq::empty()
        }) + (if tl >= 0 && bl >= 0 && br >= 0 {
            seq![tl, bl, br]
        } else {
            Seq::empty()
        }) + (if tr >= 0 && bl >= 0 && br >= 0 {
            seq![tr, bl, br]
        } else {
            Seq::empty()
        })
    } else {
        Seq::empty()
    }
}

/// The faces of the first `q` quads, in row-major quad order.
pub open spec fn faces_upto(vi: Seq<i32>, cols: int, flat: Seq<bool>, max_gap: i32, q: int) -> Seq<
    i32,
>
    decreases q,
{
    if q <= 0 {
        Seq::empty()
    } else {
        faces_upto(vi, cols, flat, max_gap, q - 1) + quad_faces(vi, cols, flat, max_gap, q - 1)
    }
}

/// Number of quads of the grid.
pub open spec fn quad_count(cols: int, rows: int) -> int {
    (cols - 1) * (rows - 1)
}

/// The corners of quad `q` lie in the grid.
pub proof fn lemma_quad_corners(q: int, cols: int, rows: int)
    requires
        cols >= 2,
        rows >= 2,
        0 <= q < quad_count(cols, rows),
    ensures
        0 <= quad_row(q, cols) < rows - 1,
        0 <= quad_col(q, cols) < cols - 1,
        0 <= quad_row(q, cols) * cols + quad_col(q, cols),
        (quad_row(q, cols) + 1) * cols == quad_row(q, cols) * cols + cols,
        (quad_row(q, cols) + 1) * cols + quad_col(q, cols) + 1 < cols * rows,
{
    let w = cols - 1;
    assert(0 <= q / w < rows - 1) by (nonlinear_arith)
        requires
            w >= 1,
            rows >= 2,
            0 <= q < w * (rows - 1),
    ;
    assert(0 <= q % w < w) by (nonlinear_arith)
        requires
            w >= 1,
    ;
    let r = q / w;
    let c = q % w;
    assert((r + 1) * cols + c + 1 < cols * rows) by (nonlinear_arith)
        requires
            0 <= r < rows - 1,
            0 <= c < cols - 1,
    ;
    assert(0 <= r * cols + c) by (nonlinear_arith)
        requires
            0 <= r,
            0 <= c,
            cols >= 2,
    ;
    assert((r + 1) * cols == r * cols + cols) by (nonlinear_arith);
}

/// Appends the faces of one quad whose corners are given.
fn push_quad_faces(
    faces: &mut Vec<i32>,
    tl: i32,
    tr: i32,
    bl: i32,
    br: i32,
    flat: bool,
    max_gap: i32,
)
    ensures
        final(faces)@ == old(faces)@ + (if tl >= 0 && tr >= 0 && bl >= 0 && br >= 0 {
            if flat {
                seq![tl, bl, tr, tr, bl, br]
            } else {
                Seq::empty()
            }
        } else if max_gap > 1 {
            (if tl >= 0 && tr >= 0 && bl >= 0 {
                seq![tl, bl, tr]
            } else {
                Seq::empty()
            }) + (if tl >= 0 && tr >= 0 && br >= 0 {
                seq![tl, br, tr]
            } else {
                Seq::empty()
            }) + (if tl >= 0 && bl >= 0 && br >= 0 {
                seq![tl, bl, br]
            } else {
                Seq::empty()
            }) + (if tr >= 0 && bl >= 0 && br >= 0 {
                seq![tr, bl, br]
            } else {
                Seq::empty()
            })
        } else {
            Seq::empty()
        }),
{
    let ghost start = faces@;
    if tl >= 0 && tr >= 0 && bl >= 0 && br >= 0 {
        if flat {
            faces.push(tl);
            faces.push(bl);
            faces.push(tr);
            faces.push(tr);
            faces.push(bl);
            faces.push(br);
            assert(faces@ =~= start + seq![tl, bl, tr, tr, bl, br]);
        } else {
            assert(faces@ =~= start + Seq::<i32>::empty());
        }
    } else if max_gap > 1 {
        let ghost s1: Seq<i32> = if tl >= 0 && tr >= 0 && bl >= 0 {
            seq![tl, bl, tr]
        } else {
            Seq::empty()
        };
        let ghost s2: Seq<i32> = if tl >= 0 && tr >= 0 && br >= 0 {
            seq![tl, br, tr]
        } else {
            Seq::empty()
        };
        let ghost s3: Seq<i32> = if tl >= 0 && bl >= 0 && br >= 0 {
            seq![tl, bl, br]
        } else {
            Seq::empty()
        };
        let ghost s4: Seq<i32> = if tr >= 0 && bl >= 0 && br >= 0 {
            seq![tr, bl, br]
        } else {
            Seq::empty()
        };
        if tl >= 0 && tr >= 0 && bl >= 0 {
            faces.push(tl);
            faces.push(bl);
            faces.push(tr);
        }
        assert(faces@ =~= start + s1);
        if tl >= 0 && tr >= 0 && br >= 0 {
            faces.push(tl);
            faces.push(br);
            faces.push(tr);
        }
        assert(faces@ =~= start + s1 + s2);
        if tl >= 0 && bl >= 0 && br >= 0 {
            faces.push(tl);
            faces.push(bl);
            faces.push(br);
        }
        assert(faces@ =~= start + s1 + s2 + s3);
        if tr >= 0 && bl >= 0 && br >= 0 {
            faces.push(tr);
            faces.push(bl);
            faces.push(br);
        }
        assert(faces@ =~= start + (s1 + s2 + s3 + s4));
    } else {
        assert(faces@ =~= start + Seq::<i32>::empty());
    }
}

/// Every entry of the first `q` quads' faces is a corner value that is not
/// negative; with all vertex numbers below `vcount`, every face entry is a
/// vertex number.
pub proof fn lemma_faces_in_range(
    vi: Seq<i32>,
    cols: int,
    rows: int,
    flat: Seq<bool>,
    max_gap: i32,
    q: int,
    vcount: int,
)
    requires
        cols >= 2,
        rows >= 2,
        vi.len() == cols * rows,
        0 <= q <= quad_count(cols, rows),
        forall|i: int| 0 <= i < vi.len() ==> #[trigger] vi[i] < vcount,
    ensures
        forall|j: int|
            0 <= j < faces_upto(vi, cols, flat, max_gap, q).len() ==> 0 <= #[trigger] faces_upto(
                vi,
                cols,
                flat,
                max_gap,
                q,
            )[j] < vcount,
        faces_upto(vi, cols, flat, max_gap, q).len() % 3 == 0,
    decreases q,
{
    if q > 0 {
        lemma_faces_in_range(vi, cols, rows, flat, max_gap, q - 1, vcount);
        lemma_quad_corners(q - 1, cols, rows);
        let r = quad_row(q - 1, cols);
        let c = quad_col(q - 1, cols);
        assert(0 <= r * cols + c + 1 < vi.len());
        assert(0 <= (r + 1) * cols + c < vi.len());
        assert(vi[r * cols + c] < vcount);
        assert(vi[r * cols + c + 1] < vcount);
        assert(vi[(r + 1) * cols + c] < vcount);
        assert(vi[(r + 1) * cols + c + 1] < vcount);
        let prev = faces_upto(vi, cols, flat, max_gap, q - 1);
        let cur = quad_faces(vi, cols, flat, max_gap, q - 1);
        assert(forall|j: int| 0 <= j < cur.len() ==> 0 <= #[trigger] cur[j] < vcount);
        assert forall|j: int|
            0 <= j < (prev + cur).len() implies 0 <= #[trigger] (prev + cur)[j] < vcount by {
            if j < prev.len() {
                assert((prev + cur)[j] == prev[j]);
            } else {
                assert((prev + cur)[j] == cur[j - prev.len()]);
            }
        }
    }
}

/// Number of flat quads among the first `q`.
pub open spec fn count_flat(flat: Seq<bool>, q: int) -> int
    decreases q,
{
    if q <= 0 {
        0
    } else {
        count_flat(flat, q - 1) + if flat[q - 1] {
            1int
        } else {
            0int
        }
    }
}

/// The two triangles bridging the quad whose top-left cell is at row `r`,
/// column `c`: top-left, bottom-left, top-right, then top-right,
/// bottom-left, bottom-right.
pub open spec fn quad_triangles(vi: Seq<i32>, cols: int, r: int, c: int) -> Seq<i32> {
    seq![
        vi[r * cols + c],
        vi[(r + 1) * cols + c],
        vi[r * cols + c + 1],
        vi[r * cols + c + 1],
        vi[(r + 1) * cols + c],
        vi[(r + 1) * cols + c + 1],
    ]
}

/// The faces of the first `q` quads begin the faces of the first `m`.
proof fn lemma_faces_prefix(vi: Seq<i32>, cols: int, flat: Seq<bool>, max_gap: i32, q: int, m: int)
    requires
        0 <= q <= m,
    ensures
        faces_upto(vi, cols, flat, max_gap, q).len() <= faces_upto(vi, cols, flat, max_gap, m).len(),
        faces_upto(vi, cols, flat, max_gap, m).subrange(
            0,
            faces_upto(vi, cols, flat, max_gap, q).len() as int,
        ) == faces_upto(vi, cols, flat, max_gap, q),
    decreases m - q,
{
    if q < m {
        lemma_faces_prefix(vi, cols, flat, max_gap, q, m - 1);
        let a = faces_upto(vi, cols, flat, max_gap, m - 1);
        let b = quad_faces(vi, cols, flat, max_gap, m - 1);
        let n = faces_upto(vi, cols, flat, max_gap, q).len() as int;
        assert((a + b).subrange(0, n) =~= a.subrange(0, n));
    } else {
        let f = faces_upto(vi, cols, flat, max_gap, m);
        assert(f.subrange(0, f.len() as int) =~= f);
    }
}

/// Quad law: for a quad `q` whose four corners are occupied, its own flag
/// `flat[q]` decides its faces. When it is set, its two triangles stand in
/// the finished faces right after the faces of the quads before it; when it
/// is clear, the quad adds no face.
pub proof fn lemma_quad_uses_own_flag(
    vi: Seq<i32>,
    cols: int,
    rows: int,
    flat: Seq<bool>,
    max_gap: i32,
    q: int,
)
    requires
        cols >= 2,
        rows >= 2,
        vi.len() == cols * rows,
        flat.len() == quad_count(cols, rows),
        0 <= q < quad_count(cols, rows),
        vi[(q / (cols - 1)) * cols + q % (cols - 1)] >= 0,
        vi[(q / (cols - 1)) * cols + q % (cols - 1) + 1] >= 0,
        vi[(q / (cols - 1) + 1) * cols + q % (cols - 1)] >= 0,
        vi[(q / (cols - 1) + 1) * cols + q % (cols - 1) + 1] >= 0,
    ensures
        ({
            let before = faces_upto(vi, cols, flat, max_gap, q);
            let all = faces_upto(vi, cols, flat, max_gap, quad_count(cols, rows));
            &&& flat[q] ==> before.len() + 6 <= all.len() && all.subrange(
                before.len() as int,
                before.len() + 6int,
            ) == quad_triangles(vi, cols, q / (cols - 1), q % (cols - 1))
            &&& !flat[q] ==> faces_upto(vi, cols, flat, max_gap, q + 1) == before
        }),
{
    lemma_quad_corners(q, cols, rows);
    let before = faces_upto(vi, cols, flat, max_gap, q);
    let next = faces_upto(vi, cols, flat, max_gap, q + 1);
    let all = faces_upto(vi, cols, flat, max_gap, quad_count(cols, rows));
    let six = quad_triangles(vi, cols, q / (cols - 1), q % (cols - 1));
    assert(next == before + quad_faces(vi, cols, flat, max_gap, q));
    lemma_faces_prefix(vi, cols, flat, max_gap, q + 1, quad_count(cols, rows));
    if flat[q] {
        assert(quad_faces(vi, cols, flat, max_gap, q) =~= six);
        assert(next.len() == before.len() + 6int);
        assert(all.subrange(before.len() as int, before.len() + 6int) =~= next.subrange(
            before.len() as int,
            before.len() + 6int,
        ));
        assert(next.subrange(before.len() as int, before.len() + 6int) =~= six);
    } else {
        assert(quad_faces(vi, cols, flat, max_gap, q) =~= Seq::<i32>::empty());
        assert(next =~= before);
    }
}

/// With every cell occupied, the first `q` quads give six entries per flat
/// quad.
proof fn lemma_full_grid_len(
    vi: Seq<i32>,
    cols: int,
    rows: int,
    flat: Seq<bool>,
    max_gap: i32,
    q: int,
)
    requires
        cols >= 2,
        rows >= 2,
        vi.len() == cols * rows,
        forall|i: int| 0 <= i < vi.len() ==> #[trigger] vi[i] >= 0,
        0 <= q <= quad_count(cols, rows),
    ensures
        faces_upto(vi, cols, flat, max_gap, q).len() == 6 * count_flat(flat, q),
    decreases q,
{
    if q > 0 {
        lemma_full_grid_len(vi, cols, rows, flat, max_gap, q - 1);
        lemma_quad_corners(q - 1, cols, rows);
        let r = quad_row(q - 1, cols);
        let c = quad_col(q - 1, cols);
        assert(vi[r * cols + c] >= 0);
        assert(vi[r * cols + c + 1] >= 0);
        assert(vi[(r + 1) * cols + c] >= 0);
        assert(vi[(r + 1) * cols + c + 1] >= 0);
    }
}

/// Full-grid law: when every cell is occupied, the faces are exactly the two
/// triangles of each flat quad, quad by quad in row-major order: there are
/// six entries per flat quad, and the flat quad `q` holds the six entries
/// after those of the flat quads before it.
pub proof fn lemma_full_grid_faces(
    vi: Seq<i32>,
    cols: int,
    rows: int,
    flat: Seq<bool>,
    max_gap: i32,
)
    requires
        cols >= 2,
        rows >= 2,
        vi.len() == cols * rows,
        flat.len() == quad_count(cols, rows),
        forall|i: int| 0 <= i < vi.len() ==> #[trigger] vi[i] >= 0,
    ensures
        ({
            let faces = faces_upto(vi, cols, flat, max_gap, quad_count(cols, rows));
            &&& faces.len() == 6 * count_flat(flat, quad_count(cols, rows))
            &&& forall|q: int|
                0 <= q < quad_count(cols, rows) && #[trigger] flat[q] ==> faces.subrange(
                    6 * count_flat(flat, q),
                    6 * count_flat(flat, q) + 6,
                ) == quad_triangles(vi, cols, q / (cols - 1), q % (cols - 1))
        }),
{
    let nq = quad_count(cols, rows);
    assert(nq >= 0) by (nonlinear_arith)
        requires
            nq == (cols - 1) * (rows - 1),
            cols >= 2,
            rows >= 2,
    ;
    lemma_full_grid_len(vi, cols, rows, flat, max_gap, nq);
    let faces = faces_upto(vi, cols, flat, max_gap, nq);
    assert forall|q: int| 0 <= q < nq && #[trigger] flat[q] implies faces.subrange(
        6 * count_flat(flat, q),
        6 * count_flat(flat, q) + 6,
    ) == quad_triangles(vi, cols, q / (cols - 1), q % (cols - 1)) by {
        lemma_quad_corners(q, cols, rows);
        let r = quad_row(q, cols);
        let c = quad_col(q, cols);
        assert(vi[r * cols + c] >= 0);
        assert(vi[r * cols + c + 1] >= 0);
        assert(vi[(r + 1) * cols + c] >= 0);
        assert(vi[(r + 1) * cols + c + 1] >= 0);
        lemma_full_grid_len(vi, cols, rows, flat, max_gap, q);
        lemma_quad_uses_own_flag(vi, cols, rows, flat, max_gap, q);
    }
}

/// Builds the faces of the grid mesh. `vertex_index` holds each cell's
/// vertex number (-1 when empty); `flat[q]` tells whether quad `q` (counted
/// row by row over the `cols - 1` by `rows - 1` quads) is flat enough to be
/// bridged when all four of its corners are occupied.
pub fn grid_faces(
    vertex_index: &Vec<i32>,
    cols: usize,
    rows: usize,
    flat: &Vec<bool>,
    max_gap: i32,
) -> (faces: Vec<i32>)
    requires
        spec_grid_dims_ok(cols as nat, rows as nat),
        vertex_index@.len() == cols * rows,
        flat@.len() == quad_count(cols as int, rows as int),
    ensures
        faces@ == faces_upto(
            vertex_index@,
            cols as int,
            flat@,
            max_gap,
            quad_count(cols as int, rows as int),
        ),
{
    let ghost vi = vertex_index@;
    let w = cols - 1;
    assert(w * (rows - 1) <= cols * rows) by (nonlinear_arith)
        requires
            w == cols - 1,
            cols >= 2,
            rows >= 2,
    ;
    let nq = w * (rows - 1);
    let mut faces: Vec<i32> = Vec::new();
    let mut q: usize = 0;
    while q < nq
        invariant
            vi == vertex_index@,
            spec_grid_dims_ok(cols as nat, rows as nat),
            vi.len() == cols * rows,
            w == cols - 1,
            nq == quad_count(cols as int, rows as int),
            flat@.len() == nq,
            q <= nq,
            faces@ == faces_upto(vi, cols as int, flat@, max_gap, q as int),
        decreases nq - q,
    {
        proof {
            lemma_quad_corners(q as int, cols as int, rows as int);
        }
        let r = q / w;
        let c = q % w;
        let tl = vertex_index[r * cols + c];
        let tr = vertex_index[r * cols + c + 1];
        let bl = vertex_index[(r + 1) * cols + c];
        let br = vertex_index[(r + 1) * cols + c + 1];
        push_quad_faces(&mut faces, tl, tr, bl, br, flat[q], max_gap);
        q = q + 1;
    }
    faces
}

/// Mesh law: with vertex numbers from `assign_vertex_indices`, every face
/// entry of the grid mesh names an existing vertex, and the faces come in
/// whole triangles.
pub proof fn lemma_grid_faces_name_vertices(
    counts: Seq<u32>,
    cols: nat,
    rows: nat,
    flat: Seq<bool>,
    max_gap: i32,
    vertex_index: Seq<i32>,
)
    requires
        spec_grid_dims_ok(cols, rows),
        counts.len() == cols * rows,
        vertex_index.len() == counts.len(),
        forall|i: int|
            0 <= i < counts.len() ==> vertex_index[i] == spec_vertex_index(counts, i),
    ensures
        ({
            let faces = faces_upto(
                vertex_index,
                cols as int,
                flat,
                max_gap,
                quad_count(cols as int, rows as int),
            );
            &&& faces.len() % 3 == 0
            &&& forall|j: int|
                0 <= j < faces.len() ==> 0 <= #[trigger] faces[j] < occupied_before(
                    counts,
                    counts.len() as int,
                )
        }),
{
    let total = occupied_before(counts, counts.len() as int);
    assert forall|i: int| 0 <= i < vertex_index.len() implies #[trigger] vertex_index[i]
        < total by {
        lemma_occupied_before_monotone(counts, i + 1, counts.len() as int);
    }
    assert(cols * rows >= 4) by (nonlinear_arith)
        requires
            cols >= 2,
            rows >= 2,
    ;
    assert(quad_count(cols as int, rows as int) >= 0) by (nonlinear_arith)
        requires
            cols >= 2,
            rows >= 2,
    ;
    lemma_faces_in_range(
        vertex_index,
        cols as int,
        rows as int,
        flat,
        max_gap,
        quad_count(cols as int, rows as int),
        total as int,
    );
}

} // verus!
