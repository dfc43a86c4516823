//! A chunked spatial index: values are filed under the grid chunk their
//! position falls in, so a radius query only has to visit the chunks that
//! overlap the query box. Chunk addressing mirrors the toy's screen
//! convention: a coordinate at or below zero lands in chunk column (or row)
//! zero, and a flat index past the grid is ignored.

use vstd::prelude::*;
use vstd::arithmetic::div_mod::{lemma_div_is_ordered_by_denominator, lemma_div_is_ordered};
use crate::math::{lemma_mul_le, lemma_div_le, lemma_zero_div};
use crate::{Vec2I, SCALE, MAX_COORD, MAX_DIM};

verus! {

/// Cap on the chunk count along one axis.
pub const MAX_CHUNKS_AXIS: usize = 32_000;

/// The chunk row or column a coordinate falls in: zero for non-positive
/// coordinates, `v / size` otherwise.
pub open spec fn chunk_coord(v: int, size: int) -> int {
    if v <= 0 {
        0
    } else {
        v / size
    }
}

/// Ceiling division for non-negative operands.
pub open spec fn ceil_div(a: int, b: int) -> int {
    (a + b - 1) / b
}

/// The chunk row or column of one coordinate, with its bound.
fn chunk_coord_exec(v: i64, size: i64) -> (r: usize)
    requires
        SCALE <= size <= MAX_DIM,
        -MAX_COORD <= v <= MAX_COORD,
    ensures
        r == chunk_coord(v as int, size as int),
        r <= 10_000,
{
    if v <= 0 {
        0
    } else {
        proof {
            lemma_zero_div(size as int);
            lemma_div_is_ordered(0, v as int, size as int);
            lemma_div_is_ordered_by_denominator(v as int, 1000, size as int);
            lemma_div_le(v as int, MAX_COORD as int, 1000);
        }
        (v / size) as usize
    }
}

/// A grid of chunks over the viewport, each holding the values whose
/// positions fall in it.
pub struct PositionMap<T> {
    chunk_size: i64,
    num_chunks_x: usize,
    num_chunks_y: usize,
    chunks: Vec<Vec<(Vec2I, T)>>,
}

impl<T> PositionMap<T> {
    /// The chunk edge length, in milliunits.
    pub closed spec fn spec_chunk_size(self) -> int {
        self.chunk_size as int
    }

    /// Chunk count along the x axis.
    pub closed spec fn spec_nx(self) -> int {
        self.num_chunks_x as int
    }

    /// Chunk count along the y axis.
    pub closed spec fn spec_ny(self) -> int {
        self.num_chunks_y as int
    }

    /// Total chunk count.
    pub closed spec fn spec_len(self) -> int {
        self.chunks@.len() as int
    }

    /// The contents of chunk `idx`, empty for an out-of-grid index.
    pub closed spec fn chunk_at(self, idx: int) -> Seq<(Vec2I, T)> {
        if 0 <= idx < self.chunks@.len() {
            self.chunks@[idx]@
        } else {
            Seq::empty()
        }
    }

    /// The flat chunk index position `(x, y)` files under.
    pub open spec fn spec_idx(self, x: int, y: int) -> int {
        chunk_coord(y, self.spec_chunk_size()) * self.spec_nx() + chunk_coord(x,
            self.spec_chunk_size())
    }

    /// The structural invariant: a positive chunk size of at least one
    /// unit, bounded axis counts, and one stored chunk per grid cell.
    pub closed spec fn wf(self) -> bool {
        &&& SCALE <= self.chunk_size <= MAX_DIM
        &&& self.spec_nx() <= MAX_CHUNKS_AXIS
        &&& self.spec_ny() <= MAX_CHUNKS_AXIS
        &&& self.chunks@.len() == self.spec_nx() * self.spec_ny()
    }

    /// An empty map over a `width` by `height` viewport, with
    /// `ceil(width / chunk_size)` by `ceil(height / chunk_size)` chunks.
    pub fn new(chunk_size: i64, width: i64, height: i64) -> (r: PositionMap<T>)
        requires
            SCALE <= chunk_size <= MAX_DIM,
            0 <= width <= MAX_DIM,
            0 <= height <= MAX_DIM,
        ensures
            r.wf(),
            r.spec_chunk_size() == chunk_size,
            r.spec_nx() == ceil_div(width as int, chunk_size as int),
            r.spec_ny() == ceil_div(height as int, chunk_size as int),
            forall|t: int| 0 <= t < r.spec_len() ==> (#[trigger] r.chunk_at(t)).len() == 0,
    {
        proof {
            lemma_div_is_ordered_by_denominator(width as int + chunk_size as int - 1,
                SCALE as int, chunk_size as int);
            lemma_div_is_ordered_by_denominator(height as int + chunk_size as int - 1,
                SCALE as int, chunk_size as int);
            lemma_div_le(width as int + chunk_size as int - 1, 32_000_000int, SCALE as int);
            lemma_div_le(height as int + chunk_size as int - 1, 32_000_000int, SCALE as int);
        }
        let nx: usize = ((width + chunk_size - 1) / chunk_size) as usize;
        let ny: usize = ((height + chunk_size - 1) / chunk_size) as usize;
        proof {
            lemma_mul_le(nx as int, MAX_CHUNKS_AXIS as int, ny as int,
                MAX_CHUNKS_AXIS as int);
        }
        let total: usize = nx * ny;
        let mut chunks: Vec<Vec<(Vec2I, T)>> = Vec::new();
        let mut t: usize = 0;
        while t < total
            invariant
                0 <= t <= total,
                chunks@.len() == t,
                forall|u: int| 0 <= u < t ==> (#[trigger] chunks@[u])@.len() == 0,
            decreases total - t,
        {
            chunks.push(Vec::new());
            t += 1;
        }
        PositionMap { chunk_size: chunk_size, num_chunks_x: nx, num_chunks_y: ny,
            chunks: chunks }
    }

    /// Files `value` under the chunk `(x, y)` falls in; a position whose
    /// flat index lies past the grid is dropped, exactly as the flat-index
    /// addressing has it.
    pub fn add_value(&mut self, x: i64, y: i64, value: T)
        requires
            old(self).wf(),
            -MAX_COORD <= x <= MAX_COORD,
            -MAX_COORD <= y <= MAX_COORD,
        ensures
            final(self).wf(),
            final(self).spec_chunk_size() == old(self).spec_chunk_size(),
            final(self).spec_nx() == old(self).spec_nx(),
            final(self).spec_ny() == old(self).spec_ny(),
            final(self).spec_len() == old(self).spec_len(),
            ({
                let idx = old(self).spec_idx(x as int, y as int);
                if 0 <= idx < old(self).spec_len() {
                    final(self).chunk_at(idx) == old(self).chunk_at(idx).push(
                        ((Vec2I { x: x, y: y }), value))
                    && (forall|t: int| 0 <= t < old(self).spec_len() && t != idx
                        ==> final(self).chunk_at(t) == old(self).chunk_at(t))
                } else {
                    final(self).chunk_at(old(self).spec_idx(x as int, y as int))
                        =~= Seq::<(Vec2I, T)>::empty()
                    && (forall|t: int| 0 <= t < old(self).spec_len()
                        ==> final(self).chunk_at(t) == old(self).chunk_at(t))
                }
            }),
    {
        let cx: usize = chunk_coord_exec(x, self.chunk_size);
        let cy: usize = chunk_coord_exec(y, self.chunk_size);
        proof {
            lemma_mul_le(cy as int, 10_000, self.spec_nx(), MAX_CHUNKS_AXIS as int);
        }
        let idx: usize = cy * self.num_chunks_x + cx;
        if idx < self.chunks.len() {
            let chunk = &mut self.chunks[idx];
            chunk.push((Vec2I { x: x, y: y }, value));
        }
    }

    /// The chunk `(x, y)` falls in, or nothing for an index past the grid.
    pub fn get_chunk(&self, x: i64, y: i64) -> (r: Option<&Vec<(Vec2I, T)>>)
        requires
            self.wf(),
            -MAX_COORD <= x <= MAX_COORD,
            -MAX_COORD <= y <= MAX_COORD,
        ensures
            r is Some <==> 0 <= self.spec_idx(x as int, y as int) < self.spec_len(),
            r matches Some(c) ==> c@ == self.chunk_at(self.spec_idx(x as int, y as int)),
    {
        let cx: usize = chunk_coord_exec(x, self.chunk_size);
        let cy: usize = chunk_coord_exec(y, self.chunk_size);
        proof {
            lemma_mul_le(cy as int, 10_000, self.spec_nx(), MAX_CHUNKS_AXIS as int);
        }
        let idx: usize = cy * self.num_chunks_x + cx;
        if idx < self.chunks.len() {
            Some(&self.chunks[idx])
        } else {
            None
        }
    }
}

impl<T: Copy> PositionMap<T> {
    /// The concatenated contents of row `yy`'s chunks from column `x0` up
    /// to (excluding) column `x1`.
    pub open spec fn row_gather(self, yy: int, x0: int, x1: int) -> Seq<(Vec2I, T)>
        decreases x1 - x0,
    {
        if x1 <= x0 {
            Seq::empty()
        } else {
            self.row_gather(yy, x0, x1 - 1) + self.chunk_at(yy * self.spec_nx() + (x1 - 1))
        }
    }

    /// The concatenated contents of the chunk box with rows `y0` up to
    /// (excluding) `y1` and columns `x0` up to (excluding) `x1`.
    pub open spec fn box_gather(self, y0: int, y1: int, x0: int, x1: int) -> Seq<(Vec2I, T)>
        decreases y1 - y0,
    {
        if y1 <= y0 {
            Seq::empty()
        } else {
            self.box_gather(y0, y1 - 1, x0, x1) + self.row_gather(y1 - 1, x0, x1)
        }
    }

    /// Everything filed in the chunks that overlap the centered box of
    /// radius `radius` around `(x, y)`: a superset of the values within
    /// that distance, in chunk order.
    pub fn get_in_radius(&self, x: i64, y: i64, radius: i64) -> (r: Vec<(Vec2I, T)>)
        requires
            self.wf(),
            -MAX_COORD <= x <= MAX_COORD,
            -MAX_COORD <= y <= MAX_COORD,
            0 <= radius <= MAX_DIM,
        ensures
            ({
                let cx = chunk_coord(x as int, self.spec_chunk_size());
                let cy = chunk_coord(y as int, self.spec_chunk_size());
                let rc = ceil_div(radius as int, self.spec_chunk_size());
                r@ == self.box_gather(if cy >= rc { cy - rc } else { 0 }, cy + rc + 1,
                    if cx >= rc { cx - rc } else { 0 }, cx + rc + 1)
            }),
    {
        let cx: usize = chunk_coord_exec(x, self.chunk_size);
        let cy: usize = chunk_coord_exec(y, self.chunk_size);
        proof {
            lemma_zero_div(self.chunk_size as int);
            lemma_div_is_ordered(0, radius as int + self.chunk_size as int - 1,
                self.chunk_size as int);
            lemma_div_is_ordered_by_denominator(radius as int + self.chunk_size as int - 1,
                SCALE as int, self.chunk_size as int);
            lemma_div_le(radius as int + self.chunk_size as int - 1, 32_000_000int,
                SCALE as int);
        }
        let rc: usize = ((radius + self.chunk_size - 1) / self.chunk_size) as usize;
        let y0: usize = if cy >= rc {
            cy - rc
        } else {
            0
        };
        let x0: usize = if cx >= rc {
            cx - rc
        } else {
            0
        };
        let y1: usize = cy + rc + 1;
        let x1: usize = cx + rc + 1;
        let mut out: Vec<(Vec2I, T)> = Vec::new();
        let mut yy: usize = y0;
        while yy < y1
            invariant
                self.wf(),
                x0 <= 42_001,
                y0 <= 42_001,
                x1 <= 42_001,
                y1 <= 42_001,
                x0 <= x1,
                y0 <= yy <= y1,
                out@ == self.box_gather(y0 as int, yy as int, x0 as int, x1 as int),
            decreases y1 - yy,
        {
            let mut xx: usize = x0;
            while xx < x1
                invariant
                    self.wf(),
                    x0 <= 42_001,
                    y0 <= 42_001,
                    x1 <= 42_001,
                    y1 <= 42_001,
                    yy < y1,
                    x0 <= xx <= x1,
                    out@ == self.box_gather(y0 as int, yy as int, x0 as int, x1 as int)
                        + self.row_gather(yy as int, x0 as int, xx as int),
                decreases x1 - xx,
            {
                proof {
                    lemma_mul_le(yy as int, 42_001, self.spec_nx(), MAX_CHUNKS_AXIS as int);
                }
                let idx: usize = yy * self.num_chunks_x + xx;
                if idx < self.chunks.len() {
                    let nlen = self.chunks[idx].len();
                    let mut u: usize = 0;
                    while u < nlen
                        invariant
                            self.wf(),
                            idx < self.chunks@.len(),
                            nlen == self.chunks@[idx as int]@.len(),
                            0 <= u <= nlen,
                            out@ == self.box_gather(y0 as int, yy as int, x0 as int,
                                x1 as int) + self.row_gather(yy as int, x0 as int, xx as int)
                                + self.chunks@[idx as int]@.subrange(0, u as int),
                        decreases nlen - u,
                    {
                        let e = self.chunks[idx][u];
                        out.push(e);
                        proof {
                            let c = self.chunks@[idx as int]@;
                            assert(c.subrange(0, u + 1 as int) =~= c.subrange(0, u as int)
                                .push(c[u as int]));
                        }
                        u += 1;
                    }
                    proof {
                        let c = self.chunks@[idx as int]@;
                        assert(c.subrange(0, nlen as int) =~= c);
                        assert(self.chunk_at(yy as int * self.spec_nx() + xx as int) == c);
                    }
                } else {
                    proof {
                        assert(self.chunk_at(yy as int * self.spec_nx() + xx as int)
                            =~= Seq::<(Vec2I, T)>::empty());
                    }
                }
                proof {
                    assert(self.row_gather(yy as int, x0 as int, xx + 1 as int)
                        == self.row_gather(yy as int, x0 as int, xx as int) + self.chunk_at(
                        yy as int * self.spec_nx() + xx as int));
                    assert(out@ == self.box_gather(y0 as int, yy as int, x0 as int, x1 as int)
                        + self.row_gather(yy as int, x0 as int, xx + 1 as int));
                }
                xx += 1;
            }
            proof {
                assert(self.box_gather(y0 as int, yy + 1 as int, x0 as int, x1 as int)
                    == self.box_gather(y0 as int, yy as int, x0 as int, x1 as int)
                    + self.row_gather(yy as int, x0 as int, x1 as int));
            }
            yy += 1;
        }
        out
    }

    /// The concatenated contents of the first `n` chunks.
    pub open spec fn entries_upto(self, n: int) -> Seq<(Vec2I, T)>
        decreases n,
    {
        if n <= 0 {
            Seq::empty()
        } else {
            self.entries_upto(n - 1) + self.chunk_at(n - 1)
        }
    }

    /// Every stored entry, in chunk order.
    pub fn iter(&self) -> (r: Vec<(Vec2I, T)>)
        ensures
            r@ == self.entries_upto(self.spec_len()),
    {
        let n = self.chunks.len();
        let mut out: Vec<(Vec2I, T)> = Vec::new();
        let mut i: usize = 0;
        while i < n
            invariant
                n == self.chunks@.len(),
                0 <= i <= n,
                out@ == self.entries_upto(i as int),
            decreases n - i,
        {
            let clen = self.chunks[i].len();
            let mut u: usize = 0;
            while u < clen
                invariant
                    n == self.chunks@.len(),
                    i < n,
                    clen == self.chunks@[i as int]@.len(),
                    0 <= u <= clen,
                    out@ == self.entries_upto(i as int) + self.chunks@[i as int]@.subrange(
                        0, u as int),
                decreases clen - u,
            {
                let e = self.chunks[i][u];
                out.push(e);
                proof {
                    let c = self.chunks@[i as int]@;
                    assert(c.subrange(0, u + 1 as int) =~= c.subrange(0, u as int).push(
                        c[u as int]));
                }
                u += 1;
            }
            proof {
                let c = self.chunks@[i as int]@;
                assert(c.subrange(0, clen as int) =~= c);
                assert(self.chunk_at(i as int) == c);
            }
            i += 1;
        }
        out
    }
}

} // verus!
