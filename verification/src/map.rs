//! Cube coordinates of the hex grid.

use vstd::prelude::*;
use vstd::std_specs::ops::{AddSpecImpl, SubSpecImpl};

verus! {

/// A position on the hex grid, on three axes. Events carry it as it is given:
/// the rules never inspect it.
#[derive(Debug, Clone, Copy, PartialEq, Eq, Structural, Hash)]
pub struct CubeCoords {
    pub q: i32,
    pub r: i32,
    pub s: i32,
}

/// Whether `v` is a value of `i32`.
pub open spec fn fits_i32(v: int) -> bool {
    i32::MIN <= v <= i32::MAX
}

impl AddSpecImpl for CubeCoords {
    open spec fn obeys_add_spec() -> bool {
        true
    }

    open spec fn add_req(self, rhs: CubeCoords) -> bool {
        fits_i32(self.q + rhs.q) && fits_i32(self.r + rhs.r) && fits_i32(self.s + rhs.s)
    }

    open spec fn add_spec(self, rhs: CubeCoords) -> CubeCoords {
        CubeCoords {
            q: (self.q + rhs.q) as i32,
            r: (self.r + rhs.r) as i32,
            s: (self.s + rhs.s) as i32,
        }
    }
}

impl core::ops::Add for CubeCoords {
    type Output = CubeCoords;

    /// The sum, axis by axis.
    fn add(self, rhs: CubeCoords) -> CubeCoords {
        CubeCoords { q: self.q + rhs.q, r: self.r + rhs.r, s: self.s + rhs.s }
    }
}

impl SubSpecImpl for CubeCoords {
    open spec fn obeys_sub_spec() -> bool {
        true
    }

    open spec fn sub_req(self, rhs: CubeCoords) -> bool {
        fits_i32(self.q - rhs.q) && fits_i32(self.r - rhs.r) && fits_i32(self.s - rhs.s)
    }

    open spec fn sub_spec(self, rhs: CubeCoords) -> CubeCoords {
        CubeCoords {
            q: (self.q - rhs.q) as i32,
            r: (self.r - rhs.r) as i32,
            s: (self.s - rhs.s) as i32,
        }
    }
}

impl core::ops::Sub for CubeCoords {
    type Output = CubeCoords;

    /// The difference, axis by axis.
    fn sub(self, rhs: CubeCoords) -> CubeCoords {
        CubeCoords { q: self.q - rhs.q, r: self.r - rhs.r, s: self.s - rhs.s }
    }
}

/// How a map is laid out.
pub enum CoordinateSystem {
    /// A round map; the number is its radius, in rings around the centre.
    Axial(i32),
}

/// Layouts of a square map.
pub enum OffsetType {
    /// Columns stand upright and every other one is shifted; width and height.
    EvenQ(u32, u32),
}

/// The distance of `v` from zero.
pub open spec fn magnitude(v: int) -> int {
    if v < 0 {
        -v
    } else {
        v
    }
}

/// The steps between two cells, summed over the three axes: twice their
/// distance on the grid.
pub open spec fn axis_steps(from: CubeCoords, to: CubeCoords) -> int {
    magnitude(to.q - from.q) + magnitude(to.r - from.r) + magnitude(to.s - from.s)
}

/// The widest band of the second axis that a round map keeps.
pub const BAND: i32 = 3;

/// `c` is a cell of the round map of the given radius: the first and third
/// axis within the radius, the second axis what balances them and within the
/// band.
pub open spec fn in_disc(c: CubeCoords, radius: int) -> bool {
    &&& -radius <= c.q <= radius
    &&& -radius <= c.s <= radius
    &&& c.r == -c.s - c.q
    &&& -BAND <= c.r <= BAND
}

/// `a` comes before `b` when cells are walked by the first axis, then by the
/// third.
pub open spec fn walked_before(a: CubeCoords, b: CubeCoords) -> bool {
    a.q < b.q || (a.q == b.q && a.s < b.s)
}

/// The corners of a hexagon as a fan of six triangles round its centre:
/// vertex 0 is the centre, vertices 1 to 6 the corners in turn.
pub open spec fn fan_index(i: int) -> int {
    if i % 3 == 0 {
        0
    } else if i % 3 == 1 {
        i / 3 + 1
    } else if i / 3 < 5 {
        i / 3 + 2
    } else {
        1
    }
}

impl CubeCoords {
    /// The steps from `self` to `to`, summed over the three axes.
    pub fn steps_to(&self, to: &CubeCoords) -> (steps: u64)
        ensures
            steps == axis_steps(*self, *to),
    {
        span(self.q, to.q) + span(self.r, to.r) + span(self.s, to.s)
    }
}

/// How far `a` and `b` are apart.
fn span(a: i32, b: i32) -> (d: u64)
    ensures
        d == magnitude(b - a),
        d <= 0xffff_ffff,
{
    if a <= b {
        (b as i64 - a as i64) as u64
    } else {
        (a as i64 - b as i64) as u64
    }
}

/// The cells of the round map of the given radius, walked by the first axis
/// and then by the third. Empty for a negative radius.
pub fn disc_cells(radius: i32) -> (cells: Vec<CubeCoords>)
    ensures
        forall|i: int| 0 <= i < cells@.len() ==> in_disc(#[trigger] cells@[i], radius as int),
        forall|c: CubeCoords| in_disc(c, radius as int) ==> cells@.contains(c),
        forall|i: int, j: int|
            0 <= i < j < cells@.len() ==> walked_before(#[trigger] cells@[i], #[trigger] cells@[j]),
{
    let mut cells: Vec<CubeCoords> = Vec::new();
    let hi: i64 = radius as i64;
    let lo: i64 = -hi;
    let mut q: i64 = lo;
    while q <= hi
        invariant
            hi == radius,
            lo == -hi,
            lo <= q,
            q <= hi + 1 || q == lo,
            forall|i: int|
                0 <= i < cells@.len() ==> in_disc(#[trigger] cells@[i], radius as int)
                    && cells@[i].q < q,
            forall|c: CubeCoords| in_disc(c, radius as int) && c.q < q ==> cells@.contains(c),
            forall|i: int, j: int|
                0 <= i < j < cells@.len() ==> walked_before(
                    #[trigger] cells@[i],
                    #[trigger] cells@[j],
                ),
        decreases hi + 1 - q,
    {
        let mut s: i64 = lo;
        while s <= hi
            invariant
                hi == radius,
                lo == -hi,
                lo <= q <= hi,
                lo <= s <= hi + 1,
                forall|i: int|
                    0 <= i < cells@.len() ==> in_disc(#[trigger] cells@[i], radius as int) && (
                    cells@[i].q < q || (cells@[i].q == q && cells@[i].s < s)),
                forall|c: CubeCoords|
                    in_disc(c, radius as int) && (c.q < q || (c.q == q && c.s < s))
                        ==> cells@.contains(c),
                forall|i: int, j: int|
                    0 <= i < j < cells@.len() ==> walked_before(
                        #[trigger] cells@[i],
                        #[trigger] cells@[j],
                    ),
            decreases hi + 1 - s,
        {
            let r: i64 = -s - q;
            if -(BAND as i64) <= r && r <= BAND as i64 {
                let cell = CubeCoords { q: q as i32, r: r as i32, s: s as i32 };
                let ghost before = cells@;
                cells.push(cell);
                proof {
                    assert forall|c: CubeCoords|
                        in_disc(c, radius as int) && (c.q < q || (c.q == q && c.s < s + 1))
                        implies cells@.contains(c) by {
                        if c.q == q && c.s == s {
                            assert(c == cell);
                            assert(cells@[before.len() as int] == c);
                        } else {
                            let k = choose|k: int| 0 <= k < before.len() && before[k] == c;
                            assert(cells@[k] == c);
                        }
                    }
                }
            }
            s += 1;
        }
        q += 1;
    }
    cells
}

/// The triangles of a hexagon, three vertex numbers each.
pub fn hexagon_fan() -> (indices: Vec<u32>)
    ensures
        indices@.len() == 18,
        forall|i: int| 0 <= i < 18 ==> #[trigger] indices@[i] == fan_index(i),
{
    let mut indices: Vec<u32> = Vec::new();
    let mut i: u32 = 0;
    while i < 6
        invariant
            i <= 6,
            indices@.len() == 3 * i,
            forall|k: int| 0 <= k < 3 * i ==> #[trigger] indices@[k] == fan_index(k),
        decreases 6 - i,
    {
        indices.push(0);
        indices.push(i + 1);
        if i < 5 {
            indices.push(i + 2);
        } else {
            indices.push(1);
        }
        i += 1;
    }
    indices
}

} // verus!
