use vstd::prelude::*;
use vstd::arithmetic::div_mod::lemma_fundamental_div_mod_converse;
use crate::array2d::Array2D;
use crate::flags::{Grid, Point, E, N, NE, SE};

verus! {

/// The cell of row `y`, column `x` derived from a matrix of points: its
/// lower-left corner is the point at (`y + 1`, `x`), its upper-left corner the
/// point at (`y`, `x`) and its lower-right corner the point at (`y + 1`, `x + 1`).
pub open spec fn cell_of(points: Array2D<Point>, y: int, x: int) -> Grid {
    Grid::spec_from_points(points.at(y + 1, x), points.at(y, x), points.at(y + 1, x + 1))
}

/// `grids` holds one cell per unit square of `points`, as `cell_of` gives it.
pub open spec fn derives(grids: Array2D<Grid>, points: Array2D<Point>) -> bool {
    &&& grids.wf()
    &&& points.wf()
    &&& grids.spec_num_rows() + 1 == points.spec_num_rows()
    &&& grids.spec_num_cols() + 1 == points.spec_num_cols()
    &&& forall|r: int, c: int|
        0 <= r < grids.spec_num_rows() && 0 <= c < grids.spec_num_cols() ==> #[trigger] grids.at(r, c)
            == cell_of(points, r, c)
}

/// Every row of `grids` repeats itself after `p` columns.
pub open spec fn is_period(grids: Array2D<Grid>, p: int) -> bool {
    forall|r: int, c: int|
        0 <= r < grids.spec_num_rows() && 0 <= c && c + p < grids.spec_num_cols() ==> #[trigger] grids.at(r, c)
            == grids.at(r, c + p)
}

/// A period in the searched range `[2, cols / 2]`.
pub open spec fn is_valid_period(grids: Array2D<Grid>, p: int) -> bool {
    2 <= p <= grids.spec_num_cols() / 2 && is_period(grids, p)
}

/// `p` is the smallest valid period.
pub open spec fn is_least_period(grids: Array2D<Grid>, p: int) -> bool {
    &&& is_valid_period(grids, p)
    &&& forall|q: int| 2 <= q < p ==> !is_valid_period(grids, q)
}

/// The number of rows on each side of the middle of the strip.
pub open spec fn half_rows(rows: nat) -> int {
    (rows as int + 1) / 2
}

/// The row that faces row `k` across the middle of the strip.
pub open spec fn mirror_row(rows: nat, k: int) -> int {
    rows - 1 - k
}

/// Mirrored along the middle row, the first `p` cells of each row of the top
/// half become those of its facing row.
pub open spec fn spec_horizontal(grids: Array2D<Grid>, p: int) -> bool {
    forall|k: int, c: int|
        0 <= k < half_rows(grids.spec_num_rows()) && 0 <= c < p ==> (#[trigger] grids.at(
            mirror_row(grids.spec_num_rows(), k),
            c,
        )).spec_hr() == grids.at(k, c)
}

/// In every row, the first `len` cells read backwards and mirrored give the
/// `len` cells from column `i` on.
pub open spec fn vertical_match(grids: Array2D<Grid>, i: int, len: int) -> bool {
    forall|r: int, t: int|
        0 <= r < grids.spec_num_rows() && 0 <= t < len ==> (#[trigger] grids.at(r, len - 1 - t)).spec_vr()
            == grids.at(r, i + t)
}

/// A vertical mirror axis at offset `i`.
pub open spec fn vertical_at(grids: Array2D<Grid>, i: int) -> bool {
    vertical_match(grids, i, i) || vertical_match(grids, i, i + 1)
}

/// The first offset from `i` below `p` with a vertical mirror axis.
pub open spec fn vertical_from(grids: Array2D<Grid>, p: int, i: int) -> Option<usize>
    decreases p - i,
{
    if i >= p {
        None
    } else if vertical_at(grids, i) {
        Some(i as usize)
    } else {
        vertical_from(grids, p, i + 1)
    }
}

/// The vertical mirror axis: the first offset in `[p / 2, p)` that has one.
pub open spec fn spec_vertical(grids: Array2D<Grid>, p: int) -> Option<usize> {
    vertical_from(grids, p, p / 2)
}

/// Turned by a half turn, the first `i` cells of each row of the bottom half,
/// read backwards, give the first `i` cells of the facing row.
pub open spec fn rotation_at(grids: Array2D<Grid>, i: int) -> bool {
    forall|k: int, t: int|
        0 <= k < half_rows(grids.spec_num_rows()) && 0 <= t < i ==> (#[trigger] grids.at(
            mirror_row(grids.spec_num_rows(), k),
            i - 1 - t,
        )).spec_rotate() == grids.at(k, t)
}

/// The first length from `i` up to `2 * p - 1` at which the strip turns into
/// itself, taken modulo `p`.
pub open spec fn rotation_from(grids: Array2D<Grid>, p: int, i: int) -> Option<usize>
    decreases 2 * p - i,
{
    if i >= 2 * p {
        None
    } else if rotation_at(grids, i) {
        Some((i % p) as usize)
    } else {
        rotation_from(grids, p, i + 1)
    }
}

/// The centre of a half turn.
pub open spec fn spec_rotation(grids: Array2D<Grid>, p: int) -> Option<usize> {
    rotation_from(grids, p, p)
}

/// Mirrored along the middle row and shifted by `i` columns, the first `p`
/// cells of each row of the bottom half give the facing row.
pub open spec fn glide_at(grids: Array2D<Grid>, p: int, i: int) -> bool {
    forall|k: int, m: int|
        0 <= k < half_rows(grids.spec_num_rows()) && 0 <= m < p ==> (#[trigger] grids.at(
            mirror_row(grids.spec_num_rows(), k),
            m,
        )).spec_hr() == grids.at(k, i + m)
}

/// The first glide shift from `i` below `p`.
pub open spec fn glide_from(grids: Array2D<Grid>, p: int, i: int) -> Option<usize>
    decreases p - i,
{
    if i >= p {
        None
    } else if glide_at(grids, p, i) {
        Some(i as usize)
    } else {
        glide_from(grids, p, i + 1)
    }
}

/// The glide shift: the first in `[0, p)`.
pub open spec fn spec_glide(grids: Array2D<Grid>, p: int) -> Option<usize> {
    glide_from(grids, p, 0)
}

/// The cells of `points`, one for each unit square; `None` when there are
/// fewer than two rows or two columns of points.
pub fn derive_grids(points: &Array2D<Point>) -> (r: Option<Array2D<Grid>>)
    requires
        points.wf(),
    ensures
        r.is_some() == (points.spec_num_rows() >= 2 && points.spec_num_cols() >= 2),
        r matches Some(g) ==> derives(g, *points),
{
    let nr = points.num_rows();
    let nc = points.num_cols();
    if nr < 2 || nc < 2 {
        return None;
    }
    let w = nc - 1;
    let mut array: Vec<Grid> = Vec::new();
    let mut y: usize = 0;
    while y < nr - 1
        invariant
            points.wf(),
            nr == points.spec_num_rows(),
            nc == points.spec_num_cols(),
            w == nc - 1,
            nr >= 2,
            nc >= 2,
            y <= nr - 1,
            array@.len() == y * w,
            forall|i: int| 0 <= i < array@.len() ==> #[trigger] array@[i] == cell_of(*points, i / w as int, i % w as int),
        decreases nr - 1 - y,
    {
        let mut x: usize = 0;
        while x < w
            invariant
                points.wf(),
                nr == points.spec_num_rows(),
                nc == points.spec_num_cols(),
                w == nc - 1,
                nr >= 2,
                nc >= 2,
                y < nr - 1,
                x <= w,
                array@.len() == y * w + x,
                forall|i: int| 0 <= i < array@.len() ==> #[trigger] array@[i] == cell_of(*points, i / w as int, i % w as int),
            decreases w - x,
        {
            let g = Grid::from_points(
                *points.get(y + 1, x).unwrap(),
                *points.get(y, x).unwrap(),
                *points.get(y + 1, x + 1).unwrap(),
            );
            proof {
                lemma_fundamental_div_mod_converse((y * w + x) as int, w as int, y as int, x as int);
            }
            array.push(g);
            x = x + 1;
        }
        assert(array@.len() == (y + 1) * w) by (nonlinear_arith)
            requires
                array@.len() == y * w + w,
        ;
        y = y + 1;
    }
    proof {
        assert(array@.len() == w * (nr - 1) + 0) by (nonlinear_arith)
            requires
                array@.len() == (nr - 1) * w,
        ;
        lemma_fundamental_div_mod_converse(array@.len() as int, (nr - 1) as int, w as int, 0);
    }
    let grids = match Array2D::from_vec(array, nr - 1) {
        Some(g) => g,
        None => return None,
    };
    proof {
        assert forall|r: int, c: int|
            0 <= r < grids.spec_num_rows() && 0 <= c < grids.spec_num_cols() implies #[trigger] grids.at(r, c)
                == cell_of(*points, r, c) by {
            crate::array2d::lemma_row_bounds(grids.spec_num_rows() as int, w as int, r);
            lemma_fundamental_div_mod_converse(r * w + c, w as int, r, c);
        }
    }
    Some(grids)
}

/// The seven frieze groups; the offset locates the symmetry axis or the
/// glide shift.
#[derive(Debug, Clone, Copy, PartialEq, Eq, Structural)]
pub enum FriezeGroup {
    T,
    TR(usize),
    TV(usize),
    TG(usize),
    THG,
    TRVG(usize),
    TRHVG(usize),
}

/// A line segment between two lattice points, each as (column, row).
pub type Segment = ((usize, usize), (usize, usize));

/// The row above row `y`; above row 0 it wraps to `usize::MAX`.
pub open spec fn row_above(y: int) -> usize {
    if y == 0 {
        usize::MAX
    } else {
        (y - 1) as usize
    }
}

/// The segments of the strokes that leave point `p` at column `x`, row `y`,
/// in the order N, NE, E, SE.
pub open spec fn point_segments(p: Point, x: int, y: int) -> Seq<Segment> {
    let from = (x as usize, y as usize);
    (if p.has(N) {
        seq![(from, (x as usize, row_above(y)))]
    } else {
        seq![]
    }) + (if p.has(NE) {
        seq![(from, ((x + 1) as usize, row_above(y)))]
    } else {
        seq![]
    }) + (if p.has(E) {
        seq![(from, ((x + 1) as usize, y as usize))]
    } else {
        seq![]
    }) + (if p.has(SE) {
        seq![(from, ((x + 1) as usize, (y + 1) as usize))]
    } else {
        seq![]
    })
}

/// The segments of the first `n` points of row `y`.
pub open spec fn row_segments(points: Array2D<Point>, y: int, n: int) -> Seq<Segment>
    decreases n,
{
    if n <= 0 {
        seq![]
    } else {
        row_segments(points, y, n - 1) + point_segments(points.at(y, n - 1), n - 1, y)
    }
}

/// The segments of the first `n` rows.
pub open spec fn segments(points: Array2D<Point>, n: int) -> Seq<Segment>
    decreases n,
{
    if n <= 0 {
        seq![]
    } else {
        segments(points, n - 1) + row_segments(points, n - 1, points.spec_num_cols() as int)
    }
}

/// The number of strokes that leave the first `n` points of row `y`.
pub open spec fn row_strokes(points: Array2D<Point>, y: int, n: int) -> nat
    decreases n,
{
    if n <= 0 {
        0
    } else {
        row_strokes(points, y, n - 1) + points.at(y, n - 1).stroke_count()
    }
}

/// The number of strokes that leave the points of the first `n` rows.
pub open spec fn strokes(points: Array2D<Point>, n: int) -> nat
    decreases n,
{
    if n <= 0 {
        0
    } else {
        strokes(points, n - 1) + row_strokes(points, n - 1, points.spec_num_cols() as int)
    }
}

/// The group of a strip, the stronger symmetries taking precedence.
pub open spec fn classify(grids: Array2D<Grid>, p: int) -> FriezeGroup {
    if spec_horizontal(grids, p) {
        match spec_vertical(grids, p) {
            Some(i) => FriezeGroup::TRHVG(i),
            None => FriezeGroup::THG,
        }
    } else if let Some(g) = spec_glide(grids, p) {
        match spec_vertical(grids, p) {
            Some(i) => FriezeGroup::TRVG(i),
            None => FriezeGroup::TG(g),
        }
    } else if let Some(i) = spec_vertical(grids, p) {
        FriezeGroup::TV(i)
    } else if let Some(i) = spec_rotation(grids, p) {
        FriezeGroup::TR(i)
    } else {
        FriezeGroup::T
    }
}

/// A strip pattern: its points, the cells derived from them and its period.
pub struct Frieze {
    points: Array2D<Point>,
    grids: Array2D<Grid>,
    period: usize,
}

impl Frieze {
    pub closed spec fn spec_points(&self) -> Array2D<Point> {
        self.points
    }

    pub closed spec fn spec_grids(&self) -> Array2D<Grid> {
        self.grids
    }

    pub closed spec fn spec_period(&self) -> nat {
        self.period as nat
    }

    /// The cells are derived from the points and the period is the least one.
    pub open spec fn wf(&self) -> bool {
        &&& derives(self.spec_grids(), self.spec_points())
        &&& self.spec_grids().spec_num_rows() >= 1
        &&& is_least_period(self.spec_grids(), self.spec_period() as int)
    }

    /// The group of the strip.
    pub open spec fn spec_group(&self) -> FriezeGroup {
        classify(self.spec_grids(), self.spec_period() as int)
    }

    /// Derives the cells of `points` and finds their least period in
    /// `[2, cols / 2]`; `None` when there is no such period or fewer than two
    /// rows or columns of points.
    pub fn from_points(points: Array2D<Point>) -> (r: Option<Self>)
        requires
            points.wf(),
        ensures
            r.is_some() == (points.spec_num_rows() >= 2 && points.spec_num_cols() >= 2 && exists|
                g: Array2D<Grid>,
                p: int,
            | derives(g, points) && is_valid_period(g, p)),
            r matches Some(f) ==> f.wf() && f.spec_points() == points,
    {
        let grids = match derive_grids(&points) {
            Some(g) => g,
            None => return None,
        };
        let half_cols = grids.num_cols() / 2;
        let mut p: usize = 2;
        while p <= half_cols
            invariant
                derives(grids, points),
                half_cols == grids.spec_num_cols() / 2,
                half_cols < usize::MAX,
                points.spec_num_rows() >= 2,
                points.spec_num_cols() >= 2,
                grids.spec_num_rows() >= 1,
                2 <= p <= half_cols + 2,
                forall|q: int| 2 <= q < p ==> !is_valid_period(grids, q),
            decreases half_cols + 1 - p,
        {
            if Self::has_period(&grids, p) {
                assert(exists|g: Array2D<Grid>, q: int| derives(g, points) && is_valid_period(g, q)) by {
                    assert(derives(grids, points) && is_valid_period(grids, p as int));
                }
                return Some(Frieze { points, grids, period: p });
            }
            p = p + 1;
        }
        proof {
            if exists|g: Array2D<Grid>, q: int| derives(g, points) && is_valid_period(g, q) {
                let (g, q) = choose|g: Array2D<Grid>, q: int| derives(g, points) && is_valid_period(g, q);
                lemma_derived_unique(g, grids, points);
                assert(is_valid_period(grids, q));
            }
        }
        None
    }

    /// The cell at row `r`, column `c`.
    fn cell(&self, r: usize, c: usize) -> (g: Grid)
        requires
            self.wf(),
            r < self.spec_grids().spec_num_rows(),
            c < self.spec_grids().spec_num_cols(),
        ensures
            g == self.spec_grids().at(r as int, c as int),
    {
        *self.grids.get(r, c).unwrap()
    }

    /// Whether the strip is its own mirror image along its middle row.
    pub fn horizontal(&self) -> (r: bool)
        requires
            self.wf(),
        ensures
            r == spec_horizontal(self.spec_grids(), self.spec_period() as int),
    {
        let nr = self.grids.num_rows();
        let half = nr / 2 + nr % 2;
        let mut k: usize = 0;
        while k < half
            invariant
                self.wf(),
                nr == self.spec_grids().spec_num_rows(),
                half == half_rows(self.spec_grids().spec_num_rows()),
                k <= half,
                forall|k2: int, c: int|
                    0 <= k2 < k && 0 <= c < self.spec_period() ==> (#[trigger] self.spec_grids().at(
                        mirror_row(self.spec_grids().spec_num_rows(), k2),
                        c,
                    )).spec_hr() == self.spec_grids().at(k2, c),
            decreases half - k,
        {
            let mut c: usize = 0;
            while c < self.period
                invariant
                    self.wf(),
                    nr == self.spec_grids().spec_num_rows(),
                    half == half_rows(self.spec_grids().spec_num_rows()),
                    k < half,
                    forall|k2: int, c2: int|
                        0 <= k2 < k && 0 <= c2 < self.spec_period() ==> (#[trigger] self.spec_grids().at(
                            mirror_row(self.spec_grids().spec_num_rows(), k2),
                            c2,
                        )).spec_hr() == self.spec_grids().at(k2, c2),
                    forall|c2: int|
                        0 <= c2 < c ==> (#[trigger] self.spec_grids().at(
                            mirror_row(self.spec_grids().spec_num_rows(), k as int),
                            c2,
                        )).spec_hr() == self.spec_grids().at(k as int, c2),
                decreases self.spec_period() - c,
            {
                if !(self.cell(nr - 1 - k, c).hr() == self.cell(k, c)) {
                    assert(mirror_row(self.spec_grids().spec_num_rows(), k as int) == nr - 1 - k);
                    return false;
                }
                c = c + 1;
            }
            k = k + 1;
        }
        true
    }

    /// Whether, in every row, the first `len` cells read backwards and
    /// mirrored give the `len` cells from column `i` on.
    fn vertical_match(&self, i: usize, len: usize) -> (r: bool)
        requires
            self.wf(),
            i < self.spec_period(),
            len <= self.spec_period(),
        ensures
            r == vertical_match(self.spec_grids(), i as int, len as int),
    {
        let nr = self.grids.num_rows();
        let mut r: usize = 0;
        while r < nr
            invariant
                self.wf(),
                i < self.spec_period(),
                len <= self.spec_period(),
                nr == self.spec_grids().spec_num_rows(),
                forall|r2: int, t: int|
                    0 <= r2 < r && 0 <= t < len ==> (#[trigger] self.spec_grids().at(r2, len - 1 - t)).spec_vr()
                        == self.spec_grids().at(r2, i + t),
            decreases nr - r,
        {
            let mut t: usize = 0;
            while t < len
                invariant
                    self.wf(),
                    i < self.spec_period(),
                    len <= self.spec_period(),
                    nr == self.spec_grids().spec_num_rows(),
                    r < nr,
                    forall|r2: int, t2: int|
                        0 <= r2 < r && 0 <= t2 < len ==> (#[trigger] self.spec_grids().at(r2, len - 1 - t2)).spec_vr()
                            == self.spec_grids().at(r2, i + t2),
                    forall|t2: int|
                        0 <= t2 < t ==> (#[trigger] self.spec_grids().at(r as int, len - 1 - t2)).spec_vr()
                            == self.spec_grids().at(r as int, i + t2),
                decreases len - t,
            {
                if !(self.cell(r, len - 1 - t).vr() == self.cell(r, i + t)) {
                    return false;
                }
                t = t + 1;
            }
            r = r + 1;
        }
        true
    }

    /// The offset of a vertical mirror axis: the first in
    /// `[period / 2, period)` that has one.
    pub fn vertical(&self) -> (r: Option<usize>)
        requires
            self.wf(),
        ensures
            r == spec_vertical(self.spec_grids(), self.spec_period() as int),
    {
        let p = self.period;
        let mut i: usize = p / 2;
        while i < p
            invariant
                self.wf(),
                p == self.spec_period(),
                p / 2 <= i <= p,
                vertical_from(self.spec_grids(), p as int, (p / 2) as int) == vertical_from(
                    self.spec_grids(),
                    p as int,
                    i as int,
                ),
            decreases p - i,
        {
            if self.vertical_match(i, i) || self.vertical_match(i, i + 1) {
                return Some(i);
            }
            i = i + 1;
        }
        None
    }

    /// Whether the strip turns into itself by a half turn, once the first
    /// `i` columns are read backwards.
    fn rotation_match(&self, i: usize) -> (r: bool)
        requires
            self.wf(),
            i < 2 * self.spec_period(),
        ensures
            r == rotation_at(self.spec_grids(), i as int),
    {
        let nr = self.grids.num_rows();
        let half = nr / 2 + nr % 2;
        let mut k: usize = 0;
        while k < half
            invariant
                self.wf(),
                i < 2 * self.spec_period(),
                nr == self.spec_grids().spec_num_rows(),
                half == half_rows(self.spec_grids().spec_num_rows()),
                k <= half,
                forall|k2: int, t: int|
                    0 <= k2 < k && 0 <= t < i ==> (#[trigger] self.spec_grids().at(
                        mirror_row(self.spec_grids().spec_num_rows(), k2),
                        i - 1 - t,
                    )).spec_rotate() == self.spec_grids().at(k2, t),
            decreases half - k,
        {
            let mut t: usize = 0;
            while t < i
                invariant
                    self.wf(),
                    i < 2 * self.spec_period(),
                    nr == self.spec_grids().spec_num_rows(),
                    half == half_rows(self.spec_grids().spec_num_rows()),
                    k < half,
                    forall|k2: int, t2: int|
                        0 <= k2 < k && 0 <= t2 < i ==> (#[trigger] self.spec_grids().at(
                            mirror_row(self.spec_grids().spec_num_rows(), k2),
                            i - 1 - t2,
                        )).spec_rotate() == self.spec_grids().at(k2, t2),
                    forall|t2: int|
                        0 <= t2 < t ==> (#[trigger] self.spec_grids().at(
                            mirror_row(self.spec_grids().spec_num_rows(), k as int),
                            i - 1 - t2,
                        )).spec_rotate() == self.spec_grids().at(k as int, t2),
                decreases i - t,
            {
                if !(self.cell(nr - 1 - k, i - 1 - t).rotate() == self.cell(k, t)) {
                    assert(mirror_row(self.spec_grids().spec_num_rows(), k as int) == nr - 1 - k);
                    return false;
                }
                t = t + 1;
            }
            k = k + 1;
        }
        true
    }

    /// The centre of a half turn, as an offset modulo the period.
    pub fn rotation(&self) -> (r: Option<usize>)
        requires
            self.wf(),
        ensures
            r == spec_rotation(self.spec_grids(), self.spec_period() as int),
    {
        let p = self.period;
        let row_len = p * 2 - 1;
        let mut i: usize = p;
        while i <= row_len
            invariant
                self.wf(),
                p == self.spec_period(),
                row_len == 2 * p - 1,
                p <= i <= 2 * p,
                rotation_from(self.spec_grids(), p as int, p as int) == rotation_from(
                    self.spec_grids(),
                    p as int,
                    i as int,
                ),
            decreases 2 * p - i,
        {
            if self.rotation_match(i) {
                return Some(i % p);
            }
            i = i + 1;
        }
        None
    }

    /// Whether, mirrored along the middle row and shifted by `i` columns, the
    /// strip is unchanged.
    fn glide_match(&self, i: usize) -> (r: bool)
        requires
            self.wf(),
            i < self.spec_period(),
        ensures
            r == glide_at(self.spec_grids(), self.spec_period() as int, i as int),
    {
        let nr = self.grids.num_rows();
        let half = nr / 2 + nr % 2;
        let mut k: usize = 0;
        while k < half
            invariant
                self.wf(),
                i < self.spec_period(),
                nr == self.spec_grids().spec_num_rows(),
                half == half_rows(self.spec_grids().spec_num_rows()),
                k <= half,
                forall|k2: int, m: int|
                    0 <= k2 < k && 0 <= m < self.spec_period() ==> (#[trigger] self.spec_grids().at(
                        mirror_row(self.spec_grids().spec_num_rows(), k2),
                        m,
                    )).spec_hr() == self.spec_grids().at(k2, i + m),
            decreases half - k,
        {
            let mut m: usize = 0;
            while m < self.period
                invariant
                    self.wf(),
                    i < self.spec_period(),
                    nr == self.spec_grids().spec_num_rows(),
                    half == half_rows(self.spec_grids().spec_num_rows()),
                    k < half,
                    forall|k2: int, m2: int|
                        0 <= k2 < k && 0 <= m2 < self.spec_period() ==> (#[trigger] self.spec_grids().at(
                            mirror_row(self.spec_grids().spec_num_rows(), k2),
                            m2,
                        )).spec_hr() == self.spec_grids().at(k2, i + m2),
                    forall|m2: int|
                        0 <= m2 < m ==> (#[trigger] self.spec_grids().at(
                            mirror_row(self.spec_grids().spec_num_rows(), k as int),
                            m2,
                        )).spec_hr() == self.spec_grids().at(k as int, i + m2),
                decreases self.spec_period() - m,
            {
                if !(self.cell(nr - 1 - k, m).hr() == self.cell(k, i + m)) {
                    assert(mirror_row(self.spec_grids().spec_num_rows(), k as int) == nr - 1 - k);
                    return false;
                }
                m = m + 1;
            }
            k = k + 1;
        }
        true
    }

    /// The shift of a glide reflection: the first in `[0, period)`.
    pub fn glied(&self) -> (r: Option<usize>)
        requires
            self.wf(),
        ensures
            r == spec_glide(self.spec_grids(), self.spec_period() as int),
    {
        let p = self.period;
        let mut i: usize = 0;
        while i < p
            invariant
                self.wf(),
                p == self.spec_period(),
                i <= p,
                glide_from(self.spec_grids(), p as int, 0) == glide_from(self.spec_grids(), p as int, i as int),
            decreases p - i,
        {
            if self.glide_match(i) {
                return Some(i);
            }
            i = i + 1;
        }
        None
    }

    /// The frieze group of the strip.
    pub fn group(&self) -> (r: FriezeGroup)
        requires
            self.wf(),
        ensures
            r == self.spec_group(),
    {
        if self.horizontal() {
            match self.vertical() {
                Some(i) => FriezeGroup::TRHVG(i),
                None => FriezeGroup::THG,
            }
        } else if let Some(g) = self.glied() {
            match self.vertical() {
                Some(i) => FriezeGroup::TRVG(i),
                None => FriezeGroup::TG(g),
            }
        } else if let Some(i) = self.vertical() {
            FriezeGroup::TV(i)
        } else if let Some(i) = self.rotation() {
            FriezeGroup::TR(i)
        } else {
            FriezeGroup::T
        }
    }

    pub fn period(&self) -> (r: usize)
        ensures
            r == self.spec_period(),
    {
        self.period
    }

    pub fn grids(&self) -> (r: &Array2D<Grid>)
        ensures
            *r == self.spec_grids(),
    {
        &self.grids
    }

    /// One segment for each stroke of each point, row by row and, within a
    /// row, column by column.
    pub fn paths(&self) -> (r: Vec<Segment>)
        requires
            self.wf(),
        ensures
            r@ == segments(self.spec_points(), self.spec_points().spec_num_rows() as int),
    {
        let nr = self.points.num_rows();
        let nc = self.points.num_cols();
        let mut paths: Vec<Segment> = Vec::new();
        let mut y: usize = 0;
        while y < nr
            invariant
                self.wf(),
                nr == self.spec_points().spec_num_rows(),
                nc == self.spec_points().spec_num_cols(),
                y <= nr,
                paths@ == segments(self.spec_points(), y as int),
            decreases nr - y,
        {
            let mut x: usize = 0;
            while x < nc
                invariant
                    self.wf(),
                    nr == self.spec_points().spec_num_rows(),
                    nc == self.spec_points().spec_num_cols(),
                    y < nr,
                    x <= nc,
                    paths@ == segments(self.spec_points(), y as int) + row_segments(
                        self.spec_points(),
                        y as int,
                        x as int,
                    ),
                decreases nc - x,
            {
                let p = *self.points.get(y, x).unwrap();
                push_point_segments(&mut paths, p, x, y);
                proof {
                    vstd::seq_lib::lemma_concat_associative(
                        segments(self.spec_points(), y as int),
                        row_segments(self.spec_points(), y as int, x as int),
                        point_segments(p, x as int, y as int),
                    );
                }
                x = x + 1;
            }
            assert(segments(self.spec_points(), y + 1) == segments(self.spec_points(), y as int) + row_segments(
                self.spec_points(),
                y as int,
                nc as int,
            ));
            y = y + 1;
        }
        paths
    }

    /// Whether every row of `grids` repeats itself after `p` columns.
    fn has_period(grids: &Array2D<Grid>, p: usize) -> (r: bool)
        requires
            grids.wf(),
        ensures
            r == is_period(*grids, p as int),
    {
        let nr = grids.num_rows();
        let nc = grids.num_cols();
        if p >= nc {
            return true;
        }
        let mut r: usize = 0;
        while r < nr
            invariant
                grids.wf(),
                nr == grids.spec_num_rows(),
                nc == grids.spec_num_cols(),
                p < nc,
                forall|r2: int, c: int|
                    0 <= r2 < r && 0 <= c && c + p < nc ==> #[trigger] grids.at(r2, c) == grids.at(r2, c + p),
            decreases nr - r,
        {
            let mut c: usize = 0;
            while c < nc - p
                invariant
                    grids.wf(),
                    nr == grids.spec_num_rows(),
                    nc == grids.spec_num_cols(),
                    p < nc,
                    r < nr,
                    forall|r2: int, c2: int|
                        0 <= r2 < r && 0 <= c2 && c2 + p < nc ==> #[trigger] grids.at(r2, c2) == grids.at(r2, c2 + p),
                    forall|c2: int| 0 <= c2 < c ==> #[trigger] grids.at(r as int, c2) == grids.at(r as int, c2 + p),
                decreases nc - c,
            {
                if !(*grids.get(r, c).unwrap() == *grids.get(r, c + p).unwrap()) {
                    return false;
                }
                c = c + 1;
            }
            r = r + 1;
        }
        true
    }
}

/// Two cell matrices of the same shape with the same cells.
pub open spec fn same_cells(a: Array2D<Grid>, b: Array2D<Grid>) -> bool {
    &&& a.spec_num_rows() == b.spec_num_rows()
    &&& a.spec_num_cols() == b.spec_num_cols()
    &&& forall|r: int, c: int|
        #![trigger a.at(r, c)]
        #![trigger b.at(r, c)]
        0 <= r < a.spec_num_rows() && 0 <= c < a.spec_num_cols() ==> a.at(r, c) == b.at(r, c)
}

proof fn lemma_vertical_same(a: Array2D<Grid>, b: Array2D<Grid>, p: int, i: int)
    requires
        same_cells(a, b),
        2 * p <= a.spec_num_cols(),
        0 <= i,
    ensures
        vertical_from(a, p, i) == vertical_from(b, p, i),
    decreases p - i,
{
    if i < p {
        assert(vertical_match(a, i, i) == vertical_match(b, i, i));
        assert(vertical_match(a, i, i + 1) == vertical_match(b, i, i + 1));
        lemma_vertical_same(a, b, p, i + 1);
    }
}

proof fn lemma_rotation_same(a: Array2D<Grid>, b: Array2D<Grid>, p: int, i: int)
    requires
        same_cells(a, b),
        2 * p <= a.spec_num_cols(),
        0 <= i,
    ensures
        rotation_from(a, p, i) == rotation_from(b, p, i),
    decreases 2 * p - i,
{
    if i < 2 * p {
        assert(rotation_at(a, i) == rotation_at(b, i));
        lemma_rotation_same(a, b, p, i + 1);
    }
}

proof fn lemma_glide_same(a: Array2D<Grid>, b: Array2D<Grid>, p: int, i: int)
    requires
        same_cells(a, b),
        2 * p <= a.spec_num_cols(),
        0 <= i,
    ensures
        glide_from(a, p, i) == glide_from(b, p, i),
    decreases p - i,
{
    if i < p {
        assert(glide_at(a, p, i) == glide_at(b, p, i));
        lemma_glide_same(a, b, p, i + 1);
    }
}

/// The group depends on the shape and the cells alone.
pub proof fn lemma_classify_same(a: Array2D<Grid>, b: Array2D<Grid>, p: int)
    requires
        same_cells(a, b),
        2 <= p,
        2 * p <= a.spec_num_cols(),
    ensures
        classify(a, p) == classify(b, p),
{
    assert(spec_horizontal(a, p) == spec_horizontal(b, p));
    lemma_vertical_same(a, b, p, p / 2);
    lemma_rotation_same(a, b, p, p);
    lemma_glide_same(a, b, p, 0);
}

/// Classification is deterministic: two strips built from the same points
/// have the same period and the same group.
pub proof fn lemma_deterministic(a: Frieze, b: Frieze)
    requires
        a.wf(),
        b.wf(),
        a.spec_points() == b.spec_points(),
    ensures
        a.spec_period() == b.spec_period(),
        a.spec_group() == b.spec_group(),
{
    let (ga, gb) = (a.spec_grids(), b.spec_grids());
    lemma_derived_unique(ga, gb, a.spec_points());
    assert(same_cells(ga, gb));
    assert(is_valid_period(gb, a.spec_period() as int));
    assert(is_valid_period(ga, b.spec_period() as int));
    lemma_classify_same(ga, gb, a.spec_period() as int);
}

/// A strip with a horizontal mirror is never reported with a glide alone or
/// with a glide and a vertical mirror; one with a glide and no horizontal
/// mirror is never reported with a vertical mirror alone or a half turn.
pub proof fn lemma_precedence(f: Frieze)
    ensures
        spec_horizontal(f.spec_grids(), f.spec_period() as int) ==> !(f.spec_group() is TG)
            && !(f.spec_group() is TRVG),
        !spec_horizontal(f.spec_grids(), f.spec_period() as int) && spec_glide(
            f.spec_grids(),
            f.spec_period() as int,
        ) is Some ==> !(f.spec_group() is TV) && !(f.spec_group() is TR),
{
}

/// Points that repeat every `m` columns give cells that repeat every `m`
/// columns.
pub proof fn lemma_tiled_cells(g: Array2D<Grid>, points: Array2D<Point>, m: int)
    requires
        derives(g, points),
        m >= 1,
        forall|r: int, c: int|
            0 <= r < points.spec_num_rows() && 0 <= c && c + m < points.spec_num_cols() ==> #[trigger] points.at(r, c)
                == points.at(r, c + m),
    ensures
        is_period(g, m),
{
    assert forall|r: int, c: int|
        0 <= r < g.spec_num_rows() && 0 <= c && c + m < g.spec_num_cols() implies #[trigger] g.at(r, c) == g.at(
            r,
            c + m,
        ) by {
        assert(points.at(r, c) == points.at(r, c + m));
        assert(points.at(r + 1, c) == points.at(r + 1, c + m));
        assert(points.at(r + 1, c + 1) == points.at(r + 1, c + 1 + m));
        assert(c + 1 + m == (c + m) + 1);
    }
}

/// Points that repeat a motif of width `m >= 2` at least three times across
/// the strip always have a period in the searched range.
pub proof fn lemma_tiled_has_period(points: Array2D<Point>, g: Array2D<Grid>, m: int, k: int)
    requires
        derives(g, points),
        m >= 2,
        k >= 3,
        points.spec_num_cols() == m * k,
        forall|r: int, c: int|
            0 <= r < points.spec_num_rows() && 0 <= c && c + m < points.spec_num_cols() ==> #[trigger] points.at(r, c)
                == points.at(r, c + m),
    ensures
        is_valid_period(g, m),
{
    lemma_tiled_cells(g, points, m);
    assert(m <= (m * k - 1) / 2) by (nonlinear_arith)
        requires
            m >= 2,
            k >= 3,
    ;
}

/// With periods `p < m` and `p + m` columns or fewer, `m - p` is a period.
proof fn lemma_period_difference(g: Array2D<Grid>, p: int, m: int)
    requires
        0 < p < m,
        p + m <= g.spec_num_cols(),
        is_period(g, p),
        is_period(g, m),
    ensures
        is_period(g, m - p),
{
    assert forall|r: int, c: int|
        0 <= r < g.spec_num_rows() && 0 <= c && c + (m - p) < g.spec_num_cols() implies #[trigger] g.at(r, c)
            == g.at(r, c + (m - p)) by {
        if c + m < g.spec_num_cols() {
            assert(g.at(r, c) == g.at(r, c + m));
            assert(g.at(r, c + m - p) == g.at(r, (c + m - p) + p));
            assert(c + (m - p) == c + m - p);
        } else {
            assert(g.at(r, c - p) == g.at(r, (c - p) + p));
            assert(g.at(r, c - p) == g.at(r, (c - p) + m));
            assert(c + (m - p) == (c - p) + m);
        }
    }
}

/// With periods `p` and `m` and `p + m` columns or fewer, `m % p` is a
/// period.
proof fn lemma_period_remainder(g: Array2D<Grid>, p: int, m: int)
    requires
        0 < p,
        0 <= m,
        p + m <= g.spec_num_cols(),
        is_period(g, p),
        is_period(g, m),
    ensures
        is_period(g, m % p),
    decreases m,
{
    if m >= p {
        if m == p {
            assert(m % p == 0);
        } else {
            lemma_period_difference(g, p, m);
            lemma_period_remainder(g, p, m - p);
            vstd::arithmetic::div_mod::lemma_mod_sub_multiples_vanish(m, p);
        }
    } else {
        vstd::arithmetic::div_mod::lemma_small_mod(m as nat, p as nat);
    }
}

/// Points that repeat a motif of width `m >= 2` at least twice across the
/// strip make a frieze whose period is at most `m` and divides `m`, unless its
/// rows of cells are constant.
pub proof fn lemma_tiled_period_divides(f: Frieze, m: int, k: int)
    requires
        f.wf(),
        m >= 2,
        k >= 2,
        f.spec_points().spec_num_cols() == m * k,
        forall|r: int, c: int|
            0 <= r < f.spec_points().spec_num_rows() && 0 <= c && c + m < f.spec_points().spec_num_cols()
                ==> #[trigger] f.spec_points().at(r, c) == f.spec_points().at(r, c + m),
    ensures
        f.spec_period() <= m,
        m % (f.spec_period() as int) == 0 || is_period(f.spec_grids(), 1),
{
    let g = f.spec_grids();
    let p = f.spec_period() as int;
    lemma_tiled_cells(g, f.spec_points(), m);
    if k == 2 {
        assert(p + m <= g.spec_num_cols());
    } else {
        lemma_tiled_has_period(f.spec_points(), g, m, k);
        assert(2 * m + 1 <= m * k - 1) by (nonlinear_arith)
            requires
                m >= 2,
                k >= 3,
        ;
    }
    lemma_period_remainder(g, p, m);
    let d = m % p;
    if d >= 2 {
        assert(d < p);
        assert(!is_valid_period(g, d));
    }
}

proof fn lemma_row_count(points: Array2D<Point>, y: int, n: int)
    ensures
        row_segments(points, y, n).len() == row_strokes(points, y, n),
    decreases n,
{
    if n > 0 {
        lemma_row_count(points, y, n - 1);
    }
}

/// The segments of the first `n` rows are as many as their strokes.
pub proof fn lemma_segment_count(points: Array2D<Point>, n: int)
    ensures
        segments(points, n).len() == strokes(points, n),
    decreases n,
{
    if n > 0 {
        lemma_segment_count(points, n - 1);
        lemma_row_count(points, n - 1, points.spec_num_cols() as int);
    }
}

/// Appends the segments of the strokes that leave point `p` at column `x`,
/// row `y`.
fn push_point_segments(paths: &mut Vec<Segment>, p: Point, x: usize, y: usize)
    requires
        x < usize::MAX,
        y < usize::MAX,
    ensures
        final(paths)@ == old(paths)@ + point_segments(p, x as int, y as int),
{
    let ghost before = paths@;
    let up = if y == 0 {
        usize::MAX
    } else {
        y - 1
    };
    if p.contains(N) {
        paths.push(((x, y), (x, up)));
    }
    if p.contains(NE) {
        paths.push(((x, y), (x + 1, up)));
    }
    if p.contains(E) {
        paths.push(((x, y), (x + 1, y)));
    }
    if p.contains(SE) {
        paths.push(((x, y), (x + 1, y + 1)));
    }
    assert(paths@ =~= before + point_segments(p, x as int, y as int));
}

/// Two cell matrices derived from the same points are the same.
proof fn lemma_derived_unique(a: Array2D<Grid>, b: Array2D<Grid>, points: Array2D<Point>)
    requires
        derives(a, points),
        derives(b, points),
    ensures
        forall|r: int, c: int|
            #![trigger a.at(r, c)]
            #![trigger b.at(r, c)]
            0 <= r < a.spec_num_rows() && 0 <= c < a.spec_num_cols() ==> a.at(r, c) == b.at(r, c),
        a.spec_num_rows() == b.spec_num_rows(),
        a.spec_num_cols() == b.spec_num_cols(),
{
}

} // verus!
