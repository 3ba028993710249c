use vstd::prelude::*;

verus! {

/// Bit of a stroke toward the neighbour above.
pub const N: u8 = 1;
/// Bit of a stroke toward the neighbour above and to the right.
pub const NE: u8 = 2;
/// Bit of a stroke toward the neighbour to the right.
pub const E: u8 = 4;
/// Bit of a stroke toward the neighbour below and to the right.
pub const SE: u8 = 8;

/// Left edge of a unit cell.
pub const EW: u8 = 1;
/// Top edge of a unit cell.
pub const SN: u8 = 2;
/// Rising diagonal of a unit cell.
pub const AB: u8 = 4;
/// Left and right edges differ.
pub const EWX: u8 = 16;
/// Bottom and top edges differ.
pub const SNX: u8 = 32;
/// The two diagonals differ.
pub const ABX: u8 = 64;

/// The four low bits of a byte, as its binary digits.
proof fn lemma_low_bits(b: u8)
    by (bit_vector)
    ensures
        (b & 1 == 1) == (b % 2 == 1),
        (b & 2 == 2) == ((b / 2) % 2 == 1),
        (b & 4 == 4) == ((b / 4) % 2 == 1),
        (b & 8 == 8) == ((b / 8) % 2 == 1),
{
}

/// The strokes that leave one lattice point, as a set of the bits
/// `N`, `NE`, `E` and `SE`.
#[derive(Debug, Clone, Copy, PartialEq, Eq, Structural)]
pub struct Point {
    bits: u8,
}

impl Point {
    pub closed spec fn spec_bits(self) -> u8 {
        self.bits
    }

    /// Whether every bit of `flag` is set.
    pub open spec fn has(self, flag: u8) -> bool {
        self.spec_bits() & flag == flag
    }

    /// The number of strokes that leave the point.
    pub open spec fn stroke_count(self) -> nat {
        (if self.has(N) { 1nat } else { 0nat }) + (if self.has(NE) { 1nat } else { 0nat }) + (
        if self.has(E) { 1nat } else { 0nat }) + (if self.has(SE) { 1nat } else { 0nat })
    }

    /// The point with the given bits, or `None` when a bit outside the four
    /// directions is set.
    pub fn from_bits(bits: u8) -> (r: Option<Point>)
        ensures
            r.is_some() == (bits < 16),
            r matches Some(p) ==> p.spec_bits() == bits,
            r matches Some(p) ==> p.has(N) == (bits % 2 == 1),
            r matches Some(p) ==> p.has(NE) == ((bits / 2) % 2 == 1),
            r matches Some(p) ==> p.has(E) == ((bits / 4) % 2 == 1),
            r matches Some(p) ==> p.has(SE) == ((bits / 8) % 2 == 1),
    {
        proof {
            lemma_low_bits(bits);
        }
        if bits < 16 {
            Some(Point { bits })
        } else {
            None
        }
    }

    pub fn bits(&self) -> (r: u8)
        ensures
            r == self.spec_bits(),
    {
        self.bits
    }

    /// Whether every bit of `flag` is set.
    pub fn contains(&self, flag: u8) -> (r: bool)
        ensures
            r == self.has(flag),
    {
        self.bits & flag == flag
    }

    /// The strokes that leave exactly one of the two points.
    pub fn xor(&self, other: &Point) -> (r: Point)
        ensures
            r.spec_bits() == self.spec_bits() ^ other.spec_bits(),
            r.has(N) == (self.has(N) != other.has(N)),
            r.has(NE) == (self.has(NE) != other.has(NE)),
            r.has(E) == (self.has(E) != other.has(E)),
            r.has(SE) == (self.has(SE) != other.has(SE)),
    {
        let (a, b) = (self.bits, other.bits);
        assert((a ^ b) & 1 == 1 <==> ((a & 1 == 1) != (b & 1 == 1))) by (bit_vector);
        assert((a ^ b) & 2 == 2 <==> ((a & 2 == 2) != (b & 2 == 2))) by (bit_vector);
        assert((a ^ b) & 4 == 4 <==> ((a & 4 == 4) != (b & 4 == 4))) by (bit_vector);
        assert((a ^ b) & 8 == 8 <==> ((a & 8 == 8) != (b & 8 == 8))) by (bit_vector);
        Point { bits: a ^ b }
    }
}

/// The symmetry-relevant features of one unit cell: the content bits `EW`,
/// `SN`, `AB` and the asymmetry bits `EWX`, `SNX`, `ABX`. Each asymmetry bit
/// sits four places above the content bit it belongs to.
#[derive(Debug, Clone, Copy, PartialEq, Eq, Structural)]
pub struct Grid {
    pub bits: u8,
}

/// The bits of a cell built from six features, each given as its bit or 0.
pub proof fn lemma_feature_bits(ew: u8, sn: u8, ab: u8, ewx: u8, snx: u8, abx: u8)
    by (bit_vector)
    requires
        ew == 0 || ew == 1,
        sn == 0 || sn == 2,
        ab == 0 || ab == 4,
        ewx == 0 || ewx == 16,
        snx == 0 || snx == 32,
        abx == 0 || abx == 64,
    ensures
        ((ew | sn | ab | ewx | snx | abx) & 1 == 1) == (ew == 1),
        ((ew | sn | ab | ewx | snx | abx) & 2 == 2) == (sn == 2),
        ((ew | sn | ab | ewx | snx | abx) & 4 == 4) == (ab == 4),
        ((ew | sn | ab | ewx | snx | abx) & 16 == 16) == (ewx == 16),
        ((ew | sn | ab | ewx | snx | abx) & 32 == 32) == (snx == 32),
        ((ew | sn | ab | ewx | snx | abx) & 64 == 64) == (abx == 64),
        (ew | sn | ab | ewx | snx | abx) & 0x88 == 0,
        (ew | sn | ab | ewx | snx | abx) == ew + sn + ab + ewx + snx + abx,
{
}

/// The conditional flips of the transforms, as one exclusive or with the
/// asymmetry bits shifted down onto their content bits.
proof fn lemma_flip_bits(b: u8)
    by (bit_vector)
    ensures
        (b ^ ((b >> 4u8) & 6u8)) == (if b & 64 == 64 {
            if b & 32 == 32 { b ^ 2 ^ 4 } else { b ^ 4 }
        } else {
            if b & 32 == 32 { b ^ 2 } else { b }
        }),
        (b ^ ((b >> 4u8) & 5u8)) == (if b & 64 == 64 {
            if b & 16 == 16 { b ^ 1 ^ 4 } else { b ^ 4 }
        } else {
            if b & 16 == 16 { b ^ 1 } else { b }
        }),
        (b ^ ((b >> 4u8) & 3u8)) == (if b & 32 == 32 {
            if b & 16 == 16 { b ^ 1 ^ 2 } else { b ^ 2 }
        } else {
            if b & 16 == 16 { b ^ 1 } else { b }
        }),
{
}

/// The flag bits of each transform's result.
proof fn lemma_flip_flags(b: u8)
    by (bit_vector)
    ensures
        ((b ^ ((b >> 4u8) & 6u8)) & 1 == 1) == (b & 1 == 1),
        ((b ^ ((b >> 4u8) & 6u8)) & 2 == 2) == ((b & 2 == 2) != (b & 32 == 32)),
        ((b ^ ((b >> 4u8) & 6u8)) & 4 == 4) == ((b & 4 == 4) != (b & 64 == 64)),
        ((b ^ ((b >> 4u8) & 5u8)) & 1 == 1) == ((b & 1 == 1) != (b & 16 == 16)),
        ((b ^ ((b >> 4u8) & 5u8)) & 2 == 2) == (b & 2 == 2),
        ((b ^ ((b >> 4u8) & 5u8)) & 4 == 4) == ((b & 4 == 4) != (b & 64 == 64)),
        ((b ^ ((b >> 4u8) & 3u8)) & 1 == 1) == ((b & 1 == 1) != (b & 16 == 16)),
        ((b ^ ((b >> 4u8) & 3u8)) & 2 == 2) == ((b & 2 == 2) != (b & 32 == 32)),
        ((b ^ ((b >> 4u8) & 3u8)) & 4 == 4) == (b & 4 == 4),
        ((b ^ ((b >> 4u8) & 6u8)) & 16 == 16) == (b & 16 == 16),
        ((b ^ ((b >> 4u8) & 6u8)) & 32 == 32) == (b & 32 == 32),
        ((b ^ ((b >> 4u8) & 6u8)) & 64 == 64) == (b & 64 == 64),
        ((b ^ ((b >> 4u8) & 5u8)) & 16 == 16) == (b & 16 == 16),
        ((b ^ ((b >> 4u8) & 5u8)) & 32 == 32) == (b & 32 == 32),
        ((b ^ ((b >> 4u8) & 5u8)) & 64 == 64) == (b & 64 == 64),
        ((b ^ ((b >> 4u8) & 3u8)) & 16 == 16) == (b & 16 == 16),
        ((b ^ ((b >> 4u8) & 3u8)) & 32 == 32) == (b & 32 == 32),
        ((b ^ ((b >> 4u8) & 3u8)) & 64 == 64) == (b & 64 == 64),
        (b ^ ((b >> 4u8) & 6u8)) & 0x88 == b & 0x88,
        (b ^ ((b >> 4u8) & 5u8)) & 0x88 == b & 0x88,
        (b ^ ((b >> 4u8) & 3u8)) & 0x88 == b & 0x88,
{
}

/// Bytes that agree on the six feature bits and on the two others agree.
proof fn lemma_bits_by_flags(a: u8, b: u8)
    by (bit_vector)
    requires
        (a & 1 == 1) == (b & 1 == 1),
        (a & 2 == 2) == (b & 2 == 2),
        (a & 4 == 4) == (b & 4 == 4),
        (a & 16 == 16) == (b & 16 == 16),
        (a & 32 == 32) == (b & 32 == 32),
        (a & 64 == 64) == (b & 64 == 64),
        a & 0x88 == b & 0x88,
    ensures
        a == b,
{
}

/// The shifted exclusive ors undo themselves and compose as the half turn.
proof fn lemma_flip_algebra(b: u8)
    by (bit_vector)
    ensures
        (b ^ ((b >> 4u8) & 6u8)) ^ (((b ^ ((b >> 4u8) & 6u8)) >> 4u8) & 6u8) == b,
        (b ^ ((b >> 4u8) & 5u8)) ^ (((b ^ ((b >> 4u8) & 5u8)) >> 4u8) & 5u8) == b,
        (b ^ ((b >> 4u8) & 3u8)) ^ (((b ^ ((b >> 4u8) & 3u8)) >> 4u8) & 3u8) == b,
        (b ^ ((b >> 4u8) & 6u8)) ^ (((b ^ ((b >> 4u8) & 6u8)) >> 4u8) & 5u8) == b ^ ((b >> 4u8) & 3u8),
        (b ^ ((b >> 4u8) & 5u8)) ^ (((b ^ ((b >> 4u8) & 5u8)) >> 4u8) & 6u8) == b ^ ((b >> 4u8) & 3u8),
{
}

impl Grid {
    pub open spec fn spec_bits(self) -> u8 {
        self.bits
    }

    /// Whether every bit of `flag` is set.
    pub open spec fn has(self, flag: u8) -> bool {
        self.bits & flag == flag
    }

    /// The cell with the bits of `flag` flipped.
    pub open spec fn toggled(self, flag: u8) -> Grid {
        Grid { bits: self.bits ^ flag }
    }

    /// The cell with `flag` flipped when `cond` holds.
    pub open spec fn toggled_when(self, cond: bool, flag: u8) -> Grid {
        if cond {
            self.toggled(flag)
        } else {
            self
        }
    }

    /// The cell as seen in a mirror along a horizontal axis: SN flips where
    /// SNX is set, AB where ABX is set.
    pub open spec fn spec_hr(self) -> Grid {
        self.toggled_when(self.has(SNX), SN).toggled_when(self.has(ABX), AB)
    }

    /// The cell as seen in a mirror along a vertical axis: EW flips where
    /// EWX is set, AB where ABX is set.
    pub open spec fn spec_vr(self) -> Grid {
        self.toggled_when(self.has(EWX), EW).toggled_when(self.has(ABX), AB)
    }

    /// The cell turned by a half turn: EW flips where EWX is set, SN where
    /// SNX is set.
    pub open spec fn spec_rotate(self) -> Grid {
        self.toggled_when(self.has(EWX), EW).toggled_when(self.has(SNX), SN)
    }

    /// The cell with exactly the given features.
    pub open spec fn from_features(ew: bool, sn: bool, ab: bool, ewx: bool, snx: bool, abx: bool) -> Grid {
        Grid {
            bits: (if ew { EW } else { 0 }) | (if sn { SN } else { 0 }) | (if ab { AB } else { 0 }) | (
            if ewx { EWX } else { 0 }) | (if snx { SNX } else { 0 }) | (if abx { ABX } else { 0 }),
        }
    }

    /// The cell whose lower-left corner is `o`, upper-left corner `u` and
    /// lower-right corner `r`.
    pub open spec fn spec_from_points(o: Point, u: Point, r: Point) -> Grid {
        Grid::from_features(
            o.has(N),
            u.has(E),
            o.has(NE),
            o.has(N) != r.has(N),
            o.has(E) != u.has(E),
            o.has(NE) != u.has(SE),
        )
    }

    pub fn bits(&self) -> (r: u8)
        ensures
            r == self.bits,
    {
        self.bits
    }

    /// Whether every bit of `flag` is set.
    pub fn contains(&self, flag: u8) -> (r: bool)
        ensures
            r == self.has(flag),
    {
        self.bits & flag == flag
    }

    /// Flips the bits of `flag`.
    pub fn toggle(&mut self, flag: u8)
        ensures
            final(self).bits == old(self).bits ^ flag,
    {
        self.bits = self.bits ^ flag;
    }

    pub fn hr(&self) -> (r: Grid)
        ensures
            r == self.spec_hr(),
            r.bits == self.bits ^ ((self.bits >> 4u8) & 6u8),
            r.has(EW) == self.has(EW),
            r.has(SN) == (self.has(SN) != self.has(SNX)),
            r.has(AB) == (self.has(AB) != self.has(ABX)),
            r.has(EWX) == self.has(EWX),
            r.has(SNX) == self.has(SNX),
            r.has(ABX) == self.has(ABX),
            r.bits & 0x88 == self.bits & 0x88,
    {
        proof {
            lemma_flip_bits(self.bits);
            lemma_flip_flags(self.bits);
        }
        let mut r = *self;
        if self.contains(SNX) {
            r.toggle(SN);
        }
        if self.contains(ABX) {
            r.toggle(AB);
        }
        r
    }

    pub fn vr(&self) -> (r: Grid)
        ensures
            r == self.spec_vr(),
            r.bits == self.bits ^ ((self.bits >> 4u8) & 5u8),
            r.has(EW) == (self.has(EW) != self.has(EWX)),
            r.has(SN) == self.has(SN),
            r.has(AB) == (self.has(AB) != self.has(ABX)),
            r.has(EWX) == self.has(EWX),
            r.has(SNX) == self.has(SNX),
            r.has(ABX) == self.has(ABX),
            r.bits & 0x88 == self.bits & 0x88,
    {
        proof {
            lemma_flip_bits(self.bits);
            lemma_flip_flags(self.bits);
        }
        let mut r = *self;
        if self.contains(EWX) {
            r.toggle(EW);
        }
        if self.contains(ABX) {
            r.toggle(AB);
        }
        r
    }

    pub fn rotate(&self) -> (r: Grid)
        ensures
            r == self.spec_rotate(),
            r.bits == self.bits ^ ((self.bits >> 4u8) & 3u8),
            r.has(EW) == (self.has(EW) != self.has(EWX)),
            r.has(SN) == (self.has(SN) != self.has(SNX)),
            r.has(AB) == self.has(AB),
            r.has(EWX) == self.has(EWX),
            r.has(SNX) == self.has(SNX),
            r.has(ABX) == self.has(ABX),
            r.bits & 0x88 == self.bits & 0x88,
    {
        proof {
            lemma_flip_bits(self.bits);
            lemma_flip_flags(self.bits);
        }
        let mut r = *self;
        if self.contains(EWX) {
            r.toggle(EW);
        }
        if self.contains(SNX) {
            r.toggle(SN);
        }
        r
    }

    pub fn from_points(o: Point, u: Point, r: Point) -> (g: Grid)
        ensures
            g == Grid::spec_from_points(o, u, r),
            g.has(EW) == o.has(N),
            g.has(SN) == u.has(E),
            g.has(AB) == o.has(NE),
            g.has(EWX) == (o.has(N) != r.has(N)),
            g.has(SNX) == (o.has(E) != u.has(E)),
            g.has(ABX) == (o.has(NE) != u.has(SE)),
            g.bits & 0x88 == 0,
            g.bits == (if o.has(N) { EW } else { 0 }) + (if u.has(E) { SN } else { 0 }) + (if o.has(NE) {
                AB
            } else {
                0
            }) + (if o.has(N) != r.has(N) { EWX } else { 0 }) + (if o.has(E) != u.has(E) {
                SNX
            } else {
                0
            }) + (if o.has(NE) != u.has(SE) { ABX } else { 0 }),
    {
        let ew: u8 = if o.contains(N) { EW } else { 0 };
        let sn: u8 = if u.contains(E) { SN } else { 0 };
        let ab: u8 = if o.contains(NE) { AB } else { 0 };
        let ewx: u8 = if o.xor(&r).contains(N) { EWX } else { 0 };
        let snx: u8 = if o.xor(&u).contains(E) { SNX } else { 0 };
        let abx: u8 = if o.contains(NE) != u.contains(SE) { ABX } else { 0 };
        proof {
            lemma_feature_bits(ew, sn, ab, ewx, snx, abx);
        }
        Grid { bits: ew | sn | ab | ewx | snx | abx }
    }
}

/// Two cells with the same six features and the same other bits are the
/// same cell.
pub proof fn lemma_same_features(a: Grid, b: Grid)
    requires
        a.has(EW) == b.has(EW),
        a.has(SN) == b.has(SN),
        a.has(AB) == b.has(AB),
        a.has(EWX) == b.has(EWX),
        a.has(SNX) == b.has(SNX),
        a.has(ABX) == b.has(ABX),
        a.bits & 0x88 == b.bits & 0x88,
    ensures
        a == b,
{
    lemma_bits_by_flags(a.bits, b.bits);
}

/// The features of a derived cell, bit by bit; no other bit is set.
pub proof fn lemma_from_points_bits(o: Point, u: Point, r: Point)
    ensures
        Grid::spec_from_points(o, u, r).has(EW) == o.has(N),
        Grid::spec_from_points(o, u, r).has(SN) == u.has(E),
        Grid::spec_from_points(o, u, r).has(AB) == o.has(NE),
        Grid::spec_from_points(o, u, r).has(EWX) == (o.has(N) != r.has(N)),
        Grid::spec_from_points(o, u, r).has(SNX) == (o.has(E) != u.has(E)),
        Grid::spec_from_points(o, u, r).has(ABX) == (o.has(NE) != u.has(SE)),
        Grid::spec_from_points(o, u, r).bits & 0x88 == 0,
        Grid::spec_from_points(o, u, r).bits == (if o.has(N) { EW } else { 0 }) + (if u.has(E) { SN } else { 0 }) + (if o.has(NE) {
            AB
        } else {
            0
        }) + (if o.has(N) != r.has(N) { EWX } else { 0 }) + (if o.has(E) != u.has(E) {
            SNX
        } else {
            0
        }) + (if o.has(NE) != u.has(SE) { ABX } else { 0 }),
{
    lemma_feature_bits(
        if o.has(N) { EW } else { 0 },
        if u.has(E) { SN } else { 0 },
        if o.has(NE) { AB } else { 0 },
        if o.has(N) != r.has(N) { EWX } else { 0 },
        if o.has(E) != u.has(E) { SNX } else { 0 },
        if o.has(NE) != u.has(SE) { ABX } else { 0 },
    );
}

/// Each transform flips, among the content bits, those whose asymmetry bit
/// is set: `hr` SN and AB, `vr` EW and AB, `rotate` EW and SN; the
/// asymmetry bits and the two unused bits stay.
pub proof fn lemma_transform_bits(g: Grid)
    ensures
        g.spec_hr().bits == g.bits ^ ((g.bits >> 4u8) & 6u8),
        g.spec_vr().bits == g.bits ^ ((g.bits >> 4u8) & 5u8),
        g.spec_rotate().bits == g.bits ^ ((g.bits >> 4u8) & 3u8),
        g.spec_hr().has(EW) == g.has(EW),
        g.spec_hr().has(SN) == (g.has(SN) != g.has(SNX)),
        g.spec_hr().has(AB) == (g.has(AB) != g.has(ABX)),
        g.spec_vr().has(EW) == (g.has(EW) != g.has(EWX)),
        g.spec_vr().has(SN) == g.has(SN),
        g.spec_vr().has(AB) == (g.has(AB) != g.has(ABX)),
        g.spec_rotate().has(EW) == (g.has(EW) != g.has(EWX)),
        g.spec_rotate().has(SN) == (g.has(SN) != g.has(SNX)),
        g.spec_rotate().has(AB) == g.has(AB),
        forall|f: u8|
            f == EWX || f == SNX || f == ABX ==> #[trigger] g.spec_hr().has(f) == g.has(f) && g.spec_vr().has(f)
                == g.has(f) && g.spec_rotate().has(f) == g.has(f),
        g.spec_hr().bits & 0x88 == g.bits & 0x88,
        g.spec_vr().bits & 0x88 == g.bits & 0x88,
        g.spec_rotate().bits & 0x88 == g.bits & 0x88,
{
    lemma_flip_bits(g.bits);
    lemma_flip_flags(g.bits);
}

/// Each mirror and the half turn undo themselves, and the half turn is the
/// two mirrors one after the other, in either order.
pub proof fn lemma_transform_algebra(g: Grid)
    ensures
        g.spec_hr().spec_hr() == g,
        g.spec_vr().spec_vr() == g,
        g.spec_rotate().spec_rotate() == g,
        g.spec_hr().spec_vr() == g.spec_rotate(),
        g.spec_vr().spec_hr() == g.spec_rotate(),
{
    lemma_transform_bits(g);
    lemma_transform_bits(g.spec_hr());
    lemma_transform_bits(g.spec_vr());
    lemma_transform_bits(g.spec_rotate());
    lemma_flip_algebra(g.bits);
}

} // verus!
