//! An 11x11 bitboard.
use vstd::prelude::*;
use vstd::string::StringExecFns;
use crate::grid;
use core::ops::Not;

verus! {

const FULL: u128 = 0x1ff_ffff_ffff_ffff_ffff_ffff_ffff_ffff;

const ROW_0: u128 = 0x7ff;

const COLUMN_0: u128 = 0x4008_0100_2004_0080_1002_0040_0801;

/// Whether bit `i` of `b` is set.
pub open spec fn bit(b: u128, i: u128) -> bool {
    (b >> i) & 1 == 1
}

spec fn low_index(x: u128) -> u128 {
    let s6: u128 = if x & 0xffff_ffff_ffff_ffff == 0 { 64 } else { 0 };
    let x6 = x >> s6;
    let s5: u128 = if x6 & 0xffff_ffff == 0 { 32 } else { 0 };
    let x5 = x6 >> s5;
    let s4: u128 = if x5 & 0xffff == 0 { 16 } else { 0 };
    let x4 = x5 >> s4;
    let s3: u128 = if x4 & 0xff == 0 { 8 } else { 0 };
    let x3 = x4 >> s3;
    let s2: u128 = if x3 & 0xf == 0 { 4 } else { 0 };
    let x2 = x3 >> s2;
    let s1: u128 = if x2 & 0x3 == 0 { 2 } else { 0 };
    let x1 = x2 >> s1;
    let s0: u128 = if x1 & 0x1 == 0 { 1 } else { 0 };
    (s6 + s5 + s4 + s3 + s2 + s1 + s0) as u128
}

proof fn lemma_low_index(x: u128)
    by (bit_vector)
    requires
        x != 0,
    ensures
        low_index(x) < 128,
        bit(x, low_index(x)),
        forall|j: u128| j < low_index(x) ==> !bit(x, j),
{
}

spec fn high_index(x: u128) -> u128 {
    let s6: u128 = if x >> 64 != 0 { 64 } else { 0 };
    let x6 = x >> s6;
    let s5: u128 = if x6 >> 32 != 0 { 32 } else { 0 };
    let x5 = x6 >> s5;
    let s4: u128 = if x5 >> 16 != 0 { 16 } else { 0 };
    let x4 = x5 >> s4;
    let s3: u128 = if x4 >> 8 != 0 { 8 } else { 0 };
    let x3 = x4 >> s3;
    let s2: u128 = if x3 >> 4 != 0 { 4 } else { 0 };
    let x2 = x3 >> s2;
    let s1: u128 = if x2 >> 2 != 0 { 2 } else { 0 };
    let x1 = x2 >> s1;
    let s0: u128 = if x1 >> 1 != 0 { 1 } else { 0 };
    (s6 + s5 + s4 + s3 + s2 + s1 + s0) as u128
}

proof fn lemma_high_index(x: u128)
    by (bit_vector)
    requires
        x != 0,
    ensures
        high_index(x) < 128,
        bit(x, high_index(x)),
        forall|j: u128| high_index(x) < j < 128 ==> !bit(x, j),
{
}

proof fn lemma_less(a: u128, b: u128)
    by (bit_vector)
    requires
        a != b,
    ensures
        (a < b) == bit(b, high_index(a ^ b)),
{
}

proof fn lemma_xor_zero(a: u128, b: u128)
    by (bit_vector)
    ensures
        (a ^ b == 0) == (a == b),
{
}

proof fn lemma_ops(a: u128, b: u128)
    by (bit_vector)
    ensures
        forall|i: u128| i < 128 ==> #[trigger] bit(a & b, i) == (bit(a, i) && bit(b, i)),
        forall|i: u128| i < 128 ==> #[trigger] bit(a | b, i) == (bit(a, i) || bit(b, i)),
        forall|i: u128| i < 128 ==> #[trigger] bit(a ^ b, i) == (bit(a, i) != bit(b, i)),
        forall|i: u128| i < 128 ==> #[trigger] bit(!a, i) == !bit(a, i),
{
}

proof fn lemma_shifts(a: u128)
    by (bit_vector)
    ensures
        forall|i: u128| i < 128 ==> #[trigger] bit(a << 11, i) == (i >= 11 && bit(a, (i - 11) as u128)),
        forall|i: u128| i < 128 ==> #[trigger] bit(a >> 11, i) == (i + 11 < 128 && bit(a, (i + 11) as u128)),
        forall|i: u128| i < 128 ==> #[trigger] bit(a << 1, i) == (i >= 1 && bit(a, (i - 1) as u128)),
        forall|i: u128| i < 128 ==> #[trigger] bit(a >> 1, i) == (i + 1 < 128 && bit(a, (i + 1) as u128)),
{
}

proof fn lemma_consts()
    by (bit_vector)
    ensures
        forall|i: u128| i < 128 ==> #[trigger] bit(FULL, i) == (i < 121),
        forall|i: u128| i < 128 ==> !#[trigger] bit(0, i),
        forall|i: u128, r: u128| i < 121 && r < 11 ==> #[trigger] bit(ROW_0 << (11 * r), i) == (i / 11 == r),
        forall|i: u128, c: u128| i < 121 && c < 11 ==> #[trigger] bit(COLUMN_0 << c, i) == (i % 11 == c),
        forall|r: u128| r < 11 ==> #[trigger] (ROW_0 << (11 * r)) <= FULL,
        forall|c: u128| c < 11 ==> #[trigger] (COLUMN_0 << c) <= FULL,
        forall|i: u128, k: u128| i < 128 && k < 128 ==> #[trigger] bit(1u128 << k, i) == (i == k),
        forall|k: u128| k < 121 ==> #[trigger] (1u128 << k) <= FULL,
{
}

proof fn lemma_bounded(a: u128)
    by (bit_vector)
    ensures
        a & FULL <= FULL,
        forall|i: u128| a <= FULL && 121 <= i < 128 ==> !#[trigger] bit(a, i),
{
}

proof fn lemma_ext(a: u128, b: u128)
    requires
        forall|i: u128| i < 128 ==> bit(a, i) == bit(b, i),
    ensures
        a == b,
{
    if a != b {
        lemma_xor_zero(a, b);
        lemma_low_index(a ^ b);
        lemma_ops(a, b);
    }
}

proof fn lemma_bits_bounded(a: u128)
    requires
        forall|i: u128| 121 <= i < 128 ==> !bit(a, i),
    ensures
        a <= FULL,
{
    lemma_ops(a, FULL);
    lemma_consts();
    lemma_bounded(a);
    lemma_ext(a, a & FULL);
}

/// The number of set bits among the lowest `n` bits of `b`.
pub open spec fn ones_below(b: u128, n: nat) -> nat
    decreases n,
{
    if n == 0 {
        0
    } else {
        ones_below(b, (n - 1) as nat) + if bit(b, (n - 1) as u128) {
            1nat
        } else {
            0nat
        }
    }
}

/// `u128::count_ones` of std: the number of ones in the binary representation.
pub assume_specification[ u128::count_ones ](i: u128) -> (r: u32)
    ensures
        r == ones_below(i, 128),
;

/// `u128::trailing_zeros` of std: the number of zero bits below the lowest set
/// bit, and 128 for zero.
pub assume_specification[ u128::trailing_zeros ](i: u128) -> (r: u32)
    ensures
        r <= 128,
        r < 128 ==> bit(i, r as u128),
        forall|j: u128| j < r ==> !bit(i, j),
;

spec fn low_bits(b: u128, n: nat) -> Set<int> {
    Set::new(|i: int| 0 <= i < n && bit(b, i as u128))
}

proof fn lemma_ones_len(b: u128, n: nat)
    requires
        n <= 128,
    ensures
        low_bits(b, n).finite(),
        low_bits(b, n).len() == ones_below(b, n),
    decreases n,
{
    if n == 0 {
        assert(low_bits(b, n) =~= Set::<int>::empty());
    } else {
        let m = (n - 1) as nat;
        lemma_ones_len(b, m);
        if bit(b, m as u128) {
            assert(low_bits(b, n) =~= low_bits(b, m).insert(m as int));
        } else {
            assert(low_bits(b, n) =~= low_bits(b, m));
        }
    }
}

proof fn lemma_ones_bounded(b: u128)
    requires
        b <= FULL,
    ensures
        ones_below(b, 128) == ones_below(b, 121),
{
    lemma_bounded(b);
    reveal_with_fuel(ones_below, 8);
}

/// A set of cells of the 11x11 board.
#[derive(Clone, Copy, PartialEq, Eq, PartialOrd, Ord, Structural, Debug)]
#[must_use]
pub struct Mask(u128);

impl View for Mask {
    type V = Set<int>;

    /// The linear indices of the cells in the set.
    open spec fn view(&self) -> Set<int> {
        Set::new(|i: int| 0 <= i < 121 && bit(self.bits(), i as u128))
    }
}

impl Mask {
    /// The number of rows, and of columns.
    pub const SIZE: u8 = 11;

    /// The number of cells.
    pub const CELL_COUNT: u8 = 121;

    /// The raw bit pattern: bit `i` stands for the cell with linear index `i`.
    pub closed spec fn bits(&self) -> u128 {
        self.0
    }

    /// The mask with the bit pattern `bits`.
    pub closed spec fn raw(bits: u128) -> Mask {
        Mask(bits)
    }

    /// Bits from 121 on are never set.
    #[verifier::type_invariant]
    pub closed spec fn wf(self) -> bool {
        self.0 <= FULL
    }

    /// Two well-formed masks with the same cells are the same mask.
    pub proof fn lemma_view_injective(self, other: Mask)
        requires
            self.wf(),
            other.wf(),
            self@ == other@,
        ensures
            self == other,
    {
        lemma_bounded(self.0);
        lemma_bounded(other.0);
        assert forall|i: u128| i < 128 implies bit(self.0, i) == bit(other.0, i) by {
            if i < 121 {
                let k = i as int;
                assert(self@.contains(k) == bit(self.0, k as u128));
            }
        }
        lemma_ext(self.0, other.0);
    }

    /// The bit patterns order the masks by the greatest cell that only one
    /// of two holds.
    pub proof fn lemma_bits_order(self, other: Mask)
        requires
            self.wf(),
            other.wf(),
        ensures
            self.bits() < other.bits() <==> grid::precedes(self@, other@),
    {
        let a = self.0;
        let b = other.0;
        lemma_bounded(a);
        lemma_bounded(b);
        lemma_ops(a, b);
        lemma_xor_zero(a, b);
        if a != b {
            lemma_high_index(a ^ b);
            lemma_less(a, b);
            let h = high_index(a ^ b);
            if a < b {
                assert(other@.contains(h as int) && !self@.contains(h as int));
                assert forall|j: int| h < j < 121 implies self@.contains(j) == other@.contains(j) by {
                    assert(!bit(a ^ b, j as u128));
                }
            }
            if grid::precedes(self@, other@) {
                let i = choose|i: int|
                    0 <= i < 121 && #[trigger] other@.contains(i) && !self@.contains(i) && forall|
                        j: int,
                    | i < j < 121 ==> self@.contains(j) == other@.contains(j);
                assert(bit(a ^ b, i as u128));
                if i < h {
                    assert(self@.contains(h as int) == other@.contains(h as int));
                }
            }
        }
    }

    /// Two masks with the same bit pattern are the same mask.
    pub proof fn lemma_bits_injective(self, other: Mask)
        requires
            self.bits() == other.bits(),
        ensures
            self == other,
    {
    }

    /// The bit pattern: bit `y * 11 + x` is set for the cell in column `x` of row `y`.
    pub fn to_bits(self) -> (r: u128)
        ensures
            r == self.bits(),
            r < 0x200_0000_0000_0000_0000_0000_0000_0000,
    {
        proof {
            use_type_invariant(&self);
        }
        self.0
    }

    /// Bits from 121 on are dropped.
    pub fn from_bits(bits: u128) -> (r: Self)
        ensures
            r.bits() == bits & 0x1ff_ffff_ffff_ffff_ffff_ffff_ffff_ffff,
    {
        proof {
            lemma_bounded(bits);
        }
        Self(bits & FULL)
    }

    /// The set with no cell.
    pub fn empty() -> (r: Self)
        ensures
            r@ == Set::<int>::empty(),
    {
        let r = Self(0);
        proof {
            lemma_consts();
        }
        r
    }

    /// The set of all 121 cells.
    pub fn full() -> (r: Self)
        ensures
            r@ == grid::board(),
    {
        let r = Self(FULL);
        proof {
            lemma_consts();
        }
        r
    }

    /// The cell with linear index `idx`, alone.
    pub fn cell_idx(idx: u8) -> (r: Self)
        requires
            idx < 121,
        ensures
            r@ == set![idx as int],
    {
        proof {
            lemma_consts();
        }
        let r = Self(1u128 << idx);
        r
    }

    /// The cell in column `x` of row `y`, alone.
    pub fn cell(x: u8, y: u8) -> (r: Self)
        requires
            x < 11,
            y < 11,
        ensures
            r@ == set![grid::index_of(x as int, y as int)],
    {
        Self::cell_idx(y * 11 + x)
    }

    /// The cells of row `i`.
    pub fn row(i: u8) -> (r: Self)
        requires
            i < 11,
        ensures
            r@ == grid::row(i as int),
    {
        proof {
            lemma_consts();
        }
        let r = Self(ROW_0 << (11 * i));
        r
    }

    /// The cells of column `i`.
    pub fn column(i: u8) -> (r: Self)
        requires
            i < 11,
        ensures
            r@ == grid::column(i as int),
    {
        proof {
            lemma_consts();
        }
        let r = Self(COLUMN_0 << i);
        r
    }

    /// The cells of the outermost rows and columns.
    pub fn border() -> (r: Self)
        ensures
            r@ == grid::border(),
    {
        let r = Self::row(0) | Self::row(10) | Self::column(0) | Self::column(10);
        r
    }

    /// The set of the cells whose linear indices are listed.
    pub fn from_cells(cells: &[u8]) -> (r: Self)
        requires
            forall|k: int| 0 <= k < cells.len() ==> cells[k] < 121,
        ensures
            forall|i: int| r@.contains(i) <==> exists|k: int| 0 <= k < cells.len() && cells[k] == i,
    {
        let mut res = Self::empty();
        let mut idx: usize = 0;
        while idx < cells.len()
            invariant
                idx <= cells.len(),
                forall|k: int| 0 <= k < cells.len() ==> cells[k] < 121,
                forall|i: int| res@.contains(i) <==> exists|k: int| 0 <= k < idx && cells[k] == i,
            decreases cells.len() - idx,
        {
            res = res | Self::cell_idx(cells[idx]);
            idx += 1;
        }
        res
    }

    /// Every cell moved one row up; row 0 falls off.
    pub fn shift_up(self) -> (r: Self)
        ensures
            r@ == grid::shifted_up(self@),
    {
        proof {
            use_type_invariant(&self);
            lemma_shifts(self.0);
            lemma_bounded(self.0);
            lemma_bits_bounded(self.0 >> 11);
        }
        let r = Self(self.0 >> 11);
        r
    }

    /// Every cell moved one row down; row 10 falls off.
    pub fn shift_down(self) -> (r: Self)
        ensures
            r@ == grid::shifted_down(self@),
    {
        proof {
            use_type_invariant(&self);
            lemma_shifts(self.0);
            lemma_ops(self.0 << 11, FULL);
            lemma_consts();
            lemma_bounded(self.0 << 11);
        }
        let r = Self((self.0 << 11) & FULL);
        r
    }

    /// Every cell moved one column to the right; column 10 falls off.
    pub fn shift_right(self) -> (r: Self)
        ensures
            r@ == grid::shifted_right(self@),
    {
        let kept: u128 = self.0 & !(COLUMN_0 << 10);
        proof {
            use_type_invariant(&self);
            lemma_ops(self.0, !(COLUMN_0 << 10));
            lemma_ops(COLUMN_0 << 10, 0);
            lemma_consts();
            lemma_shifts(kept);
            lemma_bounded(self.0);
            lemma_bits_bounded(kept << 1);
        }
        let r = Self(kept << 1);
        r
    }

    /// Every cell moved one column to the left; column 0 falls off.
    pub fn shift_left(self) -> (r: Self)
        ensures
            r@ == grid::shifted_left(self@),
    {
        let kept: u128 = self.0 & !COLUMN_0;
        proof {
            use_type_invariant(&self);
            lemma_ops(self.0, !COLUMN_0);
            lemma_ops(COLUMN_0, 0);
            lemma_consts();
            assert(COLUMN_0 << 0 == COLUMN_0) by (bit_vector);
            lemma_shifts(kept);
            lemma_bounded(self.0);
            lemma_bits_bounded(kept >> 1);
        }
        let r = Self(kept >> 1);
        r
    }

    /// The cells that share an edge with a cell of the set.
    pub fn neighbors(self) -> (r: Self)
        ensures
            r@ == grid::neighbors(self@),
    {
        self.shift_left() | self.shift_right() | self.shift_up() | self.shift_down()
    }

    /// The connected components of the set, one at a time.
    pub fn clusters(self) -> (r: Clusters)
        ensures
            r@ == self@,
    {
        Clusters { rest: self }
    }

    /// The linear indices of the cells, one at a time, in ascending order.
    pub fn cells(self) -> (r: Cells)
        ensures
            r@ == self@,
    {
        Cells { rest: self }
    }

    /// The placements of `pattern` inside the set, one at a time: every
    /// translation of `pattern` to the right and down that the set holds.
    pub fn sub_masks(self, pattern: Self) -> (r: SubMasks)
        ensures
            r@ == grid::sub_masks(self@, pattern@),
    {
        proof {
            grid::lemma_translated_shift(pattern@, 0, 0);
        }
        SubMasks::new(self, pattern, Ghost(pattern@), Ghost(0))
    }

    /// The index of the least cell of a set that is not empty.
    fn lowest(self) -> (r: u8)
        requires
            self@ != Set::<int>::empty(),
        ensures
            r < 121,
            self@.contains(r as int),
            r == grid::least(self@),
    {
        proof {
            use_type_invariant(&self);
            lemma_bounded(self.0);
            lemma_consts();
            if self.0 == 0 {
                assert(self@ =~= Set::<int>::empty());
            }
        }
        let low: u32 = self.0.trailing_zeros();
        proof {
            if low >= 128 {
                lemma_low_index(self.0);
            }grid::lemma_least_is(self@, low as int);
        }
        low as u8
    }

    /// The cells of `self` that share an edge with a cell of `other`.
    pub fn touches(self, other: Self) -> (r: Self)
        ensures
            r@ == self@.intersect(grid::neighbors(other@)),
    {
        self & other.neighbors()
    }

    /// The cells of `self` that share no edge with any cell of `other`.
    pub fn touches_not(self, other: Self) -> (r: Self)
        ensures
            r@ == self@.difference(grid::neighbors(other@)),
    {
        let r = self & other.neighbors().not();
        r
    }

    /// Whether every cell of `other` is in the set.
    pub fn contains(self, other: Self) -> (r: bool)
        ensures
            r == other@.subset_of(self@),
    {
        let both = self & other;
        proof {
            use_type_invariant(&both);
            use_type_invariant(&other);
            if other@.subset_of(self@) {
                assert(both@ =~= other@);
                both.lemma_view_injective(other);
            }
        }
        both == other
    }

    /// Whether the set has no cell.
    pub fn is_empty(self) -> (r: bool)
        ensures
            r == (self@ == Set::<int>::empty()),
    {
        proof {
            use_type_invariant(&self);
            lemma_consts();
            if self.0 != 0 {
                lemma_low_index(self.0);
                lemma_bounded(self.0);
                assert(self@.contains(low_index(self.0) as int));
            } else {
                assert(self@ =~= Set::<int>::empty());
            }
        }
        self.0 == 0
    }

    /// Whether the set has a cell.
    pub fn has_cells(self) -> (r: bool)
        ensures
            r == (self@ != Set::<int>::empty()),
    {
        !(self.is_empty())
    }

    /// A picture of the set, row by row.
    pub fn to_text(self) -> (r: String)
        ensures
            r@ == grid::picture(self@),
    {
        proof {
            reveal_strlit("\n");
            reveal_strlit("o");
            reveal_strlit(".");
        }
        let ghost all = grid::picture(self@);
        let mut out = String::new();
        out.append("\n");
        let mut y: u8 = 0;
        while y < 11
            invariant
                y <= 11,
                all == grid::picture(self@),
                out@ == all.take(1 + 12 * y),
            decreases 11 - y,
        {
            let mut x: u8 = 0;
            while x < 11
                invariant
                    y < 11,
                    x <= 11,
                    all == grid::picture(self@),
                    out@ == all.take(1 + 12 * y + x),
                decreases 11 - x,
            {
                let cell = Mask::cell(x, y);
                let inside = self.contains(cell);
                proof {
                    reveal_strlit("o");
                    reveal_strlit(".");
                }
                if inside {
                    out.append("o");
                } else {
                    out.append(".");
                }
                x += 1;
            }
            proof {
                reveal_strlit("\n");
            }
            out.append("\n");
            y += 1;
        }
        out
    }

    /// The number of cells in the set.
    pub fn count_cells(self) -> (r: i32)
        ensures
            self@.finite(),
            r == self@.len(),
            0 <= r <= 121,
    {
        proof {
            use_type_invariant(&self);
            lemma_ones_bounded(self.0);
            lemma_ones_len(self.0, 121);
            grid::lemma_region_len(self@);
        }
        self.0.count_ones() as i32
    }
}

impl core::ops::BitAnd for Mask {
    type Output = Mask;

    fn bitand(self, rhs: Mask) -> (r: Mask)
        ensures
            r@ == self@.intersect(rhs@),
    {
        proof {
            use_type_invariant(&self);
        }
        assert(self.0 & rhs.0 <= FULL) by {
            lemma_ops(self.0, rhs.0);
            lemma_bounded(self.0);
            lemma_bits_bounded(self.0 & rhs.0);
        }
        let r = Mask(self.0 & rhs.0);
        assert(r@ =~= self@.intersect(rhs@)) by {
            lemma_ops(self.0, rhs.0);
        }
        r
    }
}

impl vstd::std_specs::ops::BitAndSpecImpl for Mask {
    open spec fn obeys_bitand_spec() -> bool {
        true
    }

    open spec fn bitand_req(self, rhs: Mask) -> bool {
        true
    }

    open spec fn bitand_spec(self, rhs: Mask) -> Mask {
        Mask::raw(self.bits() & rhs.bits())
    }
}

impl core::ops::BitOr for Mask {
    type Output = Mask;

    fn bitor(self, rhs: Mask) -> (r: Mask)
        ensures
            r@ == self@.union(rhs@),
    {
        proof {
            use_type_invariant(&self);
            use_type_invariant(&rhs);
        }
        assert(self.0 | rhs.0 <= FULL) by {
            lemma_ops(self.0, rhs.0);
            lemma_bounded(self.0);
            lemma_bounded(rhs.0);
            lemma_bits_bounded(self.0 | rhs.0);
        }
        let r = Mask(self.0 | rhs.0);
        assert(r@ =~= self@.union(rhs@)) by {
            lemma_ops(self.0, rhs.0);
        }
        r
    }
}

impl vstd::std_specs::ops::BitOrSpecImpl for Mask {
    open spec fn obeys_bitor_spec() -> bool {
        true
    }

    open spec fn bitor_req(self, rhs: Mask) -> bool {
        true
    }

    open spec fn bitor_spec(self, rhs: Mask) -> Mask {
        Mask::raw(self.bits() | rhs.bits())
    }
}

impl core::ops::Not for Mask {
    type Output = Mask;

    fn not(self) -> (r: Mask)
        ensures
            r@ == grid::complement(self@),
    {
        assert(!self.0 & FULL <= FULL) by {
            lemma_bounded(!self.0);
        }
        let r = Mask(!self.0 & FULL);
        assert(r@ =~= grid::complement(self@)) by {
            lemma_ops(self.0, 0);
            lemma_ops(!self.0, FULL);
            lemma_consts();
        }
        r
    }
}

impl vstd::std_specs::ops::NotSpecImpl for Mask {
    open spec fn obeys_not_spec() -> bool {
        true
    }

    open spec fn not_req(self) -> bool {
        true
    }

    open spec fn not_spec(self) -> Mask {
        Mask::raw(!self.bits() & 0x1ff_ffff_ffff_ffff_ffff_ffff_ffff_ffff)
    }
}

impl core::ops::BitAndAssign for Mask {
    fn bitand_assign(&mut self, rhs: Mask)
        ensures
            final(self)@ == old(self)@.intersect(rhs@),
    {
        *self = *self & rhs;
    }
}

impl core::ops::BitOrAssign for Mask {
    fn bitor_assign(&mut self, rhs: Mask)
        ensures
            final(self)@ == old(self)@.union(rhs@),
    {
        *self = *self | rhs;
    }
}

/// What is left of a set while its connected components are taken out.
pub struct Clusters {
    rest: Mask,
}

impl View for Clusters {
    type V = Set<int>;

    /// The cells that no component handed out so far holds.
    closed spec fn view(&self) -> Set<int> {
        self.rest@
    }
}

impl Clusters {
    /// Takes out the component of the least cell left, if a cell is left.
    pub fn next(&mut self) -> (r: Option<Mask>)
        ensures
            old(self)@.subset_of(grid::board()),
            match r {
                None => old(self)@ == Set::<int>::empty() && final(self)@ == old(self)@
                    && grid::components(old(self)@) == Seq::<Set<int>>::empty(),
                Some(c) => old(self)@ != Set::<int>::empty() && c@ == grid::component(
                    old(self)@,
                    grid::least(old(self)@),
                ) && final(self)@ == old(self)@.difference(c@) && grid::components(old(self)@).len()
                    > 0 && c@ == grid::components(old(self)@)[0] && grid::components(final(self)@)
                    == grid::components(old(self)@).skip(1) && final(self)@.len() < old(
                    self,
                )@.len(),
            },
    {
        let rest = self.rest;
        proof {
            grid::lemma_components_unfold(rest@);
        }
        if rest.is_empty() {
            return None;
        }
        let low = rest.lowest();
        let mut cluster = Mask::cell_idx(low);
        proof {
            grid::lemma_connected_refl(rest@, low as int);
        }
        loop
            invariant
                rest == old(self).rest,
                self.rest == rest,
                rest@.subset_of(grid::board()),
                low == grid::least(rest@),
                cluster@.subset_of(rest@),
                cluster@.contains(low as int),
                forall|b: int| cluster@.contains(b) ==> grid::connected(rest@, low as int, b),
            decreases 121 - cluster@.len(),
        {
            let next = cluster | (cluster.neighbors() & rest);
            proof {
                grid::lemma_flood_step(rest@, low as int, cluster@, next@);
            }
            if next == cluster {
                proof {
                    grid::lemma_components_unfold(rest@);
                    grid::lemma_component_shrinks(rest@);
                }
                let left = rest & cluster.not();
                self.rest = left;
                return Some(cluster);
            }
            proof {
                use_type_invariant(&next);
                use_type_invariant(&cluster);
                if next@ == cluster@ {
                    next.lemma_view_injective(cluster);
                }
            }
            cluster = next;
        }
    }
}

/// What is left of a set while its cells are taken out in ascending order.
pub struct Cells {
    rest: Mask,
}

impl View for Cells {
    type V = Set<int>;

    /// The cells not handed out so far.
    closed spec fn view(&self) -> Set<int> {
        self.rest@
    }
}

impl Cells {
    /// Takes out the least cell left, if a cell is left.
    pub fn next(&mut self) -> (r: Option<u8>)
        ensures
            old(self)@.subset_of(grid::board()),
            match r {
                None => old(self)@ == Set::<int>::empty() && final(self)@ == old(self)@,
                Some(i) => old(self)@.contains(i as int) && i == grid::least(old(self)@)
                    && final(self)@ == old(self)@.remove(i as int) && i < 121,
            },
    {
        let rest = self.rest;
        if rest.is_empty() {
            return None;
        }
        let low = rest.lowest();
        let left = rest & Mask::cell_idx(low).not();
        self.rest = left;
        Some(low)
    }
}

/// The placements of a pattern inside a set that are still to come.
pub struct SubMasks {
    mask: Mask,
    next_pattern: Mask,
    next_line: Mask,
    pattern: Ghost<Set<int>>,
    dx: Ghost<int>,
    dy: Ghost<int>,
}

impl View for SubMasks {
    type V = Seq<Set<int>>;

    /// The placements not handed out so far, in the order in which they come.
    closed spec fn view(&self) -> Seq<Set<int>> {
        grid::sub_masks_from(self.mask@, self.pattern@, self.dx@, self.dy@)
    }
}

impl SubMasks {
    #[verifier::type_invariant]
    closed spec fn wf(self) -> bool {
        let p = self.pattern@;
        &&& p.subset_of(grid::board())
        &&& 0 <= self.dx@
        &&& 0 <= self.dy@
        &&& if self.next_pattern@ == Set::<int>::empty() {
            p == Set::<int>::empty() || self.dy@ > 10
        } else {
            &&& p != Set::<int>::empty()
            &&& grid::fits(p, self.dx@, self.dy@)
            &&& self.next_pattern@ == grid::translated(p, self.dx@, self.dy@)
            &&& self.next_line@ == Self::line(p, self.dy@ + 1)
        }
    }

    /// `p` at the start of row `dy`, where it fits there.
    spec fn line(p: Set<int>, dy: int) -> Set<int> {
        if p != Set::<int>::empty() && grid::fits(p, 0, dy) {
            grid::translated(p, 0, dy)
        } else {
            Set::empty()
        }
    }

    fn new(mask: Mask, line: Mask, Ghost(p): Ghost<Set<int>>, Ghost(dy): Ghost<int>) -> (r: Self)
        requires
            p.subset_of(grid::board()),
            0 <= dy <= 11,
            line@ == Self::line(p, dy),
        ensures
            r@ == grid::sub_masks_from(mask@, p, 0, dy),
            r.mask == mask,
            r.pattern@ == p,
            r.dx@ == 0,
            dy <= r.dy@ <= 11,
    {
        let last_row = line & Mask::row(10);
        let next_line = if last_row.is_empty() {
            line.shift_down()
        } else {
            Mask::empty()
        };
        let ghost at: int = if line@ == Set::<int>::empty() {
            11
        } else {
            dy
        };
        proof {
            if line@ != Set::<int>::empty() {
                grid::lemma_translated_edge(p, 0, dy);
                grid::lemma_translated_shift(p, 0, dy);
                if last_row@ == Set::<int>::empty() {
                    assert(line@.disjoint(grid::row(10))) by {
                        assert forall|j: int| line@.contains(j) implies !grid::row(10).contains(
                            j,
                        ) by {
                            assert(!last_row@.contains(j));
                        }
                    }
                } else {
                    if line@.disjoint(grid::row(10)) {
                        assert(last_row@ =~= Set::<int>::empty());
                    }
                }
            } else if p != Set::<int>::empty() && grid::fits(p, 0, dy) {
                grid::lemma_translated_edge(p, 0, dy);
            }
        }
        SubMasks { mask, next_pattern: line, next_line, pattern: Ghost(p), dx: Ghost(0), dy: Ghost(at) }
    }

    /// Moves on to the placement that is tried next.
    fn shift_pattern(&mut self)
        requires
            old(self).next_pattern@ != Set::<int>::empty(),
        ensures
            old(self)@ == (if old(self).next_pattern@.subset_of(old(self).mask@) {
                seq![old(self).next_pattern@]
            } else {
                Seq::empty()
            }) + final(self)@,
            final(self).mask == old(self).mask,
            final(self).dy@ > old(self).dy@ || (final(self).dy@ == old(self).dy@ && final(self).dx@
                > old(self).dx@),
            old(self).dy@ <= 10,
            old(self).dx@ <= 10,
            final(self).dy@ <= 11,
            final(self).dx@ <= 10,
    {
        proof {
            use_type_invariant(&*self);
            grid::lemma_sub_masks_unfold(self.mask@, self.pattern@, self.dx@, self.dy@);
            grid::lemma_translated_edge(self.pattern@, self.dx@, self.dy@);
            grid::lemma_translated_shift(self.pattern@, self.dx@, self.dy@);
        }
        let last_column = self.next_pattern & Mask::column(10);
        if last_column.is_empty() {
            proof {
                assert(self.next_pattern@.disjoint(grid::column(10))) by {
                    assert forall|j: int| self.next_pattern@.contains(j) implies !grid::column(
                        10,
                    ).contains(j) by {
                        assert(!last_column@.contains(j));
                    }
                }
                grid::lemma_translated_edge(self.pattern@, self.dx@ + 1, self.dy@);
            }
            *self = SubMasks {
                mask: self.mask,
                next_pattern: self.next_pattern.shift_right(),
                next_line: self.next_line,
                pattern: self.pattern,
                dx: Ghost(self.dx@ + 1),
                dy: self.dy,
            };
        } else {
            proof {
                if self.next_pattern@.disjoint(grid::column(10)) {
                    assert(last_column@ =~= Set::<int>::empty());
                }
            }
            *self = Self::new(self.mask, self.next_line, self.pattern, Ghost(self.dy@ + 1));
        }
    }

    /// Hands out the next placement, if one is left.
    pub fn next(&mut self) -> (r: Option<Mask>)
        ensures
            match r {
                None => old(self)@ == Seq::<Set<int>>::empty() && final(self)@ == old(self)@,
                Some(t) => old(self)@.len() > 0 && t@ == old(self)@[0] && final(self)@ == old(
                    self,
                )@.skip(1),
            },
    {
        loop
            invariant
                self@ == old(self)@,
            decreases 11 - self.dy@, 11 - self.dx@,
        {
            proof {
                use_type_invariant(&*self);
            }
            let t = self.next_pattern;
            if t.is_empty() {
                return None;
            }
            let inside = self.mask.contains(t);
            self.shift_pattern();
            if inside {
                return Some(t);
            }
        }
    }
}

} // verus!
