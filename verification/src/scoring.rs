//! The edicts: what a board is worth.
use vstd::prelude::*;
use crate::grid;
use crate::mask::Mask;
use crate::search::GameState;


verus! {

/// What a scoring rule gives.
pub type Score = i32;

/// The cells of a board by what lies on them.
pub struct Regions {
    pub forest: Set<int>,
    pub village: Set<int>,
    pub farm: Set<int>,
    pub water: Set<int>,
    pub monster: Set<int>,
    pub mountain: Set<int>,
    pub wasteland: Set<int>,
    pub ruin: Set<int>,
}

/// How many `i` from 0 up to, not including, `n` satisfy `pred`.
pub open spec fn count_upto(n: int, pred: spec_fn(int) -> bool) -> int
    decreases n,
{
    if n <= 0 {
        0
    } else {
        count_upto(n - 1, pred) + if pred(n - 1) {
            1int
        } else {
            0int
        }
    }
}

/// How many of the sets satisfy `pred`.
pub open spec fn count_where(list: Seq<Set<int>>, pred: spec_fn(Set<int>) -> bool) -> int
    decreases list.len(),
{
    if list.len() == 0 {
        0
    } else {
        count_where(list.drop_last(), pred) + if pred(list.last()) {
            1int
        } else {
            0int
        }
    }
}

/// The size of the largest of the sets that satisfy `pred`; 0 where none does.
pub open spec fn largest_where(list: Seq<Set<int>>, pred: spec_fn(Set<int>) -> bool) -> int
    decreases list.len(),
{
    if list.len() == 0 {
        0
    } else {
        let before = largest_where(list.drop_last(), pred);
        if pred(list.last()) && list.last().len() > before {
            list.last().len() as int
        } else {
            before
        }
    }
}

/// The sizes of the largest and of the second largest of the sets; 0 where
/// there is none. Two sets of the largest size take both places.
pub open spec fn top_two(list: Seq<Set<int>>) -> (int, int)
    decreases list.len(),
{
    if list.len() == 0 {
        (0, 0)
    } else {
        let (first, second) = top_two(list.drop_last());
        let size = list.last().len() as int;
        if size > first {
            (size, first)
        } else if size > second {
            (first, size)
        } else {
            (first, second)
        }
    }
}

/// The cells of `target` next to those of the sets that have at least two of
/// them next to them.
pub open spec fn flanked(list: Seq<Set<int>>, target: Set<int>) -> Set<int>
    decreases list.len(),
{
    if list.len() == 0 {
        Set::empty()
    } else {
        let beside = target.intersect(grid::neighbors(list.last()));
        if beside.len() > 1 {
            flanked(list.drop_last(), target) + beside
        } else {
            flanked(list.drop_last(), target)
        }
    }
}

/// The cells `(x, 10 - k + x)` for `x` from 0 to `k`: the diagonal that runs
/// from the left edge, `k` rows above the bottom left corner, down to the
/// bottom edge.
pub open spec fn diagonal(k: int) -> Set<int> {
    Set::new(|c: int| 0 <= c < 121 && c % 11 <= k && c / 11 == 10 - k + c % 11)
}

/// The square of `s` by `s` cells in the top left corner.
pub open spec fn square(s: int) -> Set<int> {
    Set::new(|c: int| 0 <= c < 121 && c % 11 < s && c / 11 < s)
}

/// Whether a square of `s` by `s` cells lies somewhere inside `filled`.
pub open spec fn has_square(filled: Set<int>, s: int) -> bool {
    exists|dx: int, dy: int|
        0 <= dx && 0 <= dy && grid::fits(square(s), dx, dy) && (#[trigger] grid::translated(
            square(s),
            dx,
            dy,
        )).subset_of(filled)
}

/// The side of the largest square, of at most `s` by `s` cells, that lies
/// inside `filled`; 0 where not even one cell does.
pub open spec fn largest_square(filled: Set<int>, s: int) -> int
    decreases s,
{
    if s <= 0 {
        0
    } else if has_square(filled, s) {
        s
    } else {
        largest_square(filled, s - 1)
    }
}

/// The sixteen edicts.
#[derive(Clone, Copy, PartialEq, Eq, Debug, Structural)]
pub enum Edict {
    StonesideForest,
    SentinelWood,
    Treetower,
    Greenbough,
    MageValley,
    CanalLake,
    ShoresideExpanse,
    TheGoldenGranary,
    GreengoldPlains,
    Shieldgate,
    Wildholds,
    GreatCity,
    Borderlands,
    TheCauldrons,
    TheBrokenRoad,
    LostBarony,
}

impl Regions {
    /// The cells that hold something. A ruin alone does not fill a cell.
    pub open spec fn filled(self) -> Set<int> {
        self.forest + self.village + self.farm + self.water + self.monster + self.mountain
            + self.wasteland
    }

    /// The cells that hold nothing.
    pub open spec fn empty(self) -> Set<int> {
        grid::complement(self.filled())
    }

    /// The mountains with no empty cell beside them.
    pub open spec fn mountain_gold(self) -> int {
        self.mountain.difference(grid::neighbors(self.empty())).len() as int
    }

    /// Minus the empty cells beside a monster.
    pub open spec fn monsters(self) -> int {
        -(self.empty().intersect(grid::neighbors(self.monster)).len() as int)
    }

    /// The forest cells on the border.
    pub open spec fn sentinel_wood(self) -> int {
        self.forest.intersect(grid::border()).len() as int
    }

    /// The forest cells with no empty cell beside them.
    pub open spec fn treetower(self) -> int {
        self.forest.difference(grid::neighbors(self.empty())).len() as int
    }

    /// The columns with a forest cell, plus the rows with one.
    pub open spec fn greenbough(self) -> int {
        count_upto(11, |i: int| !self.forest.disjoint(grid::column(i))) + count_upto(
            11,
            |i: int| !self.forest.disjoint(grid::row(i)),
        )
    }

    /// 3 for each mountain beside a forest that has two or more mountains
    /// beside it.
    pub open spec fn stoneside_forest(self) -> int {
        3 * (flanked(grid::components(self.forest), self.mountain).len() as int)
    }

    /// The water cells beside a farm, plus the farm cells beside water.
    pub open spec fn canal_lake(self) -> int {
        (self.water.intersect(grid::neighbors(self.farm)).len() + self.farm.intersect(
            grid::neighbors(self.water),
        ).len()) as int
    }

    /// The water cells beside a ruin, plus 3 for each farm cell on a ruin.
    pub open spec fn the_golden_granary(self) -> int {
        (self.water.intersect(grid::neighbors(self.ruin)).len() + 3 * self.farm.intersect(
            self.ruin,
        ).len()) as int
    }

    /// 2 for each water cell beside a mountain, plus the farm cells beside one.
    pub open spec fn mage_valley(self) -> int {
        (2 * self.water.intersect(grid::neighbors(self.mountain)).len() + self.farm.intersect(
            grid::neighbors(self.mountain),
        ).len()) as int
    }

    /// 3 for each farm that touches neither water nor the border, and 3 for
    /// each water that touches neither a farm nor the border.
    pub open spec fn shoreside_expanse(self) -> int {
        3 * count_where(
            grid::components(self.farm),
            |c: Set<int>| c.disjoint(grid::neighbors(self.water) + grid::border()),
        ) + 3 * count_where(
            grid::components(self.water),
            |c: Set<int>| c.disjoint(grid::neighbors(self.farm) + grid::border()),
        )
    }

    /// 8 for each village of six or more cells.
    pub open spec fn wildholds(self) -> int {
        8 * count_where(grid::components(self.village), |c: Set<int>| c.len() >= 6)
    }

    /// How many of forest, farm, water, monster and mountain lie beside `c`.
    pub open spec fn kinds_beside(self, c: Set<int>) -> int {
        (if c.disjoint(grid::neighbors(self.forest)) {
            0int
        } else {
            1int
        }) + (if c.disjoint(grid::neighbors(self.farm)) {
            0int
        } else {
            1int
        }) + (if c.disjoint(grid::neighbors(self.water)) {
            0int
        } else {
            1int
        }) + (if c.disjoint(grid::neighbors(self.monster)) {
            0int
        } else {
            1int
        }) + (if c.disjoint(grid::neighbors(self.mountain)) {
            0int
        } else {
            1int
        })
    }

    /// 3 for each village with three or more other kinds of terrain beside it.
    pub open spec fn greengold_plains(self) -> int {
        3 * count_where(grid::components(self.village), |c: Set<int>| self.kinds_beside(c) >= 3)
    }

    /// The size of the largest village with no mountain beside it.
    pub open spec fn great_city(self) -> int {
        largest_where(
            grid::components(self.village),
            |c: Set<int>| c.disjoint(grid::neighbors(self.mountain)),
        )
    }

    /// The size of the second largest village.
    pub open spec fn shieldgate(self) -> int {
        top_two(grid::components(self.village)).1
    }

    /// 6 for each filled column and 6 for each filled row.
    pub open spec fn borderlands(self) -> int {
        6 * (count_upto(11, |i: int| grid::column(i).subset_of(self.filled())) + count_upto(
            11,
            |i: int| grid::row(i).subset_of(self.filled()),
        ))
    }

    /// 3 for each filled diagonal that runs from the left edge to the bottom
    /// edge.
    pub open spec fn the_broken_road(self) -> int {
        3 * count_upto(11, |k: int| diagonal(k).subset_of(self.filled()))
    }

    /// 3 for each cell along one side of the largest filled square.
    pub open spec fn lost_barony(self) -> int {
        3 * largest_square(self.filled(), 11)
    }

    /// The empty cells with no empty cell beside them.
    pub open spec fn the_cauldrons(self) -> int {
        self.empty().difference(grid::neighbors(self.empty())).len() as int
    }

    /// What `edict` gives for the board.
    pub open spec fn edict(self, edict: Edict) -> int {
        match edict {
            Edict::StonesideForest => self.stoneside_forest(),
            Edict::SentinelWood => self.sentinel_wood(),
            Edict::Treetower => self.treetower(),
            Edict::Greenbough => self.greenbough(),
            Edict::MageValley => self.mage_valley(),
            Edict::CanalLake => self.canal_lake(),
            Edict::ShoresideExpanse => self.shoreside_expanse(),
            Edict::TheGoldenGranary => self.the_golden_granary(),
            Edict::GreengoldPlains => self.greengold_plains(),
            Edict::Shieldgate => self.shieldgate(),
            Edict::Wildholds => self.wildholds(),
            Edict::GreatCity => self.great_city(),
            Edict::Borderlands => self.borderlands(),
            Edict::TheCauldrons => self.the_cauldrons(),
            Edict::TheBrokenRoad => self.the_broken_road(),
            Edict::LostBarony => self.lost_barony(),
        }
    }
}

/// A board that can be scored.
pub trait Board {
    /// The cells by what lies on them.
    spec fn regions(&self) -> Regions;

    fn filled(&self) -> (m: Mask)
        ensures
            m@ == self.regions().filled(),
    ;

    fn empty(&self) -> (m: Mask)
        ensures
            m@ == self.regions().empty(),
    ;

    fn forest(&self) -> (m: Mask)
        ensures
            m@ == self.regions().forest,
    ;

    fn village(&self) -> (m: Mask)
        ensures
            m@ == self.regions().village,
    ;

    fn farm(&self) -> (m: Mask)
        ensures
            m@ == self.regions().farm,
    ;

    fn water(&self) -> (m: Mask)
        ensures
            m@ == self.regions().water,
    ;

    fn monster(&self) -> (m: Mask)
        ensures
            m@ == self.regions().monster,
    ;

    fn mountain(&self) -> (m: Mask)
        ensures
            m@ == self.regions().mountain,
    ;

    fn wasteland(&self) -> (m: Mask)
        ensures
            m@ == self.regions().wasteland,
    ;

    fn ruin(&self) -> (m: Mask)
        ensures
            m@ == self.regions().ruin,
    ;
}


/// The gold of the mountains: one for each mountain with no empty cell beside it.
pub fn mountain_gold(b: &GameState) -> (r: Score)
    ensures
        r == b.regions().mountain_gold(),
        0 <= r <= 121,
{
    b.mountain().touches_not(b.empty()).count_cells()
}

/// The loss to monsters: one for each empty cell beside a monster.
pub fn monsters(b: &GameState) -> (r: Score)
    ensures
        r == b.regions().monsters(),
        -121 <= r <= 0,
{
    -b.empty().touches(b.monster()).count_cells()
}

/// One for each forest cell on the border.
pub fn sentinel_wood(b: &GameState) -> (r: Score)
    ensures
        r == b.regions().sentinel_wood(),
        0 <= r <= 121,
{
    (b.forest() & Mask::border()).count_cells()
}

/// One for each forest cell with no empty cell beside it.
pub fn treetower(b: &GameState) -> (r: Score)
    ensures
        r == b.regions().treetower(),
        0 <= r <= 121,
{
    b.forest().touches_not(b.empty()).count_cells()
}

/// One for each water cell beside a farm, and for each farm cell beside water.
pub fn canal_lake(b: &GameState) -> (r: Score)
    ensures
        r == b.regions().canal_lake(),
        0 <= r <= 242,
{
    b.water().touches(b.farm()).count_cells() + b.farm().touches(b.water()).count_cells()
}

/// One for each water cell beside a ruin, 3 for each farm cell on a ruin.
pub fn the_golden_granary(b: &GameState) -> (r: Score)
    ensures
        r == b.regions().the_golden_granary(),
        0 <= r <= 484,
{
    b.water().touches(b.ruin()).count_cells() + (b.farm() & b.ruin()).count_cells() * 3
}

/// 2 for each water cell beside a mountain, 1 for each farm cell beside one.
pub fn mage_valley(b: &GameState) -> (r: Score)
    ensures
        r == b.regions().mage_valley(),
        0 <= r <= 363,
{
    b.water().touches(b.mountain()).count_cells() * 2 + b.farm().touches(
        b.mountain(),
    ).count_cells()
}

/// One for each empty cell with no empty cell beside it.
pub fn the_cauldrons(b: &GameState) -> (r: Score)
    ensures
        r == b.regions().the_cauldrons(),
        0 <= r <= 121,
{
    b.empty().touches_not(b.empty()).count_cells()
}

/// One more set of `all` has been looked at.
proof fn lemma_next_set(
    all: Seq<Set<int>>,
    k: int,
    before: Seq<Set<int>>,
    after: Seq<Set<int>>,
)
    requires
        0 <= k <= all.len(),
        before == all.skip(k),
        before.len() > 0,
        after == before.skip(1),
    ensures
        k < all.len(),
        before[0] == all[k],
        after == all.skip(k + 1),
        all.take(k + 1).drop_last() == all.take(k),
        all.take(k + 1).last() == all[k],
        all.take(k + 1).len() == k + 1,
{
}

/// All sets of `all` have been looked at.
proof fn lemma_no_set_left(all: Seq<Set<int>>, k: int)
    requires
        0 <= k <= all.len(),
        all.skip(k) == Seq::<Set<int>>::empty(),
    ensures
        k == all.len(),
        all.take(k) == all,
{
    assert(all.skip(k).len() == 0);
}

/// One for each column and for each row with a forest cell.
pub fn greenbough(b: &GameState) -> (r: Score)
    ensures
        r == b.regions().greenbough(),
        0 <= r <= 22,
{
    let forest = b.forest();
    let ghost columns = |i: int| !b.regions().forest.disjoint(grid::column(i));
    let ghost rows = |i: int| !b.regions().forest.disjoint(grid::row(i));
    let mut score: i32 = 0;
    let mut i: u8 = 0;
    while i < 11
        invariant
            i <= 11,
            forest@ == b.regions().forest,
            columns == |i: int| !b.regions().forest.disjoint(grid::column(i)),
            rows == |i: int| !b.regions().forest.disjoint(grid::row(i)),
            score == count_upto(i as int, columns) + count_upto(i as int, rows),
            0 <= score <= 2 * i,
        decreases 11 - i,
    {
        proof {
            grid::lemma_disjoint(forest@, grid::column(i as int));
            grid::lemma_disjoint(forest@, grid::row(i as int));
        }
        if (forest & Mask::column(i)).has_cells() {
            score += 1;
        }
        if (forest & Mask::row(i)).has_cells() {
            score += 1;
        }
        i += 1;
    }
    score
}

/// 6 for each filled column and for each filled row.
pub fn borderlands(b: &GameState) -> (r: Score)
    ensures
        r == b.regions().borderlands(),
        0 <= r <= 132,
{
    let filled = b.filled();
    let ghost columns = |i: int| grid::column(i).subset_of(b.regions().filled());
    let ghost rows = |i: int| grid::row(i).subset_of(b.regions().filled());
    let mut score: i32 = 0;
    let mut i: u8 = 0;
    while i < 11
        invariant
            i <= 11,
            filled@ == b.regions().filled(),
            columns == |i: int| grid::column(i).subset_of(b.regions().filled()),
            rows == |i: int| grid::row(i).subset_of(b.regions().filled()),
            score == 6 * (count_upto(i as int, columns) + count_upto(i as int, rows)),
            0 <= score <= 12 * i,
        decreases 11 - i,
    {
        if filled.contains(Mask::column(i)) {
            score += 6;
        }
        if filled.contains(Mask::row(i)) {
            score += 6;
        }
        i += 1;
    }
    score
}

/// A diagonal is the one before it, moved up, and one more cell of the bottom
/// row.
proof fn lemma_diagonal_step(k: int)
    requires
        0 <= k <= 10,
    ensures
        grid::shifted_up(diagonal(k - 1)) + set![grid::index_of(k, 10)] == diagonal(k),
        grid::shifted_right(set![grid::index_of(k, 10)]) == (if k < 10 {
            set![grid::index_of(k + 1, 10)]
        } else {
            Set::<int>::empty()
        }),
{
}

/// 3 for each filled diagonal that runs from the left edge to the bottom edge.
pub fn the_broken_road(b: &GameState) -> (r: Score)
    ensures
        r == b.regions().the_broken_road(),
        0 <= r <= 33,
{
    let filled = b.filled();
    let ghost full = |k: int| diagonal(k).subset_of(b.regions().filled());
    let mut line = Mask::empty();
    let mut cell = Mask::cell(0, 10);
    let mut score: i32 = 0;
    let mut k: u8 = 0;
    while k < 11
        invariant
            k <= 11,
            filled@ == b.regions().filled(),
            full == |k: int| diagonal(k).subset_of(b.regions().filled()),
            line@ == grid::shifted_up(diagonal(k - 1)),
            k <= 10 ==> cell@ == set![grid::index_of(k as int, 10)],
            score == 3 * count_upto(k as int, full),
            0 <= score <= 3 * k,
        decreases 11 - k,
    {
        proof {
            lemma_diagonal_step(k as int);
        }
        line = line | cell;
        if filled.contains(line) {
            score += 3;
        }
        line = line.shift_up();
        cell = cell.shift_right();
        k += 1;
    }
    score
}

/// Moving a corner square left and up leaves the square one smaller.
proof fn lemma_square_step(s: int)
    requires
        1 <= s <= 11,
    ensures
        grid::shifted_up(grid::shifted_left(square(s))) == square(s - 1),
        square(11) == grid::board(),
        square(s).subset_of(grid::board()),
        square(s) != Set::<int>::empty(),
{
    assert(square(s).contains(0));
}

/// A single cell fits wherever a cell is filled.
proof fn lemma_unit_square(filled: Set<int>)
    requires
        filled.subset_of(grid::board()),
    ensures
        has_square(filled, 1) <==> filled != Set::<int>::empty(),
{
    if filled != Set::<int>::empty() {
        if forall|c: int| !filled.contains(c) {
            assert(filled =~= Set::<int>::empty());
        }
        let c = choose|c: int| filled.contains(c);
        assert(grid::translated(square(1), c % 11, c / 11) =~= set![c]);
    }
    if has_square(filled, 1) {
        let (dx, dy) = choose|dx: int, dy: int|
            0 <= dx && 0 <= dy && grid::fits(square(1), dx, dy) && (#[trigger] grid::translated(
                square(1),
                dx,
                dy,
            )).subset_of(filled);
        grid::lemma_translated_cell(square(1), dx, dy, 0);
    }
}

/// Whether `sub_masks` finds a place for a square says whether there is one.
proof fn lemma_square_found(filled: Set<int>, s: int)
    requires
        filled.subset_of(grid::board()),
        1 <= s <= 11,
    ensures
        has_square(filled, s) <==> grid::sub_masks(filled, square(s)).len() > 0,
{
    lemma_square_step(s);
    grid::law_sub_masks(filled, square(s));
    let found = grid::sub_masks(filled, square(s));
    if found.len() > 0 {
        assert(grid::placed_after(filled, square(s), found[0], 0, 0));
    }
}

/// 3 for each cell along one side of the largest filled square.
pub fn lost_barony(b: &GameState) -> (r: Score)
    ensures
        r == b.regions().lost_barony(),
        0 <= r <= 33,
{
    let filled = b.filled();
    let mut pattern = Mask::full();
    let mut size: u8 = 11;
    proof {
        lemma_square_step(11);
    }
    while size >= 2
        invariant
            1 <= size <= 11,
            filled@ == b.regions().filled(),
            pattern@ == square(size as int),
            largest_square(filled@, 11) == largest_square(filled@, size as int),
        decreases size,
    {
        proof {
            lemma_square_found(filled@, size as int);
            lemma_square_step(size as int);
        }
        let mut places = filled.sub_masks(pattern);
        match places.next() {
            Some(_) => {
                return size as i32 * 3;
            },
            None => {},
        }
        pattern = pattern.shift_left().shift_up();
        size -= 1;
    }
    proof {
        lemma_unit_square(filled@);
        assert(largest_square(filled@, 0) == 0);
    }
    if filled.is_empty() {
        0
    } else {
        3
    }
}

/// 8 for each village of six or more cells.
pub fn wildholds(b: &GameState) -> (r: Score)
    ensures
        r == b.regions().wildholds(),
        0 <= r <= 968,
{
    let village = b.village();
    let ghost all = grid::components(village@);
    let ghost large = |c: Set<int>| c.len() >= 6;
    let mut count: i32 = 0;
    let mut clusters = village.clusters();
    let ghost mut k: int = 0;
    proof {
        grid::lemma_region_len(village@);
    }
    loop
        invariant
            0 <= k <= all.len(),
            large == |c: Set<int>| c.len() >= 6,
            grid::components(clusters@) == all.skip(k),
            count == count_where(all.take(k), large),
            clusters@.finite(),
            0 <= count <= 121 - clusters@.len(),
        ensures
            count == count_where(all, large),
            0 <= count <= 121,
        decreases clusters@.len(),
    {
        let ghost before = grid::components(clusters@);
        match clusters.next() {
            None => {
                proof {
                    lemma_no_set_left(all, k);
                }
                break ;
            },
            Some(c) => {
                proof {
                    lemma_next_set(all, k, before, grid::components(clusters@));
                }
                if c.count_cells() >= 6 {
                    count += 1;
                }
                proof {
                    k = k + 1;
                }
            },
        }
    }
    count * 8
}

/// 3 for each farm away from water and border, and for each water away from farms and border.
pub fn shoreside_expanse(b: &GameState) -> (r: Score)
    ensures
        r == b.regions().shoreside_expanse(),
        0 <= r <= 726,
{
    let shore = b.water().neighbors() | Mask::border();
    let farm = b.farm();
    let ghost farms = grid::components(farm@);
    let ghost inland = |c: Set<int>|
        c.disjoint(grid::neighbors(b.regions().water) + grid::border());
    let mut dry: i32 = 0;
    let mut clusters = farm.clusters();
    let ghost mut k: int = 0;
    proof {
        grid::lemma_region_len(farm@);
    }
    loop
        invariant
            0 <= k <= farms.len(),
            shore@ == grid::neighbors(b.regions().water) + grid::border(),
            inland == |c: Set<int>|
                c.disjoint(grid::neighbors(b.regions().water) + grid::border()),
            grid::components(clusters@) == farms.skip(k),
            dry == count_where(farms.take(k), inland),
            clusters@.finite(),
            0 <= dry <= 121 - clusters@.len(),
        ensures
            dry == count_where(farms, inland),
            0 <= dry <= 121,
        decreases clusters@.len(),
    {
        let ghost before = grid::components(clusters@);
        match clusters.next() {
            None => {
                proof {
                    lemma_no_set_left(farms, k);
                }
                break ;
            },
            Some(c) => {
                proof {
                    lemma_next_set(farms, k, before, grid::components(clusters@));
                    grid::lemma_disjoint(c@, shore@);
                }
                if (c & shore).is_empty() {
                    dry += 1;
                }
                proof {
                    k = k + 1;
                }
            },
        }
    }
    let fields = b.farm().neighbors() | Mask::border();
    let water = b.water();
    let ghost waters = grid::components(water@);
    let ghost apart = |c: Set<int>|
        c.disjoint(grid::neighbors(b.regions().farm) + grid::border());
    let mut wet: i32 = 0;
    let mut clusters = water.clusters();
    let ghost mut k: int = 0;
    proof {
        grid::lemma_region_len(water@);
    }
    loop
        invariant
            0 <= k <= waters.len(),
            fields@ == grid::neighbors(b.regions().farm) + grid::border(),
            apart == |c: Set<int>| c.disjoint(grid::neighbors(b.regions().farm) + grid::border()),
            grid::components(clusters@) == waters.skip(k),
            wet == count_where(waters.take(k), apart),
            clusters@.finite(),
            0 <= wet <= 121 - clusters@.len(),
        ensures
            wet == count_where(waters, apart),
            0 <= wet <= 121,
        decreases clusters@.len(),
    {
        let ghost before = grid::components(clusters@);
        match clusters.next() {
            None => {
                proof {
                    lemma_no_set_left(waters, k);
                }
                break ;
            },
            Some(c) => {
                proof {
                    lemma_next_set(waters, k, before, grid::components(clusters@));
                    grid::lemma_disjoint(c@, fields@);
                }
                if (c & fields).is_empty() {
                    wet += 1;
                }
                proof {
                    k = k + 1;
                }
            },
        }
    }
    dry * 3 + wet * 3
}

/// 3 for each village with three or more other kinds of terrain beside it.
pub fn greengold_plains(b: &GameState) -> (r: Score)
    ensures
        r == b.regions().greengold_plains(),
        0 <= r <= 363,
{
    let forest = b.forest().neighbors();
    let farm = b.farm().neighbors();
    let water = b.water().neighbors();
    let monster = b.monster().neighbors();
    let mountain = b.mountain().neighbors();
    let village = b.village();
    let ghost all = grid::components(village@);
    let ghost mixed = |c: Set<int>| b.regions().kinds_beside(c) >= 3;
    let mut count: i32 = 0;
    let mut clusters = village.clusters();
    let ghost mut k: int = 0;
    proof {
        grid::lemma_region_len(village@);
    }
    loop
        invariant
            0 <= k <= all.len(),
            forest@ == grid::neighbors(b.regions().forest),
            farm@ == grid::neighbors(b.regions().farm),
            water@ == grid::neighbors(b.regions().water),
            monster@ == grid::neighbors(b.regions().monster),
            mountain@ == grid::neighbors(b.regions().mountain),
            mixed == |c: Set<int>| b.regions().kinds_beside(c) >= 3,
            grid::components(clusters@) == all.skip(k),
            count == count_where(all.take(k), mixed),
            clusters@.finite(),
            0 <= count <= 121 - clusters@.len(),
        ensures
            count == count_where(all, mixed),
            0 <= count <= 121,
        decreases clusters@.len(),
    {
        let ghost before = grid::components(clusters@);
        match clusters.next() {
            None => {
                proof {
                    lemma_no_set_left(all, k);
                }
                break ;
            },
            Some(c) => {
                proof {
                    lemma_next_set(all, k, before, grid::components(clusters@));
                    grid::lemma_disjoint(c@, forest@);
                    grid::lemma_disjoint(c@, farm@);
                    grid::lemma_disjoint(c@, water@);
                    grid::lemma_disjoint(c@, monster@);
                    grid::lemma_disjoint(c@, mountain@);
                }
                let mut kinds: i32 = 0;
                if (c & forest).has_cells() {
                    kinds += 1;
                }
                if (c & farm).has_cells() {
                    kinds += 1;
                }
                if (c & water).has_cells() {
                    kinds += 1;
                }
                if (c & monster).has_cells() {
                    kinds += 1;
                }
                if (c & mountain).has_cells() {
                    kinds += 1;
                }
                if kinds >= 3 {
                    count += 1;
                }
                proof {
                    k = k + 1;
                }
            },
        }
    }
    count * 3
}

/// The size of the largest village with no mountain beside it.
pub fn great_city(b: &GameState) -> (r: Score)
    ensures
        r == b.regions().great_city(),
        0 <= r <= 121,
{
    let foothills = b.mountain().neighbors();
    let village = b.village();
    let ghost all = grid::components(village@);
    let ghost free = |c: Set<int>| c.disjoint(grid::neighbors(b.regions().mountain));
    let mut best: i32 = 0;
    let mut clusters = village.clusters();
    let ghost mut k: int = 0;
    loop
        invariant
            0 <= k <= all.len(),
            foothills@ == grid::neighbors(b.regions().mountain),
            free == |c: Set<int>| c.disjoint(grid::neighbors(b.regions().mountain)),
            grid::components(clusters@) == all.skip(k),
            best == largest_where(all.take(k), free),
            0 <= best <= 121,
        ensures
            best == largest_where(all, free),
            0 <= best <= 121,
        decreases clusters@.len(),
    {
        let ghost before = grid::components(clusters@);
        match clusters.next() {
            None => {
                proof {
                    lemma_no_set_left(all, k);
                }
                break ;
            },
            Some(c) => {
                proof {
                    lemma_next_set(all, k, before, grid::components(clusters@));
                    grid::lemma_disjoint(c@, foothills@);
                }
                if (c & foothills).is_empty() {
                    let size = c.count_cells();
                    if size > best {
                        best = size;
                    }
                }
                proof {
                    k = k + 1;
                }
            },
        }
    }
    best
}

/// The size of the second largest village.
pub fn shieldgate(b: &GameState) -> (r: Score)
    ensures
        r == b.regions().shieldgate(),
        0 <= r <= 121,
{
    let village = b.village();
    let ghost all = grid::components(village@);
    let mut max1: i32 = 0;
    let mut max2: i32 = 0;
    let mut clusters = village.clusters();
    let ghost mut k: int = 0;
    loop
        invariant
            0 <= k <= all.len(),
            grid::components(clusters@) == all.skip(k),
            (max1 as int, max2 as int) == top_two(all.take(k)),
            0 <= max2 <= max1 <= 121,
        ensures
            (max1 as int, max2 as int) == top_two(all),
            0 <= max2 <= 121,
        decreases clusters@.len(),
    {
        let ghost before = grid::components(clusters@);
        match clusters.next() {
            None => {
                proof {
                    lemma_no_set_left(all, k);
                }
                break ;
            },
            Some(c) => {
                proof {
                    lemma_next_set(all, k, before, grid::components(clusters@));
                }
                let size = c.count_cells();
                if size > max1 {
                    max2 = max1;
                    max1 = size;
                } else if size > max2 {
                    max2 = size;
                }
                proof {
                    k = k + 1;
                }
            },
        }
    }
    max2
}

/// 3 for each mountain beside a forest that has two or more mountains beside it.
pub fn stoneside_forest(b: &GameState) -> (r: Score)
    ensures
        r == b.regions().stoneside_forest(),
        0 <= r <= 363,
{
    let mountain = b.mountain();
    let forest = b.forest();
    let ghost all = grid::components(forest@);
    let mut found = Mask::empty();
    let mut clusters = forest.clusters();
    let ghost mut k: int = 0;
    loop
        invariant
            0 <= k <= all.len(),
            mountain@ == b.regions().mountain,
            grid::components(clusters@) == all.skip(k),
            found@ == flanked(all.take(k), mountain@),
        ensures
            found@ == flanked(all, mountain@),
        decreases clusters@.len(),
    {
        let ghost before = grid::components(clusters@);
        match clusters.next() {
            None => {
                proof {
                    lemma_no_set_left(all, k);
                }
                break ;
            },
            Some(c) => {
                proof {
                    lemma_next_set(all, k, before, grid::components(clusters@));
                }
                let beside = mountain.touches(c);
                if beside.count_cells() > 1 {
                    found = found | beside;
                }
                proof {
                    k = k + 1;
                }
            },
        }
    }
    found.count_cells() * 3
}

/// What `edict` gives for the board.
pub fn score_edict(edict: Edict, b: &GameState) -> (r: Score)
    ensures
        r == b.regions().edict(edict),
        -1000 <= r <= 1000,
{
    match edict {
        Edict::StonesideForest => stoneside_forest(b),
        Edict::SentinelWood => sentinel_wood(b),
        Edict::Treetower => treetower(b),
        Edict::Greenbough => greenbough(b),
        Edict::MageValley => mage_valley(b),
        Edict::CanalLake => canal_lake(b),
        Edict::ShoresideExpanse => shoreside_expanse(b),
        Edict::TheGoldenGranary => the_golden_granary(b),
        Edict::GreengoldPlains => greengold_plains(b),
        Edict::Shieldgate => shieldgate(b),
        Edict::Wildholds => wildholds(b),
        Edict::GreatCity => great_city(b),
        Edict::Borderlands => borderlands(b),
        Edict::TheCauldrons => the_cauldrons(b),
        Edict::TheBrokenRoad => the_broken_road(b),
        Edict::LostBarony => lost_barony(b),
    }
}

} // verus!
