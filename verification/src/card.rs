//! The exploration and monster cards, and how a card's shapes are laid out.
use vstd::prelude::*;
use vstd::string::StrSliceExecFns;
use crate::game::PlayerTerrain;
use crate::mask::Mask;

verus! {

/// The shape that rows of characters draw: `'x'` is a filled cell, anything
/// else an empty one. The result is read as `shape[y][x]`.
pub open spec fn shape_of(rows: Seq<Seq<char>>) -> Seq<Seq<bool>> {
    Seq::new(rows.len(), |y: int| Seq::new(rows[y].len(), |x: int| rows[y][x] == 'x'))
}

/// Whether a shape has at least one row, at least one column, at most 11 of
/// each, and rows of one length.
pub open spec fn is_rect(g: Seq<Seq<bool>>) -> bool {
    &&& 0 < g.len() <= 11
    &&& 0 < g[0].len() <= 11
    &&& forall|y: int| 0 <= y < g.len() ==> (#[trigger] g[y]).len() == g[0].len()
}

/// The shape turned by a quarter: column `i` of `g`, read from the bottom,
/// becomes row `i`.
pub open spec fn rotated(g: Seq<Seq<bool>>) -> Seq<Seq<bool>> {
    Seq::new(g[0].len(), |i: int| Seq::new(g.len(), |j: int| g[g.len() - 1 - j][i]))
}

/// The shape with each row read backwards.
pub open spec fn mirrored(g: Seq<Seq<bool>>) -> Seq<Seq<bool>> {
    Seq::new(g.len(), |y: int| Seq::new(g[y].len(), |x: int| g[y][g[y].len() - 1 - x]))
}

/// The cells of the board that a shape fills when its corner `[0][0]` lies on
/// cell 0.
pub open spec fn shape_cells(g: Seq<Seq<bool>>) -> Set<int> {
    Set::new(
        |c: int| 0 <= c < 121 && c / 11 < g.len() && c % 11 < g[c / 11].len() && g[c / 11][c % 11],
    )
}

/// A shape in its eight positions: four quarter turns, and four of its mirror
/// image.
pub open spec fn images(g: Seq<Seq<bool>>) -> Seq<Set<int>> {
    let m = mirrored(g);
    seq![
        shape_cells(g),
        shape_cells(rotated(g)),
        shape_cells(rotated(rotated(g))),
        shape_cells(rotated(rotated(rotated(g)))),
        shape_cells(m),
        shape_cells(rotated(m)),
        shape_cells(rotated(rotated(m))),
        shape_cells(rotated(rotated(rotated(m)))),
    ]
}

/// Whether the masks ascend strictly by their bit patterns.
pub open spec fn ascends(list: Seq<Mask>) -> bool {
    forall|k: int, n: int| 0 <= k < n < list.len() ==> list[k].bits() < list[n].bits()
}

/// Whether one of the masks of `list` holds exactly the cells `s`.
pub open spec fn shows(list: Seq<(Mask, i16)>, s: Set<int>) -> bool {
    exists|k: int| 0 <= k < list.len() && (#[trigger] list[k]).0@ == s
}

/// Whether `fresh` is what a shape adds to a card: each of the eight positions
/// of the shape once, in ascending order of the bit patterns, each with the
/// gold that the shape is worth.
pub open spec fn is_expansion(g: Seq<Seq<bool>>, gold: i16, fresh: Seq<(Mask, i16)>) -> bool {
    &&& forall|k: int|
        0 <= k < fresh.len() ==> (#[trigger] fresh[k]).1 == gold && fresh[k].0.wf() && images(
            g,
        ).contains(fresh[k].0@)
    &&& forall|k: int, n: int| 0 <= k < n < fresh.len() ==> fresh[k].0.bits() < fresh[n].0.bits()
    &&& forall|j: int| 0 <= j < 8 ==> shows(fresh, #[trigger] images(g)[j])
}

/// Whether `patterns` is what the shapes drawn by `sources` add up to, one
/// after the other.
pub open spec fn built_from(
    patterns: Seq<(Mask, i16)>,
    sources: Seq<(Seq<Seq<char>>, i16)>,
) -> bool
    decreases sources.len(),
{
    if sources.len() == 0 {
        patterns.len() == 0
    } else {
        exists|n: int|
            0 <= n <= patterns.len() && built_from(patterns.take(n), sources.drop_last())
                && is_expansion(
                shape_of(sources.last().0),
                sources.last().1,
                #[trigger] patterns.skip(n),
            )
    }
}

/// The views of the rows.
pub open spec fn rows_view(rows: Seq<&str>) -> Seq<Seq<char>> {
    Seq::new(rows.len(), |y: int| rows[y]@)
}

/// A shape, as booleans.
struct Pattern {
    rows: Vec<Vec<bool>>,
}

impl View for Pattern {
    type V = Seq<Seq<bool>>;

    closed spec fn view(&self) -> Seq<Seq<bool>> {
        Seq::new(self.rows@.len(), |y: int| self.rows@[y]@)
    }
}

spec fn cells_before(g: Seq<Seq<bool>>, y: int, x: int) -> Set<int> {
    Set::new(|c: int| shape_cells(g).contains(c) && (c / 11 < y || (c / 11 == y && c % 11 < x)))
}

impl Pattern {
    fn new(pattern: &Vec<&str>) -> (r: Self)
        requires
            is_rect(shape_of(rows_view(pattern@))),
        ensures
            r@ == shape_of(rows_view(pattern@)),
    {
        let ghost want = shape_of(rows_view(pattern@));
        let mut rows: Vec<Vec<bool>> = Vec::new();
        let mut y: usize = 0;
        while y < pattern.len()
            invariant
                y <= pattern.len(),
                want == shape_of(rows_view(pattern@)),
                rows@.len() == y,
                forall|a: int| 0 <= a < y ==> (#[trigger] rows@[a])@ == want[a],
            decreases pattern.len() - y,
        {
            let line: &str = pattern[y];
            let width = line.unicode_len();
            let mut row: Vec<bool> = Vec::new();
            let mut x: usize = 0;
            while x < width
                invariant
                    x <= width,
                    width == line@.len(),
                    row@.len() == x,
                    forall|b: int| 0 <= b < x ==> #[trigger] row@[b] == (line@[b] == 'x'),
                decreases width - x,
            {
                row.push(line.get_char(x) == 'x');
                x += 1;
            }
            rows.push(row);
            y += 1;
        }
        let r = Pattern { rows };
        r
    }

    fn rotate90(&self) -> (r: Pattern)
        requires
            is_rect(self@),
        ensures
            r@ == rotated(self@),
            is_rect(r@),
    {
        let height = self.rows.len();
        let width = self.rows[0].len();
        let mut rows: Vec<Vec<bool>> = Vec::new();
        let mut i: usize = 0;
        while i < width
            invariant
                is_rect(self@),
                height == self.rows@.len(),
                width == self.rows@[0]@.len(),
                i <= width,
                rows@.len() == i,
                forall|a: int| 0 <= a < i ==> (#[trigger] rows@[a])@ == rotated(self@)[a],
            decreases width - i,
        {
            let mut row: Vec<bool> = Vec::new();
            let mut j: usize = 0;
            while j < height
                invariant
                    is_rect(self@),
                    height == self.rows@.len(),
                    width == self.rows@[0]@.len(),
                    i < width,
                    j <= height,
                    row@.len() == j,
                    forall|b: int|
                        0 <= b < j ==> #[trigger] row@[b] == self.rows@[height - 1 - b]@[i as int],
                decreases height - j,
            {
                assert(self@[height - 1 - j].len() == width);
                row.push(self.rows[height - 1 - j][i]);
                j += 1;
            }
            rows.push(row);
            i += 1;
        }
        let r = Pattern { rows };
        r
    }

    fn mirror(&self) -> (r: Pattern)
        requires
            is_rect(self@),
        ensures
            r@ == mirrored(self@),
            is_rect(r@),
    {
        let height = self.rows.len();
        let width = self.rows[0].len();
        let mut rows: Vec<Vec<bool>> = Vec::new();
        let mut y: usize = 0;
        while y < height
            invariant
                is_rect(self@),
                height == self.rows@.len(),
                width == self.rows@[0]@.len(),
                y <= height,
                rows@.len() == y,
                forall|a: int| 0 <= a < y ==> (#[trigger] rows@[a])@ == mirrored(self@)[a],
            decreases height - y,
        {
            assert(self@[y as int].len() == width);
            let mut row: Vec<bool> = Vec::new();
            let mut x: usize = 0;
            while x < width
                invariant
                    height == self.rows@.len(),
                    y < height,
                    width == self.rows@[y as int]@.len(),
                    x <= width,
                    row@.len() == x,
                    forall|b: int|
                        0 <= b < x ==> #[trigger] row@[b] == self.rows@[y as int]@[width - 1 - b],
                decreases width - x,
            {
                row.push(self.rows[y][width - 1 - x]);
                x += 1;
            }
            rows.push(row);
            y += 1;
        }
        let r = Pattern { rows };
        r
    }

    fn to_mask(&self) -> (m: Mask)
        requires
            is_rect(self@),
        ensures
            m@ == shape_cells(self@),
    {
        let height = self.rows.len();
        let width = self.rows[0].len();
        let mut m = Mask::empty();
        let mut y: usize = 0;
        while y < height
            invariant
                is_rect(self@),
                height == self.rows@.len(),
                width == self.rows@[0]@.len(),
                y <= height,
                height <= 11,
                width <= 11,
                m@ == cells_before(self@, y as int, 0),
            decreases height - y,
        {
            assert(self@[y as int].len() == width);
            let mut x: usize = 0;
            while x < width
                invariant
                    is_rect(self@),
                    height == self.rows@.len(),
                    y < height,
                    width == self.rows@[y as int]@.len(),
                    x <= width,
                    height <= 11,
                    width <= 11,
                    m@ == cells_before(self@, y as int, x as int),
                decreases width - x,
            {
                if self.rows[y][x] {
                    m = m | Mask::cell(x as u8, y as u8);
                }
                x += 1;
            }
            y += 1;
        }
        m
    }
}

/// Puts `m` into a list that ascends, unless the list holds it.
fn insert_unique(list: &mut Vec<Mask>, m: Mask)
    requires
        ascends(old(list)@),
    ensures
        ascends(final(list)@),
        forall|x: Mask| final(list)@.contains(x) <==> old(list)@.contains(x) || x == m,
{
    let key = m.to_bits();
    let mut i: usize = 0;
    while i < list.len()
        invariant
            i <= list.len(),
            *list == *old(list),
            key == m.bits(),
            forall|k: int| 0 <= k < i ==> (#[trigger] list@[k]).bits() < key,
        ensures
            i < list.len() ==> list@[i as int].bits() >= key,
        decreases list.len() - i,
    {
        if list[i].to_bits() >= key {
            break ;
        }
        i += 1;
    }
    if i < list.len() && list[i].to_bits() == key {
        proof {
            m.lemma_bits_injective(list@[i as int]);
        }
    } else {
        let ghost before = list@;
        list.insert(i, m);
        proof {
            let after = list@;
            assert forall|x: Mask| after.contains(x) <==> before.contains(x) || x == m by {
                if before.contains(x) {
                    let k = choose|k: int| 0 <= k < before.len() && before[k] == x;
                    if k < i {
                        assert(after[k] == x);
                    } else {
                        assert(after[k + 1] == x);
                    }
                }
                if x == m {
                    assert(after[i as int] == x);
                }
            }}
    }
}

/// What a card says.
pub struct CardView {
    pub name: Seq<char>,
    /// The time that the card takes from the season.
    pub time: int,
    /// The terrains that the player may choose from, the first one first.
    pub terrains: Seq<PlayerTerrain>,
    /// The shapes that the player may choose from, each in every position that
    /// it has at the board's corner, and the gold that it is worth.
    pub patterns: Seq<(Set<int>, int)>,
    /// Whether the card is an ambush: its first terrain is the monster.
    pub is_ambush: bool,
}

/// An exploration card or a monster card.
pub struct ExploreCard {
    name: String,
    time: u16,
    terrains: Vec<PlayerTerrain>,
    patterns: Vec<(Mask, i16)>,
    is_ambush: bool,
}

impl View for ExploreCard {
    type V = CardView;

    closed spec fn view(&self) -> CardView {
        CardView {
            name: self.name@,
            time: self.time as int,
            terrains: self.terrains@,
            patterns: Seq::new(
                self.patterns@.len(),
                |k: int| (self.patterns@[k].0@, self.patterns@[k].1 as int),
            ),
            is_ambush: self.is_ambush,
        }
    }
}

impl CardView {
    /// What holds of every card: it takes at most 2 units of time, names a
    /// terrain, is an ambush exactly when that terrain is the monster, and
    /// has a shape; the shapes lie on the board and their gold fits 16 bits.
    pub open spec fn valid(self) -> bool {
        &&& 0 <= self.time <= 2
        &&& self.terrains.len() > 0
        &&& self.is_ambush == (self.terrains[0] == PlayerTerrain::Monster)
        &&& self.patterns.len() > 0
        &&& forall|k: int|
            0 <= k < self.patterns.len() ==> (#[trigger] self.patterns[k]).0.subset_of(
                crate::grid::board(),
            ) && -32768 <= self.patterns[k].1 <= 32767
    }
}

impl ExploreCard {
    #[verifier::type_invariant]
    closed spec fn wf(self) -> bool {
        &&& self.time <= 2
        &&& self.terrains@.len() > 0
        &&& self.is_ambush == (self.terrains@[0] == PlayerTerrain::Monster)
        &&& self.patterns@.len() > 0
    }

    /// The shapes as masks, in the order in which the card lists them.
    pub closed spec fn masks(&self) -> Seq<(Mask, i16)> {
        self.patterns@
    }

    /// Every card is valid.
    pub fn check_valid(&self)
        ensures
            self@.valid(),
            self@.patterns.len() == self.masks().len(),
            forall|k: int|
                0 <= k < self.masks().len() ==> (#[trigger] self@.patterns[k]).0
                    == self.masks()[k].0@ && self@.patterns[k].1 == self.masks()[k].1,
    {
        proof {
            use_type_invariant(self);
        }
    }

    /// The name that the server calls the card by.
    pub fn name(&self) -> (r: &str)
        ensures
            r@ == self@.name,
    {
        self.name.as_str()
    }

    /// The time that the card takes from the season.
    pub fn time(&self) -> (r: u16)
        ensures
            r == self@.time,
            r <= 2,
    {
        proof {
            use_type_invariant(self);
        }
        self.time
    }

    /// The terrains to choose from.
    pub fn terrains(&self) -> (r: &[PlayerTerrain])
        ensures
            r@ == self@.terrains,
            r@.len() > 0,
    {
        proof {
            use_type_invariant(self);
        }
        self.terrains.as_slice()
    }

    /// The shapes to choose from, each in every position that it has, with its gold.
    pub fn patterns(&self) -> (r: &[(Mask, i16)])
        ensures
            r@ == self.masks(),
            r@.len() > 0,
            r@.len() == self@.patterns.len(),
            forall|k: int|
                0 <= k < r@.len() ==> (#[trigger] self@.patterns[k]).0 == r@[k].0@
                    && self@.patterns[k].1 == r@[k].1,
    {
        proof {
            use_type_invariant(self);
        }
        self.patterns.as_slice()
    }

    /// Whether the card is an ambush.
    pub fn is_ambush(&self) -> (r: bool)
        ensures
            r == self@.is_ambush,
            r == (self@.terrains[0] == PlayerTerrain::Monster),
    {
        proof {
            use_type_invariant(self);
        }
        self.is_ambush
    }
}

/// A card in the making.
pub struct ExploreCardBuilder {
    name: String,
    time: u16,
    terrains: Vec<PlayerTerrain>,
    patterns: Vec<(Mask, i16)>,
    sources: Ghost<Seq<(Seq<Seq<char>>, i16)>>,
}

impl ExploreCardBuilder {
    #[verifier::type_invariant]
    closed spec fn wf(self) -> bool {
        &&& self.time <= 2
        &&& self.terrains@.len() > 0
        &&& built_from(self.patterns@, self.sources@)
        &&& self.sources@.len() > 0 ==> self.patterns@.len() > 0
    }

    /// The name given to the card.
    pub closed spec fn name(&self) -> Seq<char> {
        self.name@
    }

    /// The time given to the card.
    pub closed spec fn time(&self) -> int {
        self.time as int
    }

    /// The terrains given to the card.
    pub closed spec fn terrains(&self) -> Seq<PlayerTerrain> {
        self.terrains@
    }

    /// The rows of characters given so far, each with its gold.
    pub closed spec fn sources(&self) -> Seq<(Seq<Seq<char>>, i16)> {
        self.sources@
    }

    /// The shapes added so far, as masks, each with its gold.
    pub closed spec fn masks(&self) -> Seq<(Mask, i16)> {
        self.patterns@
    }

    /// Starts a card with no shape.
    pub fn new(name: &str, time: u16, terrains: Vec<PlayerTerrain>) -> (r: Self)
        requires
            time <= 2,
            terrains@.len() > 0,
        ensures
            r.name() == name@,
            r.time() == time,
            r.terrains() == terrains@,
            r.sources() == Seq::<(Seq<Seq<char>>, i16)>::empty(),
            r.masks() == Seq::<(Mask, i16)>::empty(),
    {
        Self {
            name: name.to_owned(),
            time,
            terrains,
            patterns: Vec::new(),
            sources: Ghost(Seq::empty()),
        }
    }

    /// Adds the shape that `pattern` draws, in its eight positions, each
    /// distinct one once.
    pub fn with_pattern(self, pattern: &Vec<&str>, gold: i16) -> (r: Self)
        requires
            is_rect(shape_of(rows_view(pattern@))),
        ensures
            r.name() == self.name(),
            r.time() == self.time(),
            r.terrains() == self.terrains(),
            r.sources() == self.sources().push((rows_view(pattern@), gold)),
            r.masks().len() > self.masks().len(),
            r.masks().take(self.masks().len() as int) == self.masks(),
            is_expansion(
                shape_of(rows_view(pattern@)),
                gold,
                r.masks().skip(self.masks().len() as int),
            ),
            built_from(r.masks(), r.sources()),
    {
        proof {
            use_type_invariant(&self);
        }
        let ghost g = shape_of(rows_view(pattern@));
        let p1 = Pattern::new(pattern);
        let p2 = p1.rotate90();
        let p3 = p2.rotate90();
        let p4 = p3.rotate90();
        let p5 = p1.mirror();
        let p6 = p5.rotate90();
        let p7 = p6.rotate90();
        let p8 = p7.rotate90();
        let all: Vec<Mask> = vec![
            p1.to_mask(),
            p2.to_mask(),
            p3.to_mask(),
            p4.to_mask(),
            p5.to_mask(),
            p6.to_mask(),
            p7.to_mask(),
            p8.to_mask(),
        ];
        assert forall|j: int| 0 <= j < 8 implies (#[trigger] all@[j])@ == images(g)[j] by {}
        let mut masks: Vec<Mask> = Vec::new();
        let mut j: usize = 0;
        while j < 8
            invariant
                j <= 8,
                all@.len() == 8,
                ascends(masks@),
                forall|x: Mask|
                    masks@.contains(x) <==> exists|i: int| 0 <= i < j && #[trigger] all@[i] == x,
            decreases 8 - j,
        {
            insert_unique(&mut masks, all[j]);
            j += 1;
        }
        let mut patterns = self.patterns;
        let ghost old_patterns = patterns@;
        let mut k: usize = 0;
        while k < masks.len()
            invariant
                k <= masks.len(),
                patterns@.len() == old_patterns.len() + k,
                patterns@.take(old_patterns.len() as int) == old_patterns,
                forall|n: int|
                    old_patterns.len() <= n < old_patterns.len() + k ==> #[trigger] patterns@[n] == (
                        masks@[n - old_patterns.len()],
                        gold,
                    ) && patterns@[n].0.wf(),
            decreases masks.len() - k,
        {
            let mask = masks[k];
            proof {
                use_type_invariant(&mask);
            }
            patterns.push((mask, gold));
            k += 1;
        }
        let ghost fresh = patterns@.skip(old_patterns.len() as int);
        let ghost sources = self.sources@.push((rows_view(pattern@), gold));
        proof {
            assert forall|i: int| 0 <= i < fresh.len() implies (#[trigger] fresh[i]).1 == gold
                && fresh[i].0.wf() && images(g).contains(fresh[i].0@) by {
                assert(masks@.contains(masks@[i]));
            }assert forall|a: int| 0 <= a < 8 implies shows(fresh, #[trigger] images(g)[a]) by {
                assert(masks@.contains(all@[a]));
                let i = choose|i: int| 0 <= i < masks@.len() && masks@[i] == all@[a];
                assert(fresh[i] == patterns@[old_patterns.len() + i]);
            }
            assert(sources.drop_last() =~= self.sources@);
        }
        Self {
            name: self.name,
            time: self.time,
            terrains: self.terrains,
            patterns,
            sources: Ghost(sources),
        }
    }

    /// The finished card.
    pub fn build(self) -> (r: ExploreCard)
        requires
            self.sources().len() > 0,
        ensures
            r@.name == self.name(),
            r@.time == self.time(),
            r@.terrains == self.terrains(),
            r.masks() == self.masks(),
            built_from(r.masks(), self.sources()),
    {
        proof {
            use_type_invariant(&self);
        }
        let is_ambush = match self.terrains[0] {
            PlayerTerrain::Monster => true,
            _ => false,
        };
        ExploreCard {
            name: self.name,
            time: self.time,
            terrains: self.terrains,
            patterns: self.patterns,
            is_ambush,
        }
    }
}


fn one_shape(name: &str, time: u16, terrains: Vec<PlayerTerrain>, shape: Vec<&str>, gold: i16) -> (r:
    ExploreCard)
    requires
        time <= 2,
        terrains@.len() > 0,
        is_rect(shape_of(rows_view(shape@))),
    ensures
        r@.name == name@,
        r@.time == time,
        r@.terrains == terrains@,
        built_from(r.masks(), seq![(rows_view(shape@), gold)]),
{
    let builder = ExploreCardBuilder::new(name, time, terrains).with_pattern(&shape, gold);
    builder.build()
}

fn two_shapes(
    name: &str,
    time: u16,
    terrains: Vec<PlayerTerrain>,
    first: Vec<&str>,
    first_gold: i16,
    second: Vec<&str>,
    second_gold: i16,
) -> (r: ExploreCard)
    requires
        time <= 2,
        terrains@.len() > 0,
        is_rect(shape_of(rows_view(first@))),
        is_rect(shape_of(rows_view(second@))),
    ensures
        r@.name == name@,
        r@.time == time,
        r@.terrains == terrains@,
        built_from(
            r.masks(),
            seq![(rows_view(first@), first_gold), (rows_view(second@), second_gold)],
        ),
{
    let ghost wanted = seq![(rows_view(first@), first_gold), (rows_view(second@), second_gold)];
    let builder = ExploreCardBuilder::new(name, time, terrains).with_pattern(
        &first,
        first_gold,
    ).with_pattern(&second, second_gold);
    assert(builder.sources() =~= wanted);
    builder.build()
}

/// Whether `c` is the card "ackerland": its name, time, terrains and shapes.
pub open spec fn is_ackerland(c: ExploreCard) -> bool {
    &&& c@.name == "ackerland"@
    &&& c@.time == 1
    &&& c@.terrains == seq![PlayerTerrain::Farm]
    &&& built_from(c.masks(), seq![(rows_view(seq!["xx"]), 1i16), (rows_view(seq![" x ", "xxx", " x "]), 0i16)])
}

/// Farmland.
pub fn ackerland() -> (r: ExploreCard)
    ensures
        is_ackerland(r),
{
    proof {
        reveal_strlit(" x ");
        reveal_strlit("xx");
        reveal_strlit("xxx");
    }
    let terrains: Vec<PlayerTerrain> = vec![PlayerTerrain::Farm];
    assert(terrains@ =~= seq![PlayerTerrain::Farm]);
    let first: Vec<&str> = vec!["xx"];
    assert(first@ =~= seq!["xx"]);
    let second: Vec<&str> = vec![" x ", "xxx", " x "];
    let r = two_shapes("ackerland", 1, terrains, first, 1, second, 0);
    r
}

/// Whether `c` is the card "baumwipfeldorf": its name, time, terrains and shapes.
pub open spec fn is_baumwipfeldorf(c: ExploreCard) -> bool {
    &&& c@.name == "baumwipfeldorf"@
    &&& c@.time == 2
    &&& c@.terrains == seq![PlayerTerrain::Forest, PlayerTerrain::Village]
    &&& built_from(c.masks(), seq![(rows_view(seq!["  xx", "xxx "]), 0i16)])
}

/// Treetop village.
pub fn baumwipfeldorf() -> (r: ExploreCard)
    ensures
        is_baumwipfeldorf(r),
{
    proof {
        reveal_strlit("  xx");
        reveal_strlit("xxx ");
    }
    let terrains: Vec<PlayerTerrain> = vec![PlayerTerrain::Forest, PlayerTerrain::Village];
    let first: Vec<&str> = vec!["  xx", "xxx "];
    let r = one_shape("baumwipfeldorf", 2, terrains, first, 0);
    r
}

/// Whether `c` is the card "fischerdorf": its name, time, terrains and shapes.
pub open spec fn is_fischerdorf(c: ExploreCard) -> bool {
    &&& c@.name == "fischerdorf"@
    &&& c@.time == 2
    &&& c@.terrains == seq![PlayerTerrain::Village, PlayerTerrain::Water]
    &&& built_from(c.masks(), seq![(rows_view(seq!["xxxx"]), 0i16)])
}

/// Fishing village.
pub fn fischerdorf() -> (r: ExploreCard)
    ensures
        is_fischerdorf(r),
{
    proof {
        reveal_strlit("xxxx");
    }
    let terrains: Vec<PlayerTerrain> = vec![PlayerTerrain::Village, PlayerTerrain::Water];
    let first: Vec<&str> = vec!["xxxx"];
    assert(first@ =~= seq!["xxxx"]);
    let r = one_shape("fischerdorf", 2, terrains, first, 0);
    r
}

/// Whether `c` is the card "gehoeft": its name, time, terrains and shapes.
pub open spec fn is_gehoeft(c: ExploreCard) -> bool {
    &&& c@.name == "gehoeft"@
    &&& c@.time == 2
    &&& c@.terrains == seq![PlayerTerrain::Village, PlayerTerrain::Farm]
    &&& built_from(c.masks(), seq![(rows_view(seq!["x ", "xx", "x "]), 0i16)])
}

/// Homestead.
pub fn gehoeft() -> (r: ExploreCard)
    ensures
        is_gehoeft(r),
{
    proof {
        reveal_strlit("x ");
        reveal_strlit("xx");
    }
    let terrains: Vec<PlayerTerrain> = vec![PlayerTerrain::Village, PlayerTerrain::Farm];
    let first: Vec<&str> = vec!["x ", "xx", "x "];
    let r = one_shape("gehoeft", 2, terrains, first, 0);
    r
}

/// Whether `c` is the card "gnollangriff": its name, time, terrains and shapes.
pub open spec fn is_gnollangriff(c: ExploreCard) -> bool {
    &&& c@.name == "gnollangriff"@
    &&& c@.time == 0
    &&& c@.terrains == seq![PlayerTerrain::Monster]
    &&& built_from(c.masks(), seq![(rows_view(seq!["xx", "x ", "xx"]), 0i16)])
}

/// Gnoll raid.
pub fn gnollangriff() -> (r: ExploreCard)
    ensures
        is_gnollangriff(r),
{
    proof {
        reveal_strlit("x ");
        reveal_strlit("xx");
    }
    let terrains: Vec<PlayerTerrain> = vec![PlayerTerrain::Monster];
    assert(terrains@ =~= seq![PlayerTerrain::Monster]);
    let first: Vec<&str> = vec!["xx", "x ", "xx"];
    let r = one_shape("gnollangriff", 0, terrains, first, 0);
    r
}

/// Whether `c` is the card "goblinattacke": its name, time, terrains and shapes.
pub open spec fn is_goblinattacke(c: ExploreCard) -> bool {
    &&& c@.name == "goblinattacke"@
    &&& c@.time == 0
    &&& c@.terrains == seq![PlayerTerrain::Monster]
    &&& built_from(c.masks(), seq![(rows_view(seq!["x  ", " x ", "  x"]), 0i16)])
}

/// Goblin attack.
pub fn goblinattacke() -> (r: ExploreCard)
    ensures
        is_goblinattacke(r),
{
    proof {
        reveal_strlit("  x");
        reveal_strlit(" x ");
        reveal_strlit("x  ");
    }
    let terrains: Vec<PlayerTerrain> = vec![PlayerTerrain::Monster];
    assert(terrains@ =~= seq![PlayerTerrain::Monster]);
    let first: Vec<&str> = vec!["x  ", " x ", "  x"];
    let r = one_shape("goblinattacke", 0, terrains, first, 0);
    r
}

/// Whether `c` is the card "grosserStrom": its name, time, terrains and shapes.
pub open spec fn is_grosser_strom(c: ExploreCard) -> bool {
    &&& c@.name == "grosserStrom"@
    &&& c@.time == 1
    &&& c@.terrains == seq![PlayerTerrain::Water]
    &&& built_from(c.masks(), seq![(rows_view(seq!["xxx"]), 1i16), (rows_view(seq!["  x", " xx", "xx "]), 0i16)])
}

/// Great river.
pub fn grosser_strom() -> (r: ExploreCard)
    ensures
        is_grosser_strom(r),
{
    proof {
        reveal_strlit("  x");
        reveal_strlit(" xx");
        reveal_strlit("xx ");
        reveal_strlit("xxx");
    }
    let terrains: Vec<PlayerTerrain> = vec![PlayerTerrain::Water];
    assert(terrains@ =~= seq![PlayerTerrain::Water]);
    let first: Vec<&str> = vec!["xxx"];
    assert(first@ =~= seq!["xxx"]);
    let second: Vec<&str> = vec!["  x", " xx", "xx "];
    let r = two_shapes("grosserStrom", 1, terrains, first, 1, second, 0);
    r
}

/// Whether `c` is the card "grottenschratueberfall": its name, time, terrains and shapes.
pub open spec fn is_grottenschratueberfall(c: ExploreCard) -> bool {
    &&& c@.name == "grottenschratueberfall"@
    &&& c@.time == 0
    &&& c@.terrains == seq![PlayerTerrain::Monster]
    &&& built_from(c.masks(), seq![(rows_view(seq!["x x", "x x"]), 0i16)])
}

/// Bugbear assault.
pub fn grottenschratueberfall() -> (r: ExploreCard)
    ensures
        is_grottenschratueberfall(r),
{
    proof {
        reveal_strlit("x x");
    }
    let terrains: Vec<PlayerTerrain> = vec![PlayerTerrain::Monster];
    assert(terrains@ =~= seq![PlayerTerrain::Monster]);
    let first: Vec<&str> = vec!["x x", "x x"];
    let r = one_shape("grottenschratueberfall", 0, terrains, first, 0);
    r
}

/// Whether `c` is the card "hinterlandbach": its name, time, terrains and shapes.
pub open spec fn is_hinterlandbach(c: ExploreCard) -> bool {
    &&& c@.name == "hinterlandbach"@
    &&& c@.time == 2
    &&& c@.terrains == seq![PlayerTerrain::Farm, PlayerTerrain::Water]
    &&& built_from(c.masks(), seq![(rows_view(seq!["xxx", "x  ", "x  "]), 0i16)])
}

/// Hinterland stream.
pub fn hinterlandbach() -> (r: ExploreCard)
    ensures
        is_hinterlandbach(r),
{
    proof {
        reveal_strlit("x  ");
        reveal_strlit("xxx");
    }
    let terrains: Vec<PlayerTerrain> = vec![PlayerTerrain::Farm, PlayerTerrain::Water];
    let first: Vec<&str> = vec!["xxx", "x  ", "x  "];
    let r = one_shape("hinterlandbach", 2, terrains, first, 0);
    r
}

/// Whether `c` is the card "insektoideninvasion": its name, time, terrains and shapes.
pub open spec fn is_insektoideninvasion(c: ExploreCard) -> bool {
    &&& c@.name == "insektoideninvasion"@
    &&& c@.time == 0
    &&& c@.terrains == seq![PlayerTerrain::Monster]
    &&& built_from(c.masks(), seq![(rows_view(seq![" x", "xx", "x "]), 0i16)])
}

/// Insectoid invasion.
pub fn insektoideninvasion() -> (r: ExploreCard)
    ensures
        is_insektoideninvasion(r),
{
    proof {
        reveal_strlit(" x");
        reveal_strlit("x ");
        reveal_strlit("xx");
    }
    let terrains: Vec<PlayerTerrain> = vec![PlayerTerrain::Monster];
    assert(terrains@ =~= seq![PlayerTerrain::Monster]);
    let first: Vec<&str> = vec![" x", "xx", "x "];
    let r = one_shape("insektoideninvasion", 0, terrains, first, 0);
    r
}

/// Whether `c` is the card "koboldansturm": its name, time, terrains and shapes.
pub open spec fn is_koboldansturm(c: ExploreCard) -> bool {
    &&& c@.name == "koboldansturm"@
    &&& c@.time == 0
    &&& c@.terrains == seq![PlayerTerrain::Monster]
    &&& built_from(c.masks(), seq![(rows_view(seq!["x ", "xx", "x "]), 0i16)])
}

/// Kobold onslaught.
pub fn koboldansturm() -> (r: ExploreCard)
    ensures
        is_koboldansturm(r),
{
    proof {
        reveal_strlit("x ");
        reveal_strlit("xx");
    }
    let terrains: Vec<PlayerTerrain> = vec![PlayerTerrain::Monster];
    assert(terrains@ =~= seq![PlayerTerrain::Monster]);
    let first: Vec<&str> = vec!["x ", "xx", "x "];
    let r = one_shape("koboldansturm", 0, terrains, first, 0);
    r
}

/// Whether `c` is the card "obsthain": its name, time, terrains and shapes.
pub open spec fn is_obsthain(c: ExploreCard) -> bool {
    &&& c@.name == "obsthain"@
    &&& c@.time == 2
    &&& c@.terrains == seq![PlayerTerrain::Forest, PlayerTerrain::Farm]
    &&& built_from(c.masks(), seq![(rows_view(seq!["xxx", "  x"]), 0i16)])
}

/// Orchard.
pub fn obsthain() -> (r: ExploreCard)
    ensures
        is_obsthain(r),
{
    proof {
        reveal_strlit("  x");
        reveal_strlit("xxx");
    }
    let terrains: Vec<PlayerTerrain> = vec![PlayerTerrain::Forest, PlayerTerrain::Farm];
    let first: Vec<&str> = vec!["xxx", "  x"];
    let r = one_shape("obsthain", 2, terrains, first, 0);
    r
}

/// Whether `c` is the card "ogeroffensive": its name, time, terrains and shapes.
pub open spec fn is_ogeroffensive(c: ExploreCard) -> bool {
    &&& c@.name == "ogeroffensive"@
    &&& c@.time == 0
    &&& c@.terrains == seq![PlayerTerrain::Monster]
    &&& built_from(c.masks(), seq![(rows_view(seq!["xx", "xx"]), 0i16)])
}

/// Ogre offensive.
pub fn ogeroffensive() -> (r: ExploreCard)
    ensures
        is_ogeroffensive(r),
{
    proof {
        reveal_strlit("xx");
    }
    let terrains: Vec<PlayerTerrain> = vec![PlayerTerrain::Monster];
    assert(terrains@ =~= seq![PlayerTerrain::Monster]);
    let first: Vec<&str> = vec!["xx", "xx"];
    let r = one_shape("ogeroffensive", 0, terrains, first, 0);
    r
}

/// Whether `c` is the card "rattenmenschenrache": its name, time, terrains and shapes.
pub open spec fn is_rattenmenschenrache(c: ExploreCard) -> bool {
    &&& c@.name == "rattenmenschenrache"@
    &&& c@.time == 0
    &&& c@.terrains == seq![PlayerTerrain::Monster]
    &&& built_from(c.masks(), seq![(rows_view(seq!["xxx"]), 0i16)])
}

/// Revenge of the rat people.
pub fn rattenmenschenrache() -> (r: ExploreCard)
    ensures
        is_rattenmenschenrache(r),
{
    proof {
        reveal_strlit("xxx");
    }
    let terrains: Vec<PlayerTerrain> = vec![PlayerTerrain::Monster];
    assert(terrains@ =~= seq![PlayerTerrain::Monster]);
    let first: Vec<&str> = vec!["xxx"];
    assert(first@ =~= seq!["xxx"]);
    let r = one_shape("rattenmenschenrache", 0, terrains, first, 0);
    r
}

/// Whether `c` is the card "schindersturm": its name, time, terrains and shapes.
pub open spec fn is_schindersturm(c: ExploreCard) -> bool {
    &&& c@.name == "schindersturm"@
    &&& c@.time == 0
    &&& c@.terrains == seq![PlayerTerrain::Monster]
    &&& built_from(c.masks(), seq![(rows_view(seq!["x ", "xx"]), 0i16)])
}

/// Flayer storm.
pub fn schindersturm() -> (r: ExploreCard)
    ensures
        is_schindersturm(r),
{
    proof {
        reveal_strlit("x ");
        reveal_strlit("xx");
    }
    let terrains: Vec<PlayerTerrain> = vec![PlayerTerrain::Monster];
    assert(terrains@ =~= seq![PlayerTerrain::Monster]);
    let first: Vec<&str> = vec!["x ", "xx"];
    let r = one_shape("schindersturm", 0, terrains, first, 0);
    r
}

/// Whether `c` is the card "splitterland": its name, time, terrains and shapes.
pub open spec fn is_splitterland(c: ExploreCard) -> bool {
    &&& c@.name == "splitterland"@
    &&& c@.time == 0
    &&& c@.terrains == seq![PlayerTerrain::Forest, PlayerTerrain::Village, PlayerTerrain::Farm, PlayerTerrain::Water, PlayerTerrain::Monster]
    &&& built_from(c.masks(), seq![(rows_view(seq!["x"]), 0i16)])
}

/// Rift lands: one cell of any terrain.
pub fn splitterland() -> (r: ExploreCard)
    ensures
        is_splitterland(r),
        r@.patterns == seq![(set![0int], 0int)],
{
    proof {
        reveal_strlit("x");
    }
    let terrains: Vec<PlayerTerrain> = vec![PlayerTerrain::Forest, PlayerTerrain::Village, PlayerTerrain::Farm, PlayerTerrain::Water, PlayerTerrain::Monster];
    let first: Vec<&str> = vec!["x"];
    assert(first@ =~= seq!["x"]);
    let r = one_shape("splitterland", 0, terrains, first, 0);
    proof {
        lemma_single_cell(r.masks());
    }
    r.check_valid();
    r
}

/// Whether `c` is the card "splitterland_monster": its name, time, terrains and shapes.
pub open spec fn is_splitterland_monster(c: ExploreCard) -> bool {
    &&& c@.name == "splitterland_monster"@
    &&& c@.time == 0
    &&& c@.terrains == seq![PlayerTerrain::Monster]
    &&& built_from(c.masks(), seq![(rows_view(seq!["x"]), 0i16)])
}

/// Rift lands for an ambush: one cell of monster.
pub fn splitterland_monster() -> (r: ExploreCard)
    ensures
        is_splitterland_monster(r),
        r@.patterns == seq![(set![0int], 0int)],
{
    proof {
        reveal_strlit("x");
    }
    let terrains: Vec<PlayerTerrain> = vec![PlayerTerrain::Monster];
    assert(terrains@ =~= seq![PlayerTerrain::Monster]);
    let first: Vec<&str> = vec!["x"];
    assert(first@ =~= seq!["x"]);
    let r = one_shape("splitterland_monster", 0, terrains, first, 0);
    proof {
        lemma_single_cell(r.masks());
    }
    r.check_valid();
    r
}

/// Whether `c` is the card "sumpf": its name, time, terrains and shapes.
pub open spec fn is_sumpf(c: ExploreCard) -> bool {
    &&& c@.name == "sumpf"@
    &&& c@.time == 2
    &&& c@.terrains == seq![PlayerTerrain::Forest, PlayerTerrain::Water]
    &&& built_from(c.masks(), seq![(rows_view(seq!["x  ", "xxx", "x  "]), 0i16)])
}

/// Marsh.
pub fn sumpf() -> (r: ExploreCard)
    ensures
        is_sumpf(r),
{
    proof {
        reveal_strlit("x  ");
        reveal_strlit("xxx");
    }
    let terrains: Vec<PlayerTerrain> = vec![PlayerTerrain::Forest, PlayerTerrain::Water];
    let first: Vec<&str> = vec!["x  ", "xxx", "x  "];
    let r = one_shape("sumpf", 2, terrains, first, 0);
    r
}

/// Whether `c` is the card "vergessenerWald": its name, time, terrains and shapes.
pub open spec fn is_vergessener_wald(c: ExploreCard) -> bool {
    &&& c@.name == "vergessenerWald"@
    &&& c@.time == 1
    &&& c@.terrains == seq![PlayerTerrain::Forest]
    &&& built_from(c.masks(), seq![(rows_view(seq!["x ", " x"]), 1i16), (rows_view(seq!["x ", "xx", " x"]), 0i16)])
}

/// Forgotten forest.
pub fn vergessener_wald() -> (r: ExploreCard)
    ensures
        is_vergessener_wald(r),
{
    proof {
        reveal_strlit(" x");
        reveal_strlit("x ");
        reveal_strlit("xx");
    }
    let terrains: Vec<PlayerTerrain> = vec![PlayerTerrain::Forest];
    assert(terrains@ =~= seq![PlayerTerrain::Forest]);
    let first: Vec<&str> = vec!["x ", " x"];
    let second: Vec<&str> = vec!["x ", "xx", " x"];
    let r = two_shapes("vergessenerWald", 1, terrains, first, 1, second, 0);
    r
}

/// Whether `c` is the card "weiler": its name, time, terrains and shapes.
pub open spec fn is_weiler(c: ExploreCard) -> bool {
    &&& c@.name == "weiler"@
    &&& c@.time == 1
    &&& c@.terrains == seq![PlayerTerrain::Village]
    &&& built_from(c.masks(), seq![(rows_view(seq!["x ", "xx"]), 1i16), (rows_view(seq!["xxx", "xx "]), 0i16)])
}

/// Hamlet.
pub fn weiler() -> (r: ExploreCard)
    ensures
        is_weiler(r),
{
    proof {
        reveal_strlit("x ");
        reveal_strlit("xx");
        reveal_strlit("xx ");
        reveal_strlit("xxx");
    }
    let terrains: Vec<PlayerTerrain> = vec![PlayerTerrain::Village];
    assert(terrains@ =~= seq![PlayerTerrain::Village]);
    let first: Vec<&str> = vec!["x ", "xx"];
    let second: Vec<&str> = vec!["xxx", "xx "];
    let r = two_shapes("weiler", 1, terrains, first, 1, second, 0);
    r
}

/// Whether `list` is the eleven exploration cards in the order in which a deck counts them.
pub open spec fn is_explore_catalogue(list: Seq<ExploreCard>) -> bool {
    &&& list.len() == 11
    &&& is_ackerland(list[0])
    &&& is_baumwipfeldorf(list[1])
    &&& is_fischerdorf(list[2])
    &&& is_gehoeft(list[3])
    &&& is_grosser_strom(list[4])
    &&& is_hinterlandbach(list[5])
    &&& is_obsthain(list[6])
    &&& is_splitterland(list[7])
    &&& is_sumpf(list[8])
    &&& is_vergessener_wald(list[9])
    &&& is_weiler(list[10])
}

/// Whether `list` is the eight monster cards in the order in which a deck counts them.
pub open spec fn is_monster_catalogue(list: Seq<ExploreCard>) -> bool {
    &&& list.len() == 8
    &&& is_gnollangriff(list[0])
    &&& is_goblinattacke(list[1])
    &&& is_grottenschratueberfall(list[2])
    &&& is_insektoideninvasion(list[3])
    &&& is_koboldansturm(list[4])
    &&& is_ogeroffensive(list[5])
    &&& is_rattenmenschenrache(list[6])
    &&& is_schindersturm(list[7])
}

/// The exploration cards, in the order in which a deck counts them.
pub fn explore_cards() -> (r: Vec<ExploreCard>)
    ensures
        is_explore_catalogue(r@),
{
    let mut r: Vec<ExploreCard> = Vec::new();
    r.push(ackerland());
    r.push(baumwipfeldorf());
    r.push(fischerdorf());
    r.push(gehoeft());
    r.push(grosser_strom());
    r.push(hinterlandbach());
    r.push(obsthain());
    r.push(splitterland());
    r.push(sumpf());
    r.push(vergessener_wald());
    r.push(weiler());
    r
}

/// The monster cards, in the order in which a deck counts them.
pub fn monster_cards() -> (r: Vec<ExploreCard>)
    ensures
        is_monster_catalogue(r@),
{
    let mut r: Vec<ExploreCard> = Vec::new();
    r.push(gnollangriff());
    r.push(goblinattacke());
    r.push(grottenschratueberfall());
    r.push(insektoideninvasion());
    r.push(koboldansturm());
    r.push(ogeroffensive());
    r.push(rattenmenschenrache());
    r.push(schindersturm());
    r
}

proof fn lemma_single_cell(masks: Seq<(Mask, i16)>)
    requires
        built_from(masks, seq![(rows_view(seq!["x"]), 0i16)]),
    ensures
        masks.len() == 1,
        masks[0].0@ == set![0int],
        masks[0].1 == 0,
{
    reveal_strlit("x");
    reveal_with_fuel(built_from, 2);
    let sources = seq![(rows_view(seq!["x"]), 0i16)];
    let g = shape_of(sources.last().0);
    let n = choose|n: int|
        0 <= n <= masks.len() && built_from(masks.take(n), sources.drop_last()) && is_expansion(
            shape_of(sources.last().0),
            sources.last().1,
            #[trigger] masks.skip(n),
        );
    assert(masks.skip(n) =~= masks);
    let cell = set![0int];
    assert forall|j: int| 0 <= j < 8 implies #[trigger] images(g)[j] == cell by {}
    if masks.len() > 1 {
        masks[0].0.lemma_view_injective(masks[1].0);
    }
}

} // verus!
