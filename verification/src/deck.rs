//! The cards that may still be drawn this season.
use vstd::prelude::*;
use crate::grid;
use crate::mask::{bit, Mask};

verus! {

/// A card that is drawn: its place in the list of exploration cards or in the
/// list of monster cards.
#[derive(Clone, Copy, PartialEq, Eq, Debug, Structural)]
pub enum DrawnCard {
    ExploreCard(u16),
    MonsterCard(u16),
}

/// A chance, as a fraction.
#[derive(Clone, Copy, PartialEq, Eq, Debug, Structural)]
pub struct Probability {
    pub numerator: u32,
    pub denominator: u32,
}

/// What a deck holds.
pub struct DeckView {
    /// The exploration cards left, by their place in the list.
    pub explore: Set<int>,
    /// The monster cards not met so far, by their place in the list.
    pub monsters: Set<int>,
    /// How many monster cards are shuffled into this season's pile.
    pub monsters_in_deck: int,
}

impl DeckView {
    /// The cards in this season's pile.
    pub open spec fn total(self) -> int {
        self.explore.len() + self.monsters_in_deck
    }

    /// Whether a monster card can be drawn.
    pub open spec fn monsters_drawable(self) -> bool {
        self.monsters_in_deck > 0 && self.monsters.len() > 0
    }

    /// The numerator of the chance of one exploration card.
    pub open spec fn explore_share(self) -> int {
        if self.monsters_drawable() {
            self.monsters.len() as int
        } else {
            1
        }
    }

    /// The denominator that all chances of one draw have.
    pub open spec fn denominator(self) -> int {
        self.explore_share() * self.total()
    }

    /// The chance of one exploration card that is left: one in `total`.
    pub open spec fn explore_probability(self) -> Probability {
        Probability {
            numerator: self.explore_share() as u32,
            denominator: self.denominator() as u32,
        }
    }

    /// The chance of one monster card that is left: the chance of a monster,
    /// `monsters_in_deck` in `total`, split evenly over the monster cards.
    pub open spec fn monster_probability(self) -> Probability {
        Probability {
            numerator: self.monsters_in_deck as u32,
            denominator: self.denominator() as u32,
        }
    }

    /// The deck at the start of the next season: every exploration card is
    /// back, every monster card is possible again, and one more monster is in
    /// the pile.
    pub open spec fn new_season(self) -> DeckView {
        DeckView {
            explore: Set::new(|i: int| 0 <= i < 11),
            monsters: Set::new(|i: int| 0 <= i < 8),
            monsters_in_deck: self.monsters_in_deck + 1,
        }
    }

    /// The deck after exploration card `i` has been drawn.
    pub open spec fn without_explore(self, i: int) -> DeckView {
        DeckView { explore: self.explore.remove(i), ..self }
    }

    /// The deck after monster card `i` has been drawn.
    pub open spec fn without_monster(self, i: int) -> DeckView {
        DeckView {
            monsters: self.monsters.remove(i),
            monsters_in_deck: self.monsters_in_deck - 1,
            ..self
        }
    }

    /// The draws of an exploration card, in ascending order of the cards.
    pub open spec fn explore_draws(self) -> Seq<(DrawnCard, Probability, DeckView)> {
        let cards = grid::ascending(self.explore);
        Seq::new(
            cards.len(),
            |k: int|
                (
                    DrawnCard::ExploreCard(cards[k] as u16),
                    self.explore_probability(),
                    self.without_explore(cards[k]),
                ),
        )
    }

    /// The draws of a monster card, in ascending order of the cards; none where no monster is in the pile.
    pub open spec fn monster_draws(self) -> Seq<(DrawnCard, Probability, DeckView)> {
        let cards = grid::ascending(self.monsters);
        if self.monsters_in_deck > 0 {
            Seq::new(
                cards.len(),
                |k: int|
                    (
                        DrawnCard::MonsterCard(cards[k] as u16),
                        self.monster_probability(),
                        self.without_monster(cards[k]),
                    ),
            )
        } else {
            Seq::empty()
        }
    }

    /// Every card that may come next, with its chance and the deck that the
    /// draw leaves: the exploration cards in ascending order, then, where a
    /// monster is in the pile, the monster cards in ascending order.
    pub open spec fn draws(self) -> Seq<(DrawnCard, Probability, DeckView)> {
        self.explore_draws() + self.monster_draws()
    }

    /// What a `Deck` can hold: exploration cards 0 to 10, monster cards 0 to 7.
    pub open spec fn valid(self) -> bool {
        &&& self.explore.subset_of(Set::new(|i: int| 0 <= i < 11))
        &&& self.monsters.subset_of(Set::new(|i: int| 0 <= i < 8))
        &&& 0 <= self.monsters_in_deck <= 255
    }
}

/// The numerators of `draws` added up.
pub open spec fn numerator_sum(draws: Seq<(DrawnCard, Probability, DeckView)>) -> int
    decreases draws.len(),
{
    if draws.len() == 0 {
        0
    } else {
        numerator_sum(draws.drop_last()) + draws.last().1.numerator
    }
}

proof fn lemma_sum_constant(draws: Seq<(DrawnCard, Probability, DeckView)>, n: int)
    requires
        forall|k: int| 0 <= k < draws.len() ==> (#[trigger] draws[k]).1.numerator == n,
    ensures
        numerator_sum(draws) == draws.len() * n,
    decreases draws.len(),
{
    if draws.len() > 0 {
        lemma_sum_constant(draws.drop_last(), n);
        assert(draws.len() * n == (draws.len() - 1) * n + n) by (nonlinear_arith);
    }
}

proof fn lemma_sum_concat(
    a: Seq<(DrawnCard, Probability, DeckView)>,
    b: Seq<(DrawnCard, Probability, DeckView)>,
)
    ensures
        numerator_sum(a + b) == numerator_sum(a) + numerator_sum(b),
    decreases b.len(),
{
    if !(b.len() == 0) {
        lemma_sum_concat(a, b.drop_last());
        assert((a + b).drop_last() =~= a + b.drop_last());
    }
}

proof fn lemma_small_set(s: Set<int>, n: int)
    requires
        0 <= n <= 121,
        s.subset_of(Set::new(|i: int| 0 <= i < n)),
    ensures
        s.subset_of(grid::board()),
        s.finite(),
        s.len() <= n,
{
    vstd::set_lib::lemma_int_range(0, n);
    assert(Set::new(|i: int| 0 <= i < n) =~= vstd::set_lib::set_int_range(0, n));
    vstd::set_lib::lemma_len_subset(s, Set::new(|i: int| 0 <= i < n));
}

/// The chances of all draws have one denominator, and where a card can be
/// drawn and the monsters in the pile have a monster card to stand for them,
/// the chances add up to one: the numerators add up to that denominator.
pub proof fn law_draw_chances(d: DeckView)
    requires
        d.valid(),
    ensures
        forall|k: int|
            0 <= k < d.draws().len() ==> (#[trigger] d.draws()[k]).1.denominator
                == d.denominator(),
        d.draws().len() == d.explore.len() + (if d.monsters_in_deck > 0 {
            d.monsters.len()
        } else {
            0
        }),
        d.monsters_in_deck == 0 || d.monsters.len() > 0 ==> numerator_sum(d.draws())
            == d.denominator(),
        numerator_sum(d.draws()) <= d.denominator(),
        0 <= d.denominator() <= 8 * 266,
        d.draws().len() <= 19,
        d.draws().len() > 0 ==> d.denominator() > 0,
        forall|k: int|
            0 <= k < d.draws().len() ==> 0 <= (#[trigger] d.draws()[k]).1.numerator <= 255,
        forall|k: int|
            0 <= k < d.draws().len() ==> match (#[trigger] d.draws()[k]).0 {
                DrawnCard::ExploreCard(i) => i < 11,
                DrawnCard::MonsterCard(i) => i < 8,
            },
{
    lemma_small_set(d.explore, 11);
    lemma_small_set(d.monsters, 8);
    grid::lemma_ascending(d.explore);
    grid::lemma_ascending(d.monsters);
    let e = d.explore.len() as int;
    let mc = d.monsters.len() as int;
    let m = d.monsters_in_deck;
    let share = d.explore_share();
    assert(0 <= share * (e + m) <= 8 * 266) by (nonlinear_arith)
        requires
            1 <= share <= 8,
            0 <= e + m <= 266,
    ;
    lemma_sum_concat(d.explore_draws(), d.monster_draws());
    lemma_sum_constant(d.explore_draws(), share);
    if m > 0 {
        lemma_sum_constant(d.monster_draws(), m);
    }
    if m > 0 && mc > 0 {
        assert(e * mc + mc * m == mc * (e + m)) by (nonlinear_arith);
    }
    if !(m > 0 && mc > 0) {
        assert(e * share == e) by (nonlinear_arith)
            requires
                share == 1,
        ;
        assert(share * (e + m) == e + m) by (nonlinear_arith)
            requires
                share == 1,
        ;
        if m > 0 {
            assert(mc * m == 0) by (nonlinear_arith)
                requires
                    mc == 0,
            ;
        }
    }
    assert(e * share >= 0 && mc * m >= 0) by (nonlinear_arith)
        requires
            e >= 0,
            share >= 1,
            mc >= 0,
            m >= 0,
    ;
    if d.draws().len() > 0 {
        assert(share * (e + m) > 0) by (nonlinear_arith)
            requires
                share >= 1,
                e + m >= 1,
        ;
    }
}

proof fn lemma_clear(a: u16, k: u16)
    by (bit_vector)
    requires
        k < 16,
    ensures
        forall|i: u128|
            i < 128 ==> #[trigger] bit((a & !(1u16 << k)) as u128, i) == (bit(a as u128, i) && i
                != k as u128),
        a & !(1u16 << k) <= a,
{
}

proof fn lemma_low_bits(a: u16)
    by (bit_vector)
    ensures
        forall|i: u128| 11 <= i < 128 && a <= 0x7ff ==> !#[trigger] bit(a as u128, i),
        forall|i: u128| 8 <= i < 128 && a <= 0xff ==> !#[trigger] bit(a as u128, i),
        forall|i: u128| i < 128 ==> #[trigger] bit(0x7ffu16 as u128, i) == (i < 11),
        forall|i: u128| i < 128 ==> #[trigger] bit(0xffu16 as u128, i) == (i < 8),
        forall|i: u128| i < 128 ==> !#[trigger] bit(0u16 as u128, i),
        forall|i: u128|
            i < 128 ==> #[trigger] bit((a as u128) & 0x1ff_ffff_ffff_ffff_ffff_ffff_ffff_ffff, i)
                == bit(a as u128, i),
{
}

spec fn cards_of(mask: u16) -> Set<int> {
    Set::new(|i: int| 0 <= i < 16 && bit(mask as u128, i as u128))
}

/// The cards left in the deck of the running season.
#[derive(Clone, Copy, Debug)]
pub struct Deck {
    explore_cards_mask: u16,
    monster_cards_mask: u16,
    monsters_in_deck: u8,
}

impl View for Deck {
    type V = DeckView;

    closed spec fn view(&self) -> DeckView {
        DeckView {
            explore: cards_of(self.explore_cards_mask),
            monsters: cards_of(self.monster_cards_mask),
            monsters_in_deck: self.monsters_in_deck as int,
        }
    }
}

impl Deck {
    #[verifier::type_invariant]
    closed spec fn wf(self) -> bool {
        self.explore_cards_mask <= 0x7ff && self.monster_cards_mask <= 0xff
    }

    /// Every deck is valid.
    pub fn check_valid(&self)
        ensures
            self@.valid(),
    {
        proof {
            use_type_invariant(self);
            lemma_low_bits(self.explore_cards_mask);
            lemma_low_bits(self.monster_cards_mask);
        }
    }

    /// The deck with no card.
    pub fn empty() -> (r: Self)
        ensures
            r@ == (DeckView { explore: Set::empty(), monsters: Set::empty(), monsters_in_deck: 0 }),
    {
        let r = Self { explore_cards_mask: 0, monster_cards_mask: 0, monsters_in_deck: 0 };
        proof {
            lemma_low_bits(0);
            assert(r@.explore =~= Set::<int>::empty());
        }
        r
    }

    /// Takes exploration card `idx` out, if it is in.
    pub fn remove_explore_card(&mut self, idx: u16)
        requires
            idx < 16,
        ensures
            final(self)@ == old(self)@.without_explore(idx as int),
    {
        proof {
            use_type_invariant(&*self);
            lemma_clear(self.explore_cards_mask, idx);
        }
        let cleared = self.explore_cards_mask & !(1u16 << idx);
        *self = Self {
            explore_cards_mask: cleared,
            monster_cards_mask: self.monster_cards_mask,
            monsters_in_deck: self.monsters_in_deck,
        };
        assert(self@.explore =~= old(self)@.explore.remove(idx as int));
    }

    /// Takes monster card `idx` out, if it is in, and one monster out of the
    /// pile.
    pub fn remove_monster_card(&mut self, idx: u16)
        requires
            idx < 16,
            old(self)@.monsters_in_deck > 0,
        ensures
            final(self)@ == old(self)@.without_monster(idx as int),
    {
        proof {
            use_type_invariant(&*self);
            lemma_clear(self.monster_cards_mask, idx);
        }
        let cleared = self.monster_cards_mask & !(1u16 << idx);
        *self = Self {
            explore_cards_mask: self.explore_cards_mask,
            monster_cards_mask: cleared,
            monsters_in_deck: self.monsters_in_deck - 1,
        };
        assert(self@.monsters =~= old(self)@.monsters.remove(idx as int));
    }

    /// Shuffles all exploration cards back in, makes every monster card
    /// possible again, and adds one monster to the pile.
    pub fn new_season(&mut self)
        requires
            old(self)@.monsters_in_deck < 255,
        ensures
            final(self)@ == old(self)@.new_season(),
            final(self)@.explore.len() == 11,
            final(self)@.monsters_in_deck == old(self)@.monsters_in_deck + 1,
    {
        *self = Self {
            explore_cards_mask: 0x7ff,
            monster_cards_mask: 0xff,
            monsters_in_deck: self.monsters_in_deck + 1,
        };
        proof {
            lemma_low_bits(0);
            assert(self@.explore =~= Set::new(|i: int| 0 <= i < 11));
            assert(self@.monsters =~= Set::new(|i: int| 0 <= i < 8));
            lemma_small_set(self@.explore, 11);
            vstd::set_lib::lemma_int_range(0, 11);
            assert(self@.explore =~= vstd::set_lib::set_int_range(0, 11));
        }
    }

    /// How many monsters are in this season's pile.
    pub fn monsters_in_deck(&self) -> (r: u8)
        ensures
            r == self@.monsters_in_deck,
    {
        self.monsters_in_deck
    }

    /// Every card that may come next, with its chance and the deck that the
    /// draw leaves.
    pub fn draw_cards(&self) -> (r: Vec<(DrawnCard, Probability, Deck)>)
        ensures
            r@.len() == self@.draws().len(),
            forall|k: int|
                0 <= k < r@.len() ==> (#[trigger] r@[k]).0 == self@.draws()[k].0 && r@[k].1
                    == self@.draws()[k].1 && r@[k].2@ == self@.draws()[k].2,
            self@.valid(),
    {
        self.check_valid();
        let explore = Mask::from_bits(self.explore_cards_mask as u128);
        let monsters = Mask::from_bits(self.monster_cards_mask as u128);
        proof {
            use_type_invariant(self);
            lemma_low_bits(self.explore_cards_mask);
            lemma_low_bits(self.monster_cards_mask);
            assert(explore@ =~= self@.explore);
            assert(monsters@ =~= self@.monsters);
            lemma_small_set(self@.explore, 11);
            lemma_small_set(self@.monsters, 8);
        }
        let e: u32 = explore.count_cells() as u32;
        let mc: u32 = monsters.count_cells() as u32;
        let m: u32 = self.monsters_in_deck as u32;
        let share: u32 = if m > 0 && mc > 0 {
            mc
        } else {
            1
        };
        assert(share * (e + m) <= 8 * 266) by (nonlinear_arith)
            requires
                share <= 8,
                e + m <= 266,
        ;
        let denominator: u32 = share * (e + m);
        let explore_chance = Probability { numerator: share, denominator };
        let monster_chance = Probability { numerator: m, denominator };
        let mut out: Vec<(DrawnCard, Probability, Deck)> = Vec::new();
        let mut cards = explore.cells();
        let ghost wanted = self@.explore_draws();
        loop
            invariant
                explore_chance == self@.explore_probability(),
                wanted == self@.explore_draws(),
                cards@.subset_of(self@.explore),
                self@.explore.subset_of(Set::new(|i: int| 0 <= i < 11)),
                self@.explore.subset_of(grid::board()),
                out@.len() + grid::ascending(cards@).len() == wanted.len(),
                grid::ascending(self@.explore) =~= grid::ascending(self@.explore).take(
                    out@.len() as int,
                ) + grid::ascending(cards@),
                forall|k: int|
                    0 <= k < out@.len() ==> (#[trigger] out@[k]).0 == wanted[k].0 && out@[k].1
                        == wanted[k].1 && out@[k].2@ == wanted[k].2,
            ensures
                out@.len() == wanted.len(),
            decreases cards@.len(),
        {
            let ghost left = cards@;
            match cards.next() {
                None => {break ;
                },
                Some(pos) => {
                    proof {
                        grid::lemma_region_len(left);
                        grid::lemma_least_shrinks(left);
                    }
                    let mut deck = *self;
                    deck.remove_explore_card(pos as u16);
                    out.push((DrawnCard::ExploreCard(pos as u16), explore_chance, deck));
                },
            }
        }
        proof {
            grid::lemma_ascending(self@.explore);
        }
        if m > 0 {
            let mut cards = monsters.cells();
            let ghost wanted = self@.monster_draws();
            let ghost base = self@.explore_draws();
            loop
                invariant
                    m == self@.monsters_in_deck,
                    m > 0,
                    monster_chance == self@.monster_probability(),
                    wanted == self@.monster_draws(),
                    base == self@.explore_draws(),
                    cards@.subset_of(self@.monsters),
                    self@.monsters.subset_of(Set::new(|i: int| 0 <= i < 8)),
                    self@.monsters.subset_of(grid::board()),
                    out@.len() >= base.len(),
                    out@.len() - base.len() + grid::ascending(cards@).len() == wanted.len(),
                    grid::ascending(self@.monsters) =~= grid::ascending(self@.monsters).take(
                        out@.len() - base.len(),
                    ) + grid::ascending(cards@),
                    forall|k: int|
                        0 <= k < base.len() ==> (#[trigger] out@[k]).0 == base[k].0 && out@[k].1
                            == base[k].1 && out@[k].2@ == base[k].2,
                    forall|k: int|
                        base.len() <= k < out@.len() ==> (#[trigger] out@[k]).0 == wanted[k
                            - base.len()].0 && out@[k].1 == wanted[k - base.len()].1 && out@[k].2@
                            == wanted[k - base.len()].2,
                ensures
                    out@.len() - base.len() == wanted.len(),
                decreases cards@.len(),
            {
                let ghost left = cards@;
                match cards.next() {
                    None => {break ;
                    },
                    Some(pos) => {
                        proof {
                            grid::lemma_region_len(left);
                            grid::lemma_least_shrinks(left);
                        }
                        let mut deck = *self;
                        deck.remove_monster_card(pos as u16);
                        out.push((DrawnCard::MonsterCard(pos as u16), monster_chance, deck));
                    },
                }
            }
        }
        out
    }
}

} // verus!
