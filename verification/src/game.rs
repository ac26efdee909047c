//! Seasons, terrains and the player's own board.
use vstd::prelude::*;
use crate::mask::Mask;

verus! {

/// The four seasons of a game, in the order in which they are played.
#[derive(Clone, Copy, PartialEq, Eq, PartialOrd, Ord, Debug, Structural)]
pub enum Season {
    Spring,
    Summer,
    Fall,
    Winter,
}

impl Season {
    /// The time that the cards of the season may take before it ends.
    pub open spec fn budget(self) -> int {
        match self {
            Season::Spring => 8,
            Season::Summer => 8,
            Season::Fall => 7,
            Season::Winter => 6,
        }
    }

    /// The season that follows; none follows winter.
    pub open spec fn successor(self) -> Option<Season> {
        match self {
            Season::Spring => Some(Season::Summer),
            Season::Summer => Some(Season::Fall),
            Season::Fall => Some(Season::Winter),
            Season::Winter => None,
        }
    }

    /// The time that the cards of the season may take before it ends.
    pub fn time(&self) -> (r: u32)
        ensures
            r == self.budget(),
    {
        match self {
            Season::Spring | Season::Summer => 8,
            Season::Fall => 7,
            Season::Winter => 6,
        }
    }

    /// The season that follows; none follows winter.
    pub fn next(&self) -> (r: Option<Season>)
        ensures
            r == self.successor(),
    {
        match self {
            Season::Spring => Some(Season::Summer),
            Season::Summer => Some(Season::Fall),
            Season::Fall => Some(Season::Winter),
            Season::Winter => None,
        }
    }
}

/// The terrains that a player places.
#[derive(Clone, Copy, PartialEq, Eq, Debug, Structural)]
pub enum PlayerTerrain {
    Forest,
    Village,
    Farm,
    Water,
    Monster,
}

/// The cells that a player has filled, by terrain.
#[derive(Clone, Copy, Debug)]
pub struct PlayerBoard {
    forest: Mask,
    village: Mask,
    farm: Mask,
    water: Mask,
    monster: Mask,
}

impl View for PlayerBoard {
    type V = Map<PlayerTerrain, Set<int>>;

    /// The cells that hold each terrain.
    closed spec fn view(&self) -> Map<PlayerTerrain, Set<int>> {
        Map::new(
            |t: PlayerTerrain| true,
            |t: PlayerTerrain|
                match t {
                    PlayerTerrain::Forest => self.forest@,
                    PlayerTerrain::Village => self.village@,
                    PlayerTerrain::Farm => self.farm@,
                    PlayerTerrain::Water => self.water@,
                    PlayerTerrain::Monster => self.monster@,
                },
        )
    }
}

/// The cells of `board` that hold any terrain.
pub open spec fn occupied(board: Map<PlayerTerrain, Set<int>>) -> Set<int> {
    board[PlayerTerrain::Forest] + board[PlayerTerrain::Village] + board[PlayerTerrain::Farm]
        + board[PlayerTerrain::Water] + board[PlayerTerrain::Monster]
}

/// Whether `board` says of each terrain which cells of the board hold it.
pub open spec fn is_placement(board: Map<PlayerTerrain, Set<int>>) -> bool {
    forall|t: PlayerTerrain| #[trigger]
        board.dom().contains(t) && board[t].subset_of(crate::grid::board())
}

impl PlayerBoard {
    /// The cells that hold `terrain`.
    pub open spec fn cells(&self, terrain: PlayerTerrain) -> Set<int> {
        self@[terrain]
    }

    /// Every board says of each terrain which cells hold it.
    pub proof fn lemma_is_placement(&self)
        ensures
            is_placement(self@),
    {
    }

    /// The cells that hold any terrain.
    pub open spec fn occupied(&self) -> Set<int> {
        occupied(self@)
    }

    /// No cell holds two terrains.
    pub open spec fn is_disjoint(&self) -> bool {
        forall|a: PlayerTerrain, b: PlayerTerrain| a != b ==> self.cells(a).disjoint(self.cells(b))
    }

    /// The board with no cell filled.
    pub fn new() -> (r: Self)
        ensures
            forall|t: PlayerTerrain| #[trigger] r@[t] == Set::<int>::empty(),
    {
        Self {
            forest: Mask::empty(),
            village: Mask::empty(),
            farm: Mask::empty(),
            water: Mask::empty(),
            monster: Mask::empty(),
        }
    }

    /// The board on which each cell holds what `f` says of its linear index.
    pub fn new_with<F: Fn(u8) -> Option<PlayerTerrain>>(f: F) -> (r: Self)
        requires
            forall|i: u8| i < 121 ==> call_requires(f, (i,)),
        ensures
            r.is_disjoint(),
            forall|t: PlayerTerrain, i: int|
                r.cells(t).contains(i) ==> 0 <= i < 121 && call_ensures(f, (i as u8,), Some(t)),
            forall|i: int|
                0 <= i < 121 && !r.occupied().contains(i) ==> call_ensures(f, (i as u8,), None),
    {
        let mut result = Self::new();
        let mut idx: u8 = 0;
        while idx < 121
            invariant
                idx <= 121,
                forall|i: u8| i < 121 ==> call_requires(f, (i,)),
                result.is_disjoint(),
                forall|t: PlayerTerrain, i: int|
                    result.cells(t).contains(i) ==> 0 <= i < idx && call_ensures(
                        f,
                        (i as u8,),
                        Some(t),
                    ),
                forall|i: int|
                    0 <= i < idx && !result.occupied().contains(i) ==> call_ensures(
                        f,
                        (i as u8,),
                        None,
                    ),
            decreases 121 - idx,
        {
            let ghost before = result;
            match f(idx) {
                Some(t) => {
                    let cell = Mask::cell_idx(idx);
                    assert(cell@.disjoint(result.occupied())) by {
                        assert forall|i: int| cell@.contains(i) implies !result.occupied().contains(
                            i,
                        ) by {
                            assert(!result.cells(PlayerTerrain::Forest).contains(i));
                            assert(!result.cells(PlayerTerrain::Village).contains(i));
                            assert(!result.cells(PlayerTerrain::Farm).contains(i));
                            assert(!result.cells(PlayerTerrain::Water).contains(i));
                            assert(!result.cells(PlayerTerrain::Monster).contains(i));
                        }
                    }
                    result = result.place_cells(t, cell);
                },
                None => {},
            }
            assert forall|i: int| 0 <= i < idx + 1 && !result.occupied().contains(i) implies call_ensures(
                f,
                (i as u8,),
                None,
            ) by {
                if i < idx {
                    assert(!before.occupied().contains(i));
                }
            }
            idx += 1;
        }
        result
    }

    /// The cells that hold `terrain`.
    pub fn get_cells(&self, terrain: PlayerTerrain) -> (r: Mask)
        ensures
            r@ == self.cells(terrain),
    {
        match terrain {
            PlayerTerrain::Forest => self.forest,
            PlayerTerrain::Village => self.village,
            PlayerTerrain::Farm => self.farm,
            PlayerTerrain::Water => self.water,
            PlayerTerrain::Monster => self.monster,
        }
    }

    /// The board with `cells` added to `terrain`. Whether the cells were free
    /// is not looked at.
    pub fn place_cells(&self, terrain: PlayerTerrain, cells: Mask) -> (r: Self)
        ensures
            r@ == self@.insert(terrain, self@[terrain] + cells@),
            r.cells(terrain) == self.cells(terrain) + cells@,
            forall|t: PlayerTerrain| t != terrain ==> r.cells(t) == self.cells(t),
            self.is_disjoint() && cells@.disjoint(self.occupied()) ==> r.is_disjoint(),
    {
        let mut r = *self;
        match terrain {
            PlayerTerrain::Forest => {
                r.forest = r.forest | cells;
            },
            PlayerTerrain::Village => {
                r.village = r.village | cells;
            },
            PlayerTerrain::Farm => {
                r.farm = r.farm | cells;
            },
            PlayerTerrain::Water => {
                r.water = r.water | cells;
            },
            PlayerTerrain::Monster => {
                r.monster = r.monster | cells;
            },
        }
        proof {
            if self.is_disjoint() && cells@.disjoint(self.occupied()) {
                assert forall|a: PlayerTerrain, b: PlayerTerrain| a != b implies r.cells(a).disjoint(
                    r.cells(b),
                ) by {
                    assert(self.cells(a).disjoint(self.cells(b)));
                }
            }
        }
        r
    }
}

} // verus!
