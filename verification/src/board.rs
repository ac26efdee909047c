//! The printed board: where mountains, wasteland and ruins lie.
use vstd::prelude::*;
use crate::grid;
use crate::mask::Mask;
use crate::game::{PlayerBoard, PlayerTerrain};
use crate::scoring::Regions;
use core::ops::Not;

verus! {

/// The terrain that a board comes with.
#[derive(Clone, Copy, Debug)]
pub struct GameBoard {
    mountain: Mask,
    wasteland: Mask,
    ruin: Mask,
}

/// The mountains of side 1, as `(x, y)`.
pub open spec fn side1_mountains() -> Set<int> {
    set![
        grid::index_of(3, 1),
        grid::index_of(8, 2),
        grid::index_of(5, 5),
        grid::index_of(2, 8),
        grid::index_of(7, 9),
    ]
}

/// The ruins of side 1.
pub open spec fn side1_ruins() -> Set<int> {
    set![
        grid::index_of(1, 2),
        grid::index_of(5, 1),
        grid::index_of(9, 2),
        grid::index_of(1, 8),
        grid::index_of(5, 9),
        grid::index_of(9, 8),
    ]
}

/// The mountains of side 2.
pub open spec fn side2_mountains() -> Set<int> {
    set![
        grid::index_of(3, 2),
        grid::index_of(8, 1),
        grid::index_of(5, 7),
        grid::index_of(2, 9),
        grid::index_of(9, 8),
    ]
}

/// The wasteland of side 2: a cross around `(5, 4)`, one cell longer downwards.
pub open spec fn side2_wasteland() -> Set<int> {
    set![
        grid::index_of(5, 3),
        grid::index_of(4, 4),
        grid::index_of(5, 4),
        grid::index_of(4, 5),
        grid::index_of(5, 5),
        grid::index_of(6, 5),
        grid::index_of(5, 6),
    ]
}

/// The ruins of side 2.
pub open spec fn side2_ruins() -> Set<int> {
    set![
        grid::index_of(2, 2),
        grid::index_of(6, 1),
        grid::index_of(6, 4),
        grid::index_of(1, 6),
        grid::index_of(8, 7),
        grid::index_of(3, 9),
    ]
}

impl GameBoard {
    /// The cells that hold a mountain.
    pub closed spec fn mountain_cells(&self) -> Set<int> {
        self.mountain@
    }

    /// The cells that are wasteland.
    pub closed spec fn wasteland_cells(&self) -> Set<int> {
        self.wasteland@
    }

    /// The cells that hold a ruin.
    pub closed spec fn ruin_cells(&self) -> Set<int> {
        self.ruin@
    }

    /// Side 1 of the board: five mountains, six ruins, no wasteland.
    pub fn side1() -> (r: Self)
        ensures
            r.mountain_cells() == side1_mountains(),
            r.wasteland_cells() == Set::<int>::empty(),
            r.ruin_cells() == side1_ruins(),
    {
        let mountain = Mask::cell(3, 1) | Mask::cell(8, 2) | Mask::cell(5, 5) | Mask::cell(2, 8)
            | Mask::cell(7, 9);
        let ruin = Mask::cell(1, 2) | Mask::cell(5, 1) | Mask::cell(9, 2) | Mask::cell(1, 8)
            | Mask::cell(5, 9) | Mask::cell(9, 8);
        Self { mountain, wasteland: Mask::empty(), ruin }
    }

    /// Side 2 of the board: five mountains, six ruins, and wasteland in the middle.
    pub fn side2() -> (r: Self)
        ensures
            r.mountain_cells() == side2_mountains(),
            r.wasteland_cells() == side2_wasteland(),
            r.ruin_cells() == side2_ruins(),
    {
        let mountain = Mask::cell(3, 2) | Mask::cell(8, 1) | Mask::cell(5, 7) | Mask::cell(2, 9)
            | Mask::cell(9, 8);
        let wasteland = Mask::cell(5, 3) | Mask::cell(4, 4) | Mask::cell(5, 4) | Mask::cell(4, 5)
            | Mask::cell(5, 5) | Mask::cell(6, 5) | Mask::cell(5, 6);
        let ruin = Mask::cell(2, 2) | Mask::cell(6, 1) | Mask::cell(6, 4) | Mask::cell(1, 6)
            | Mask::cell(8, 7) | Mask::cell(3, 9);
        Self { mountain, wasteland, ruin }
    }

    /// The cells that hold a mountain.
    pub fn mountain(&self) -> (r: Mask)
        ensures
            r@ == self.mountain_cells(),
    {
        self.mountain
    }

    /// The cells that are wasteland.
    pub fn wasteland(&self) -> (r: Mask)
        ensures
            r@ == self.wasteland_cells(),
    {
        self.wasteland
    }

    /// The cells that hold a ruin.
    pub fn ruin(&self) -> (r: Mask)
        ensures
            r@ == self.ruin_cells(),
    {
        self.ruin
    }
}

/// The regions of the printed board `game` with `player` placed on it.
pub open spec fn combined(player: PlayerBoard, game: GameBoard) -> Regions {
    Regions {
        forest: player@[PlayerTerrain::Forest],
        village: player@[PlayerTerrain::Village],
        farm: player@[PlayerTerrain::Farm],
        water: player@[PlayerTerrain::Water],
        monster: player@[PlayerTerrain::Monster],
        mountain: game.mountain_cells(),
        wasteland: game.wasteland_cells(),
        ruin: game.ruin_cells(),
    }
}

/// A player's board laid on the printed one.
pub struct CombinedBoard<'a> {
    player: &'a PlayerBoard,
    game: &'a GameBoard,
    filled: Mask,
}

impl<'a> CombinedBoard<'a> {
    #[verifier::type_invariant]
    closed spec fn wf(self) -> bool {
        self.filled@ == combined(*self.player, *self.game).filled()
    }

    /// The cells by what lies on them.
    pub closed spec fn regions(&self) -> Regions {
        combined(*self.player, *self.game)
    }

    /// Lays `player` on `game`.
    pub fn new(player: &'a PlayerBoard, game: &'a GameBoard) -> (r: CombinedBoard<'a>)
        ensures
            r.regions() == combined(*player, *game),
    {
        let filled = player.get_cells(PlayerTerrain::Forest) | player.get_cells(
            PlayerTerrain::Village,
        ) | player.get_cells(PlayerTerrain::Farm) | player.get_cells(PlayerTerrain::Water)
            | player.get_cells(PlayerTerrain::Monster) | game.mountain() | game.wasteland();
        CombinedBoard { player, game, filled }
    }

    /// The cells that hold something. A ruin alone does not fill a cell.
    pub fn filled(&self) -> (m: Mask)
        ensures
            m@ == self.regions().filled(),
    {
        proof {
            use_type_invariant(self);
        }
        self.filled
    }

    /// The cells that hold nothing.
    pub fn empty(&self) -> (m: Mask)
        ensures
            m@ == self.regions().empty(),
    {
        self.filled().not()
    }

    /// The forest cells.
    pub fn forest(&self) -> (m: Mask)
        ensures
            m@ == self.regions().forest,
    {
        self.player.get_cells(PlayerTerrain::Forest)
    }

    /// The village cells.
    pub fn village(&self) -> (m: Mask)
        ensures
            m@ == self.regions().village,
    {
        self.player.get_cells(PlayerTerrain::Village)
    }

    /// The farm cells.
    pub fn farm(&self) -> (m: Mask)
        ensures
            m@ == self.regions().farm,
    {
        self.player.get_cells(PlayerTerrain::Farm)
    }

    /// The water cells.
    pub fn water(&self) -> (m: Mask)
        ensures
            m@ == self.regions().water,
    {
        self.player.get_cells(PlayerTerrain::Water)
    }

    /// The monster cells.
    pub fn monster(&self) -> (m: Mask)
        ensures
            m@ == self.regions().monster,
    {
        self.player.get_cells(PlayerTerrain::Monster)
    }

    /// The mountains.
    pub fn mountain(&self) -> (m: Mask)
        ensures
            m@ == self.regions().mountain,
    {
        self.game.mountain()
    }

    /// The wasteland.
    pub fn wasteland(&self) -> (m: Mask)
        ensures
            m@ == self.regions().wasteland,
    {
        self.game.wasteland()
    }

    /// The ruins.
    pub fn ruin(&self) -> (m: Mask)
        ensures
            m@ == self.regions().ruin,
    {
        self.game.ruin()
    }
}

} // verus!
