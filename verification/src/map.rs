//! The terrain grid.

use vstd::prelude::*;
use vstd::string::StringExecFns;

verus! {

/// Cost, in movement points, of entering a land tile.
pub const LAND_COST: u8 = 1;

/// Cost, in movement points, of entering a water tile: three times a land tile.
pub const WATER_COST: u8 = 3;

/// Movement points that an army spends per turn.
pub const COST_PER_TURN: u8 = 3;

/// What a tile is made of.
#[derive(Clone, Copy, Debug, PartialEq, Eq, Structural)]
pub enum Terrain {
    Water,
    Plains,
    Desert,
    Mountain,
}

impl Terrain {
    /// The character that stands for this terrain in a text dump of the map.
    pub open spec fn spec_to_char(self) -> char {
        match self {
            Terrain::Water => '~',
            Terrain::Plains => '.',
            Terrain::Desert => ':',
            Terrain::Mountain => '^',
        }
    }

    /// The index of this terrain's colour in the 256-colour palette.
    pub open spec fn spec_color_index(self) -> u8 {
        match self {
            Terrain::Water => 26,
            Terrain::Plains => 70,
            Terrain::Desert => 220,
            Terrain::Mountain => 250,
        }
    }

    /// Movement points needed to enter a tile of this terrain; `None` for
    /// mountains, which nothing crosses.
    pub open spec fn spec_step_cost(self) -> Option<nat> {
        match self {
            Terrain::Water => Some(WATER_COST as nat),
            Terrain::Plains => Some(LAND_COST as nat),
            Terrain::Desert => Some(LAND_COST as nat),
            Terrain::Mountain => None,
        }
    }

    /// The character that stands for this terrain in a text dump of the map.
    pub fn to_char(&self) -> (c: char)
        ensures
            c == self.spec_to_char(),
    {
        match self {
            Terrain::Water => '~',
            Terrain::Plains => '.',
            Terrain::Desert => ':',
            Terrain::Mountain => '^',
        }
    }

    /// The index of this terrain's colour in the 256-colour palette.
    pub fn color_index(&self) -> (c: u8)
        ensures
            c == self.spec_color_index(),
    {
        match self {
            Terrain::Water => 26,
            Terrain::Plains => 70,
            Terrain::Desert => 220,
            Terrain::Mountain => 250,
        }
    }

    /// Movement points needed to enter a tile of this terrain; `None` for
    /// mountains.
    pub fn step_cost(&self) -> (c: Option<u8>)
        ensures
            match c {
                Some(v) => self.spec_step_cost() == Some(v as nat) && 1 <= v <= 3,
                None => self.spec_step_cost() is None,
            },
    {
        match self {
            Terrain::Water => Some(WATER_COST),
            Terrain::Plains => Some(LAND_COST),
            Terrain::Desert => Some(LAND_COST),
            Terrain::Mountain => None,
        }
    }

    /// The terrain's character as a one-character string.
    fn symbol(&self) -> (s: &'static str)
        ensures
            s@ == seq![self.spec_to_char()],
    {
        match self {
            Terrain::Water => {
                proof {
                    reveal_strlit("~");
                }
                let s = "~";
                assert(s@ =~= seq!['~']);
                s
            },
            Terrain::Plains => {
                proof {
                    reveal_strlit(".");
                }
                let s = ".";
                assert(s@ =~= seq!['.']);
                s
            },
            Terrain::Desert => {
                proof {
                    reveal_strlit(":");
                }
                let s = ":";
                assert(s@ =~= seq![':']);
                s
            },
            Terrain::Mountain => {
                proof {
                    reveal_strlit("^");
                }
                let s = "^";
                assert(s@ =~= seq!['^']);
                s
            },
        }
    }
}

/// A position on the grid: column, then row.
pub type Point = (usize, usize);

/// A rectangular grid of terrain, stored row by row, with the seed it was
/// generated from.
#[derive(Debug)]
pub struct GameMap {
    pub tiles: Vec<Vec<Terrain>>,
    pub width: usize,
    pub height: usize,
    pub seed: String,
}

/// The characters of one row of terrain.
pub open spec fn row_text(row: Seq<Terrain>) -> Seq<char> {
    Seq::new(row.len(), |i: int| row[i].spec_to_char())
}

/// The text dump of some rows: each row's characters, then a line feed.
pub open spec fn rows_text(rows: Seq<Vec<Terrain>>) -> Seq<char>
    decreases rows.len(),
{
    if rows.len() == 0 {
        Seq::empty()
    } else {
        rows_text(rows.drop_last()) + row_text(rows.last()@) + seq!['\n']
    }
}

impl GameMap {
    /// The grid is rectangular: `height` rows of `width` tiles each, and the
    /// number of tiles fits in a machine word.
    pub open spec fn wf(&self) -> bool {
        &&& self.tiles@.len() == self.height
        &&& forall|y: int| 0 <= y < self.height ==> (#[trigger] self.tiles@[y])@.len() == self.width
        &&& self.width * self.height <= usize::MAX
    }

    /// True when `p` lies on the grid.
    pub open spec fn contains(&self, p: Point) -> bool {
        p.0 < self.width && p.1 < self.height
    }

    /// The terrain at `p`.
    pub open spec fn terrain(&self, p: Point) -> Terrain
        recommends
            self.contains(p),
    {
        self.tiles@[p.1 as int]@[p.0 as int]
    }

    /// Builds a map from its rows. `None` unless every row has the length
    /// of the first and the tile count fits in a machine word.
    pub fn from_tiles(seed: String, tiles: Vec<Vec<Terrain>>) -> (r: Option<GameMap>)
        ensures
            match r {
                Some(m) => {
                    &&& m.wf()
                    &&& m.tiles == tiles
                    &&& m.seed == seed
                    &&& m.height == tiles@.len()
                    &&& tiles@.len() > 0 ==> m.width == tiles@[0]@.len()
                    &&& tiles@.len() == 0 ==> m.width == 0
                },
                None => {
                    ||| exists|y: int| 0 <= y < tiles@.len() && (#[trigger] tiles@[y])@.len() != tiles@[0]@.len()
                    ||| tiles@.len() > 0 && tiles@[0]@.len() * tiles@.len() > usize::MAX
                },
            },
    {
        let height = tiles.len();
        let width = if height == 0 {
            0
        } else {
            tiles[0].len()
        };
        let mut y: usize = 0;
        while y < height
            invariant
                y <= height,
                height == tiles@.len(),
                height > 0 ==> width == tiles@[0]@.len(),
                forall|j: int| 0 <= j < y ==> (#[trigger] tiles@[j])@.len() == width,
            decreases height - y,
        {
            if tiles[y].len() != width {
                return None;
            }
            y = y + 1;
        }
        match width.checked_mul(height) {
            Some(_) => Some(GameMap { tiles, width, height, seed }),
            None => None,
        }
    }

    /// Checks that the grid is rectangular and agrees with its recorded size.
    pub fn is_well_formed(&self) -> (ok: bool)
        ensures
            ok == self.wf(),
    {
        if self.tiles.len() != self.height {
            return false;
        }
        let mut y: usize = 0;
        while y < self.height
            invariant
                y <= self.height,
                self.tiles@.len() == self.height,
                forall|j: int| 0 <= j < y ==> (#[trigger] self.tiles@[j])@.len() == self.width,
            decreases self.height - y,
        {
            if self.tiles[y].len() != self.width {
                return false;
            }
            y = y + 1;
        }
        self.width.checked_mul(self.height).is_some()
    }

    /// The terrain at column `x` of row `y`, if that is on the grid.
    pub fn terrain_at(&self, x: usize, y: usize) -> (t: Option<Terrain>)
        requires
            self.wf(),
        ensures
            t == if self.contains((x, y)) {
                Some(self.terrain((x, y)))
            } else {
                None
            },
    {
        if x < self.width && y < self.height {
            Some(self.tiles[y][x])
        } else {
            None
        }
    }

    /// The map as text: one line per row, one character per tile.
    pub fn to_text(&self) -> (s: String)
        ensures
            s@ == rows_text(self.tiles@),
    {
        let mut out = String::new();
        let mut y: usize = 0;
        while y < self.tiles.len()
            invariant
                y <= self.tiles@.len(),
                out@ == rows_text(self.tiles@.subrange(0, y as int)),
            decreases self.tiles@.len() - y,
        {
            let row = &self.tiles[y];
            let ghost before = out@;
            let mut x: usize = 0;
            while x < row.len()
                invariant
                    x <= row@.len(),
                    out@ == before + row_text(row@.subrange(0, x as int)),
                decreases row@.len() - x,
            {
                out.append(row[x].symbol());
                assert(row_text(row@.subrange(0, x as int + 1)) =~= row_text(
                    row@.subrange(0, x as int),
                ) + seq![row@[x as int].spec_to_char()]);
                assert(out@ =~= before + row_text(row@.subrange(0, x as int + 1)));
                x = x + 1;
            }
            assert(row@.subrange(0, x as int) =~= row@);
            proof {
                reveal_strlit("\n");
            }
            out.append("\n");
            assert("\n"@ =~= seq!['\n']);
            assert(self.tiles@.subrange(0, y as int + 1).drop_last() =~= self.tiles@.subrange(
                0,
                y as int,
            ));
            y = y + 1;
        }
        assert(self.tiles@.subrange(0, y as int) =~= self.tiles@);
        out
    }
}

} // verus!
