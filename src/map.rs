//! The world map: a grid of tiles and the items placed on it.
use vstd::prelude::*;

use crate::item::Item;

verus! {

/// What a tile is made of.
#[derive(Clone, Copy, Debug, PartialEq, Eq, Structural)]
pub enum TileKind {
    Grass,
    Rock,
    Empty,
}

/// One cell of the grid.
#[derive(Clone, Copy, Debug, PartialEq, Eq, Structural)]
pub struct Tile {
    pub collision: bool,
    pub kind: TileKind,
}

/// Markers that a map can hold.
#[derive(Clone, Copy, Debug, PartialEq, Eq, Structural)]
pub enum ObjectKind {
    StartLine,
    FinishLine,
}

/// A marker placed on the map; `x` and `y` are `f32` bit patterns.
#[derive(Clone, Copy, Debug, PartialEq, Eq, Structural)]
pub struct Object {
    pub x: u32,
    pub y: u32,
    pub kind: ObjectKind,
}

/// The world: `tiles[y][x]` is the tile in row `y`, column `x`.
#[derive(Clone, Debug, PartialEq)]
pub struct WorldMap {
    pub height: u32,
    pub width: u32,
    pub tiles: Vec<Vec<Tile>>,
    pub items: Vec<Item>,
}

/// The tile of a fresh map: empty, without collision.
pub open spec fn blank_tile() -> Tile {
    Tile { collision: false, kind: TileKind::Empty }
}

impl WorldMap {
    /// The tile at column `x` of row `y`, if the grid has one there.
    pub fn get_tile(&self, x: usize, y: usize) -> (r: Option<&Tile>)
        ensures
            r is Some <==> y < self.tiles@.len() && x < self.tiles@[y as int]@.len(),
            r matches Some(t) ==> *t == self.tiles@[y as int]@[x as int],
    {
        if y < self.tiles.len() {
            let row = &self.tiles[y];
            if x < row.len() {
                return Some(&row[x]);
            }
        }
        None
    }

    /// A map of `height` rows of `width` blank tiles, with no items.
    pub fn new(height: u32, width: u32) -> (r: WorldMap)
        ensures
            r.height == height,
            r.width == width,
            r.tiles@.len() == height,
            forall|y: int| 0 <= y < height ==> (#[trigger] r.tiles@[y])@.len() == width,
            forall|y: int, x: int|
                0 <= y < height && 0 <= x < width ==> #[trigger] r.tiles@[y]@[x] == blank_tile(),
            r.items@.len() == 0,
    {
        let mut tiles: Vec<Vec<Tile>> = Vec::new();
        let mut j: u32 = 0;
        while j < height
            invariant
                j <= height,
                tiles@.len() == j,
                forall|y: int| 0 <= y < j ==> (#[trigger] tiles@[y])@.len() == width,
                forall|y: int, x: int|
                    0 <= y < j && 0 <= x < width ==> #[trigger] tiles@[y]@[x] == blank_tile(),
            decreases height - j,
        {
            let mut row: Vec<Tile> = Vec::new();
            let mut i: u32 = 0;
            while i < width
                invariant
                    i <= width,
                    row@.len() == i,
                    forall|x: int| 0 <= x < i ==> row@[x] == blank_tile(),
                decreases width - i,
            {
                row.push(Tile { collision: false, kind: TileKind::Empty });
                i = i + 1;
            }
            tiles.push(row);
            j = j + 1;
        }
        WorldMap { height, width, tiles, items: Vec::new() }
    }
}

} // verus!
