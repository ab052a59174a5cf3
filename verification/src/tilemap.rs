//! A grid of square tiles, each solid or not, laid out from the origin up
//! and to the right.

use crate::common::{Vec2, AABB};
use crate::fixed::Fixed;
use crate::input::{InputState, MouseButton};
use crate::registry::copy_list;
use crate::shell::{parse_id, spec_parse_id, spec_words, split_words};
use vstd::prelude::*;

verus! {

/// The solid flags of the tiles: a dynamically sized matrix of nalgebra,
/// one row of the matrix for each row of tiles. The verifier does not look
/// inside; what it knows of the matrix it has from `grid_rows`.
#[verifier::external_body]
pub struct TileGrid {
    cells: nalgebra::DMatrix<bool>,
}

/// What the matrix holds, row by row.
pub uninterp spec fn grid_rows(grid: TileGrid) -> Seq<Seq<bool>>;

/// Whether the rows are as many as `height` and each as long as `width`.
pub open spec fn spec_is_grid(rows: Seq<Seq<bool>>, width: usize, height: usize) -> bool {
    rows.len() == height && forall|y: int| 0 <= y < height ==> (#[trigger] rows[y]).len() == width
}

/// `nalgebra::DMatrix::from_element` with the element `false`: a matrix of
/// `height` rows and `width` columns that holds `false` everywhere. The
/// function multiplies the two numbers and collects that many elements in a
/// `Vec`, so the product has to be one that a `Vec` of bytes can hold.
#[verifier::external_body]
fn grid_new(height: usize, width: usize) -> (grid: TileGrid)
    requires
        height * width <= isize::MAX,
    ensures
        spec_is_grid(grid_rows(grid), width, height),
        forall|y: int, x: int|
            0 <= y < height && 0 <= x < width ==> #[trigger] grid_rows(grid)[y][x] == false,
{
    TileGrid { cells: nalgebra::DMatrix::from_element(height, width, false) }
}

/// `Index<(usize, usize)>::index` of `nalgebra::Matrix`, which `m[(row,
/// column)]` calls: the element in that row and column. It panics unless
/// the row is below the number of rows and the column below the number of
/// columns.
#[verifier::external_body]
fn grid_get(grid: &TileGrid, y: usize, x: usize) -> (solid: bool)
    requires
        y < grid_rows(*grid).len(),
        x < grid_rows(*grid)[y as int].len(),
    ensures
        solid == grid_rows(*grid)[y as int][x as int],
{
    grid.cells[(y, x)]
}

/// `IndexMut<(usize, usize)>::index_mut` of `nalgebra::Matrix`, which
/// `m[(row, column)] = value` calls: it hands out the element in that row and
/// column, so the assignment replaces that element and no other. It panics
/// unless the row is below the number of rows and the column below the
/// number of columns, and not otherwise.
#[verifier::external_body]
fn grid_set(grid: &mut TileGrid, y: usize, x: usize, solid: bool)
    requires
        y < grid_rows(*old(grid)).len(),
        x < grid_rows(*old(grid))[y as int].len(),
    ensures
        grid_rows(*final(grid)) == grid_rows(*old(grid)).update(
            y as int,
            grid_rows(*old(grid))[y as int].update(x as int, solid),
        ),
    no_unwind
{
    grid.cells[(y, x)] = solid;
}

/// A tile map as plain values: `solid[y][x]` says whether the tile in
/// column `x` of row `y` is solid. Row 0 is the lowest.
pub struct TilemapView {
    pub tile_size: Fixed,
    pub width: usize,
    pub height: usize,
    pub solid: Seq<Seq<bool>>,
}

impl TilemapView {
    /// A map has a flag for each of its `width` times `height` tiles.
    pub open spec fn wf(self) -> bool {
        spec_is_grid(self.solid, self.width, self.height)
    }

    /// Whether there is a tile at column `x` of row `y` and it is solid.
    pub open spec fn is_solid(self, x: usize, y: usize) -> bool {
        x < self.width && y < self.height && self.solid[y as int][x as int]
    }

    /// The map with the tile at column `x` of row `y` changed from solid to
    /// not solid or back.
    pub open spec fn toggled(self, x: usize, y: usize) -> TilemapView {
        TilemapView {
            solid: self.solid.update(
                y as int,
                self.solid[y as int].update(x as int, !self.solid[y as int][x as int]),
            ),
            ..self
        }
    }

    /// The tile along one axis in which the coordinate lies, if it lies in
    /// one of the `count` tiles there: tile 0 begins at the origin, and
    /// each is `tile_size` long.
    ///
    /// With a tile size below zero every coordinate from zero up counts as
    /// in tile 0, and with a tile size of zero only zero does.
    pub open spec fn axis_tile(self, coord: Fixed, count: usize) -> Option<usize> {
        if coord.raw < 0 {
            None
        } else if self.tile_size.raw > 0 {
            if coord.raw / self.tile_size.raw < count {
                Some((coord.raw / self.tile_size.raw) as usize)
            } else {
                None
            }
        } else if (self.tile_size.raw < 0 || coord.raw == 0) && 0 < count {
            Some(0)
        } else {
            None
        }
    }

    /// The tile, as column and row, in which the point lies, if it lies in
    /// the map.
    pub open spec fn tile_for(self, local_coord: Vec2) -> Option<(usize, usize)> {
        match (
            self.axis_tile(local_coord.x, self.width),
            self.axis_tile(local_coord.y, self.height),
        ) {
            (Some(x), Some(y)) => Some((x, y)),
            _ => None,
        }
    }
}

impl TilemapView {
    /// The solid tiles of column `x` in the rows from `from` up to, not
    /// including, `to`, from the lowest up.
    pub open spec fn column_tiles(self, x: usize, from: int, to: int) -> Seq<(usize, usize)>
        decreases to - from,
    {
        if from >= to {
            seq![]
        } else if self.is_solid(x, (to - 1) as usize) {
            self.column_tiles(x, from, to - 1).push((x, (to - 1) as usize))
        } else {
            self.column_tiles(x, from, to - 1)
        }
    }

    /// The solid tiles of the columns from `from_x` up to, not including,
    /// `to_x`, in the rows from `from_y` up to, not including, `to_y`:
    /// column after column from the left, each from the lowest row up.
    pub open spec fn block_tiles(self, from_x: int, to_x: int, from_y: int, to_y: int) -> Seq<
        (usize, usize),
    >
        decreases to_x - from_x,
    {
        if from_x >= to_x {
            seq![]
        } else {
            self.block_tiles(from_x, to_x - 1, from_y, to_y) + self.column_tiles(
                (to_x - 1) as usize,
                from_y,
                to_y,
            )
        }
    }

    /// The solid tiles between the tile under the lower left corner of the
    /// box and the tile under its upper right corner. None where either
    /// corner lies outside the map.
    pub open spec fn intersects_box(self, aabb: AABB) -> Seq<(usize, usize)> {
        match (
            self.tile_for(aabb.center.spec_sub(aabb.half_size)),
            self.tile_for(aabb.center.spec_add(aabb.half_size)),
        ) {
            (Some(bl), Some(tr)) => self.block_tiles(bl.0 as int, tr.0 + 1, bl.1 as int, tr.1 + 1),
            _ => seq![],
        }
    }
}

/// A tile is among the solid tiles of a column exactly if it is solid and
/// lies in that column, in one of the rows asked for.
pub proof fn lemma_column_tiles_are(map: TilemapView, x: usize, from: int, to: int, tile: (usize, usize))
    requires
        0 <= from,
        to <= usize::MAX,
    ensures
        map.column_tiles(x, from, to).contains(tile) <==> (tile.0 == x && from <= tile.1 < to
            && map.is_solid(tile.0, tile.1)),
    decreases to - from,
{
    if from < to {
        lemma_column_tiles_are(map, x, from, to - 1, tile);
        let lower = map.column_tiles(x, from, to - 1);
        if map.is_solid(x, (to - 1) as usize) {
            crate::registry::lemma_push_contains(lower, (x, (to - 1) as usize));
        }
    }
}

/// A tile is among the solid tiles of a block exactly if it is solid and
/// lies in one of the columns and one of the rows asked for.
pub proof fn lemma_block_tiles_are(
    map: TilemapView,
    from_x: int,
    to_x: int,
    from_y: int,
    to_y: int,
    tile: (usize, usize),
)
    requires
        0 <= from_x,
        to_x <= usize::MAX,
        0 <= from_y,
        to_y <= usize::MAX,
    ensures
        map.block_tiles(from_x, to_x, from_y, to_y).contains(tile) <==> (from_x <= tile.0 < to_x
            && from_y <= tile.1 < to_y && map.is_solid(tile.0, tile.1)),
    decreases to_x - from_x,
{
    if from_x < to_x {
        lemma_block_tiles_are(map, from_x, to_x - 1, from_y, to_y, tile);
        lemma_column_tiles_are(map, (to_x - 1) as usize, from_y, to_y, tile);
        let left = map.block_tiles(from_x, to_x - 1, from_y, to_y);
        let last = map.column_tiles((to_x - 1) as usize, from_y, to_y);
        assert((left + last).contains(tile) <==> (left.contains(tile) || last.contains(tile))) by {
            if left.contains(tile) {
                let i = choose|i: int| 0 <= i < left.len() && left[i] == tile;
                assert((left + last)[i] == tile);
            }
            if last.contains(tile) {
                let i = choose|i: int| 0 <= i < last.len() && last[i] == tile;
                assert((left + last)[left.len() + i] == tile);
            }
            if (left + last).contains(tile) {
                let i = choose|i: int| 0 <= i < (left + last).len() && (left + last)[i] == tile;
                if i < left.len() {
                    assert(left[i] == tile);
                } else {
                    assert(last[i - left.len()] == tile);
                }
            }
        }
    }
}

/// A change to a tile map.
#[derive(Clone, Copy, PartialEq, Eq, Debug, Structural)]
pub enum TilemapAction {
    /// Make the tile at this column and row solid if it is not, and not
    /// solid if it is.
    ToggleTileCollision(usize, usize),
}

pub struct Tilemap {
    collisions: TileGrid,
    tile_size: Fixed,
    width: usize,
    height: usize,
}

impl View for Tilemap {
    type V = TilemapView;

    closed spec fn view(&self) -> TilemapView {
        TilemapView {
            tile_size: self.tile_size,
            width: self.width,
            height: self.height,
            solid: grid_rows(self.collisions),
        }
    }
}

impl Tilemap {
    #[verifier::type_invariant]
    spec fn shaped(self) -> bool {
        spec_is_grid(grid_rows(self.collisions), self.width, self.height)
    }

    /// Whether a map of this many tiles can be made.
    pub fn fits(width: usize, height: usize) -> (ok: bool)
        ensures
            ok == (height * width <= isize::MAX),
    {
        match height.checked_mul(width) {
            Some(tiles) => tiles <= isize::MAX as usize,
            None => false,
        }
    }

    /// A map of `width` by `height` tiles, none of them solid.
    pub fn new(width: usize, height: usize, tile_size: Fixed) -> (map: Tilemap)
        requires
            height * width <= isize::MAX,
        ensures
            map@.wf(),
            map@.width == width,
            map@.height == height,
            map@.tile_size == tile_size,
            forall|x: usize, y: usize| !map@.is_solid(x, y),
    {
        Tilemap { tile_size, width, height, collisions: grid_new(height, width) }
    }

    /// Makes the map of a level out of the lines of its file. The size of a
    /// tile, which the header gives as its third word, is taken as read by
    /// the caller.
    pub fn from_file(lines: &Vec<Vec<char>>, tile_size: Fixed) -> (level: Result<
        (Tilemap, bool),
        LevelError,
    >)
        ensures
            match level {
                Ok((map, truncated)) => map@.wf() && spec_level(spec_texts(lines@), tile_size) == Ok::<
                    (TilemapView, bool),
                    LevelError,
                >((map@, truncated)),
                Err(e) => spec_level(spec_texts(lines@), tile_size) == Err::<
                    (TilemapView, bool),
                    LevelError,
                >(e),
            },
    {
        if lines.len() == 0 {
            let map = Tilemap::new(0, 0, Fixed::zero());
            assert(map@.solid =~= seq![]);
            return Ok((map, false));
        }
        assert(spec_texts(lines@)[0] == lines@[0]@);
        let (width, height) = match read_header(&lines[0]) {
            Some((width, height, _)) => (width, height),
            None => {
                return Err(LevelError::BadHeader);
            },
        };
        let mut rows: Vec<Vec<char>> = Vec::new();
        let mut i: usize = 1;
        while i < lines.len()
            invariant
                1 <= i <= lines.len(),
                rows@.len() == i - 1,
                spec_texts(rows@) == spec_texts(lines@).subrange(1, i as int),
            decreases lines.len() - i,
        {
            let ghost copied = rows@;
            rows.push(copy_list(&lines[i]));
            proof {
                let wanted = spec_texts(lines@).subrange(1, i as int + 1);
                assert forall|j: int| 0 <= j < rows@.len() implies spec_texts(rows@)[j]
                    == wanted[j] by {
                    if j < copied.len() {
                        assert(rows@[j] == copied[j]);
                        assert(spec_texts(copied)[j] == spec_texts(lines@).subrange(
                            1,
                            i as int,
                        )[j]);
                    } else {
                        assert(rows@[j]@ == lines@[i as int]@);
                        assert(wanted[j] == spec_texts(lines@)[i as int]);
                    }
                }
                assert(spec_texts(rows@) =~= wanted);
            }
            i += 1;
        }
        Tilemap::from_rows(width, height, tile_size, &rows)
    }

    /// Makes the map of a level out of the lines after its first: each
    /// line with a word in it is a row of tiles, the first of them the top
    /// row. Says also whether any row had tiles to spare.
    pub fn from_rows(width: usize, height: usize, tile_size: Fixed, lines: &Vec<Vec<char>>) -> (level:
        Result<(Tilemap, bool), LevelError>)
        ensures
            match level {
                Ok((map, truncated)) => {
                    &&& spec_level_error(spec_texts(lines@), width, height) is None
                    &&& map@.wf()
                    &&& map@ == (TilemapView {
                        tile_size,
                        width,
                        height,
                        solid: spec_filled(spec_texts(lines@), lines@.len() as int, width, height),
                    })
                    &&& truncated == spec_truncated(spec_texts(lines@), lines@.len() as int, width)
                },
                Err(e) => spec_level_error(spec_texts(lines@), width, height) == Some(e),
            },
    {
        if !Tilemap::fits(width, height) {
            return Err(LevelError::TooLarge);
        }
        let ghost texts = spec_texts(lines@);
        let mut grid = grid_new(height, width);
        let mut truncated = false;
        let mut got_rows: usize = 0;
        let mut k: usize = 0;
        proof {
            assert forall|y: int| 0 <= y < height implies #[trigger] grid_rows(grid)[y]
                =~= Seq::new(width as nat, |x: int| false) by {
                assert(grid_rows(grid)[y].len() == width);
            }
            assert(grid_rows(grid) =~= spec_filled(texts, 0, width, height));
        }
        while k < lines.len()
            invariant
                0 <= k <= lines.len(),
                texts == spec_texts(lines@),
                height * width <= isize::MAX,
                spec_lines_error(texts, k as int, width, height) is None,
                got_rows == spec_rows_in(texts, k as int),
                got_rows <= k,
                grid_rows(grid) == spec_filled(texts, k as int, width, height),
                truncated == spec_truncated(texts, k as int, width),
            decreases lines.len() - k,
        {
            let words = split_words(&lines[k]);
            let ghost spoken = spec_words(texts[k as int]);
            let ghost base = grid_rows(grid);
            proof {
                assert(texts[k as int] == lines@[k as int]@);
                lemma_filled_is_grid(texts, k as int, width, height);
            }
            if words.len() == 0 {
                k += 1;
                continue ;
            }
            if words.len() < width {
                proof {
                    lemma_line_error_found(texts, k as int, width, height);
                }
                return Err(LevelError::RowTooShort);
            }
            if words.len() > width {
                truncated = true;
            }
            let room = got_rows < height;
            let mut i: usize = 0;
            proof {
                if room {
                    let y = height - got_rows - 1;
                    let untouched = Seq::new(
                        width as nat,
                        |x: int| base[y][x] || (x < 0 && spec_tile_flag(spoken[x])),
                    );
                    assert(untouched =~= base[y]);
                    assert(base.update(y, untouched) =~= base);
                }
            }
            while i < words.len()
                invariant
                    0 <= i <= words.len(),
                    0 <= k < lines.len(),
                    texts == spec_texts(lines@),
                    spoken == spec_words(texts[k as int]),
                    height * width <= isize::MAX,
                    spec_lines_error(texts, k as int, width, height) is None,
                    got_rows == spec_rows_in(texts, k as int),
                    words@.len() == spoken.len(),
                    forall|j: int| 0 <= j < words@.len() ==> (#[trigger] words@[j])@ == spoken[j],
                    spoken.len() >= width,
                    room == (got_rows < height),
                    spec_is_grid(base, width, height),
                    spec_row_error(spoken, i as int, width, room) is None,
                    room ==> grid_rows(grid) == base.update(
                        height - got_rows - 1,
                        Seq::new(
                            width as nat,
                            |x: int|
                                base[height - got_rows - 1][x] || (x < i && spec_tile_flag(
                                    spoken[x],
                                )),
                        ),
                    ),
                    !room ==> grid_rows(grid) == base,
                decreases words.len() - i,
            {
                assert(words@[i as int]@ == spoken[i as int]);
                let kind = match parse_id(&words[i]) {
                    Some(kind) => kind,
                    None => {
                        proof {
                            lemma_row_error_found(texts, k as int, i as int, width, height);
                        }
                        return Err(LevelError::BadTile);
                    },
                };
                if kind > 0 {
                    if !room || i >= width {
                        proof {
                            lemma_row_error_found(texts, k as int, i as int, width, height);
                        }
                        return Err(LevelError::TileOutsideLevel);
                    }
                    let y = height - got_rows - 1;
                    let ghost filling = grid_rows(grid);
                    grid_set(&mut grid, y, i, true);
                    proof {
                        let before = Seq::new(
                            width as nat,
                            |x: int| base[y as int][x] || (x < i && spec_tile_flag(spoken[x])),
                        );
                        let after = Seq::new(
                            width as nat,
                            |x: int| base[y as int][x] || (x < i + 1 && spec_tile_flag(spoken[x])),
                        );
                        assert(filling[y as int] == before);
                        assert(before.update(i as int, true) =~= after);
                        assert(filling.update(y as int, after) =~= base.update(y as int, after));
                    }
                } else {
                    proof {
                        if room {
                            let y = height - got_rows - 1;
                            let before = Seq::new(
                                width as nat,
                                |x: int| base[y][x] || (x < i && spec_tile_flag(spoken[x])),
                            );
                            let after = Seq::new(
                                width as nat,
                                |x: int| base[y][x] || (x < i + 1 && spec_tile_flag(spoken[x])),
                            );
                            assert(before =~= after);
                        }
                    }
                }
                i += 1;
            }
            proof {
                assert(spec_line_error(texts, k as int, width, height) is None);
                if room {
                    let y = height - got_rows - 1;
                    let whole = Seq::new(
                        width as nat,
                        |x: int| base[y][x] || (x < i && spec_tile_flag(spoken[x])),
                    );
                    let wanted = Seq::new(
                        width as nat,
                        |x: int| base[y][x] || spec_tile_flag(spoken[x]),
                    );
                    assert(whole =~= wanted);
                }
            }
            got_rows += 1;
            k += 1;
        }
        if got_rows != height {
            return Err(LevelError::WrongRowCount);
        }
        proof {
            lemma_filled_is_grid(texts, lines@.len() as int, width, height);
        }
        Ok((Tilemap { tile_size, width, height, collisions: grid }, truncated))
    }

    pub fn width(&self) -> (width: usize)
        ensures
            width == self@.width,
            self@.wf(),
    {
        proof {
            use_type_invariant(self);
        }
        self.width
    }

    pub fn height(&self) -> (height: usize)
        ensures
            height == self@.height,
    {
        self.height
    }

    pub fn tile_size(&self) -> (tile_size: Fixed)
        ensures
            tile_size == self@.tile_size,
    {
        self.tile_size
    }

    /// The tile in which the point lies, if it lies in the map.
    pub fn tile_for(&self, local_coord: Vec2) -> (tile: Option<(usize, usize)>)
        ensures
            tile == self@.tile_for(local_coord),
    {
        match (
            axis_tile(self.tile_size, local_coord.x, self.width),
            axis_tile(self.tile_size, local_coord.y, self.height),
        ) {
            (Some(x), Some(y)) => Some((x, y)),
            _ => None,
        }
    }

    /// Whether the tile at column `x` of row `y` is solid. Outside the map
    /// nothing is.
    pub fn get_tile(&self, x: usize, y: usize) -> (solid: bool)
        ensures
            solid == self@.is_solid(x, y),
    {
        proof {
            use_type_invariant(self);
        }
        if x >= self.width || y >= self.height {
            return false;
        }
        grid_get(&self.collisions, y, x)
    }

    /// The solid tiles that the box may touch: those between the tile under
    /// its lower left corner and the tile under its upper right corner.
    /// A box with a corner outside the map gets none.
    pub fn intersects_box(&self, aabb: &AABB) -> (isects: Vec<(usize, usize)>)
        ensures
            isects@ == self@.intersects_box(*aabb),
    {
        let mut isects: Vec<(usize, usize)> = Vec::new();
        let obl = self.tile_for(aabb.bottom_left());
        let otr = self.tile_for(aabb.top_right());
        if let (Some(bl), Some(tr)) = (obl, otr) {
            let mut x: usize = bl.0;
            while x <= tr.0
                invariant
                    bl.0 <= x,
                    x <= tr.0 + 1 || x == bl.0,
                    tr.0 < self@.width,
                    tr.1 < self@.height,
                    isects@ == self@.block_tiles(bl.0 as int, x as int, bl.1 as int, tr.1 + 1),
                decreases tr.0 + 1 - x,
            {
                let ghost before = isects@;
                let mut y: usize = bl.1;
                while y <= tr.1
                    invariant
                        bl.1 <= y,
                        y <= tr.1 + 1 || y == bl.1,
                        tr.1 < self@.height,
                        isects@ == before + self@.column_tiles(x, bl.1 as int, y as int),
                    decreases tr.1 + 1 - y,
                {
                    let ghost column = self@.column_tiles(x, bl.1 as int, y as int);
                    if self.get_tile(x, y) {
                        isects.push((x, y));
                        assert(isects@ =~= before + column.push((x, y)));
                    }
                    y += 1;
                }
                proof {
                    lemma_empty_span(self@, x, bl.1 as int, y as int, tr.1 + 1);
                }
                x += 1;
            }
            proof {
                lemma_empty_block(self@, bl.0 as int, x as int, tr.0 + 1, bl.1 as int, tr.1 + 1);
            }
        }
        isects
    }

    /// Carries out a change to the map.
    pub fn resolve_action(&mut self, action: &TilemapAction)
        requires
            match *action {
                TilemapAction::ToggleTileCollision(x, y) => x < old(self)@.width && y < old(
                    self,
                )@.height,
            },
        ensures
            final(self)@.wf(),
            match *action {
                TilemapAction::ToggleTileCollision(x, y) => final(self)@ == old(self)@.toggled(x, y),
            },
    {
        proof {
            use_type_invariant(&*self);
        }
        match action {
            TilemapAction::ToggleTileCollision(x, y) => {
                let solid = grid_get(&self.collisions, *y, *x);
                grid_set(&mut self.collisions, *y, *x, !solid);
            },
        }
    }

    /// A press of the left mouse button with the cursor at the world point
    /// `cursor` toggles the tile under the cursor, if there is one.
    pub fn input(&mut self, input: &InputState, cursor: Vec2)
        ensures
            final(self)@.wf(),
            final(self)@ == if input.spec_mouse_pressed(MouseButton::Left) {
                match old(self)@.tile_for(cursor) {
                    Some((x, y)) => old(self)@.toggled(x, y),
                    None => old(self)@,
                }
            } else {
                old(self)@
            },
    {
        proof {
            use_type_invariant(&*self);
        }
        if input.mouse_pressed(MouseButton::Left) {
            if let Some((x, y)) = self.tile_for(cursor) {
                self.resolve_action(&TilemapAction::ToggleTileCollision(x, y));
            }
        }
    }
}

/// Why the rows of a level do not make a map.
#[derive(Clone, Copy, PartialEq, Eq, Debug, Structural)]
pub enum LevelError {
    /// The first line does not begin with the width and the height of the
    /// level and a third word.
    BadHeader,
    /// The level has more tiles than a map can hold.
    TooLarge,
    /// A row has fewer tiles than the level is wide.
    RowTooShort,
    /// A tile is not written as a number.
    BadTile,
    /// A solid tile stands beyond the width of the level, or in a row
    /// beyond its height.
    TileOutsideLevel,
    /// The level does not have as many rows as it is high.
    WrongRowCount,
}

/// The lines as plain sequences of characters.
pub open spec fn spec_texts(lines: Seq<Vec<char>>) -> Seq<Seq<char>> {
    Seq::new(lines.len(), |i: int| lines[i]@)
}

/// What the first line of a level says: how many tiles the level is wide
/// and high, and, still as written, how large a tile is. Words after these
/// three are ignored.
pub open spec fn spec_header(line: Seq<char>) -> Option<(usize, usize, Seq<char>)> {
    let words = spec_words(line);
    if words.len() >= 3 && spec_parse_id(words[0]) is Some && spec_parse_id(words[1]) is Some {
        Some((spec_parse_id(words[0])->0, spec_parse_id(words[1])->0, words[2]))
    } else {
        None
    }
}

/// A tile is written as a number: zero for an open tile, anything above for
/// a solid one.
pub open spec fn spec_tile_flag(word: Seq<char>) -> bool {
    spec_parse_id(word) matches Some(kind) && kind > 0
}

/// What is wrong with the word at `index` of a row. `room` says that the
/// level still has a row for it.
pub open spec fn spec_word_error(word: Seq<char>, index: int, width: usize, room: bool) -> Option<
    LevelError,
> {
    if spec_parse_id(word) is None {
        Some(LevelError::BadTile)
    } else if spec_tile_flag(word) && (!room || index >= width) {
        Some(LevelError::TileOutsideLevel)
    } else {
        None
    }
}

/// The first thing wrong among the first `n` words of a row.
pub open spec fn spec_row_error(words: Seq<Seq<char>>, n: int, width: usize, room: bool) -> Option<
    LevelError,
>
    decreases n,
{
    if n <= 0 {
        None
    } else {
        match spec_row_error(words, n - 1, width, room) {
            Some(e) => Some(e),
            None => spec_word_error(words[n - 1], n - 1, width, room),
        }
    }
}

/// How many of the first `n` lines are rows: a line without a word is
/// none.
pub open spec fn spec_rows_in(lines: Seq<Seq<char>>, n: int) -> nat
    decreases n,
{
    if n <= 0 {
        0
    } else if spec_words(lines[n - 1]).len() > 0 {
        spec_rows_in(lines, n - 1) + 1
    } else {
        spec_rows_in(lines, n - 1)
    }
}

/// What is wrong with the line `k`, given the lines before it.
pub open spec fn spec_line_error(lines: Seq<Seq<char>>, k: int, width: usize, height: usize) -> Option<
    LevelError,
> {
    let words = spec_words(lines[k]);
    if words.len() == 0 {
        None
    } else if words.len() < width {
        Some(LevelError::RowTooShort)
    } else {
        spec_row_error(words, words.len() as int, width, spec_rows_in(lines, k) < height)
    }
}

/// The first thing wrong among the first `n` lines.
pub open spec fn spec_lines_error(lines: Seq<Seq<char>>, n: int, width: usize, height: usize) -> Option<
    LevelError,
>
    decreases n,
{
    if n <= 0 {
        None
    } else {
        match spec_lines_error(lines, n - 1, width, height) {
            Some(e) => Some(e),
            None => spec_line_error(lines, n - 1, width, height),
        }
    }
}

/// Why the rows make no map of the given width and height, if they do not:
/// the first thing wrong, reading line by line and word by word, or, where
/// nothing is wrong on the way, a wrong number of rows.
pub open spec fn spec_level_error(lines: Seq<Seq<char>>, width: usize, height: usize) -> Option<
    LevelError,
> {
    if height * width > isize::MAX {
        Some(LevelError::TooLarge)
    } else {
        match spec_lines_error(lines, lines.len() as int, width, height) {
            Some(e) => Some(e),
            None => if spec_rows_in(lines, lines.len() as int) != height {
                Some(LevelError::WrongRowCount)
            } else {
                None
            },
        }
    }
}

/// The tiles after the first `n` lines were read: the rows fill the map
/// from the top down, and a tile is solid where its row says so.
pub open spec fn spec_filled(lines: Seq<Seq<char>>, n: int, width: usize, height: usize) -> Seq<
    Seq<bool>,
>
    decreases n,
{
    if n <= 0 {
        Seq::new(height as nat, |y: int| Seq::new(width as nat, |x: int| false))
    } else {
        let grid = spec_filled(lines, n - 1, width, height);
        let words = spec_words(lines[n - 1]);
        let got = spec_rows_in(lines, n - 1);
        if words.len() > 0 && words.len() >= width && got < height {
            let y = height - got - 1;
            grid.update(y, Seq::new(width as nat, |x: int| grid[y][x] || spec_tile_flag(words[x])))
        } else {
            grid
        }
    }
}

/// What the lines of a level file make, with tiles of the given size: a map
/// and whether a row had tiles to spare, or what is wrong with the level.
///
/// A file without a line makes an empty map with tiles of no size. In any
/// other the first line is the header, which gives the width and the height
/// of the map, and the lines after it are its rows.
pub open spec fn spec_level(lines: Seq<Seq<char>>, tile_size: Fixed) -> Result<
    (TilemapView, bool),
    LevelError,
> {
    if lines.len() == 0 {
        Ok(
            (
                TilemapView { tile_size: Fixed { raw: 0 }, width: 0, height: 0, solid: seq![] },
                false,
            ),
        )
    } else {
        match spec_header(lines[0]) {
            None => Err(LevelError::BadHeader),
            Some((width, height, _)) => {
                let rows = lines.subrange(1, lines.len() as int);
                match spec_level_error(rows, width, height) {
                    Some(e) => Err(e),
                    None => Ok(
                        (
                            TilemapView {
                                tile_size,
                                width,
                                height,
                                solid: spec_filled(rows, rows.len() as int, width, height),
                            },
                            spec_truncated(rows, rows.len() as int, width),
                        ),
                    ),
                }
            },
        }
    }
}

/// Whether one of the first `n` lines has more words than the level is
/// wide.
pub open spec fn spec_truncated(lines: Seq<Seq<char>>, n: int, width: usize) -> bool
    decreases n,
{
    if n <= 0 {
        false
    } else {
        spec_truncated(lines, n - 1, width) || spec_words(lines[n - 1]).len() > width
    }
}

/// Reads the first line of a level.
pub fn read_header(line: &Vec<char>) -> (header: Option<(usize, usize, Vec<char>)>)
    ensures
        match header {
            Some((width, height, tile_size)) => spec_header(line@) == Some(
                (width, height, tile_size@),
            ),
            None => spec_header(line@) is None,
        },
{
    let words = split_words(line);
    if words.len() < 3 {
        return None;
    }
    assert(words@[0]@ == spec_words(line@)[0]);
    assert(words@[1]@ == spec_words(line@)[1]);
    assert(words@[2]@ == spec_words(line@)[2]);
    match (parse_id(&words[0]), parse_id(&words[1])) {
        (Some(width), Some(height)) => Some((width, height, copy_list(&words[2]))),
        _ => None,
    }
}

/// The tiles keep their shape when one of them is set.
proof fn lemma_update_keeps_grid(rows: Seq<Seq<bool>>, width: usize, height: usize, y: int, row: Seq<bool>)
    requires
        spec_is_grid(rows, width, height),
        0 <= y < height,
        row.len() == width,
    ensures
        spec_is_grid(rows.update(y, row), width, height),
{
    let after = rows.update(y, row);
    assert forall|k: int| 0 <= k < height implies (#[trigger] after[k]).len() == width by {
        if k != y {
            assert(after[k] == rows[k]);
        }
    }
}

/// The tiles have the shape of the level however many lines were read.
proof fn lemma_filled_is_grid(lines: Seq<Seq<char>>, n: int, width: usize, height: usize)
    ensures
        spec_is_grid(spec_filled(lines, n, width, height), width, height),
    decreases n,
{
    if n > 0 {
        lemma_filled_is_grid(lines, n - 1, width, height);
        let grid = spec_filled(lines, n - 1, width, height);
        let words = spec_words(lines[n - 1]);
        let got = spec_rows_in(lines, n - 1);
        if words.len() > 0 && words.len() >= width && got < height {
            let y = height - got - 1;
            lemma_update_keeps_grid(
                grid,
                width,
                height,
                y,
                Seq::new(width as nat, |x: int| grid[y][x] || spec_tile_flag(words[x])),
            );
        }
    }
}

/// No row of tiles has been read into a row of the map that the lines so
/// far have not reached: its tiles are all open.
pub proof fn lemma_unreached_row_is_open(
    lines: Seq<Seq<char>>,
    n: int,
    width: usize,
    height: usize,
    x: int,
    y: int,
)
    requires
        0 <= x < width,
        0 <= y < height,
        spec_rows_in(lines, n) <= height - 1 - y,
    ensures
        !spec_filled(lines, n, width, height)[y][x],
    decreases n,
{
    if n > 0 {
        lemma_filled_is_grid(lines, n - 1, width, height);
        lemma_unreached_row_is_open(lines, n - 1, width, height, x, y);
    }
}

/// The rows of tiles fill the map from the top down: the first row that is
/// read is the top row of the map, and a tile of the map is solid exactly
/// if the word for it in its row is a number above zero.
pub proof fn lemma_row_fills_its_tiles(
    lines: Seq<Seq<char>>,
    n: int,
    k: int,
    width: usize,
    height: usize,
    x: int,
    y: int,
)
    requires
        0 <= k < n,
        0 <= x < width,
        0 <= y < height,
        spec_words(lines[k]).len() > 0,
        spec_words(lines[k]).len() >= width,
        spec_rows_in(lines, k) == height - 1 - y,
    ensures
        spec_filled(lines, n, width, height)[y][x] == spec_tile_flag(spec_words(lines[k])[x]),
    decreases n,
{
    lemma_filled_is_grid(lines, n - 1, width, height);
    if n - 1 == k {
        lemma_unreached_row_is_open(lines, k, width, height, x, y);
    } else {
        lemma_row_fills_its_tiles(lines, n - 1, k, width, height, x, y);
        lemma_rows_in_grows(lines, k + 1, n - 1);
    }
}

/// More lines do not hold fewer rows.
proof fn lemma_rows_in_grows(lines: Seq<Seq<char>>, n: int, m: int)
    requires
        n <= m,
    ensures
        spec_rows_in(lines, n) <= spec_rows_in(lines, m),
    decreases m - n,
{
    if n < m {
        lemma_rows_in_grows(lines, n, m - 1);
    }
}

/// A line with something wrong is what is wrong with the level, if nothing
/// was wrong before it.
proof fn lemma_line_error_found(lines: Seq<Seq<char>>, k: int, width: usize, height: usize)
    requires
        0 <= k < lines.len(),
        height * width <= isize::MAX,
        spec_lines_error(lines, k, width, height) is None,
        spec_line_error(lines, k, width, height) is Some,
    ensures
        spec_level_error(lines, width, height) == spec_line_error(lines, k, width, height),
{
    assert(spec_lines_error(lines, k + 1, width, height) == spec_line_error(
        lines,
        k,
        width,
        height,
    ));
    lemma_lines_error_stays(lines, k + 1, lines.len() as int, width, height);
}

/// A word with something wrong is the first thing wrong with its line, and
/// with the level, if nothing was wrong before it.
proof fn lemma_row_error_found(lines: Seq<Seq<char>>, k: int, i: int, width: usize, height: usize)
    requires
        0 <= k < lines.len(),
        height * width <= isize::MAX,
        spec_lines_error(lines, k, width, height) is None,
        0 <= i < spec_words(lines[k]).len(),
        spec_words(lines[k]).len() >= width,
        spec_row_error(spec_words(lines[k]), i, width, spec_rows_in(lines, k) < height) is None,
        spec_word_error(spec_words(lines[k])[i], i, width, spec_rows_in(lines, k) < height) is Some,
    ensures
        spec_level_error(lines, width, height) == spec_word_error(
            spec_words(lines[k])[i],
            i,
            width,
            spec_rows_in(lines, k) < height,
        ),
{
    let words = spec_words(lines[k]);
    let room = spec_rows_in(lines, k) < height;
    let found = spec_word_error(words[i], i, width, room);
    assert(spec_row_error(words, i + 1, width, room) == found);
    lemma_row_error_stays(words, i + 1, words.len() as int, width, room);
    assert(spec_line_error(lines, k, width, height) == found);
    lemma_line_error_found(lines, k, width, height);
}

/// Once something is wrong in a row, reading on does not change what.
proof fn lemma_row_error_stays(words: Seq<Seq<char>>, n: int, m: int, width: usize, room: bool)
    requires
        0 <= n <= m,
        spec_row_error(words, n, width, room) is Some,
    ensures
        spec_row_error(words, m, width, room) == spec_row_error(words, n, width, room),
    decreases m - n,
{
    if n < m {
        lemma_row_error_stays(words, n, m - 1, width, room);
    }
}

/// Once something is wrong in a level, reading on does not change what.
proof fn lemma_lines_error_stays(lines: Seq<Seq<char>>, n: int, m: int, width: usize, height: usize)
    requires
        0 <= n <= m,
        spec_lines_error(lines, n, width, height) is Some,
    ensures
        spec_lines_error(lines, m, width, height) == spec_lines_error(lines, n, width, height),
    decreases m - n,
{
    if n < m {
        lemma_lines_error_stays(lines, n, m - 1, width, height);
    }
}

/// Over a span of rows that is empty either way, the solid tiles of a
/// column are none.
proof fn lemma_empty_span(map: TilemapView, x: usize, from: int, reached: int, to: int)
    requires
        reached == to || (to <= from && reached == from),
    ensures
        map.column_tiles(x, from, reached) == map.column_tiles(x, from, to),
{
}

/// The same of the columns of a block.
proof fn lemma_empty_block(map: TilemapView, from_x: int, reached: int, to_x: int, from_y: int, to_y: int)
    requires
        reached == to_x || (to_x <= from_x && reached == from_x),
    ensures
        map.block_tiles(from_x, reached, from_y, to_y) == map.block_tiles(from_x, to_x, from_y, to_y),
{
}

/// The tile along one axis in which the coordinate lies.
fn axis_tile(tile_size: Fixed, coord: Fixed, count: usize) -> (tile: Option<usize>)
    ensures
        forall|map: TilemapView| map.tile_size == tile_size ==> tile == #[trigger] map.axis_tile(coord, count),
{
    if coord.raw < 0 {
        None
    } else if tile_size.raw > 0 {
        let index: u64 = coord.raw as u64 / tile_size.raw as u64;
        if index < count as u64 {
            Some(index as usize)
        } else {
            None
        }
    } else if (tile_size.raw < 0 || coord.raw == 0) && 0 < count {
        Some(0)
    } else {
        None
    }
}

} // verus!
