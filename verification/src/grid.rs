use vstd::prelude::*;

verus! {

/// One cell of the map: carved floor or solid wall.
#[derive(Debug, Clone, Copy, PartialEq, Eq, Structural, Hash)]
pub enum Tile {
    Floor,
    Wall,
}

/// The one-character glyph of a tile.
pub open spec fn glyph(t: Tile) -> char {
    match t {
        Tile::Floor => '.',
        Tile::Wall => '#',
    }
}

/// One rendered row: a glyph per tile, closed by a newline.
pub open spec fn rendered_row(row: Seq<Tile>) -> Seq<char> {
    Seq::new(row.len(), |i: int| glyph(row[i])).push('\n')
}

/// The rendered map: the rows rendered top to bottom.
pub open spec fn rendered_tiles(tiles: Seq<Seq<Tile>>) -> Seq<char>
    decreases tiles.len(),
{
    if tiles.len() == 0 {
        Seq::empty()
    } else {
        rendered_tiles(tiles.drop_last()) + rendered_row(tiles.last())
    }
}

/// An all-wall map of the given dimensions.
pub open spec fn walls(width: int, height: int) -> Seq<Seq<Tile>> {
    Seq::new(height as nat, |y: int| Seq::new(width as nat, |x: int| Tile::Wall))
}

/// A fixed-size matrix of tiles, indexed `[row][column]`, with `height` rows
/// and `width` columns.
#[derive(Debug, Clone, PartialEq, Eq, Hash)]
pub struct Grid {
    pub width: usize,
    pub height: usize,
    pub tiles: Vec<Vec<Tile>>,
}

impl View for Grid {
    type V = Seq<Seq<Tile>>;

    open spec fn view(&self) -> Seq<Seq<Tile>> {
        Seq::new(self.tiles@.len(), |y: int| self.tiles@[y]@)
    }
}

impl Grid {
    pub open spec fn spec_width(self) -> int {
        self.width as int
    }

    pub open spec fn spec_height(self) -> int {
        self.height as int
    }

    /// The tile storage matches the declared dimensions: `height` rows, each
    /// of `width` tiles.
    pub open spec fn wf(self) -> bool {
        &&& self.tiles@.len() == self.height
        &&& forall|y: int|
            0 <= y < self.tiles@.len() ==> (#[trigger] self.tiles@[y])@.len() == self.width
    }

    pub fn new(width: usize, height: usize) -> (r: Grid)
        ensures
            r.wf(),
            r.spec_width() == width,
            r.spec_height() == height,
            r@ == walls(width as int, height as int),
    {
        let mut tiles: Vec<Vec<Tile>> = Vec::new();
        for _y in 0..height
            invariant
                tiles@.len() == _y,
                forall|i: int| 0 <= i < _y ==> (#[trigger] tiles@[i])@ =~= walls(
                    width as int,
                    height as int,
                )[i],
        {
            let mut row: Vec<Tile> = Vec::new();
            for _x in 0..width
                invariant
                    row@.len() == _x,
                    forall|j: int| 0 <= j < _x ==> row@[j] == Tile::Wall,
            {
                row.push(Tile::Wall);
            }
            proof {
                assert(row@ =~= Seq::new(width as nat, |x: int| Tile::Wall));
            }
            tiles.push(row);
        }
        let r = Grid { width, height, tiles };
        proof {
            assert(r@ =~~= walls(width as int, height as int));
        }
        r
    }

    pub fn width(&self) -> (r: usize)
        ensures
            r == self.spec_width(),
    {
        self.width
    }

    pub fn height(&self) -> (r: usize)
        ensures
            r == self.spec_height(),
    {
        self.height
    }

    /// The textual form of the map: one line per row, top to bottom, each
    /// tile as its glyph, each line closed by a newline.
    #[verifier::loop_isolation(false)]
    pub fn render(&self) -> (r: String)
        requires
            self.wf(),
        ensures
            r@ == rendered_tiles(self@),
    {
        let ghost t = self@;
        let mut out = String::new();
        proof {
            assert(rendered_tiles(t.subrange(0, 0)) =~= Seq::<char>::empty());
        }
        let mut y: usize = 0;
        while y < self.height
            invariant
                self.wf(),
                t == self@,
                0 <= y <= self.height,
                out@ == rendered_tiles(t.subrange(0, y as int)),
            decreases self.height - y,
        {
            let row = &self.tiles[y];
            let ghost row_chars = Seq::new(row@.len(), |i: int| glyph(row@[i]));
            let ghost out_before = out@;
            let mut x: usize = 0;
            while x < row.len()
                invariant
                    0 <= x <= row.len(),
                    out@ == out_before + row_chars.subrange(0, x as int),
                decreases row.len() - x,
            {
                match row[x] {
                    Tile::Floor => {
                        out.append(".");
                        proof {
                            reveal_strlit(".");
                        }
                    },
                    Tile::Wall => {
                        out.append("#");
                        proof {
                            reveal_strlit("#");
                        }
                    },
                }
                proof {
                    assert(row_chars.subrange(0, x + 1) =~= row_chars.subrange(0, x as int).push(
                        row_chars[x as int],
                    ));
                }
                x += 1;
            }
            out.append("\n");
            proof {
                reveal_strlit("\n");
                assert(row_chars.subrange(0, row@.len() as int) =~= row_chars);
                assert(out@ =~= out_before + rendered_row(t[y as int]));
                assert(t.subrange(0, y + 1).drop_last() =~= t.subrange(0, y as int));
                assert(t.subrange(0, y + 1).last() == t[y as int]);
            }
            y += 1;
        }
        proof {
            assert(t.subrange(0, self.height as int) =~= t);
        }
        out
    }
}

impl Tile {
    /// The textual form of one tile: its glyph alone.
    pub fn render(&self) -> (r: String)
        ensures
            r@ == seq![glyph(*self)],
    {
        match self {
            Tile::Floor => {
                let s = String::from_str(".");
                proof {
                    reveal_strlit(".");
                    assert(s@ =~= seq![glyph(Tile::Floor)]);
                }
                s
            },
            Tile::Wall => {
                let s = String::from_str("#");
                proof {
                    reveal_strlit("#");
                    assert(s@ =~= seq![glyph(Tile::Wall)]);
                }
                s
            },
        }
    }
}

/// A freshly built grid is exactly `height` rows of `width` wall tiles.
pub proof fn lemma_walls_all_wall(width: int, height: int)
    requires
        width >= 0,
        height >= 0,
    ensures
        walls(width, height).len() == height,
        forall|y: int|
            0 <= y < height ==> (#[trigger] walls(width, height)[y]).len() == width,
        forall|y: int, x: int|
            0 <= y < height && 0 <= x < width ==> walls(width, height)[y][x] == Tile::Wall,
{
}

} // verus!
