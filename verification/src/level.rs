//! The text form of a board. A board is written as one line per row of the
//! grid; in each line the cells of the row follow each other, separated by
//! one space. White space at either end of a line does not count.

use vstd::prelude::*;

use crate::components::{BoxColor, Position};
use crate::entities::{
    box_spot_tags, box_tags, create_box, create_box_spot, create_floor, create_player,
    create_wall, floor_tags, player_tags, wall_tags,
};
use crate::game::{MAP_HEIGHT, MAP_WIDTH};
use crate::world::{Tags, World};

verus! {

/// What a cell of a board holds at the start of a game.
#[derive(Clone, Copy, Debug, PartialEq, Eq, Structural)]
pub enum Tile {
    /// `BB`: floor with a blue box on it.
    BlueBox,
    /// `RB`: floor with a red box on it.
    RedBox,
    /// `BS`: floor with a spot for a blue box.
    BlueBoxSpot,
    /// `RS`: floor with a spot for a red box.
    RedBoxSpot,
    /// `P`: floor with the player on it.
    Player,
    /// `W`: a wall.
    Wall,
    /// `.`: bare floor.
    Floor,
    /// `N`: nothing at all.
    Nothing,
}

/// Why a board could not be set up.
#[derive(Clone, Copy, Debug, PartialEq, Eq, Structural)]
pub enum MapError {
    /// A cell lies outside the grid.
    OutOfBounds,
    /// The board has not as many rows, or a row not as many cells, as the
    /// grid.
    IncorrectDimensions,
    /// A cell is written in a way that stands for no tile.
    InvalidItem,
}

/// The tile that a piece of text stands for.
pub open spec fn tile_of(token: Seq<char>) -> Option<Tile> {
    if token =~= seq!['B', 'B'] {
        Some(Tile::BlueBox)
    } else if token =~= seq!['R', 'B'] {
        Some(Tile::RedBox)
    } else if token =~= seq!['B', 'S'] {
        Some(Tile::BlueBoxSpot)
    } else if token =~= seq!['R', 'S'] {
        Some(Tile::RedBoxSpot)
    } else if token =~= seq!['P'] {
        Some(Tile::Player)
    } else if token =~= seq!['W'] {
        Some(Tile::Wall)
    } else if token =~= seq!['.'] {
        Some(Tile::Floor)
    } else if token =~= seq!['N'] {
        Some(Tile::Nothing)
    } else {
        None
    }
}

/// Reads one cell.
pub fn parse_tile(token: &[char]) -> (tile: Option<Tile>)
    ensures
        tile == tile_of(token@),
{
    if token.len() == 1 {
        let c = token[0];
        assert(token@ =~= seq![c]);
        if c == 'P' {
            Some(Tile::Player)
        } else if c == 'W' {
            Some(Tile::Wall)
        } else if c == '.' {
            Some(Tile::Floor)
        } else if c == 'N' {
            Some(Tile::Nothing)
        } else {
            None
        }
    } else if token.len() == 2 {
        let c = token[0];
        let d = token[1];
        assert(token@ =~= seq![c, d]);
        if c == 'B' && d == 'B' {
            Some(Tile::BlueBox)
        } else if c == 'R' && d == 'B' {
            Some(Tile::RedBox)
        } else if c == 'B' && d == 'S' {
            Some(Tile::BlueBoxSpot)
        } else if c == 'R' && d == 'S' {
            Some(Tile::RedBoxSpot)
        } else {
            None
        }
    } else {
        None
    }
}

/// The entities that a tile on cell `pos` consists of, in the order in which
/// they are created.
pub open spec fn tile_tags(tile: Tile, pos: Position) -> Seq<Tags> {
    match tile {
        Tile::BlueBox => seq![floor_tags(pos), box_tags(pos, BoxColor::Blue)],
        Tile::RedBox => seq![floor_tags(pos), box_tags(pos, BoxColor::Red)],
        Tile::BlueBoxSpot => seq![floor_tags(pos), box_spot_tags(pos, BoxColor::Blue)],
        Tile::RedBoxSpot => seq![floor_tags(pos), box_spot_tags(pos, BoxColor::Red)],
        Tile::Player => seq![floor_tags(pos), player_tags(pos)],
        Tile::Wall => seq![wall_tags(pos)],
        Tile::Floor => seq![floor_tags(pos)],
        Tile::Nothing => Seq::empty(),
    }
}

/// Adds the entities of a tile on cell `pos`.
pub fn create_tile(world: &mut World, tile: Tile, pos: Position)
    ensures
        final(world)@ == old(world)@ + tile_tags(tile, pos),
{
    match tile {
        Tile::BlueBox => {
            create_floor(world, pos);
            create_box(world, pos, BoxColor::Blue);
        },
        Tile::RedBox => {
            create_floor(world, pos);
            create_box(world, pos, BoxColor::Red);
        },
        Tile::BlueBoxSpot => {
            create_floor(world, pos);
            create_box_spot(world, pos, BoxColor::Blue);
        },
        Tile::RedBoxSpot => {
            create_floor(world, pos);
            create_box_spot(world, pos, BoxColor::Red);
        },
        Tile::Player => {
            create_floor(world, pos);
            create_player(world, pos);
        },
        Tile::Wall => {
            create_wall(world, pos);
        },
        Tile::Floor => {
            create_floor(world, pos);
        },
        Tile::Nothing => {},
    }
    assert(world@ =~= old(world)@ + tile_tags(tile, pos));
}

/// Whether a character is white space.
pub open spec fn is_whitespace(c: char) -> bool {
    let n = c as u32;
    ||| 0x09 <= n <= 0x0D
    ||| n == 0x20
    ||| n == 0x85
    ||| n == 0xA0
    ||| n == 0x1680
    ||| 0x2000 <= n <= 0x200A
    ||| n == 0x2028
    ||| n == 0x2029
    ||| n == 0x202F
    ||| n == 0x205F
    ||| n == 0x3000
}

/// The text without the white space at its start.
pub open spec fn trim_start(s: Seq<char>) -> Seq<char>
    decreases s.len(),
{
    if s.len() > 0 && is_whitespace(s.first()) {
        trim_start(s.drop_first())
    } else {
        s
    }
}

/// The text without the white space at its end.
pub open spec fn trim_end(s: Seq<char>) -> Seq<char>
    decreases s.len(),
{
    if s.len() > 0 && is_whitespace(s.last()) {
        trim_end(s.drop_last())
    } else {
        s
    }
}

/// The text without the white space at either end.
pub open spec fn trim(s: Seq<char>) -> Seq<char> {
    trim_end(trim_start(s))
}

/// The pieces into which the separator cuts the text. There is one piece
/// more than there are separators; a piece may be empty.
pub open spec fn split(s: Seq<char>, sep: char) -> Seq<Seq<char>>
    decreases s.len(),
{
    if s.len() == 0 {
        seq![Seq::empty()]
    } else {
        let before = split(s.drop_last(), sep);
        if s.last() == sep {
            before.push(Seq::empty())
        } else {
            before.update(before.len() - 1, before.last().push(s.last()))
        }
    }
}

/// The tiles of the first `n` cells of row `y`, each with its cell, or the
/// error of the first cell that stands for no tile.
pub open spec fn parse_cells(cols: Seq<Seq<char>>, y: u8, n: nat) -> Result<
    Seq<(Position, Tile)>,
    MapError,
>
    decreases n,
{
    if n == 0 {
        Ok(Seq::empty())
    } else {
        match parse_cells(cols, y, (n - 1) as nat) {
            Err(e) => Err(e),
            Ok(items) => match tile_of(cols[n - 1]) {
                None => Err(MapError::InvalidItem),
                Some(tile) => Ok(items.push((Position { x: (n - 1) as u8, y, z: 0 }, tile))),
            },
        }
    }
}

/// The tiles of one row: the line is trimmed and cut at each space, and
/// must have as many cells as the grid is wide.
pub open spec fn parse_row(line: Seq<char>, y: u8) -> Result<Seq<(Position, Tile)>, MapError> {
    let cols = split(trim(line), ' ');
    if cols.len() != MAP_WIDTH {
        Err(MapError::IncorrectDimensions)
    } else {
        parse_cells(cols, y, MAP_WIDTH as nat)
    }
}

/// The tiles of the first `n` rows, or the first error met when the rows are
/// read from the top.
pub open spec fn parse_rows(lines: Seq<Seq<char>>, n: nat) -> Result<
    Seq<(Position, Tile)>,
    MapError,
>
    decreases n,
{
    if n == 0 {
        Ok(Seq::empty())
    } else {
        match parse_rows(lines, (n - 1) as nat) {
            Err(e) => Err(e),
            Ok(items) => match parse_row(lines[n - 1], (n - 1) as u8) {
                Err(e) => Err(e),
                Ok(row) => Ok(items + row),
            },
        }
    }
}

/// The tiles of a board in text form, row by row. The text is cut into
/// lines at each line feed and must have as many lines as the grid is high.
pub open spec fn parse_map(text: Seq<char>) -> Result<Seq<(Position, Tile)>, MapError> {
    let lines = split(text, '\n');
    if lines.len() != MAP_HEIGHT {
        Err(MapError::IncorrectDimensions)
    } else {
        parse_rows(lines, MAP_HEIGHT as nat)
    }
}

/// The entities of a board, tile by tile.
pub open spec fn level_tags(items: Seq<(Position, Tile)>) -> Seq<Tags>
    decreases items.len(),
{
    if items.len() == 0 {
        Seq::empty()
    } else {
        level_tags(items.drop_last()) + tile_tags(items.last().1, items.last().0)
    }
}

/// Tells whether a character is white space.
fn whitespace(c: char) -> (r: bool)
    ensures
        r == is_whitespace(c),
{
    let n = c as u32;
    (0x09 <= n && n <= 0x0D) || n == 0x20 || n == 0x85 || n == 0xA0 || n == 0x1680 || (0x2000 <= n
        && n <= 0x200A) || n == 0x2028 || n == 0x2029 || n == 0x202F || n == 0x205F || n == 0x3000
}

/// The characters of a text.
pub fn chars_of(text: &str) -> (chars: Vec<char>)
    ensures
        chars@ == text@,
{
    let n = text.unicode_len();
    let mut chars: Vec<char> = Vec::new();
    let mut i: usize = 0;
    while i < n
        invariant
            n == text@.len(),
            i <= n,
            chars@ == text@.take(i as int),
        decreases n - i,
    {
        chars.push(text.get_char(i));
        assert(chars@ =~= text@.take(i + 1));
        i += 1;
    }
    assert(text@.take(n as int) =~= text@);
    chars
}

/// The views of the pieces of a text.
pub open spec fn views(pieces: Seq<Vec<char>>) -> Seq<Seq<char>> {
    Seq::new(pieces.len(), |i: int| pieces[i]@)
}

/// Cuts a text at each separator.
fn split_chars(s: &[char], sep: char) -> (pieces: Vec<Vec<char>>)
    ensures
        views(pieces@) == split(s@, sep),
{
    let mut pieces: Vec<Vec<char>> = Vec::new();
    let mut current: Vec<char> = Vec::new();
    let mut i: usize = 0;
    assert(s@.take(0) =~= Seq::<char>::empty());
    assert(views(pieces@).push(current@) =~= split(s@.take(0), sep));
    while i < s.len()
        invariant
            i <= s@.len(),
            views(pieces@).push(current@) == split(s@.take(i as int), sep),
        decreases s@.len() - i,
    {
        let c = s[i];
        let ghost before = views(pieces@).push(current@);
        proof {
            assert(s@.take(i + 1).drop_last() =~= s@.take(i as int));
            assert(s@.take(i + 1).last() == c);
        }
        if c == sep {
            pieces.push(current);
            current = Vec::new();
            assert(views(pieces@).push(current@) =~= before.push(Seq::empty()));
        } else {
            current.push(c);
            assert(views(pieces@).push(current@) =~= before.update(
                before.len() - 1,
                before.last().push(c),
            ));
        }
        i += 1;
    }
    assert(s@.take(s@.len() as int) =~= s@);
    pieces.push(current);
    pieces
}

/// Trimming at the start leaves the text from the first character on that
/// is no white space.
proof fn lemma_trim_start_skip(s: Seq<char>, a: int)
    requires
        0 <= a <= s.len(),
        forall|i: int| 0 <= i < a ==> is_whitespace(#[trigger] s[i]),
        a < s.len() ==> !is_whitespace(s[a]),
    ensures
        trim_start(s) == s.skip(a),
    decreases a,
{
    if a == 0 {
        assert(s.skip(0) =~= s);
    } else {
        let rest = s.drop_first();
        assert forall|i: int| 0 <= i < a - 1 implies is_whitespace(#[trigger] rest[i]) by {
            assert(rest[i] == s[i + 1]);
        }
        lemma_trim_start_skip(rest, a - 1);
        assert(rest.skip(a - 1) =~= s.skip(a));
    }
}

/// Trimming at the end leaves the text up to the last character that is no
/// white space.
proof fn lemma_trim_end_take(s: Seq<char>, b: int)
    requires
        0 <= b <= s.len(),
        forall|i: int| b <= i < s.len() ==> is_whitespace(#[trigger] s[i]),
        b > 0 ==> !is_whitespace(s[b - 1]),
    ensures
        trim_end(s) == s.take(b),
    decreases s.len() - b,
{
    if b == s.len() {
        assert(s.take(b) =~= s);
    } else {
        let rest = s.drop_last();
        lemma_trim_end_take(rest, b);
        assert(rest.take(b) =~= s.take(b));
    }
}

/// Removes the white space at either end of a text.
fn trim_chars(s: &[char]) -> (trimmed: Vec<char>)
    ensures
        trimmed@ == trim(s@),
{
    let n = s.len();
    let mut a: usize = 0;
    while a < n && whitespace(s[a])
        invariant
            n == s@.len(),
            a <= n,
            forall|i: int| 0 <= i < a ==> is_whitespace(#[trigger] s@[i]),
        decreases n - a,
    {
        a += 1;
    }
    let mut b: usize = n;
    while b > a && whitespace(s[b - 1])
        invariant
            a <= b <= n,
            n == s@.len(),
            forall|i: int| b <= i < n ==> is_whitespace(#[trigger] s@[i]),
        decreases b,
    {
        b -= 1;
    }
    let mut trimmed: Vec<char> = Vec::new();
    let mut i: usize = a;
    while i < b
        invariant
            a <= i <= b <= n,
            n == s@.len(),
            trimmed@ == s@.subrange(a as int, i as int),
        decreases b - i,
    {
        trimmed.push(s[i]);
        assert(trimmed@ =~= s@.subrange(a as int, i + 1));
        i += 1;
    }
    proof {
        lemma_trim_start_skip(s@, a as int);
        let t = s@.skip(a as int);
        assert forall|i: int| b - a <= i < t.len() implies is_whitespace(#[trigger] t[i]) by {
            assert(t[i] == s@[i + a]);
        }
        if b > a {
            assert(t[b - a - 1] == s@[b - 1]);
        }
        lemma_trim_end_take(t, b - a);
        assert(t.take(b - a) =~= s@.subrange(a as int, b as int));
    }
    trimmed
}

/// Reads the cells of one row.
fn parse_line(line: &[char], y: u8, items: &mut Vec<(Position, Tile)>) -> (r: Result<
    (),
    MapError,
>)
    ensures
        match parse_row(line@, y) {
            Ok(row) => r is Ok && final(items)@ == old(items)@ + row,
            Err(e) => r == Err::<(), MapError>(e),
        },
{
    let trimmed = trim_chars(line);
    let cols = split_chars(trimmed.as_slice(), ' ');
    if cols.len() != MAP_WIDTH as usize {
        return Err(MapError::IncorrectDimensions);
    }
    let ghost texts = views(cols@);
    let mut x: u8 = 0;
    assert(items@ =~= old(items)@ + Seq::<(Position, Tile)>::empty());
    while x < MAP_WIDTH
        invariant
            x <= MAP_WIDTH,
            cols@.len() == MAP_WIDTH,
            texts == views(cols@),
            texts == split(trim(line@), ' '),
            parse_cells(texts, y, x as nat) is Ok,
            items@ == old(items)@ + parse_cells(texts, y, x as nat)->Ok_0,
        decreases MAP_WIDTH - x,
    {
        assert(texts[x as int] == cols@[x as int]@);
        match parse_tile(cols[x as usize].as_slice()) {
            Some(tile) => {
                items.push((Position { x, y, z: 0 }, tile));
                assert(items@ =~= old(items)@ + parse_cells(texts, y, (x + 1) as nat)->Ok_0);
            },
            None => {
                proof {
                    lemma_cells_error(texts, y, (x + 1) as nat, MAP_WIDTH as nat);
                }
                return Err(MapError::InvalidItem);
            },
        }
        x += 1;
    }
    Ok(())
}

/// An error among the first cells of a row is the error of the row.
proof fn lemma_cells_error(cols: Seq<Seq<char>>, y: u8, n: nat, m: nat)
    requires
        n <= m,
        parse_cells(cols, y, n) is Err,
    ensures
        parse_cells(cols, y, m) == parse_cells(cols, y, n),
    decreases m - n,
{
    if n < m {
        lemma_cells_error(cols, y, n, (m - 1) as nat);
    }
}

/// An error among the first rows of a board is the error of the board.
proof fn lemma_rows_error(lines: Seq<Seq<char>>, n: nat, m: nat)
    requires
        n <= m,
        parse_rows(lines, n) is Err,
    ensures
        parse_rows(lines, m) == parse_rows(lines, n),
    decreases m - n,
{
    if n < m {
        lemma_rows_error(lines, n, (m - 1) as nat);
    }
}

/// Reads a board in text form. Returns the tiles row by row, each with its
/// cell, or the first error met when the text is read from the top: wrong
/// dimensions where the text has not as many lines, or a line not as many
/// cells, as the grid; an invalid item where a cell stands for no tile.
pub fn read_map(map_str: &str) -> (r: Result<Vec<(Position, Tile)>, MapError>)
    ensures
        match parse_map(map_str@) {
            Ok(items) => r is Ok && r->Ok_0@ == items,
            Err(e) => r is Err && r->Err_0 == e,
        },
{
    let chars = chars_of(map_str);
    let lines = split_chars(chars.as_slice(), '\n');
    if lines.len() != MAP_HEIGHT as usize {
        return Err(MapError::IncorrectDimensions);
    }
    let ghost texts = views(lines@);
    let mut items: Vec<(Position, Tile)> = Vec::new();
    let mut y: u8 = 0;
    while y < MAP_HEIGHT
        invariant
            y <= MAP_HEIGHT,
            lines@.len() == MAP_HEIGHT,
            texts == views(lines@),
            texts == split(map_str@, '\n'),
            parse_rows(texts, y as nat) is Ok,
            items@ == parse_rows(texts, y as nat)->Ok_0,
        decreases MAP_HEIGHT - y,
    {
        assert(texts[y as int] == lines@[y as int]@);
        match parse_line(lines[y as usize].as_slice(), y, &mut items) {
            Ok(()) => {},
            Err(e) => {
                proof {
                    lemma_rows_error(texts, (y + 1) as nat, MAP_HEIGHT as nat);
                }
                return Err(e);
            },
        }
        y += 1;
    }
    Ok(items)
}

} // verus!
