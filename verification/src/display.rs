//! How the board is written out: the score above a framed block of four
//! rows, each tile as a letter in its colour.

use crate::board::{Board, BoardState};
use crate::tile::Tile;
use vstd::prelude::*;

verus! {

/// `String::push` of std appends one character.
pub assume_specification[ String::push ](s: &mut String, ch: char)
    ensures
        final(s)@ == old(s)@.push(ch),
;

/// `String::push_str` of std appends the characters of a string slice.
pub assume_specification[ String::push_str ](s: &mut String, string: &str)
    ensures
        final(s)@ == old(s)@ + string@,
;

/// The colour a tile is written in.
#[derive(Debug, Copy, Clone, PartialEq, Eq, Structural)]
pub enum Paint {
    Blue,
    Red,
    Green,
    Cyan,
    Magenta,
    Yellow,
    LightBlue,
    LightRed,
    LightGreen,
    LightCyan,
    LightMagenta,
    LightYellow,
    White,
}

impl Tile {
    /// The character a tile is written as: a blank for an empty cell, the
    /// letters from `A` on for the ranks from 1 to 27, and a question mark
    /// for anything else.
    pub open spec fn spec_glyph(self) -> char {
        match self {
            Tile::Empty => ' ',
            Tile::Occupied(r) => if 1 <= r <= 27 {
                (64 + r) as char
            } else {
                '?'
            },
            Tile::WillOccupy(_) => '?',
        }
    }

    /// The colour a tile is written in: one for each rank from 1 to 12,
    /// and white for anything else.
    pub open spec fn spec_paint(self) -> Paint {
        match self {
            Tile::Occupied(r) => if r == 1 {
                Paint::Blue
            } else if r == 2 {
                Paint::Red
            } else if r == 3 {
                Paint::Green
            } else if r == 4 {
                Paint::Cyan
            } else if r == 5 {
                Paint::Magenta
            } else if r == 6 {
                Paint::Yellow
            } else if r == 7 {
                Paint::LightBlue
            } else if r == 8 {
                Paint::LightRed
            } else if r == 9 {
                Paint::LightGreen
            } else if r == 10 {
                Paint::LightCyan
            } else if r == 11 {
                Paint::LightMagenta
            } else if r == 12 {
                Paint::LightYellow
            } else {
                Paint::White
            },
            _ => Paint::White,
        }
    }

    /// The character a tile is written as.
    pub fn glyph(self) -> (c: char)
        ensures
            c == self.spec_glyph(),
    {
        match self {
            Tile::Empty => ' ',
            Tile::Occupied(c) if c > 0 && c <= 27 => (64 + c) as char,
            _ => '?',
        }
    }

    /// The colour a tile is written in.
    pub fn paint(self) -> (p: Paint)
        ensures
            p == self.spec_paint(),
    {
        match self {
            Tile::Occupied(1) => Paint::Blue,
            Tile::Occupied(2) => Paint::Red,
            Tile::Occupied(3) => Paint::Green,
            Tile::Occupied(4) => Paint::Cyan,
            Tile::Occupied(5) => Paint::Magenta,
            Tile::Occupied(6) => Paint::Yellow,
            Tile::Occupied(7) => Paint::LightBlue,
            Tile::Occupied(8) => Paint::LightRed,
            Tile::Occupied(9) => Paint::LightGreen,
            Tile::Occupied(10) => Paint::LightCyan,
            Tile::Occupied(11) => Paint::LightMagenta,
            Tile::Occupied(12) => Paint::LightYellow,
            _ => Paint::White,
        }
    }
}

/// What the terminal takes for each colour: a string that switches to it,
/// and one string that switches back.
pub struct Palette {
    pub blue: String,
    pub red: String,
    pub green: String,
    pub cyan: String,
    pub magenta: String,
    pub yellow: String,
    pub light_blue: String,
    pub light_red: String,
    pub light_green: String,
    pub light_cyan: String,
    pub light_magenta: String,
    pub light_yellow: String,
    pub white: String,
    pub reset: String,
}

impl Palette {
    /// The characters that switch to a colour.
    pub open spec fn spec_ink(&self, paint: Paint) -> Seq<char> {
        match paint {
            Paint::Blue => self.blue@,
            Paint::Red => self.red@,
            Paint::Green => self.green@,
            Paint::Cyan => self.cyan@,
            Paint::Magenta => self.magenta@,
            Paint::Yellow => self.yellow@,
            Paint::LightBlue => self.light_blue@,
            Paint::LightRed => self.light_red@,
            Paint::LightGreen => self.light_green@,
            Paint::LightCyan => self.light_cyan@,
            Paint::LightMagenta => self.light_magenta@,
            Paint::LightYellow => self.light_yellow@,
            Paint::White => self.white@,
        }
    }

    /// The string that switches to a colour.
    pub fn ink(&self, paint: Paint) -> (s: &String)
        ensures
            s@ == self.spec_ink(paint),
    {
        match paint {
            Paint::Blue => &self.blue,
            Paint::Red => &self.red,
            Paint::Green => &self.green,
            Paint::Cyan => &self.cyan,
            Paint::Magenta => &self.magenta,
            Paint::Yellow => &self.yellow,
            Paint::LightBlue => &self.light_blue,
            Paint::LightRed => &self.light_red,
            Paint::LightGreen => &self.light_green,
            Paint::LightCyan => &self.light_cyan,
            Paint::LightMagenta => &self.light_magenta,
            Paint::LightYellow => &self.light_yellow,
            Paint::White => &self.white,
        }
    }
}

/// The decimal digits of `n`.
pub open spec fn decimal(n: nat) -> Seq<char>
    decreases n,
{
    if n < 10 {
        seq![(48 + n) as char]
    } else {
        decimal(n / 10).push((48 + n % 10) as char)
    }
}

/// `count` blanks.
pub open spec fn blanks(count: nat) -> Seq<char> {
    Seq::new(count, |i: int| ' ')
}

/// `text` in the middle of a field of `width` characters; where the
/// blanks cannot be shared evenly, the one more goes behind. A text that
/// is wider than the field stays as it is.
pub open spec fn centered(text: Seq<char>, width: nat) -> Seq<char> {
    if text.len() >= width {
        text
    } else {
        let room = (width - text.len()) as nat;
        blanks(room / 2) + text + blanks((room - room / 2) as nat)
    }
}

/// A tile as it is written: its colour switched on, its character, the
/// colour switched off.
pub open spec fn tile_text(t: Tile, palette: Palette) -> Seq<char> {
    palette.spec_ink(t.spec_paint()).push(t.spec_glyph()) + palette.reset@
}

/// The tile of cell `i` with the frame around it: a bar before the first
/// tile of a row, a bar and a line break behind the last.
pub open spec fn cell_text(t: Tile, i: int, palette: Palette) -> Seq<char> {
    if i % 4 == 0 {
        seq!['|'] + tile_text(t, palette)
    } else if i % 4 == 3 {
        tile_text(t, palette) + seq!['|', '\r', '\n']
    } else {
        tile_text(t, palette)
    }
}

/// All the cells, one after the other.
pub open spec fn cells_text(tiles: Seq<Tile>, palette: Palette) -> Seq<char>
    decreases tiles.len(),
{
    if tiles.len() == 0 {
        Seq::empty()
    } else {
        cells_text(tiles.drop_last(), palette) + cell_text(
            tiles.last(),
            tiles.len() - 1,
            palette,
        )
    }
}

/// The line above and below the rows.
pub open spec fn rule_text() -> Seq<char> {
    seq![' ', '-', '-', '-', '-', ' ', '\r', '\n']
}

/// The board as it is written: the score in the middle of six columns,
/// a line, the rows, a line.
pub open spec fn board_text(board: BoardState, palette: Palette) -> Seq<char> {
    centered(decimal(board.score as nat), 6) + seq!['\r', '\n'] + rule_text() + cells_text(
        board.tiles,
        palette,
    ) + rule_text()
}

/// How many digits `n` has.
fn decimal_width(n: u32) -> (width: usize)
    ensures
        width == decimal(n as nat).len(),
        1 <= width <= 10,
    decreases n,
{
    if n < 10 {
        1
    } else {
        let rest = decimal_width(n / 10);
        assert(n / 10 < 1_000_000_000 ==> decimal((n / 10) as nat).len() <= 9) by {
            lemma_decimal_len((n / 10) as nat);
        }
        rest + 1
    }
}

/// A number below `10^9` has at most nine digits.
proof fn lemma_decimal_len(n: nat)
    ensures
        decimal(n).len() >= 1,
        n < 10 ==> decimal(n).len() == 1,
        n < 100 ==> decimal(n).len() <= 2,
        n < 1_000 ==> decimal(n).len() <= 3,
        n < 10_000 ==> decimal(n).len() <= 4,
        n < 100_000 ==> decimal(n).len() <= 5,
        n < 1_000_000 ==> decimal(n).len() <= 6,
        n < 10_000_000 ==> decimal(n).len() <= 7,
        n < 100_000_000 ==> decimal(n).len() <= 8,
        n < 1_000_000_000 ==> decimal(n).len() <= 9,
    decreases n,
{
    if n >= 10 {
        lemma_decimal_len(n / 10);
    }
}

/// Appends the decimal digits of `n`.
fn push_decimal(out: &mut String, n: u32)
    ensures
        final(out)@ == old(out)@ + decimal(n as nat),
    decreases n,
{
    if n >= 10 {
        push_decimal(out, n / 10);
    }
    out.push((48 + (n % 10) as u8) as char);
    assert(out@ =~= old(out)@ + decimal(n as nat));
}

/// Appends `count` blanks.
fn push_blanks(out: &mut String, count: usize)
    ensures
        final(out)@ == old(out)@ + blanks(count as nat),
{
    let mut i: usize = 0;
    assert(out@ =~= old(out)@ + blanks(0));
    while i < count
        invariant
            i <= count,
            out@ == old(out)@ + blanks(i as nat),
        decreases count - i,
    {
        out.push(' ');
        i += 1;
        assert(out@ =~= old(out)@ + blanks(i as nat));
    }
}

impl Tile {
    /// Appends the tile as it is written.
    fn write_to(self, out: &mut String, palette: &Palette)
        ensures
            final(out)@ == old(out)@ + tile_text(self, *palette),
    {
        out.push_str(palette.ink(self.paint()).as_str());
        out.push(self.glyph());
        out.push_str(palette.reset.as_str());
        assert(out@ =~= old(out)@ + tile_text(self, *palette));
    }
}

impl Board {
    /// The board as it is written, with the colours of `palette`.
    pub fn render(&self, palette: &Palette) -> (text: String)
        ensures
            text@ == board_text(self@, *palette),
    {
        let mut out = String::new();
        let width = decimal_width(self.score);
        let room: usize = if width >= 6 {
            0
        } else {
            6 - width
        };
        push_blanks(&mut out, room / 2);
        push_decimal(&mut out, self.score);
        push_blanks(&mut out, room - room / 2);
        assert(out@ =~= centered(decimal(self.score as nat), 6)) by {
            assert(blanks(0) =~= Seq::<char>::empty());
        }
        out.push_str("\r\n ---- \r\n");
        proof {
            reveal_strlit("\r\n ---- \r\n");
            reveal_strlit(" ---- \r\n");
            reveal_strlit("|");
            reveal_strlit("|\r\n");
            assert("\r\n ---- \r\n"@ =~= seq!['\r', '\n'] + rule_text());
            assert(" ---- \r\n"@ =~= rule_text());
            assert("|"@ =~= seq!['|']);
            assert("|\r\n"@ =~= seq!['|', '\r', '\n']);
            assert(self.tiles@.take(0) =~= Seq::<Tile>::empty());
        }
        let ghost head = out@;
        assert(head =~= centered(decimal(self.score as nat), 6) + seq!['\r', '\n'] + rule_text());
        let mut i: usize = 0;
        assert(out@ =~= head + cells_text(self.tiles@.take(0), *palette));
        while i < self.tiles.len()
            invariant
                i <= self.tiles.len(),
                out@ == head + cells_text(self.tiles@.take(i as int), *palette),
                "|"@ == seq!['|'],
                "|\r\n"@ == seq!['|', '\r', '\n'],
            decreases self.tiles.len() - i,
        {
            let t = self.tiles[i];
            let ghost before = out@;
            if i % 4 == 0 {
                out.push_str("|");
                t.write_to(&mut out, palette);
            } else if i % 4 == 3 {
                t.write_to(&mut out, palette);
                out.push_str("|\r\n");
            } else {
                t.write_to(&mut out, palette);
            }
            proof {
                assert(self.tiles@.take(i + 1).drop_last() =~= self.tiles@.take(i as int));
                assert(out@ =~= before + cell_text(t, i as int, *palette));
                assert(out@ =~= head + cells_text(self.tiles@.take(i + 1), *palette));
            }
            i += 1;
        }
        assert(self.tiles@.take(self.tiles.len() as int) =~= self.tiles@);
        out.push_str(" ---- \r\n");
        assert(out@ =~= board_text(self@, *palette));
        out
    }
}

} // verus!
