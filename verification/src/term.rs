//! Terminal-cell primitives of the interface layer: a single styled
//! character cell, coordinate conversions between map and terminal space,
//! and text/frame painting into a cell grid. Rendering and raw-mode
//! handling live outside the core.

use vstd::prelude::*;
use vstd::string::StringSliceAdditionalSpecFns;

use crate::GameCoord;

verus! {

/// Relies on String::push: appends the given character to the string.
pub assume_specification[ String::push ](s: &mut String, ch: char)
    ensures
        final(s)@ == old(s)@.push(ch),
;

/// One character cell of the terminal: a glyph with its foreground and
/// background color codes.
#[derive(Clone, Copy, Debug)]
pub struct TermCell {
    pub ch: char,
    pub fg: &'static str,
    pub bg: &'static str,
}

impl TermCell {
    /// A cell with the given glyph and colors.
    pub fn new(ch: char, fg: &'static str, bg: &'static str) -> (r: Self)
        ensures
            r.ch == ch,
            r.fg == fg,
            r.bg == bg,
    {
        Self { ch, fg, bg }
    }

    /// The cell as one printable string: both color codes, then the glyph.
    pub fn as_string(&self) -> (r: String)
        ensures
            r@ == self.fg@ + self.bg@ + seq![self.ch],
    {
        let mut s = self.fg.to_owned();
        s.append(self.bg);
        s.push(self.ch);
        proof {
            assert(s@ =~= self.fg@ + self.bg@ + seq![self.ch]);
        }
        s
    }
}

/// An integer position in terminal space.
#[derive(Clone, Copy, Debug, PartialEq, Eq, Structural)]
pub struct TermCoord {
    pub x: usize,
    pub y: usize,
}

impl TermCoord {
    /// The terminal-space offset of a map position relative to the zoom
    /// origin: terminal rows pack two map rows each.
    pub fn from_game_coord(game_coord: GameCoord, map_zoom: TermCoord) -> (r: (i32, i32))
        requires
            game_coord.x <= i32::MAX,
            game_coord.y <= i32::MAX,
            map_zoom.x <= i32::MAX,
            map_zoom.y <= i32::MAX,
        ensures
            r.0 == game_coord.y as int / 2 - map_zoom.y as int,
            r.1 == game_coord.x as int - map_zoom.x as int,
    {
        (game_coord.y as i32 / 2 - map_zoom.y as i32, game_coord.x as i32 - map_zoom.x as i32)
    }
}

/// Conversion from a terminal-space position back to a map position.
pub trait FromTermCoord {
    /// The map cell a terminal cell stands for, under the given zoom
    /// origin.
    fn from_term_coord(term_coord: TermCoord, map_zoom: TermCoord) -> (r: GameCoord)
        requires
            term_coord.x + map_zoom.x <= usize::MAX,
            (term_coord.y + map_zoom.y) * 2 <= usize::MAX,
        ensures
            r.x == term_coord.x + map_zoom.x,
            r.y == (term_coord.y + map_zoom.y) * 2,
    ;
}

impl FromTermCoord for GameCoord {
    fn from_term_coord(term_coord: TermCoord, map_zoom: TermCoord) -> (r: GameCoord) {
        proof {
            assert((term_coord.y + map_zoom.y) * 2 >= term_coord.y + map_zoom.y) by (nonlinear_arith);
        }
        Self { x: term_coord.x + map_zoom.x, y: (term_coord.y + map_zoom.y) * 2 }
    }
}

/// Paint a line of text into a cell grid at the given row, starting at the
/// given column; characters that would fall past the row's end are
/// discarded, as is the whole call when the row does not exist. Text is
/// taken byte by byte, so color codes and glyphs stay one cell each.
pub fn draw_text(content: &mut Vec<Vec<TermCell>>, text: &str, row: usize, col: usize)
    ensures
        final(content)@.len() == old(content)@.len(),
        forall|r2: int|
            0 <= r2 < old(content)@.len() && r2 != row ==> #[trigger] final(content)@[r2]
                == old(content)@[r2],
        row < old(content)@.len() ==> {
            &&& final(content)@[row as int]@.len() == old(content)@[row as int]@.len()
            &&& forall|c2: int|
                0 <= c2 < old(content)@[row as int]@.len() && !(col <= c2 < col
                    + text.spec_bytes().len()) ==> #[trigger] final(content)@[row as int]@[c2]
                    == old(content)@[row as int]@[c2]
            &&& forall|k: int|
                0 <= k < text.spec_bytes().len() && col + k < old(content)@[row as int]@.len()
                    ==> (#[trigger] final(content)@[row as int]@[col + k]).ch == text.spec_bytes()[k] as char
        },
{
    if row >= content.len() {
        return ;
    }
    let bytes = text.as_bytes();
    let n = bytes.len();
    let mut i: usize = 0;
    while i < n
        invariant
            i <= n,
            n == bytes@.len(),
            bytes@ == text.spec_bytes(),
            row < content@.len(),
            content@.len() == old(content)@.len(),
            forall|r2: int|
                0 <= r2 < old(content)@.len() && r2 != row ==> #[trigger] content@[r2]
                    == old(content)@[r2],
            content@[row as int]@.len() == old(content)@[row as int]@.len(),
            forall|c2: int|
                0 <= c2 < old(content)@[row as int]@.len() && !(col <= c2 < col
                    + text.spec_bytes().len()) ==> #[trigger] content@[row as int]@[c2]
                    == old(content)@[row as int]@[c2],
            forall|k: int|
                0 <= k < i && col + k < old(content)@[row as int]@.len()
                    ==> (#[trigger] content@[row as int]@[col + k]).ch == text.spec_bytes()[k] as char,
        decreases n - i,
    {
        let row_len = content[row].len();
        if col < row_len && i < row_len - col {
            let ghost pre = content@;
            let cell = TermCell::new(bytes[i] as char, "\x1b[37m", "\x1b[40m");
            let target = col + i;
            let mut line = content.remove(row);
            line[target] = cell;
            content.insert(row, line);
            proof {
                assert(content@ =~= pre.update(row as int, content@[row as int]));
                assert forall|k: int|
                    0 <= k < i + 1 && col + k < old(content)@[row as int]@.len() implies (
                #[trigger] content@[row as int]@[col + k]).ch == text.spec_bytes()[k] as char by {
                    if k < i {
                        assert(content@[row as int]@[col + k] == pre[row as int]@[col + k]);
                    } else {
                        assert(content@[row as int]@[col + i] == cell);
                    }
                }
            }
        }
        i = i + 1;
    }
}

/// Frame a cell grid: a titled top border, a bottom border, and side bars;
/// every original cell keeps its place inside the frame.
pub fn add_frame(title: &str, renderable: &mut Vec<Vec<TermCell>>)
    requires
        old(renderable)@.len() >= 1,
        old(renderable)@.len() + 2 <= usize::MAX,
        old(renderable)@[0]@.len() + 2 <= usize::MAX,
        forall|r: int|
            0 <= r < old(renderable)@.len() ==> (#[trigger] old(renderable)@[r]@).len() == old(
                renderable,
            )@[0]@.len(),
    ensures
        final(renderable)@.len() == old(renderable)@.len() + 2,
        forall|r: int|
            0 <= r < final(renderable)@.len() ==> (#[trigger] final(renderable)@[r]@).len() == old(
                renderable,
            )@[0]@.len() + 2,
        forall|r: int, c: int|
            0 <= r < old(renderable)@.len() && 0 <= c < old(renderable)@[0]@.len()
                ==> #[trigger] final(renderable)@[r + 1]@[c + 1] == old(renderable)@[r]@[c],
        forall|r: int|
            0 <= r < old(renderable)@.len() ==> (#[trigger] final(renderable)@[r + 1]@)[0].ch
                == '|' && final(renderable)@[r + 1]@[(old(renderable)@[0]@.len() + 1) as int].ch
                == '|',
        final(renderable)@[0]@[0].ch == '+',
        final(renderable)@[(old(renderable)@.len() + 1) as int]@[0].ch == '+',
{
    let rows = renderable.len();
    let cols = renderable[0].len();

    let mut top: Vec<TermCell> = Vec::new();
    top.push(TermCell::new('+', "\x1b[37m", "\x1b[40m"));
    let mut j: usize = 0;
    while j < cols
        invariant
            j <= cols,
            top@.len() == j + 1,
            top@[0].ch == '+',
        decreases cols - j,
    {
        top.push(TermCell::new('-', "\x1b[37m", "\x1b[40m"));
        j = j + 1;
    }
    top.push(TermCell::new('+', "\x1b[37m", "\x1b[40m"));
    let mut bottom: Vec<TermCell> = Vec::new();
    let mut j2: usize = 0;
    bottom.push(TermCell::new('+', "\x1b[37m", "\x1b[40m"));
    while j2 < cols
        invariant
            j2 <= cols,
            bottom@.len() == j2 + 1,
            bottom@[0].ch == '+',
        decreases cols - j2,
    {
        bottom.push(TermCell::new('-', "\x1b[37m", "\x1b[40m"));
        j2 = j2 + 1;
    }
    bottom.push(TermCell::new('+', "\x1b[37m", "\x1b[40m"));

    let title_bytes = title.as_bytes();
    let mut t: usize = 0;
    while t < title_bytes.len()
        invariant
            top@.len() == cols + 2,
            top@[0].ch == '+',
        decreases title_bytes@.len() - t,
    {
        if t <= usize::MAX - 3 && t + 3 <= cols {
            top[t + 2] = TermCell::new(title_bytes[t] as char, "\x1b[37m", "\x1b[40m");
        }
        t = t + 1;
    }

    let ghost pre = renderable@;
    let mut framed: Vec<Vec<TermCell>> = Vec::new();
    framed.push(top);
    let mut r: usize = 0;
    while r < rows
        invariant
            r <= rows,
            rows == pre.len(),
            cols == pre[0]@.len(),
            forall|r2: int| 0 <= r2 < pre.len() ==> (#[trigger] pre[r2]@).len() == cols,
            renderable@ == pre,
            framed@.len() == r + 1,
            forall|r2: int|
                0 <= r2 < framed@.len() ==> (#[trigger] framed@[r2]@).len() == cols + 2,
            forall|r2: int, c2: int|
                0 <= r2 < r && 0 <= c2 < cols ==> #[trigger] framed@[r2 + 1]@[c2 + 1]
                    == pre[r2]@[c2],
            forall|r2: int|
                1 <= r2 < framed@.len() ==> (#[trigger] framed@[r2]@)[0].ch == '|'
                    && framed@[r2]@[cols + 1].ch == '|',
            framed@[0]@[0].ch == '+',
        decreases rows - r,
    {
        let mut line: Vec<TermCell> = Vec::new();
        line.push(TermCell::new('|', "\x1b[37m", "\x1b[40m"));
        let mut c: usize = 0;
        while c < cols
            invariant
                c <= cols,
                r < rows,
                rows == pre.len(),
                cols == pre[0]@.len(),
                forall|r2: int| 0 <= r2 < pre.len() ==> (#[trigger] pre[r2]@).len() == cols,
                renderable@ == pre,
                line@.len() == c + 1,
                line@[0].ch == '|',
                forall|c2: int| 0 <= c2 < c ==> #[trigger] line@[c2 + 1] == pre[r as int]@[c2],
            decreases cols - c,
        {
            line.push(renderable[r][c]);
            c = c + 1;
        }
        line.push(TermCell::new('|', "\x1b[37m", "\x1b[40m"));
        framed.push(line);
        r = r + 1;
    }
    framed.push(bottom);
    *renderable = framed;
}

} // verus!
