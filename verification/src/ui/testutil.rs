//! From the cells of a terminal back to lines of text.
//!
//! An East Asian wide character takes two columns: it stands in the first cell,
//! and the second one is only there to be passed over.
#[allow(unused_imports)]
use crate::text;
use crate::text::{chars_of, push_text, trim_end};
use vstd::prelude::*;
use vstd::string::*;

#[allow(unused_imports)]
use crate::app::input;

verus! {

/// Whether a character takes two columns: the main blocks of the wide and
/// full-width characters of Unicode.
pub open spec fn wide(c: char) -> bool {
    ||| 0x1100 <= c as int <= 0x115F
    ||| 0x2E80 <= c as int <= 0x303E
    ||| 0x3041 <= c as int <= 0x33FF
    ||| 0x3400 <= c as int <= 0x4DBF
    ||| 0x4E00 <= c as int <= 0x9FFF
    ||| 0xA000 <= c as int <= 0xA4CF
    ||| 0xAC00 <= c as int <= 0xD7A3
    ||| 0xF900 <= c as int <= 0xFAFF
    ||| 0xFE30 <= c as int <= 0xFE6F
    ||| 0xFF00 <= c as int <= 0xFF60
    ||| 0xFFE0 <= c as int <= 0xFFE6
    ||| 0x20000 <= c as int <= 0x3FFFD
}

/// How many cells a symbol takes.
pub open spec fn cells_taken(symbol: Seq<char>) -> int {
    if symbol.len() > 0 && wide(symbol[0]) {
        2
    } else {
        1
    }
}

/// The text of cells from `x` on.
pub open spec fn cells_text(cells: Seq<Seq<char>>, x: int) -> Seq<char>
    decreases cells.len() + 2 - x,
{
    if x < 0 || x >= cells.len() {
        Seq::empty()
    } else {
        cells[x] + cells_text(cells, x + cells_taken(cells[x]))
    }
}

/// Whether a character takes two columns.
pub fn is_wide(c: char) -> (r: bool)
    ensures
        r == wide(c),
{
    let n: u32 = c as u32;
    (0x1100 <= n && n <= 0x115F) || (0x2E80 <= n && n <= 0x303E) || (0x3041 <= n && n <= 0x33FF)
        || (0x3400 <= n && n <= 0x4DBF) || (0x4E00 <= n && n <= 0x9FFF) || (0xA000 <= n && n
        <= 0xA4CF) || (0xAC00 <= n && n <= 0xD7A3) || (0xF900 <= n && n <= 0xFAFF) || (0xFE30 <= n
        && n <= 0xFE6F) || (0xFF00 <= n && n <= 0xFF60) || (0xFFE0 <= n && n <= 0xFFE6) || (0x20000
        <= n && n <= 0x3FFFD)
}

/// The text of a row of cells, without the white space at its end.
pub fn row_text(cells: &Vec<String>) -> (s: String)
    ensures
        s@ == text::trimmed_end(cells_text(input::text_views(cells@), 0)),
{
    let ghost views = input::text_views(cells@);
    let mut line = String::new();
    let mut x: usize = 0;
    while x < cells.len()
        invariant
            views == input::text_views(cells@),
            line@ + cells_text(views, x as int) == cells_text(views, 0),
        decreases cells@.len() + 2 - x,
    {
        let symbol = cells[x].as_str();
        let ghost before = line@;
        push_text(&mut line, symbol);
        let chars = chars_of(symbol);
        let step: usize = if chars.len() > 0 && is_wide(chars[0]) {
            2
        } else {
            1
        };
        assert(views[x as int] == symbol@);
        assert(line@ + cells_text(views, x + step) =~= before + cells_text(views, x as int));
        if step == 2 && x + 1 == cells.len() {
            assert(cells_text(views, x + 1) == Seq::<char>::empty());
            x = cells.len();
        } else {
            x = x + step;
        }
    }
    assert(line@ =~= cells_text(views, 0));
    trim_end(line.as_str())
}

/// How cells are read: the symbol of each in turn, and where that is a wide character the
/// cell behind it is passed over.
pub proof fn law_cells_are_read_in_turn(cells: Seq<Seq<char>>, x: int)
    requires
        0 <= x < cells.len(),
    ensures
        cells[x].len() > 0 && wide(cells[x][0]) ==> cells_text(cells, x) == cells[x] + cells_text(
            cells,
            x + 2,
        ),
        !(cells[x].len() > 0 && wide(cells[x][0])) ==> cells_text(cells, x) == cells[x]
            + cells_text(cells, x + 1),
        cells_text(cells, cells.len() as int).len() == 0,
        cells_text(cells, cells.len() as int + 1).len() == 0,
{
}

/// Which characters take two columns: Hangul Jamo, the CJK radicals, symbols, kana and
/// ideographs, Yi, Hangul syllables, the compatibility and full-width forms, and the
/// ideographs of the supplementary planes.
pub proof fn law_wide_characters(c: char)
    ensures
        wide(c) <==> {
            let n = c as int;
            ||| 0x10FF < n < 0x1160
            ||| 0x2E7F < n < 0x303F
            ||| 0x3040 < n < 0x4DC0
            ||| 0x4DFF < n < 0xA4D0
            ||| 0xABFF < n < 0xD7A4
            ||| 0xF8FF < n < 0xFB00
            ||| 0xFE2F < n < 0xFE70
            ||| 0xFEFF < n < 0xFF61
            ||| 0xFFDF < n < 0xFFE7
            ||| 0x1FFFF < n < 0x3FFFE
        },
{
}

} // verus!
