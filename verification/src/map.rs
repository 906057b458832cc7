//! The text form of a map and the grid it describes.
//!
//! A map is written row by row. Each row is a run of symbols closed by a line
//! feed: `_` for an empty cell, `%` for floor, `|` for wall and `@` for the
//! floor cell on which the player starts. Every other character is skipped.

use vstd::prelude::*;
use crate::block::Block;
use crate::color::{BLUE, RED};
use crate::playground::{lemma_cell_index, Grid};

verus! {

/// Why a text is not a map.
#[derive(Clone, Copy, Debug, PartialEq, Eq, Structural)]
pub enum MapError {
    /// The text closes no row: it holds no line feed.
    NoRows,
    /// The first row holds no cell.
    ZeroWidth,
    /// A row is longer or shorter than the first, or cells follow the last
    /// line feed.
    Ragged,
    /// No cell is marked as the place where the player starts.
    NoSpawn,
}

/// The block that a symbol stands for, if it stands for one.
pub open spec fn block_of(symbol: char) -> Option<Block> {
    if symbol == '_' {
        Some(Block::Empty)
    } else if symbol == '%' || symbol == '@' {
        Some(Block::Floor { color: RED })
    } else if symbol == '|' {
        Some(Block::Wall { color: BLUE })
    } else {
        None
    }
}

/// The blocks that `text` describes, in the order in which it names them.
pub open spec fn tiles(text: Seq<char>) -> Seq<Block>
    decreases text.len(),
{
    if text.len() == 0 {
        Seq::empty()
    } else {
        match block_of(text.last()) {
            Some(block) => tiles(text.drop_last()).push(block),
            None => tiles(text.drop_last()),
        }
    }
}

/// The number of rows that `text` closes: its line feeds.
pub open spec fn rows(text: Seq<char>) -> nat
    decreases text.len(),
{
    if text.len() == 0 {
        0
    } else if text.last() == '\n' {
        rows(text.drop_last()) + 1
    } else {
        rows(text.drop_last())
    }
}

/// The number of cells in the row that `text` has not closed yet: those after
/// its last line feed.
pub open spec fn column(text: Seq<char>) -> nat
    decreases text.len(),
{
    if text.len() == 0 {
        0
    } else if text.last() == '\n' {
        0
    } else if block_of(text.last()) is Some {
        column(text.drop_last()) + 1
    } else {
        column(text.drop_last())
    }
}

/// Whether the first line feed of `text` stands at `i`.
pub open spec fn is_first_terminator(text: Seq<char>, i: int) -> bool {
    &&& 0 <= i < text.len()
    &&& text[i] == '\n'
    &&& forall|j: int| 0 <= j < i ==> text[j] != '\n'
}

/// Where the first row of `text` ends.
pub open spec fn first_terminator(text: Seq<char>) -> int {
    choose|i: int| is_first_terminator(text, i)
}

/// The number of cells in the first row of `text`.
pub open spec fn width(text: Seq<char>) -> nat {
    column(text.take(first_terminator(text)))
}

/// Whether every row that `text` closes holds exactly `width` cells.
pub open spec fn rectangular(text: Seq<char>, width: nat) -> bool {
    forall|i: int| 0 <= i < text.len() && text[i] == '\n' ==> column(#[trigger] text.take(i)) == width
}

/// Whether the last spawn marker of `text` stands at `i`.
pub open spec fn is_last_spawn(text: Seq<char>, i: int) -> bool {
    &&& 0 <= i < text.len()
    &&& text[i] == '@'
    &&& forall|j: int| i < j < text.len() ==> text[j] != '@'
}

/// Where the marker stands that decides the spawn: the last one.
pub open spec fn spawn_index(text: Seq<char>) -> int {
    choose|i: int| is_last_spawn(text, i)
}

/// The column of the cell on which the player starts.
pub open spec fn spawn_column(text: Seq<char>) -> nat {
    column(text.take(spawn_index(text)))
}

/// The row of the cell on which the player starts.
pub open spec fn spawn_row(text: Seq<char>) -> nat {
    rows(text.take(spawn_index(text)))
}

/// What is wrong with `text` as a map, or `None` if it is one. Of several
/// faults the first in this order is reported: no row, an empty first row, a
/// ragged row, no spawn marker.
pub open spec fn map_error(text: Seq<char>) -> Option<MapError> {
    if rows(text) == 0 {
        Some(MapError::NoRows)
    } else if width(text) == 0 {
        Some(MapError::ZeroWidth)
    } else if !rectangular(text, width(text)) || column(text) != 0 {
        Some(MapError::Ragged)
    } else if !text.contains('@') {
        Some(MapError::NoSpawn)
    } else {
        None
    }
}

/// The grid that a map describes.
pub open spec fn grid_of(text: Seq<char>) -> Grid {
    Grid { tiles: tiles(text), width: width(text), height: rows(text) }
}

/// Cells, rows and the open row of two texts written one after the other.
pub proof fn lemma_concat(a: Seq<char>, b: Seq<char>)
    ensures
        tiles(a + b) == tiles(a) + tiles(b),
        rows(a + b) == rows(a) + rows(b),
        rows(b) == 0 ==> column(a + b) == column(a) + tiles(b).len(),
        rows(b) > 0 ==> column(a + b) == column(b),
    decreases b.len(),
{
    if b.len() == 0 {
        assert(a + b =~= a);
        assert(tiles(a) + tiles(b) =~= tiles(a));
    } else {
        assert((a + b).drop_last() =~= a + b.drop_last());
        assert((a + b).last() == b.last());
        lemma_concat(a, b.drop_last());
        assert(tiles(a + b) =~= tiles(a) + tiles(b));
    }
}

/// A text closes no row exactly if it holds no line feed.
pub proof fn lemma_rows_zero(text: Seq<char>)
    ensures
        rows(text) == 0 <==> (forall|j: int| 0 <= j < text.len() ==> text[j] != '\n'),
    decreases text.len(),
{
    if text.len() > 0 {
        lemma_rows_zero(text.drop_last());
        if rows(text) == 0 {
            assert forall|j: int| 0 <= j < text.len() implies text[j] != '\n' by {
                if j < text.len() - 1 {
                    assert(text.drop_last()[j] == text[j]);
                }
            }
        }
        if forall|j: int| 0 <= j < text.len() ==> text[j] != '\n' {
            assert forall|j: int| 0 <= j < text.drop_last().len() implies text.drop_last()[j]
                != '\n' by {
                assert(text.drop_last()[j] == text[j]);
            }
        }
    }
}

/// A text is its part before `i` followed by its part from `i` on.
pub proof fn lemma_split(text: Seq<char>, i: int)
    requires
        0 <= i <= text.len(),
    ensures
        tiles(text) == tiles(text.take(i)) + tiles(text.skip(i)),
        rows(text) == rows(text.take(i)) + rows(text.skip(i)),
        rows(text.skip(i)) == 0 ==> column(text) == column(text.take(i)) + tiles(
            text.skip(i),
        ).len(),
        rows(text.skip(i)) > 0 ==> column(text) == column(text.skip(i)),
{
    assert(text =~= text.take(i) + text.skip(i));
    lemma_concat(text.take(i), text.skip(i));
}

/// Only one place can hold the first line feed.
pub proof fn lemma_first_terminator(text: Seq<char>, i: int)
    requires
        is_first_terminator(text, i),
    ensures
        first_terminator(text) == i,
{
    let f = first_terminator(text);
    assert(is_first_terminator(text, f));
    if f < i {
        assert(text[f] != '\n');
    }
    if i < f {
        assert(text[i] != '\n');
    }
}

/// Only one place can hold the last spawn marker.
pub proof fn lemma_last_spawn(text: Seq<char>, i: int)
    requires
        is_last_spawn(text, i),
    ensures
        spawn_index(text) == i,
{
    let s = spawn_index(text);
    assert(is_last_spawn(text, s));
    if s < i {
        assert(text[i] != '@');
    }
    if i < s {
        assert(text[s] != '@');
    }
}

/// A text whose closed rows all hold `width` cells holds `width` cells for
/// each closed row, and those of its open row.
pub proof fn lemma_tile_count(text: Seq<char>, width: nat)
    requires
        rectangular(text, width),
    ensures
        tiles(text).len() == rows(text) * width + column(text),
    decreases text.len(),
{
    if text.len() > 0 {
        let before = text.drop_last();
        assert forall|i: int| 0 <= i < before.len() && before[i] == '\n' implies column(
            #[trigger] before.take(i),
        ) == width by {
            assert(before.take(i) =~= text.take(i));
            assert(text[i] == before[i]);
        }
        lemma_tile_count(before, width);
        if text.last() == '\n' {
            assert(text.take(text.len() - 1) =~= before);
            assert(text[text.len() - 1] == '\n');
            assert(column(before) == width);
            assert((rows(before) + 1) * width == rows(before) * width + width)
                by (nonlinear_arith);
        }
    } else {
        assert(0 * width == 0) by (nonlinear_arith);
    }
}

/// The closed rows of the part of a text before `i` are closed rows of the
/// text.
pub proof fn lemma_rectangular_prefix(text: Seq<char>, width: nat, i: int)
    requires
        rectangular(text, width),
        0 <= i <= text.len(),
    ensures
        rectangular(text.take(i), width),
{
    let part = text.take(i);
    assert forall|j: int| 0 <= j < part.len() && part[j] == '\n' implies column(
        #[trigger] part.take(j),
    ) == width by {
        assert(part.take(j) =~= text.take(j));
        assert(text[j] == part[j]);
    }
}

/// A text that starts with a symbol for a block describes that block first.
pub proof fn lemma_first_tile(text: Seq<char>)
    requires
        text.len() > 0,
        block_of(text[0]) is Some,
    ensures
        tiles(text).len() >= 1,
        tiles(text)[0] == block_of(text[0])->0,
{
    lemma_split(text, 1);
    let head = text.take(1);
    assert(head.last() == text[0]);
    assert(tiles(head.drop_last()) =~= Seq::<Block>::empty());
    assert(tiles(head) =~= seq![block_of(text[0])->0]);
}

/// The line feed that closes the row of the symbol at `i`, searched from `k`
/// on. A map has one, since no cell follows its last line feed.
proof fn lemma_row_end(text: Seq<char>, i: int, k: int) -> (e: int)
    requires
        0 <= i < k <= text.len(),
        column(text) == 0,
        block_of(text[i]) is Some,
        forall|j: int| i <= j < k ==> text[j] != '\n',
    ensures
        k <= e < text.len(),
        text[e] == '\n',
        forall|j: int| i <= j < e ==> text[j] != '\n',
    decreases text.len() - k,
{
    if k == text.len() {
        let rest = text.skip(i);
        assert forall|j: int| 0 <= j < rest.len() implies rest[j] != '\n' by {
            assert(rest[j] == text[i + j]);
        }
        lemma_rows_zero(rest);
        lemma_split(text, i);
        lemma_first_tile(rest);
        assert(false);
        k
    } else if text[k] == '\n' {
        k
    } else {
        lemma_row_end(text, i, k + 1)
    }
}

/// Every symbol of a map that stands for a block lies in a cell of the grid:
/// in the row given by the line feeds before it and the column given by the
/// cells before it in its row. That cell holds the block of the symbol.
pub proof fn lemma_symbol_cell(text: Seq<char>, i: int)
    requires
        map_error(text) is None,
        0 <= i < text.len(),
        block_of(text[i]) is Some,
    ensures
        grid_of(text).wf(),
        grid_of(text).contains(column(text.take(i)) as int, rows(text.take(i)) as int),
        grid_of(text).at(column(text.take(i)) as int, rows(text.take(i)) as int) == block_of(
            text[i],
        )->0,
        tiles(text.take(i)).len() == rows(text.take(i)) * width(text) + column(text.take(i)),
{
    let w = width(text);
    let h = rows(text);
    let c = column(text.take(i));
    let r = rows(text.take(i));
    lemma_tile_count(text, w);
    assert(h * w == w * h) by (nonlinear_arith);
    // The row of the symbol is closed at `e`.
    let e = lemma_row_end(text, i, i + 1);
    let row_part = text.subrange(i, e);
    assert forall|j: int| 0 <= j < row_part.len() implies row_part[j] != '\n' by {
        assert(row_part[j] == text[i + j]);
    }
    lemma_rows_zero(row_part);
    lemma_first_tile(row_part);
    assert(text.take(e) =~= text.take(i) + row_part);
    lemma_concat(text.take(i), row_part);
    assert(column(text.take(e)) == w);
    assert(c < w);
    lemma_split(text, e + 1);
    assert(text.take(e + 1).drop_last() =~= text.take(e));
    assert(text.take(e + 1).last() == '\n');
    assert(r < h);
    // The cells before the symbol fill the rows above it and its own row up
    // to its column.
    lemma_rectangular_prefix(text, w, i);
    lemma_tile_count(text.take(i), w);
    lemma_split(text, i);
    lemma_first_tile(text.skip(i));
    assert(tiles(text)[(r * w + c) as int] == tiles(text.skip(i))[0]);
}

/// The place of the symbol that describes the block of index `k`.
proof fn lemma_nth_symbol(text: Seq<char>, k: int) -> (i: int)
    requires
        0 <= k < tiles(text).len(),
    ensures
        0 <= i < text.len(),
        block_of(text[i]) is Some,
        tiles(text.take(i)).len() == k,
    decreases text.len(),
{
    let before = text.drop_last();
    if block_of(text.last()) is Some && k == tiles(before).len() {
        assert(text.take(text.len() - 1) =~= before);
        text.len() - 1
    } else {
        let i = lemma_nth_symbol(before, k);
        assert(before.take(i) =~= text.take(i));
        i
    }
}

/// Every cell of the grid of a map is described by a symbol of the text:
/// the one with `y` line feeds before it and `x` cells before it in its row.
pub proof fn lemma_cell_symbol(text: Seq<char>, x: int, y: int) -> (i: int)
    requires
        map_error(text) is None,
        grid_of(text).contains(x, y),
    ensures
        0 <= i < text.len(),
        block_of(text[i]) is Some,
        column(text.take(i)) == x,
        rows(text.take(i)) == y,
        grid_of(text).at(x, y) == block_of(text[i])->0,
{
    let w = width(text);
    lemma_tile_count(text, w);
    assert(rows(text) * w == w * rows(text)) by (nonlinear_arith);
    lemma_cell_index(grid_of(text), x, y);
    let k = y * w + x;
    let i = lemma_nth_symbol(text, k);
    lemma_symbol_cell(text, i);
    let c = column(text.take(i)) as int;
    let r = rows(text.take(i)) as int;
    vstd::arithmetic::div_mod::lemma_fundamental_div_mod_converse(k, w as int, r, c);
    i
}

} // verus!
