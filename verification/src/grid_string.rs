//! Maps written as text: one line per row, one character per cell.

use vstd::prelude::*;
use crate::grid::{Grid, index_of, lemma_index_in_bounds};
use crate::text::string_from_chars;
use crate::v2i::V2I;

verus! {

/// The lines of `s`, split at each `'\n'`, with every space removed.
pub open spec fn split_lines(s: Seq<char>) -> Seq<Seq<char>>
    decreases s.len(),
{
    if s.len() == 0 {
        seq![Seq::<char>::empty()]
    } else {
        let init = split_lines(s.drop_last());
        let c = s.last();
        if c == '\n' {
            init.push(Seq::<char>::empty())
        } else if c == ' ' {
            init
        } else {
            init.update(init.len() - 1, init.last().push(c))
        }
    }
}

proof fn lemma_split_lines_nonempty(s: Seq<char>)
    ensures
        split_lines(s).len() >= 1,
    decreases s.len(),
{
    if s.len() > 0 {
        lemma_split_lines_nonempty(s.drop_last());
    }
}

/// The characters of each line.
pub open spec fn char_lines(v: Seq<Vec<char>>) -> Seq<Seq<char>> {
    v.map_values(|l: Vec<char>| l@)
}

fn lines_of(map: &str) -> (r: Vec<Vec<char>>)
    ensures
        char_lines(r@) == split_lines(map@),
{
    broadcast use vstd::string::group_string_axioms;
    let mut lines: Vec<Vec<char>> = Vec::new();
    let mut cur: Vec<char> = Vec::new();
    for ch in it: map.chars()
        invariant
            it.seq() == map@,
            split_lines(map@.take(it.index() as int)) == char_lines(lines@).push(cur@),
    {
        proof {
            lemma_split_lines_nonempty(it.seq().take(it.index() as int));
        }
        let ghost prefix = map@.take(it.index() as int);
        let ghost next = map@.take(it.index() + 1);
        let ghost old_lines = char_lines(lines@);
        let ghost old_vec = lines@;
        let ghost old_cur = cur@;
        assert(ch == map@[it.index() as int]);
        assert(next.drop_last() =~= prefix);
        assert(next.last() == ch);
        assert(split_lines(next) == {
            let init = split_lines(prefix);
            if ch == '\n' {
                init.push(Seq::<char>::empty())
            } else if ch == ' ' {
                init
            } else {
                init.update(init.len() - 1, init.last().push(ch))
            }
        });
        if ch == '\n' {
            let mut done: Vec<char> = Vec::new();
            std::mem::swap(&mut done, &mut cur);
            lines.push(done);
            assert(lines@ == old_vec.push(done));
            assert(char_lines(lines@) =~= old_lines.push(old_cur));
        } else if ch != ' ' {
            cur.push(ch);
        }
        assert(split_lines(next) =~= char_lines(lines@).push(cur@));
    }
    assert(map@.take(map@.len() as int) =~= map@);
    lines.push(cur);
    lines
}


/// Why a text map could not be read or written.
#[derive(Debug)]
pub enum ParseMapError {
    UnknownChar(char),
    FewLines,
    InvalidLineWidth(String),
    UnknownTileAt([i32; 2]),
}

/// Reads one character of a text map as a tile.
pub trait Parser<Tile> {
    /// The tile the character `ch` stands for, if any.
    spec fn tile_for(&self, ch: char) -> Option<Tile>;

    fn parse_tile(&self, ch: char) -> (r: Option<Tile>)
        ensures
            r == self.tile_for(ch),
    ;
}

/// Writes one tile of a grid as a map character.
pub trait GridSerialize<T> {
    /// The character `tile` is written as, if any.
    spec fn char_for(&self, tile: &T) -> Option<char>;

    fn serialize(&self, tile: &T) -> (r: Option<char>)
        ensures
            r == self.char_for(tile),
    ;
}

/// The rows of the text map `s`: its lines without spaces, less a first line and
/// then a last line that are empty.
pub open spec fn map_rows(s: Seq<char>) -> Seq<Seq<char>> {
    let l = split_lines(s);
    let a = if l.len() > 0 && l[0].len() == 0 { l.drop_first() } else { l };
    if a.len() > 0 && a.last().len() == 0 { a.drop_last() } else { a }
}

/// The text maps that have no row left once the first empty line is dropped
/// but did have one more (empty) line before the last empty line was dropped:
/// these are the maps whose lines are exactly two empty lines.
pub open spec fn rows_vanish(s: Seq<char>) -> bool {
    let l = split_lines(s);
    l.len() == 2 && l[0].len() == 0 && l[1].len() == 0
}

/// The text maps the reader accepts: not two empty lines alone, and a first row
/// length times the row count that fits an `i32`.
pub open spec fn readable(s: Seq<char>) -> bool {
    &&& !rows_vanish(s)
    &&& map_rows(s).len() > 0 ==> map_rows(s)[0].len() * map_rows(s).len() <= i32::MAX
    &&& map_rows(s).len() <= i32::MAX
}

/// The text `s` without its spaces.
pub open spec fn without_spaces(s: Seq<char>) -> Seq<char> {
    s.filter(|c: char| c != ' ')
}

proof fn lemma_split_lines_without_spaces(s: Seq<char>)
    ensures
        split_lines(without_spaces(s)) == split_lines(s),
    decreases s.len(),
{
    if s.len() > 0 {
        let dl = s.drop_last();
        let c = s.last();
        lemma_split_lines_without_spaces(dl);
        assert(dl.push(c) =~= s);
        crate::seqs::lemma_filter_push(dl, c, |c: char| c != ' ');
        if c != ' ' {
            assert(without_spaces(s).drop_last() =~= without_spaces(dl));
            assert(without_spaces(s).last() == c);
        }
    }
}

proof fn lemma_split_lines_newline_first(s: Seq<char>)
    ensures
        split_lines(seq!['\n'] + s) == seq![Seq::<char>::empty()] + split_lines(s),
    decreases s.len(),
{
    let t = seq!['\n'] + s;
    if s.len() == 0 {
        assert(t.drop_last() =~= Seq::<char>::empty());
        assert(s =~= Seq::<char>::empty());
        assert(t.last() == '\n');
        assert(split_lines(Seq::<char>::empty()) == seq![Seq::<char>::empty()]);
        assert(split_lines(t) == split_lines(Seq::<char>::empty()).push(Seq::<char>::empty()));
        assert(split_lines(t) =~= seq![Seq::<char>::empty()] + split_lines(s));
    } else {
        let dl = s.drop_last();
        lemma_split_lines_newline_first(dl);
        lemma_split_lines_nonempty(dl);
        assert(t.drop_last() =~= seq!['\n'] + dl);
        assert(t.last() == s.last());
        let l = split_lines(dl);
        let e = seq![Seq::<char>::empty()];
        assert((e + l).push(Seq::<char>::empty()) =~= e + l.push(Seq::<char>::empty()));
        assert((e + l).update((e + l).len() - 1, (e + l).last().push(s.last())) =~= e + l.update(
            l.len() - 1,
            l.last().push(s.last()),
        ));
    }
}

/// Spaces do not matter to the reader: a map reads to the same rows, and is
/// accepted alike, with or without them.
pub proof fn lemma_map_rows_without_spaces(s: Seq<char>)
    ensures
        map_rows(without_spaces(s)) == map_rows(s),
        readable(without_spaces(s)) == readable(s),
{
    lemma_split_lines_without_spaces(s);
}

/// A map whose first line is not empty reads to the same rows, and is accepted
/// alike, with one more line end before it; one whose last line is not empty,
/// with one more line end after it.
pub proof fn lemma_map_rows_edge_newlines(s: Seq<char>)
    ensures
        split_lines(s)[0].len() > 0 ==> map_rows(seq!['\n'] + s) == map_rows(s) && readable(seq!['\n'] + s)
            == readable(s),
        split_lines(s).last().len() > 0 ==> map_rows(s + seq!['\n']) == map_rows(s) && readable(
            s + seq!['\n'],
        ) == readable(s),
{
    lemma_split_lines_nonempty(s);
    let l = split_lines(s);
    if l[0].len() > 0 {
        lemma_split_lines_newline_first(s);
        let l2 = split_lines(seq!['\n'] + s);
        assert(l2.drop_first() =~= l);
    }
    if l.last().len() > 0 {
        let t = s + seq!['\n'];
        assert(t.drop_last() =~= s);
        assert(split_lines(t) == l.push(Seq::<char>::empty()));
        let a = if l.len() > 0 && l[0].len() == 0 { l.drop_first() } else { l };
        let l2 = l.push(Seq::<char>::empty());
        let a2 = if l2.len() > 0 && l2[0].len() == 0 { l2.drop_first() } else { l2 };
        assert(a2.drop_last() =~= a);
    }
}

/// The index of the first row whose length differs from that of row 0, or the
/// row count when all rows have the same length.
pub open spec fn first_uneven(rows: Seq<Seq<char>>, k: int) -> int
    decreases rows.len() - k,
{
    if k >= rows.len() || k < 0 {
        rows.len() as int
    } else if rows[k].len() != rows[0].len() {
        k
    } else {
        first_uneven(rows, k + 1)
    }
}

proof fn lemma_first_uneven(rows: Seq<Seq<char>>, k: int)
    requires
        0 <= k <= rows.len(),
    ensures
        k <= first_uneven(rows, k) <= rows.len(),
        forall|j: int| k <= j < first_uneven(rows, k) ==> (#[trigger] rows[j]).len() == rows[0].len(),
        first_uneven(rows, k) < rows.len() ==> rows[first_uneven(rows, k)].len() != rows[0].len(),
    decreases rows.len() - k,
{
    if k < rows.len() && rows[k].len() == rows[0].len() {
        lemma_first_uneven(rows, k + 1);
    }
}

proof fn lemma_flatten_len(rows: Seq<Seq<char>>, w: int)
    requires
        w >= 0,
        forall|j: int| 0 <= j < rows.len() ==> (#[trigger] rows[j]).len() == w,
    ensures
        rows.flatten().len() == rows.len() * w,
    decreases rows.len(),
{
    broadcast use Seq::lemma_flatten_push;
    if rows.len() == 0 {
        assert(rows.flatten() =~= Seq::<char>::empty());
    } else {
        let init = rows.drop_last();
        lemma_flatten_len(init, w);
        assert(init.push(rows.last()) =~= rows);
        init.lemma_flatten_push(rows.last());
        assert(rows.flatten() == init.flatten() + rows.last());
        assert(rows.flatten().len() == init.flatten().len() + w);
        assert(rows.len() * w == init.len() * w + w) by (nonlinear_arith)
            requires
                rows.len() == init.len() + 1,
        ;
    }
}

/// True when the reader accepts the text map `map` (see `readable`).
pub fn is_readable(map: &str) -> (r: bool)
    ensures
        r == readable(map@),
{
    let mut lines = lines_of(map);
    let ghost l0 = char_lines(lines@);
    proof {
        lemma_split_lines_nonempty(map@);
    }
    if lines.len() == 2 && lines[0].len() == 0 && lines[1].len() == 0 {
        assert(rows_vanish(map@));
        return false;
    }
    assert(!rows_vanish(map@));
    if lines[0].len() == 0 {
        lines.remove(0);
        assert(char_lines(lines@) =~= l0.drop_first());
    }
    let ghost l1 = char_lines(lines@);
    if lines.len() > 0 {
        let last = lines.len() - 1;
        if lines[last].len() == 0 {
            lines.remove(last);
            assert(char_lines(lines@) =~= l1.drop_last());
        }
    }
    let ghost rows = char_lines(lines@);
    assert(rows == map_rows(map@));
    if lines.len() > i32::MAX as usize {
        return false;
    }
    if lines.len() == 0 {
        return true;
    }
    assert(lines@[0]@ == rows[0]);
    let w = lines[0].len() as u128;
    let h = lines.len() as u128;
    assert(w * h <= 0xffff_ffff_ffff_ffff * 0xffff_ffff_ffff_ffffu128) by (nonlinear_arith)
        requires
            w <= 0xffff_ffff_ffff_ffffu128,
            h <= 0xffff_ffff_ffff_ffffu128,
    ;
    w * h <= i32::MAX as u128
}

/// Reads the text map `map` as a grid of characters: rows are the lines with
/// spaces removed, a leading and a trailing empty line are dropped, and every row
/// must be as long as the first.
pub fn parse_map_str(map: &str) -> (r: Result<Grid<char>, ParseMapError>)
    requires
        readable(map@),
    ensures
        match r {
            Ok(g) => {
                let rows = map_rows(map@);
                &&& rows.len() > 0
                &&& first_uneven(rows, 0) == rows.len()
                &&& g.wf()
                &&& g.width == rows[0].len()
                &&& g.height == rows.len()
                &&& g.list@ == rows.flatten()
                &&& forall|i: int| 0 <= i < g.written@.len() ==> #[trigger] g.written@[i]
            },
            Err(ParseMapError::FewLines) => map_rows(map@).len() == 0,
            Err(ParseMapError::InvalidLineWidth(line)) => {
                let rows = map_rows(map@);
                &&& rows.len() > 0
                &&& first_uneven(rows, 0) < rows.len()
                &&& line@ == rows[first_uneven(rows, 0)]
            },
            Err(_) => false,
        },
{
    let mut lines = lines_of(map);
    let ghost l0 = char_lines(lines@);
    proof {
        lemma_split_lines_nonempty(map@);
    }
    if lines.len() == 0 {
        return Err(ParseMapError::FewLines);
    }
    if lines[0].len() == 0 {
        lines.remove(0);
        assert(char_lines(lines@) =~= l0.drop_first());
    }
    let ghost l1 = char_lines(lines@);
    if lines.len() == 0 {
        return Err(ParseMapError::FewLines);
    }
    let last = lines.len() - 1;
    if lines[last].len() == 0 {
        lines.remove(last);
        assert(char_lines(lines@) =~= l1.drop_last());
    }
    let ghost rows = char_lines(lines@);
    assert(rows == map_rows(map@));
    let width_us = lines[0].len();
    assert(lines@[0]@ == rows[0]);
    assert(rows[0].len() * rows.len() <= i32::MAX);
    assert(rows[0].len() <= rows[0].len() * rows.len()) by (nonlinear_arith)
        requires
            rows.len() >= 1,
    ;
    assert(width_us <= i32::MAX);
    let width = width_us as i32;
    let height = lines.len() as i32;
    assert(width == rows[0].len());
    assert(height == rows.len());
    proof {
        lemma_first_uneven(rows, 0);
    }
    let mut cells: Vec<char> = Vec::new();
    let mut k: usize = 0;
    while k < lines.len()
        invariant
            rows == char_lines(lines@),
            rows == map_rows(map@),
            rows.len() >= 1,
            width_us == rows[0].len(),
            k <= rows.len(),
            forall|j: int| 0 <= j < k ==> (#[trigger] rows[j]).len() == rows[0].len(),
            cells@ == rows.take(k as int).flatten(),
            first_uneven(rows, 0) >= k || first_uneven(rows, 0) < rows.len(),
            forall|j: int| 0 <= j < first_uneven(rows, 0) ==> (#[trigger] rows[j]).len() == rows[0].len(),
            first_uneven(rows, 0) < rows.len() ==> rows[first_uneven(rows, 0)].len() != rows[0].len(),
            0 <= first_uneven(rows, 0) <= rows.len(),
        decreases rows.len() - k,
    {
        broadcast use Seq::lemma_flatten_push;
        let line = &lines[k];
        assert(line@ == rows[k as int]);
        if line.len() != width_us {
            proof {
                if first_uneven(rows, 0) < k {
                    assert(rows[first_uneven(rows, 0)].len() == rows[0].len());
                }
            }
            let text = string_from_chars(line);
            assert(rows == map_rows(map@));
            assert(rows.len() > 0);
            assert(first_uneven(rows, 0) == k);
            assert(text@ == rows[first_uneven(rows, 0)]);
            return Err(ParseMapError::InvalidLineWidth(text));
        }
        let mut j: usize = 0;
        let ghost before = cells@;
        while j < line.len()
            invariant
                j <= line@.len(),
                cells@ == before + line@.take(j as int),
            decreases line@.len() - j,
        {
            cells.push(line[j]);
            assert(line@.take(j + 1) =~= line@.take(j as int).push(line@[j as int]));
            j = j + 1;
        }
        assert(line@.take(line@.len() as int) =~= line@);
        assert(rows.take(k + 1) =~= rows.take(k as int).push(rows[k as int]));
        k = k + 1;
    }
    assert(rows.take(rows.len() as int) =~= rows);
    proof {
        lemma_flatten_len(rows, rows[0].len() as int);
        if first_uneven(rows, 0) < rows.len() {
            assert(rows[first_uneven(rows, 0)].len() == rows[0].len());
        }
    }
    let written = crate::grid::uniform_flags(cells.len(), true);
    let g = Grid { width, height, list: cells, written };
    assert(width * height == rows.len() * rows[0].len()) by (nonlinear_arith)
        requires
            width == rows[0].len(),
            height == rows.len(),
    ;
    assert(rows == map_rows(map@));
    assert(first_uneven(rows, 0) == rows.len());
    assert(g.wf());
    assert(g.width == rows[0].len());
    assert(g.height == rows.len());
    assert(g.list@ == rows.flatten());
    Ok(g)
}

/// Reads each character of `map` as a tile with `parser`; fails on the first
/// character (in row major order) that stands for no tile.
fn parse_rawmap<P, Tile>(parser: P, map: &Grid<char>) -> (r: Result<Grid<Tile>, ParseMapError>)
    where
        P: Parser<Tile>,
    ensures
        match r {
            Ok(g) => {
                &&& g.width == map.width
                &&& g.height == map.height
                &&& g.list@.len() == map.list@.len()
                &&& g.written@.len() == g.list@.len()
                &&& forall|i: int| 0 <= i < g.written@.len() ==> #[trigger] g.written@[i]
                &&& forall|i: int|
                    0 <= i < map.list@.len() ==> parser.tile_for(#[trigger] map.list@[i]) == Some(
                        g.list@[i],
                    )
            },
            Err(ParseMapError::UnknownChar(ch)) => exists|i: int|
                0 <= i < map.list@.len() && map.list@[i] == ch && parser.tile_for(ch).is_none()
                    && forall|j: int| 0 <= j < i ==> (#[trigger] parser.tile_for(map.list@[j])).is_some(),
            Err(_) => false,
        },
{
    let mut cells: Vec<Tile> = Vec::new();
    let mut i: usize = 0;
    while i < map.list.len()
        invariant
            i <= map.list@.len(),
            cells@.len() == i,
            forall|j: int| 0 <= j < i ==> parser.tile_for(#[trigger] map.list@[j]) == Some(cells@[j]),
        decreases map.list@.len() - i,
    {
        let ch = map.list[i];
        let tile = match parser.parse_tile(ch) {
            Some(tile) => tile,
            None => {
                assert(forall|j: int| 0 <= j < i ==> (#[trigger] parser.tile_for(map.list@[j])).is_some());
                return Err(ParseMapError::UnknownChar(ch));
            },
        };
        cells.push(tile);
        i = i + 1;
    }
    let written = crate::grid::uniform_flags(cells.len(), true);
    Ok(Grid { width: map.width, height: map.height, list: cells, written })
}

/// What reading the text map `s` with `parser` gives, as `parse_map` does:
/// the grid of the tiles of its rows, or the first fault found.
pub open spec fn reads_as<P: Parser<Tile>, Tile>(parser: P, s: Seq<char>, r: Result<Grid<Tile>, ParseMapError>) -> bool {
    match r {
        Ok(g) => {
            let rows = map_rows(s);
            &&& rows.len() > 0
            &&& first_uneven(rows, 0) == rows.len()
            &&& g.wf()
            &&& g.width == rows[0].len()
            &&& g.height == rows.len()
            &&& forall|i: int| 0 <= i < g.written@.len() ==> #[trigger] g.written@[i]
            &&& forall|i: int|
                0 <= i < g.list@.len() ==> parser.tile_for(#[trigger] rows.flatten()[i]) == Some(
                    g.list@[i],
                )
        },
        Err(ParseMapError::FewLines) => map_rows(s).len() == 0,
        Err(ParseMapError::InvalidLineWidth(line)) => {
            let rows = map_rows(s);
            &&& rows.len() > 0
            &&& first_uneven(rows, 0) < rows.len()
            &&& line@ == rows[first_uneven(rows, 0)]
        },
        Err(ParseMapError::UnknownChar(ch)) => {
            let rows = map_rows(s);
            &&& rows.len() > 0
            &&& first_uneven(rows, 0) == rows.len()
            &&& exists|i: int|
                0 <= i < rows.flatten().len() && rows.flatten()[i] == ch && parser.tile_for(ch).is_none()
                    && forall|j: int| 0 <= j < i ==> (#[trigger] parser.tile_for(rows.flatten()[j])).is_some()
        },
        Err(_) => false,
    }
}

/// Reading a map ignores its spaces, a line end added before a first line that
/// is not empty, and one added after a last line that is not empty: the map is
/// accepted alike and reads to the same result.
pub proof fn lemma_parse_map_ignores_spaces_and_edge_lines<P: Parser<Tile>, Tile>(
    parser: P,
    s: Seq<char>,
    r: Result<Grid<Tile>, ParseMapError>,
)
    ensures
        readable(without_spaces(s)) == readable(s),
        reads_as(parser, without_spaces(s), r) == reads_as(parser, s, r),
        split_lines(s)[0].len() > 0 ==> readable(seq!['\n'] + s) == readable(s) && reads_as(
            parser,
            seq!['\n'] + s,
            r,
        ) == reads_as(parser, s, r),
        split_lines(s).last().len() > 0 ==> readable(s + seq!['\n']) == readable(s) && reads_as(
            parser,
            s + seq!['\n'],
            r,
        ) == reads_as(parser, s, r),
{
    lemma_map_rows_without_spaces(s);
    lemma_map_rows_edge_newlines(s);
}

/// Reads the text map `map_str` (see `parse_map_str`) and then each of its
/// characters as a tile with `parser`.
pub fn parse_map<P, Tile>(parser: P, map_str: &str) -> (r: Result<Grid<Tile>, ParseMapError>)
    where
        P: Parser<Tile>,
    requires
        readable(map_str@),
    ensures
        reads_as(parser, map_str@, r),
{
    let raw = parse_map_str(map_str)?;
    parse_rawmap(parser, &raw)
}

/// `f` may turn `t` into some character.
pub open spec fn has_char<F: Fn(&T) -> Option<char>, T>(f: F, t: &T) -> bool {
    exists|c: char| call_ensures(f, (t,), Some(c))
}

/// Writes a grid as text, one `String` per row, turning each tile into a
/// character with `to_char`; fails at the first tile (in row major order) that
/// has no character.
pub fn serialize<F, T>(to_char: F, grid: &Grid<T>) -> (r: Result<Vec<String>, ParseMapError>)
    where
        F: Fn(&T) -> Option<char>,
    requires
        grid.wf(),
        forall|t: &T| call_requires(to_char, (t,)),
    ensures
        match r {
            Ok(lines) => {
                &&& lines@.len() == grid.height
                &&& forall|y: int| 0 <= y < grid.height ==> (#[trigger] lines@[y])@.len() == grid.width
                &&& forall|y: int, x: int|
                    0 <= y < grid.height && 0 <= x < grid.width ==> call_ensures(
                        to_char,
                        (&grid.list@[y * grid.width + x],),
                        Some(#[trigger] lines@[y]@[x]),
                    )
            },
            Err(ParseMapError::UnknownTileAt(p)) => {
                &&& grid.valid(V2I { x: p@[0], y: p@[1] })
                &&& call_ensures(to_char, (&grid.cell(V2I { x: p@[0], y: p@[1] }),), None)
                &&& forall|k: int|
                    0 <= k < index_of(grid.width as int, V2I { x: p@[0], y: p@[1] }) ==> #[trigger] has_char(
                        to_char,
                        &grid.list@[k],
                    )
            },
            Err(_) => false,
        },
{
    let mut lines: Vec<String> = Vec::new();
    let mut y: i32 = 0;
    while y < grid.height
        invariant
            grid.wf(),
            forall|t: &T| call_requires(to_char, (t,)),
            0 <= y <= grid.height,
            lines@.len() == y,
            forall|k: int| 0 <= k < y * grid.width ==> #[trigger] has_char(to_char, &grid.list@[k]),
            forall|yy: int| 0 <= yy < y ==> (#[trigger] lines@[yy])@.len() == grid.width,
            forall|yy: int, x: int|
                0 <= yy < y && 0 <= x < grid.width ==> call_ensures(
                    to_char,
                    (&grid.list@[yy * grid.width + x],),
                    Some(#[trigger] lines@[yy]@[x]),
                ),
        decreases grid.height - y,
    {
        let mut line = String::new();
        let mut x: i32 = 0;
        while x < grid.width
            invariant
                grid.wf(),
                forall|t: &T| call_requires(to_char, (t,)),
                0 <= y < grid.height,
                0 <= x <= grid.width,
                line@.len() == x,
                forall|k: int| 0 <= k < y * grid.width + x ==> #[trigger] has_char(to_char, &grid.list@[k]),
                forall|xx: int|
                    0 <= xx < x ==> call_ensures(
                        to_char,
                        (&grid.list@[y * grid.width + xx],),
                        Some(#[trigger] line@[xx]),
                    ),
            decreases grid.width - x,
        {
            let c = V2I::new(x, y);
            proof {
                lemma_index_in_bounds(grid.width as int, grid.height as int, c);
            }
            let tile = grid.get_at(&c);
            let ch = match to_char(tile) {
                Some(ch) => ch,
                None => return Err(ParseMapError::UnknownTileAt([x, y])),
            };
            proof {
                assert(has_char(to_char, &grid.list@[y * grid.width + x]));
            }
            crate::text::push_char(&mut line, ch);
            x = x + 1;
        }
        proof {
            assert((y + 1) * grid.width == y * grid.width + grid.width) by (nonlinear_arith);
        }
        lines.push(line);
        y = y + 1;
    }
    Ok(lines)
}
} // verus!
