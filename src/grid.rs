use crate::element::{Element, Empty, RawAdventurer, RawMap, RawMountain, RawTreasure};
use vstd::prelude::*;

verus! {

/// A mountain or a treasure: what a board places on its cells.
pub open spec fn is_terrain(e: Element) -> bool {
    e is RawMountain || e is RawTreasure
}

/// A terrain element must lie inside a `rows × cols` board.
pub open spec fn fits(e: Element, rows: int, cols: int) -> bool {
    is_terrain(e) ==> e.spec_position().0 < rows && e.spec_position().1 < cols
}

/// The last terrain element of `content` placed on `(r, c)`, if any.
pub open spec fn last_placed(content: Seq<Element>, r: int, c: int) -> Option<Element>
    decreases content.len(),
{
    if content.len() == 0 {
        None
    } else {
        let e = content.last();
        if is_terrain(e) && e.spec_position().0 == r && e.spec_position().1 == c {
            Some(e)
        } else {
            last_placed(content.drop_last(), r, c)
        }
    }
}

/// The cell `(r, c)` of a board built from `content`: the last terrain placed
/// there, or an empty cell.
pub open spec fn built_cell(content: Seq<Element>, r: int, c: int) -> Element {
    match last_placed(content, r, c) {
        Some(e) => e,
        None => Element::Empty(Empty { position: (r as usize, c as usize) }),
    }
}

/// The board that `content` builds: `rows × cols` cells, each as `built_cell` says.
pub open spec fn built_grid(content: Seq<Element>, rows: int, cols: int) -> Seq<Seq<Element>> {
    Seq::new(rows as nat, |i: int| Seq::new(cols as nat, |j: int| built_cell(content, i, j)))
}

/// `g` has `rows` rows of `cols` cells each.
pub open spec fn has_shape(g: Seq<Seq<Element>>, rows: int, cols: int) -> bool {
    &&& g.len() == rows
    &&& forall|r: int| 0 <= r < rows ==> #[trigger] g[r].len() == cols
}

/// `(r, c)` lies on the board `g`.
pub open spec fn on_grid(g: Seq<Seq<Element>>, r: int, c: int) -> bool {
    0 <= r < g.len() && 0 <= c < g[r].len()
}

/// A cell of a board is empty, a mountain or a treasure, and knows its place.
pub open spec fn cell_fits(e: Element, r: int, c: int) -> bool {
    &&& (e is Empty || is_terrain(e))
    &&& e.spec_position().0 == r
    &&& e.spec_position().1 == c
}

/// The board after a treasure is taken from `(r, c)`: a treasure cell with
/// pieces left loses one; any other cell, or an exhausted treasure, stays.
pub open spec fn consumed(g: Seq<Seq<Element>>, r: int, c: int) -> Seq<Seq<Element>> {
    if on_grid(g, r, c) && g[r][c] is RawTreasure && g[r][c]->RawTreasure_0.nb_treasure > 0 {
        let t = g[r][c]->RawTreasure_0;
        g.update(
            r,
            g[r].update(
                c,
                Element::RawTreasure(RawTreasure { nb_treasure: (t.nb_treasure - 1) as usize, ..t }),
            ),
        )
    } else {
        g
    }
}

/// Whether `e` is of the kind asked for: a mountain, or else a treasure.
pub open spec fn of_kind(e: Element, mountains: bool) -> bool {
    if mountains {
        e is RawMountain
    } else {
        e is RawTreasure
    }
}

/// The mountains (or else the treasures) of one row, left to right.
pub open spec fn row_terrain(row: Seq<Element>, mountains: bool) -> Seq<Element> {
    row.filter(|e: Element| of_kind(e, mountains))
}

/// The mountains (or else the treasures) of the first `n` rows, in row-major order.
pub open spec fn grid_terrain(g: Seq<Seq<Element>>, n: int, mountains: bool) -> Seq<Element>
    decreases n,
{
    if n <= 0 {
        Seq::empty()
    } else {
        grid_terrain(g, n - 1, mountains) + row_terrain(g[n - 1], mountains)
    }
}

/// The entity collection that a `rows × cols` board `g` and its adventurers
/// make, grouped by kind: size marker, mountains, treasures, adventurers.
pub open spec fn exported(g: Seq<Seq<Element>>, rows: usize, cols: usize, adventurers: Seq<RawAdventurer>) -> Seq<Element> {
    seq![Element::RawMap(RawMap { position: (rows, cols) })]
        + grid_terrain(g, rows as int, true)
        + grid_terrain(g, rows as int, false)
        + adventurers.map_values(|a: RawAdventurer| Element::RawAdventurer(a))
}

/// The board: a fixed `rows × cols` matrix of cells.
pub struct Grid {
    pub rows: usize,
    pub cols: usize,
    pub elements: Vec<Vec<Element>>,
}

impl Grid {
    /// The cells, row by row.
    pub open spec fn cells(&self) -> Seq<Seq<Element>> {
        self.elements@.map_values(|row: Vec<Element>| row@)
    }

    pub open spec fn wf(&self) -> bool {
        &&& has_shape(self.cells(), self.rows as int, self.cols as int)
        &&& forall|r: int, c: int|
            0 <= r < self.rows && 0 <= c < self.cols ==> cell_fits(#[trigger] self.cells()[r][c], r, c)
    }

    /// Builds a `rows × cols` board of empty cells, then places every mountain
    /// and treasure of `content` on its cell, in order: a later one replaces an
    /// earlier one on the same cell. Other elements are ignored.
    pub fn new(rows: usize, cols: usize, content: Vec<Element>) -> (r: Grid)
        requires
            forall|k: int| 0 <= k < content.len() ==> fits(#[trigger] content[k], rows as int, cols as int),
        ensures
            r.wf(),
            r.rows == rows,
            r.cols == cols,
            r.cells() == built_grid(content@, rows as int, cols as int),
    {
        let mut new_vec: Vec<Vec<Element>> = Vec::new();
        let mut row: usize = 0;
        while row < rows
            invariant
                row <= rows,
                new_vec@.len() == row,
                forall|i: int| 0 <= i < row ==> #[trigger] new_vec@[i]@.len() == cols,
                forall|i: int, j: int| 0 <= i < row && 0 <= j < cols ==>
                    #[trigger] new_vec@[i]@[j] == Element::Empty(Empty { position: (i as usize, j as usize) }),
            decreases rows - row,
        {
            let mut line: Vec<Element> = Vec::new();
            let mut col: usize = 0;
            while col < cols
                invariant
                    col <= cols,
                    row < rows,
                    line@.len() == col,
                    forall|j: int| 0 <= j < col ==>
                        #[trigger] line@[j] == Element::Empty(Empty { position: (row, j as usize) }),
                decreases cols - col,
            {
                line.push(Element::Empty(Empty::new(row, col)));
                col += 1;
            }
            new_vec.push(line);
            row += 1;
        }
        Self::fill_with_data(&mut new_vec, &content);
        let r = Grid { rows, cols, elements: new_vec };
        assert forall|i: int, j: int| 0 <= i < rows && 0 <= j < cols implies
            #[trigger] r.cells()[i][j] == built_cell(content@, i, j) && cell_fits(r.cells()[i][j], i, j) by {
            lemma_last_placed_fits(content@, i, j);
        }
        let ghost b = built_grid(content@, rows as int, cols as int);
        assert forall|i: int| 0 <= i < rows implies #[trigger] r.cells()[i] =~= b[i] by {
            assert forall|j: int| 0 <= j < cols implies r.cells()[i][j] == b[i][j] by {
                assert(r.cells()[i][j] == built_cell(content@, i, j));
            }
        }
        assert(r.cells() =~= b);
        r
    }

    /// Places every terrain element of `content` on its cell, in order.
    fn fill_with_data(my_map: &mut Vec<Vec<Element>>, content: &Vec<Element>)
        requires
            forall|k: int| 0 <= k < content.len() ==> #[trigger] is_terrain(content[k]) ==>
                on_grid(old(my_map)@.map_values(|row: Vec<Element>| row@),
                    content[k].spec_position().0 as int, content[k].spec_position().1 as int),
        ensures
            final(my_map)@.len() == old(my_map)@.len(),
            forall|i: int| 0 <= i < old(my_map)@.len() ==> #[trigger] final(my_map)@[i]@.len() == old(my_map)@[i]@.len(),
            forall|i: int, j: int| 0 <= i < old(my_map)@.len() && 0 <= j < old(my_map)@[i]@.len() ==>
                #[trigger] final(my_map)@[i]@[j] == match last_placed(content@, i, j) {
                    Some(e) => e,
                    None => old(my_map)@[i]@[j],
                },
    {
        let ghost start = my_map@;
        let mut k: usize = 0;
        while k < content.len()
            invariant
                k <= content.len(),
                forall|q: int| 0 <= q < content.len() ==> #[trigger] is_terrain(content[q]) ==>
                    on_grid(start.map_values(|row: Vec<Element>| row@),
                        content[q].spec_position().0 as int, content[q].spec_position().1 as int),
                my_map@.len() == start.len(),
                forall|i: int| 0 <= i < start.len() ==> #[trigger] my_map@[i]@.len() == start[i]@.len(),
                forall|i: int, j: int| 0 <= i < start.len() && 0 <= j < start[i]@.len() ==>
                    #[trigger] my_map@[i]@[j] == match last_placed(content@.take(k as int), i, j) {
                        Some(e) => e,
                        None => start[i]@[j],
                    },
            decreases content.len() - k,
        {
            let placed: Option<Element> = match &content[k] {
                Element::RawMountain(m) => Some(Element::RawMountain(*m)),
                Element::RawTreasure(t) => Some(Element::RawTreasure(*t)),
                _ => None,
            };
            proof {
                assert(content@.take(k + 1).drop_last() =~= content@.take(k as int));
                assert(is_terrain(content[k as int]) ==> on_grid(start.map_values(|row: Vec<Element>| row@),
                    content[k as int].spec_position().0 as int, content[k as int].spec_position().1 as int));
            }
            if let Some(e) = placed {
                let (x, y) = content[k].position().unwrap();
                my_map[x][y] = e;
            }
            k += 1;
        }
        assert(content@.take(content.len() as int) =~= content@);
    }

    /// The board and `adventurers` as one entity collection, grouped by kind:
    /// the size marker `(rows, cols)`, the mountains, the treasures with the
    /// pieces they have left (both in row-major order), then the adventurers
    /// in the order given.
    pub fn to_hashmap(&self, adventurers: Vec<RawAdventurer>) -> (r: Vec<Element>)
        requires
            self.wf(),
        ensures
            r@ == exported(self.cells(), self.rows, self.cols, adventurers@),
    {
        let mut out: Vec<Element> = Vec::new();
        out.push(Element::RawMap(RawMap::new(self.rows, self.cols)));
        self.push_terrain(true, &mut out);
        self.push_terrain(false, &mut out);
        let ghost before = out@;
        let mut k: usize = 0;
        while k < adventurers.len()
            invariant
                k <= adventurers.len(),
                out@ == before + adventurers@.take(k as int).map_values(|a: RawAdventurer| Element::RawAdventurer(a)),
            decreases adventurers.len() - k,
        {
            proof {
                assert(adventurers@.take(k + 1) =~= adventurers@.take(k as int).push(adventurers@[k as int]));
            }
            out.push(Element::RawAdventurer(adventurers[k].clone()));
            k += 1;
            assert(out@ =~= before + adventurers@.take(k as int).map_values(|a: RawAdventurer| Element::RawAdventurer(a)));
        }
        assert(adventurers@.take(k as int) =~= adventurers@);
        assert(out@ =~= exported(self.cells(), self.rows, self.cols, adventurers@));
        out
    }

    /// Appends the mountains (or else the treasures) of the board, row by row.
    fn push_terrain(&self, mountains: bool, out: &mut Vec<Element>)
        requires
            self.wf(),
        ensures
            final(out)@ == old(out)@ + grid_terrain(self.cells(), self.rows as int, mountains),
    {
        let ghost g = self.cells();
        let mut i: usize = 0;
        while i < self.rows
            invariant
                self.wf(),
                g == self.cells(),
                i <= self.rows,
                out@ == old(out)@ + grid_terrain(g, i as int, mountains),
            decreases self.rows - i,
        {
            let ghost base = out@;
            let mut j: usize = 0;
            while j < self.cols
                invariant
                    self.wf(),
                    g == self.cells(),
                    i < self.rows,
                    j <= self.cols,
                    base == old(out)@ + grid_terrain(g, i as int, mountains),
                    out@ == base + row_terrain(g[i as int].take(j as int), mountains),
                decreases self.cols - j,
            {
                proof {
                    assert(g[i as int].take(j + 1) =~= g[i as int].take(j as int).push(g[i as int][j as int]));
                    g[i as int].take(j as int).lemma_filter_push(g[i as int][j as int],
                        |e: Element| of_kind(e, mountains));
                }
                match &self.elements[i][j] {
                    Element::RawMountain(m) => {
                        if mountains {
                            out.push(Element::RawMountain(*m));
                        }
                    },
                    Element::RawTreasure(t) => {
                        if !mountains {
                            out.push(Element::RawTreasure(*t));
                        }
                    },
                    _ => {},
                }
                j += 1;
                assert(out@ =~= base + row_terrain(g[i as int].take(j as int), mountains));
            }
            assert(g[i as int].take(j as int) =~= g[i as int]);
            i += 1;
            assert(out@ =~= old(out)@ + grid_terrain(g, i as int, mountains));
        }
    }

    /// Takes one piece from the treasure at `(x, y)`, if there is a treasure
    /// there with pieces left; any other cell stays as it is.
    pub fn update_position(&mut self, x: usize, y: usize)
        requires
            old(self).wf(),
        ensures
            final(self).wf(),
            final(self).rows == old(self).rows,
            final(self).cols == old(self).cols,
            final(self).cells() == consumed(old(self).cells(), x as int, y as int),
    {
        if x < self.rows && y < self.cols {
            let current = match &self.elements[x][y] {
                Element::RawTreasure(t) => if t.nb_treasure > 0 { Some(*t) } else { None },
                _ => None,
            };
            if let Some(t) = current {
                self.elements[x][y] = Element::RawTreasure(RawTreasure::new(t.position.0, t.position.1, t.nb_treasure - 1));
                assert(self.cells() =~= consumed(old(self).cells(), x as int, y as int));
            }
        }
    }
}

/// The cell that construction leaves on `(r, c)` belongs there.
proof fn lemma_last_placed_fits(content: Seq<Element>, r: int, c: int)
    requires
        0 <= r <= usize::MAX,
        0 <= c <= usize::MAX,
    ensures
        cell_fits(built_cell(content, r, c), r, c),
    decreases content.len(),
{
    if content.len() > 0 {
        lemma_last_placed_fits(content.drop_last(), r, c);
    }
}

proof fn lemma_concat_contains<A>(a: Seq<A>, b: Seq<A>, e: A)
    ensures
        (a + b).contains(e) <==> a.contains(e) || b.contains(e),
{
    if (a + b).contains(e) {
        let i = choose|i: int| 0 <= i < (a + b).len() && (a + b)[i] == e;
        if i >= a.len() {
            assert(b[i - a.len()] == e);
        }
    }
    if a.contains(e) {
        let i = choose|i: int| 0 <= i < a.len() && a[i] == e;
        assert((a + b)[i] == e);
    }
    if b.contains(e) {
        let i = choose|i: int| 0 <= i < b.len() && b[i] == e;
        assert((a + b)[a.len() + i] == e);
    }
}

proof fn lemma_row_terrain_contains(row: Seq<Element>, mountains: bool, e: Element)
    ensures
        row_terrain(row, mountains).contains(e) <==> row.contains(e) && of_kind(e, mountains),
{
    let pred = |x: Element| of_kind(x, mountains);
    if row_terrain(row, mountains).contains(e) {
        row.lemma_filter_contains_rev(pred, e);
        let i = choose|i: int| 0 <= i < row.filter(pred).len() && row.filter(pred)[i] == e;
        row.lemma_filter_pred(pred, i);
    }
    if row.contains(e) && of_kind(e, mountains) {
        let i = choose|i: int| 0 <= i < row.len() && row[i] == e;
        row.lemma_filter_contains(pred, i);
    }
}

proof fn lemma_grid_terrain_contains(g: Seq<Seq<Element>>, n: int, mountains: bool, e: Element)
    requires
        0 <= n <= g.len(),
    ensures
        grid_terrain(g, n, mountains).contains(e) <==> of_kind(e, mountains) && exists|r: int|
            0 <= r < n && #[trigger] g[r].contains(e),
    decreases n,
{
    if n > 0 {
        lemma_grid_terrain_contains(g, n - 1, mountains, e);
        lemma_concat_contains(grid_terrain(g, n - 1, mountains), row_terrain(g[n - 1], mountains), e);
        lemma_row_terrain_contains(g[n - 1], mountains, e);
        if of_kind(e, mountains) && exists|r: int| 0 <= r < n && #[trigger] g[r].contains(e) {
            let r = choose|r: int| 0 <= r < n && #[trigger] g[r].contains(e);
            if r < n - 1 {
                assert(exists|q: int| 0 <= q < n - 1 && #[trigger] g[q].contains(e));
            }
        }
    }
}

/// What construction leaves on a cell comes from `content` and belongs there.
proof fn lemma_last_placed_from(content: Seq<Element>, r: int, c: int)
    ensures
        last_placed(content, r, c) matches Some(e) ==> content.contains(e) && is_terrain(e)
            && e.spec_position().0 == r && e.spec_position().1 == c,
    decreases content.len(),
{
    if content.len() > 0 {
        lemma_last_placed_from(content.drop_last(), r, c);
        if let Some(e) = last_placed(content.drop_last(), r, c) {
            let i = choose|i: int| 0 <= i < content.drop_last().len() && content.drop_last()[i] == e;
            assert(content[i] == e);
        }
        assert(content[content.len() - 1] == content.last());
    }
}

/// With no two terrain elements on one cell, each one is what construction
/// leaves on its cell.
proof fn lemma_last_placed_unique(content: Seq<Element>, k: int)
    requires
        0 <= k < content.len(),
        is_terrain(content[k]),
        forall|k1: int, k2: int|
            0 <= k1 < k2 < content.len() && is_terrain(#[trigger] content[k1]) && is_terrain(#[trigger] content[k2])
                ==> content[k1].spec_position() != content[k2].spec_position(),
    ensures
        last_placed(content, content[k].spec_position().0 as int, content[k].spec_position().1 as int)
            == Some(content[k]),
    decreases content.len(),
{
    let p = content[k].spec_position();
    if k < content.len() - 1 {
        let rest = content.drop_last();
        assert(content.last() == content[content.len() - 1]);
        assert forall|k1: int, k2: int|
            0 <= k1 < k2 < rest.len() && is_terrain(#[trigger] rest[k1]) && is_terrain(#[trigger] rest[k2])
                implies rest[k1].spec_position() != rest[k2].spec_position() by {
            assert(rest[k1] == content[k1] && rest[k2] == content[k2]);
        }
        assert(rest[k] == content[k]);
        lemma_last_placed_unique(rest, k);
    }
}

/// Building a board from `content` and exporting it at once, while no two of
/// its mountains and treasures share a cell, gives back the board's size
/// first, exactly the mountains and treasures of `content` with their counts,
/// and exactly the adventurers given.
pub proof fn lemma_export_round_trip(
    rows: usize,
    cols: usize,
    content: Seq<Element>,
    adventurers: Seq<RawAdventurer>,
)
    requires
        forall|k: int| 0 <= k < content.len() ==> fits(#[trigger] content[k], rows as int, cols as int),
        forall|k1: int, k2: int|
            0 <= k1 < k2 < content.len() && is_terrain(#[trigger] content[k1]) && is_terrain(#[trigger] content[k2])
                ==> content[k1].spec_position() != content[k2].spec_position(),
    ensures
        exported(built_grid(content, rows as int, cols as int), rows, cols, adventurers)[0]
            == Element::RawMap(RawMap { position: (rows, cols) }),
        forall|e: Element|
            is_terrain(e) ==> (exported(built_grid(content, rows as int, cols as int), rows, cols, adventurers).contains(e)
                <==> content.contains(e)),
        forall|a: RawAdventurer|
            exported(built_grid(content, rows as int, cols as int), rows, cols, adventurers).contains(
                Element::RawAdventurer(a),
            ) <==> adventurers.contains(a),
{
    let g = built_grid(content, rows as int, cols as int);
    let head = seq![Element::RawMap(RawMap { position: (rows, cols) })];
    let ms = grid_terrain(g, rows as int, true);
    let ts = grid_terrain(g, rows as int, false);
    let ads = adventurers.map_values(|a: RawAdventurer| Element::RawAdventurer(a));
    let out = exported(g, rows, cols, adventurers);
    assert(out == head + ms + ts + ads);
    assert(out[0] == head[0]);
    assert forall|e: Element| is_terrain(e) implies (out.contains(e) <==> content.contains(e)) by {
        lemma_concat_contains(head + ms + ts, ads, e);
        lemma_concat_contains(head + ms, ts, e);
        lemma_concat_contains(head, ms, e);
        lemma_grid_terrain_contains(g, rows as int, true, e);
        lemma_grid_terrain_contains(g, rows as int, false, e);
        if ads.contains(e) {
            let i = choose|i: int| 0 <= i < ads.len() && ads[i] == e;
        }
        if head.contains(e) {
            let i = choose|i: int| 0 <= i < head.len() && head[i] == e;
        }
        if out.contains(e) {
            let r = choose|r: int| 0 <= r < rows && #[trigger] g[r].contains(e);
            let c = choose|c: int| 0 <= c < g[r].len() && g[r][c] == e;
            lemma_last_placed_from(content, r, c);
        }
        if content.contains(e) {
            let k = choose|k: int| 0 <= k < content.len() && content[k] == e;
            assert(fits(content[k], rows as int, cols as int));
            lemma_last_placed_unique(content, k);
            let r = e.spec_position().0 as int;
            let c = e.spec_position().1 as int;
            assert(g[r][c] == e);
            assert(g[r].contains(e));
        }
    }
    assert forall|a: RawAdventurer| out.contains(Element::RawAdventurer(a)) <==> adventurers.contains(a) by {
        let e = Element::RawAdventurer(a);
        lemma_concat_contains(head + ms + ts, ads, e);
        lemma_concat_contains(head + ms, ts, e);
        lemma_concat_contains(head, ms, e);
        lemma_grid_terrain_contains(g, rows as int, true, e);
        lemma_grid_terrain_contains(g, rows as int, false, e);
        if head.contains(e) {
            let i = choose|i: int| 0 <= i < head.len() && head[i] == e;
        }
        if ads.contains(e) {
            let i = choose|i: int| 0 <= i < ads.len() && ads[i] == e;
            assert(adventurers[i] == a);
        }
        if adventurers.contains(a) {
            let i = choose|i: int| 0 <= i < adventurers.len() && adventurers[i] == a;
            assert(ads[i] == e);
        }
    }
}

} // verus!
