use crate::element::{AdventurerView, Element, Orientation, RawAdventurer};
use crate::grid::{consumed, on_grid, Grid};
use vstd::prelude::*;
use vstd::string::StrSliceExecFns;

verus! {

/// A quarter turn counter-clockwise.
pub open spec fn turn_left(o: Orientation) -> Orientation {
    match o {
        Orientation::North => Orientation::West,
        Orientation::West => Orientation::South,
        Orientation::South => Orientation::East,
        Orientation::East => Orientation::North,
    }
}

/// A quarter turn clockwise.
pub open spec fn turn_right(o: Orientation) -> Orientation {
    match o {
        Orientation::North => Orientation::East,
        Orientation::East => Orientation::South,
        Orientation::South => Orientation::West,
        Orientation::West => Orientation::North,
    }
}

/// The orientation after command `cmd`: `G` turns left, `D` turns right,
/// anything else keeps it.
pub open spec fn next_orientation(o: Orientation, cmd: char) -> Orientation {
    if cmd == 'G' {
        turn_left(o)
    } else if cmd == 'D' {
        turn_right(o)
    } else {
        o
    }
}

/// The displacement that command `cmd` asks for: `A` advances one cell in the
/// direction faced, anything else stays put.
pub open spec fn displacement(o: Orientation, cmd: char) -> (int, int) {
    if cmd == 'A' {
        match o {
            Orientation::North => (0, -1),
            Orientation::South => (0, 1),
            Orientation::West => (-1, 0),
            Orientation::East => (1, 0),
        }
    } else {
        (0, 0)
    }
}

/// An attempt to move `a` by `(dx, dy)` on board `g`: the adventurer and the
/// board afterwards. Leaving the board or hitting a mountain leaves both as
/// they were; a treasure with pieces left gives one of them to the adventurer.
pub open spec fn advance(a: AdventurerView, g: Seq<Seq<Element>>, dx: int, dy: int) -> (
    AdventurerView,
    Seq<Seq<Element>>,
) {
    let x = a.position.0 + dx;
    let y = a.position.1 + dy;
    if !on_grid(g, x, y) || g[x][y] is RawMountain {
        (a, g)
    } else if g[x][y] is RawTreasure && g[x][y]->RawTreasure_0.nb_treasure > 0 {
        (AdventurerView { position: (x, y), treasure: a.treasure + 1, ..a }, consumed(g, x, y))
    } else {
        (AdventurerView { position: (x, y), ..a }, g)
    }
}

/// One command of `a` carried out on board `g`: the first command is used up
/// and the orientation follows it; only an advance attempts a move, so a turn
/// or an unknown command touches neither the position, the treasure count
/// nor the board.
pub open spec fn step(a: AdventurerView, g: Seq<Seq<Element>>) -> (AdventurerView, Seq<Seq<Element>>)
    recommends
        a.pattern.len() > 0,
{
    let cmd = a.pattern[0];
    let d = displacement(a.orientation, cmd);
    let moved = if cmd == 'A' {
        advance(a, g, d.0, d.1)
    } else {
        (a, g)
    };
    (
        AdventurerView {
            orientation: next_orientation(a.orientation, cmd),
            pattern: a.pattern.drop_first(),
            ..moved.0
        },
        moved.1,
    )
}

/// Moves `adventurer` by `(new_x, new_y)` if the target cell is on the board
/// and is no mountain; stepping on a treasure with pieces left collects one.
pub fn update_position(the_map: &mut Grid, adventurer: RawAdventurer, new_x: isize, new_y: isize) -> (r:
    RawAdventurer)
    requires
        old(the_map).wf(),
        adventurer.treasure < usize::MAX,
    ensures
        final(the_map).wf(),
        final(the_map).rows == old(the_map).rows,
        final(the_map).cols == old(the_map).cols,
        (r@, final(the_map).cells()) == advance(adventurer@, old(the_map).cells(), new_x as int, new_y as int),
        r.name == adventurer.name,
        r.pattern == adventurer.pattern,
{
    let tx: i128 = adventurer.position.0 as i128 + new_x as i128;
    let ty: i128 = adventurer.position.1 as i128 + new_y as i128;
    if tx < 0 || ty < 0 || tx >= the_map.rows as i128 || ty >= the_map.cols as i128 {
        return adventurer;
    }
    let moved = adventurer.update_position(new_x, new_y);
    let (x, y) = moved.position;
    assert(the_map.cells()[x as int].len() == the_map.cols);
    let (blocked, collect) = match &the_map.elements[x][y] {
        Element::RawMountain(_) => (true, false),
        Element::RawTreasure(t) => (false, t.nb_treasure > 0),
        _ => (false, false),
    };
    if blocked {
        adventurer
    } else if collect {
        the_map.update_position(x, y);
        moved.update_treasure()
    } else {
        moved
    }
}

/// Splits a non-empty command string into its first command and the rest.
pub fn get_sequence(pattern: &str) -> (r: (char, Vec<char>))
    requires
        pattern@.len() > 0,
    ensures
        r.0 == pattern@[0],
        r.1@ == pattern@.drop_first(),
{
    let n = pattern.unicode_len();
    let first = pattern.get_char(0);
    let mut rest: Vec<char> = Vec::new();
    let mut i: usize = 1;
    while i < n
        invariant
            n == pattern@.len(),
            1 <= i <= n,
            rest@ == pattern@.subrange(1, i as int),
        decreases n - i,
    {
        rest.push(pattern.get_char(i));
        i += 1;
        assert(rest@ =~= pattern@.subrange(1, i as int));
    }
    assert(rest@ =~= pattern@.drop_first());
    (first, rest)
}

/// Carries out the first command of `adventurer` on the board.
pub fn update_adventurer(adventurer: RawAdventurer, the_map: &mut Grid) -> (r: RawAdventurer)
    requires
        old(the_map).wf(),
        adventurer@.pattern.len() > 0,
        adventurer.treasure < usize::MAX,
    ensures
        final(the_map).wf(),
        final(the_map).rows == old(the_map).rows,
        final(the_map).cols == old(the_map).cols,
        (r@, final(the_map).cells()) == step(adventurer@, old(the_map).cells()),
        r.name == adventurer.name,
{
    let n = adventurer.pattern.as_str().unicode_len();
    let (action, _) = get_sequence(adventurer.pattern.as_str());
    let rest = adventurer.pattern.as_str().substring_char(1, n).to_owned();
    let (dx, dy, new_orientation): (isize, isize, Orientation) = match adventurer.orientation {
        Orientation::North => match action {
            'A' => (0, -1, adventurer.orientation),
            'G' => (0, 0, Orientation::West),
            'D' => (0, 0, Orientation::East),
            _ => (0, 0, adventurer.orientation),
        },
        Orientation::South => match action {
            'A' => (0, 1, adventurer.orientation),
            'G' => (0, 0, Orientation::East),
            'D' => (0, 0, Orientation::West),
            _ => (0, 0, adventurer.orientation),
        },
        Orientation::West => match action {
            'A' => (-1, 0, adventurer.orientation),
            'G' => (0, 0, Orientation::South),
            'D' => (0, 0, Orientation::North),
            _ => (0, 0, adventurer.orientation),
        },
        Orientation::East => match action {
            'A' => (1, 0, adventurer.orientation),
            'G' => (0, 0, Orientation::North),
            'D' => (0, 0, Orientation::South),
            _ => (0, 0, adventurer.orientation),
        },
    };
    assert(rest@ =~= adventurer@.pattern.drop_first());
    let moved = if action == 'A' {
        update_position(the_map, adventurer, dx, dy)
    } else {
        adventurer
    };
    RawAdventurer {
        name: moved.name,
        position: moved.position,
        orientation: new_orientation,
        pattern: rest,
        treasure: moved.treasure,
    }
}

/// The cell that the first command of `a` aims at.
pub open spec fn target(a: AdventurerView) -> (int, int)
    recommends
        a.pattern.len() > 0,
{
    let d = displacement(a.orientation, a.pattern[0]);
    (a.position.0 + d.0, a.position.1 + d.1)
}

/// An advance onto a free cell moves one cell in the direction faced: north
/// lowers the second coordinate, south raises it, west lowers the first,
/// east raises it. The orientation stays.
pub proof fn lemma_advance_moves(a: AdventurerView, g: Seq<Seq<Element>>)
    requires
        a.pattern.len() > 0,
        a.pattern[0] == 'A',
        on_grid(g, target(a).0, target(a).1),
        !(g[target(a).0][target(a).1] is RawMountain),
    ensures
        step(a, g).0.orientation == a.orientation,
        step(a, g).0.position == match a.orientation {
            Orientation::North => (a.position.0, a.position.1 - 1),
            Orientation::South => (a.position.0, a.position.1 + 1),
            Orientation::West => (a.position.0 - 1, a.position.1),
            Orientation::East => (a.position.0 + 1, a.position.1),
        },
        step(a, g).0.pattern == a.pattern.drop_first(),
{
}

/// An advance into a mountain, or off the board, leaves the adventurer where
/// it is and the board as it was; the command is used up all the same.
pub proof fn lemma_blocked_advance(a: AdventurerView, g: Seq<Seq<Element>>)
    requires
        a.pattern.len() > 0,
        a.pattern[0] == 'A',
        !on_grid(g, target(a).0, target(a).1) || g[target(a).0][target(a).1] is RawMountain,
    ensures
        step(a, g).0 == (AdventurerView { pattern: a.pattern.drop_first(), ..a }),
        step(a, g).1 == g,
{
}

/// Stepping on a treasure with `n > 0` pieces gives the adventurer one of
/// them and leaves `n - 1`; once none are left, the next adventurer to step
/// there finds nothing, so no piece is counted twice.
pub proof fn lemma_treasure_taken_once(a: AdventurerView, b: AdventurerView, g: Seq<Seq<Element>>)
    requires
        a.pattern.len() > 0,
        a.pattern[0] == 'A',
        on_grid(g, target(a).0, target(a).1),
        g[target(a).0][target(a).1] is RawTreasure,
        g[target(a).0][target(a).1]->RawTreasure_0.nb_treasure > 0,
        b.pattern.len() > 0,
        b.pattern[0] == 'A',
        target(b) == target(a),
    ensures
        ({
            let (x, y) = target(a);
            let n = g[x][y]->RawTreasure_0.nb_treasure;
            let after = step(a, g).1;
            &&& step(a, g).0.position == (x, y)
            &&& step(a, g).0.treasure == a.treasure + 1
            &&& after[x][y] is RawTreasure
            &&& after[x][y]->RawTreasure_0.nb_treasure == n - 1
            &&& after[x][y]->RawTreasure_0.position == g[x][y]->RawTreasure_0.position
            &&& n == 1 ==> step(b, after).0.treasure == b.treasure && step(b, after).1 == after
        }),
{
    let (x, y) = target(a);
    let after = step(a, g).1;
    assert(after == consumed(g, x, y));
    assert(on_grid(after, x, y));
}

/// Turning left or right keeps the adventurer on its cell, its treasure count
/// and the board as they were; left goes north, west, south, east, and right
/// the other way round.
pub proof fn lemma_turn(a: AdventurerView, g: Seq<Seq<Element>>)
    requires
        a.pattern.len() > 0,
        a.pattern[0] == 'G' || a.pattern[0] == 'D',
    ensures
        step(a, g).0.position == a.position,
        step(a, g).0.treasure == a.treasure,
        step(a, g).0.name == a.name,
        step(a, g).0.pattern == a.pattern.drop_first(),
        step(a, g).1 == g,
        step(a, g).0.orientation == if a.pattern[0] == 'G' {
            match a.orientation {
                Orientation::North => Orientation::West,
                Orientation::West => Orientation::South,
                Orientation::South => Orientation::East,
                Orientation::East => Orientation::North,
            }
        } else {
            match a.orientation {
                Orientation::North => Orientation::East,
                Orientation::East => Orientation::South,
                Orientation::South => Orientation::West,
                Orientation::West => Orientation::North,
            }
        },
{
}

/// A command other than `A`, `G` or `D` is ignored: it is used up and
/// nothing else changes.
pub proof fn lemma_unknown_command(a: AdventurerView, g: Seq<Seq<Element>>)
    requires
        a.pattern.len() > 0,
        a.pattern[0] != 'A',
        a.pattern[0] != 'G',
        a.pattern[0] != 'D',
    ensures
        step(a, g) == (AdventurerView { pattern: a.pattern.drop_first(), ..a }, g),
{
}

} // verus!
