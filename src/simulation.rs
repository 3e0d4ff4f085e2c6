use crate::element::{AdventurerView, Element, RawAdventurer};
use crate::grid::{consumed, has_shape, Grid};
use crate::movement::{step, update_adventurer};
use vstd::prelude::*;

verus! {

/// The abstract states of a list of adventurers.
pub open spec fn views(advs: Seq<RawAdventurer>) -> Seq<AdventurerView> {
    advs.map_values(|a: RawAdventurer| a@)
}

/// Every adventurer has used up its commands.
pub open spec fn all_done(advs: Seq<AdventurerView>) -> bool {
    forall|i: int| 0 <= i < advs.len() ==> (#[trigger] advs[i]).pattern.len() == 0
}

/// Every adventurer can still count one more treasure for each command it has left.
pub open spec fn has_room(advs: Seq<AdventurerView>) -> bool {
    forall|i: int| 0 <= i < advs.len() ==> (#[trigger] advs[i]).treasure + advs[i].pattern.len() <= usize::MAX
}

/// The length of the longest command string.
pub open spec fn longest(advs: Seq<AdventurerView>) -> nat
    decreases advs.len(),
{
    if advs.len() == 0 {
        0
    } else {
        let rest = longest(advs.drop_last());
        if advs.last().pattern.len() > rest {
            advs.last().pattern.len()
        } else {
            rest
        }
    }
}

/// The first `n` adventurers of a round have had their turn, in order: each
/// one with commands left carries out one of them on the shared board.
pub open spec fn round_prefix(advs: Seq<AdventurerView>, g: Seq<Seq<Element>>, n: int) -> (
    Seq<AdventurerView>,
    Seq<Seq<Element>>,
)
    decreases n,
{
    if n <= 0 {
        (advs, g)
    } else {
        let prev = round_prefix(advs, g, n - 1);
        let a = prev.0[n - 1];
        if a.pattern.len() > 0 {
            let s = step(a, prev.1);
            (prev.0.update(n - 1, s.0), s.1)
        } else {
            prev
        }
    }
}

/// One round: every adventurer has its turn.
pub open spec fn round(advs: Seq<AdventurerView>, g: Seq<Seq<Element>>) -> (
    Seq<AdventurerView>,
    Seq<Seq<Element>>,
) {
    round_prefix(advs, g, advs.len() as int)
}

/// `k` rounds, one after the other.
pub open spec fn rounds(advs: Seq<AdventurerView>, g: Seq<Seq<Element>>, k: nat) -> (
    Seq<AdventurerView>,
    Seq<Seq<Element>>,
)
    decreases k,
{
    if k == 0 {
        (advs, g)
    } else {
        let r = round(advs, g);
        rounds(r.0, r.1, (k - 1) as nat)
    }
}

/// What one turn does to an adventurer with commands left: it keeps its name,
/// loses its first command, gains at most one treasure, and the board keeps
/// its shape.
proof fn lemma_step(a: AdventurerView, g: Seq<Seq<Element>>, rows: int, cols: int)
    requires
        a.pattern.len() > 0,
        has_shape(g, rows, cols),
    ensures
        step(a, g).0.name == a.name,
        step(a, g).0.pattern == a.pattern.drop_first(),
        a.treasure <= step(a, g).0.treasure <= a.treasure + 1,
        has_shape(step(a, g).1, rows, cols),
{
    let p = step(a, g).0.position;
    let x = p.0;
    let y = p.1;
    assert(has_shape(consumed(g, x, y), rows, cols));
}

/// What the first `n` turns of a round do: those who have had their turn and
/// had commands left lost the first one; everybody else is as before.
proof fn lemma_round_prefix(advs: Seq<AdventurerView>, g: Seq<Seq<Element>>, n: int, rows: int, cols: int)
    requires
        0 <= n <= advs.len(),
        has_shape(g, rows, cols),
    ensures
        round_prefix(advs, g, n).0.len() == advs.len(),
        has_shape(round_prefix(advs, g, n).1, rows, cols),
        forall|j: int| n <= j < advs.len() ==> #[trigger] round_prefix(advs, g, n).0[j] == advs[j],
        forall|j: int| 0 <= j < n ==> {
            let b = #[trigger] round_prefix(advs, g, n).0[j];
            &&& b.name == advs[j].name
            &&& advs[j].pattern.len() == 0 ==> b == advs[j]
            &&& advs[j].pattern.len() > 0 ==> b.pattern == advs[j].pattern.drop_first()
            &&& advs[j].treasure <= b.treasure <= advs[j].treasure + 1
        },
    decreases n,
{
    if n > 0 {
        lemma_round_prefix(advs, g, n - 1, rows, cols);
        let prev = round_prefix(advs, g, n - 1);
        if prev.0[n - 1].pattern.len() > 0 {
            lemma_step(prev.0[n - 1], prev.1, rows, cols);
        }
    }
}

/// A whole round: each adventurer with commands left loses exactly its first
/// one, and an adventurer whose commands are used up takes no part.
pub proof fn lemma_round(advs: Seq<AdventurerView>, g: Seq<Seq<Element>>, rows: int, cols: int)
    requires
        has_shape(g, rows, cols),
    ensures
        round(advs, g).0.len() == advs.len(),
        has_shape(round(advs, g).1, rows, cols),
        forall|j: int| 0 <= j < advs.len() ==> {
            let b = #[trigger] round(advs, g).0[j];
            &&& b.name == advs[j].name
            &&& advs[j].pattern.len() == 0 ==> b == advs[j]
            &&& advs[j].pattern.len() > 0 ==> b.pattern == advs[j].pattern.drop_first()
            &&& advs[j].treasure <= b.treasure <= advs[j].treasure + 1
        },
{
    lemma_round_prefix(advs, g, advs.len() as int, rows, cols);
}

/// A round in which nobody has commands left changes nothing.
pub proof fn lemma_idle_round(advs: Seq<AdventurerView>, g: Seq<Seq<Element>>)
    requires
        all_done(advs),
    ensures
        round(advs, g) == (advs, g),
{
    lemma_idle_prefix(advs, g, advs.len() as int);
}

proof fn lemma_idle_prefix(advs: Seq<AdventurerView>, g: Seq<Seq<Element>>, n: int)
    requires
        all_done(advs),
        n <= advs.len(),
    ensures
        round_prefix(advs, g, n) == (advs, g),
    decreases n,
{
    if n > 0 {
        lemma_idle_prefix(advs, g, n - 1);
        assert(advs[n - 1].pattern.len() == 0);
    }
}

/// Rounds drain every command string from the front, one command per round:
/// after `k` rounds each adventurer has the commands it had minus the first
/// `k` of them (none once they run out), and keeps its name.
pub proof fn lemma_rounds_drain(advs: Seq<AdventurerView>, g: Seq<Seq<Element>>, k: nat, rows: int, cols: int)
    requires
        has_shape(g, rows, cols),
    ensures
        rounds(advs, g, k).0.len() == advs.len(),
        has_shape(rounds(advs, g, k).1, rows, cols),
        forall|j: int| 0 <= j < advs.len() ==> {
            let b = #[trigger] rounds(advs, g, k).0[j];
            let used = if k <= advs[j].pattern.len() { k as int } else { advs[j].pattern.len() as int };
            &&& b.name == advs[j].name
            &&& b.pattern == advs[j].pattern.subrange(used, advs[j].pattern.len() as int)
        },
    decreases k,
{
    if k > 0 {
        let r = round(advs, g);
        lemma_round(advs, g, rows, cols);
        lemma_rounds_drain(r.0, r.1, (k - 1) as nat, rows, cols);
        assert forall|j: int| 0 <= j < advs.len() implies {
            let b = #[trigger] rounds(advs, g, k).0[j];
            let used = if k <= advs[j].pattern.len() { k as int } else { advs[j].pattern.len() as int };
            &&& b.name == advs[j].name
            &&& b.pattern == advs[j].pattern.subrange(used, advs[j].pattern.len() as int)
        } by {
            let p = advs[j].pattern;
            let q = r.0[j].pattern;
            let b = rounds(advs, g, k).0[j];
            assert(b == rounds(r.0, r.1, (k - 1) as nat).0[j]);
            if p.len() > 0 {
                assert(q == p.drop_first());
                let used1 = if k - 1 <= q.len() { k - 1 } else { q.len() as int };
                assert(b.pattern == q.subrange(used1, q.len() as int));
                let used = if k <= p.len() { k as int } else { p.len() as int };
                assert(q.subrange(used1, q.len() as int) =~= p.subrange(used, p.len() as int));
            } else {
                assert(r.0[j] == advs[j]);
                assert(p.subrange(0, 0) =~= p);
            }
        }
    } else {
        assert forall|j: int| 0 <= j < advs.len() implies
            (#[trigger] rounds(advs, g, k).0[j]).pattern == advs[j].pattern.subrange(0, advs[j].pattern.len() as int) by {
            assert(advs[j].pattern.subrange(0, advs[j].pattern.len() as int) =~= advs[j].pattern);
        }
    }
}

/// The simulation is over after `k` rounds exactly when no command string is
/// longer than `k`: an adventurer with a short string drops out early while
/// the others go on.
pub proof fn lemma_done_after(advs: Seq<AdventurerView>, g: Seq<Seq<Element>>, k: nat, rows: int, cols: int)
    requires
        has_shape(g, rows, cols),
    ensures
        all_done(rounds(advs, g, k).0) <==> longest(advs) <= k,
        forall|j: int| 0 <= j < advs.len() ==>
            ((#[trigger] rounds(advs, g, k).0[j]).pattern.len() == 0 <==> advs[j].pattern.len() <= k),
{
    lemma_rounds_drain(advs, g, k, rows, cols);
    lemma_longest(advs, k);
    let after = rounds(advs, g, k).0;
    if longest(advs) <= k {
        assert forall|i: int| 0 <= i < after.len() implies (#[trigger] after[i]).pattern.len() == 0 by {
            assert(advs[i].pattern.len() <= k);
        }
    } else {
        let i = choose|i: int| 0 <= i < advs.len() && advs[i].pattern.len() > k;
        assert(after[i].pattern.len() > 0);
    }
}

/// No command string is longer than `k` exactly when the longest one is not.
proof fn lemma_longest(advs: Seq<AdventurerView>, k: nat)
    ensures
        longest(advs) <= k <==> forall|i: int| 0 <= i < advs.len() ==> (#[trigger] advs[i]).pattern.len() <= k,
    decreases advs.len(),
{
    if advs.len() > 0 {
        let rest = advs.drop_last();
        lemma_longest(rest, k);
        if longest(advs) <= k {
            assert forall|i: int| 0 <= i < advs.len() implies (#[trigger] advs[i]).pattern.len() <= k by {
                if i < advs.len() - 1 {
                    assert(rest[i] == advs[i]);
                }
            }
        } else if forall|i: int| 0 <= i < advs.len() ==> (#[trigger] advs[i]).pattern.len() <= k {
            assert forall|i: int| 0 <= i < rest.len() implies (#[trigger] rest[i]).pattern.len() <= k by {
                assert(rest[i] == advs[i]);
            }
            assert(advs[advs.len() - 1].pattern.len() <= k);
        }
    }
}

/// Plays one round: each adventurer with commands left, in list order,
/// carries out its first command on the shared board. Returns whether every
/// command string was already empty when the round began.
pub fn play_round(the_map: &mut Grid, adventurers: &mut Vec<RawAdventurer>) -> (done: bool)
    requires
        old(the_map).wf(),
        has_room(views(old(adventurers)@)),
    ensures
        final(the_map).wf(),
        final(the_map).rows == old(the_map).rows,
        final(the_map).cols == old(the_map).cols,
        done == all_done(views(old(adventurers)@)),
        (views(final(adventurers)@), final(the_map).cells()) == round(views(old(adventurers)@), old(the_map).cells()),
{
    let ghost start = views(adventurers@);
    let ghost g0 = the_map.cells();
    let ghost rows = the_map.rows as int;
    let ghost cols = the_map.cols as int;
    let mut done = true;
    let mut i: usize = 0;
    while i < adventurers.len()
        invariant
            i <= adventurers.len(),
            adventurers.len() == start.len(),
            the_map.wf(),
            the_map.rows == rows,
            the_map.cols == cols,
            has_shape(g0, rows, cols),
            has_room(start),
            (views(adventurers@), the_map.cells()) == round_prefix(start, g0, i as int),
            done == forall|j: int| 0 <= j < i ==> (#[trigger] start[j]).pattern.len() == 0,
        decreases start.len() - i,
    {
        proof {
            lemma_round_prefix(start, g0, i as int, rows, cols);
            lemma_round_prefix(start, g0, i + 1, rows, cols);
            assert(views(adventurers@)[i as int] == start[i as int]);
        }
        if !adventurers[i].pattern.as_str().is_empty() {
            done = false;
            let next = update_adventurer(adventurers[i].clone(), the_map);
            adventurers[i] = next;
            assert(views(adventurers@) =~= round_prefix(start, g0, i + 1).0);
        }
        i += 1;
    }
    done
}

/// Plays rounds until a round begins with every command string empty.
/// The adventurers and the board end as the rounds make them, one round per
/// command of the longest string.
pub fn run_simulation(the_map: &mut Grid, adventurers: &mut Vec<RawAdventurer>)
    requires
        old(the_map).wf(),
        has_room(views(old(adventurers)@)),
    ensures
        final(the_map).wf(),
        final(the_map).rows == old(the_map).rows,
        final(the_map).cols == old(the_map).cols,
        all_done(views(final(adventurers)@)),
        (views(final(adventurers)@), final(the_map).cells()) == rounds(
            views(old(adventurers)@),
            old(the_map).cells(),
            longest(views(old(adventurers)@)),
        ),
{
    let ghost start = views(adventurers@);
    let ghost g0 = the_map.cells();
    let ghost rows = the_map.rows as int;
    let ghost cols = the_map.cols as int;
    let ghost mut k: nat = 0;
    loop
        invariant
            the_map.wf(),
            the_map.rows == rows,
            the_map.cols == cols,
            has_shape(g0, rows, cols),
            k <= longest(start),
            has_room(views(adventurers@)),
            (views(adventurers@), the_map.cells()) == rounds(start, g0, k),
        ensures
            the_map.wf(),
            the_map.rows == rows,
            the_map.cols == cols,
            all_done(views(adventurers@)),
            (views(adventurers@), the_map.cells()) == rounds(start, g0, longest(start)),
        decreases longest(start) - k,
    {
        let ghost before = (views(adventurers@), the_map.cells());
        proof {
            lemma_done_after(start, g0, k, rows, cols);
            lemma_rounds_step(start, g0, k);
            lemma_round_room(before.0, before.1, rows, cols);
        }
        let done = play_round(the_map, adventurers);
        if done {
            proof {
                lemma_idle_round(before.0, before.1);
            }
            break;
        }
        proof {
            k = k + 1;
        }
    }
}

/// One more round after `k` rounds makes `k + 1` rounds.
proof fn lemma_rounds_step(advs: Seq<AdventurerView>, g: Seq<Seq<Element>>, k: nat)
    ensures
        round(rounds(advs, g, k).0, rounds(advs, g, k).1) == rounds(advs, g, k + 1),
    decreases k,
{
    let r = round(advs, g);
    assert(rounds(advs, g, k + 1) == rounds(r.0, r.1, k));
    if k > 0 {
        lemma_rounds_step(r.0, r.1, (k - 1) as nat);
        assert(rounds(advs, g, k) == rounds(r.0, r.1, (k - 1) as nat));
    } else {
        assert(rounds(r.0, r.1, 0) == r);
    }
}

/// A round keeps room for the treasures still to be found.
proof fn lemma_round_room(advs: Seq<AdventurerView>, g: Seq<Seq<Element>>, rows: int, cols: int)
    requires
        has_shape(g, rows, cols),
        has_room(advs),
    ensures
        has_room(round(advs, g).0),
{
    lemma_round(advs, g, rows, cols);
    let after = round(advs, g).0;
    assert forall|i: int| 0 <= i < after.len() implies
        (#[trigger] after[i]).treasure + after[i].pattern.len() <= usize::MAX by {
        assert(advs[i].treasure + advs[i].pattern.len() <= usize::MAX);
    }
}

} // verus!
