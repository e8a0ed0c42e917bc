//! The link graph as a query.
use crate::error::TacitusError;
use crate::order::{has_position, positions};
use crate::vault::get::{missing_note, no_such_note};
use crate::vault::index::{
    backlinks_of, find, ids_ascend, law_backlinks_come_in_the_order_of_ids,
    law_links_come_in_text_order, law_links_lead_to_what_they_mean, lemma_find_is, note_at,
    outgoing_of, points_at, VaultIndex,
};
use crate::vault::types::NoteView;
use vstd::prelude::*;

verus! {

/// Which way to follow links.
#[derive(Clone, Copy, Debug, PartialEq, Eq, Structural)]
pub enum Relation {
    Links,
    Backlinks,
    Neighbors,
}

/// One note of a graph answer.
#[derive(Debug)]
pub struct GraphNode {
    pub note_id: String,
    pub title: String,
}

/// The model of one note of a graph answer.
#[verifier::ext_equal]
pub struct GraphNodeView {
    pub note_id: Seq<char>,
    pub title: Seq<char>,
}

impl View for GraphNode {
    type V = GraphNodeView;

    open spec fn view(&self) -> GraphNodeView {
        GraphNodeView { note_id: self.note_id@, title: self.title@ }
    }
}

pub open spec fn nodes_view(v: Seq<GraphNode>) -> Seq<GraphNodeView> {
    v.map_values(|n: GraphNode| n@)
}

/// The notes next to the one at `p`: those it links to, then those that link
/// to it.
pub open spec fn adjacent(s: Seq<NoteView>, p: int) -> Seq<int> {
    outgoing_of(s, s[p].id) + backlinks_of(s, s[p].id)
}

/// What was reached so far, and what of it was found in this round.
pub struct Reach {
    pub seen: Seq<int>,
    pub found: Seq<int>,
}

/// The reach after the notes of `list` from `k` on are looked at.
pub open spec fn absorb(r: Reach, list: Seq<int>, k: int) -> Reach
    decreases list.len() - k,
{
    if k < 0 || k >= list.len() {
        r
    } else if r.seen.contains(list[k]) {
        absorb(r, list, k + 1)
    } else {
        absorb(Reach { seen: r.seen.push(list[k]), found: r.found.push(list[k]) }, list, k + 1)
    }
}

/// The reach after the neighbours of the notes of `frontier` from `k` on are
/// looked at.
pub open spec fn widen(s: Seq<NoteView>, r: Reach, frontier: Seq<int>, k: int) -> Reach
    decreases frontier.len() - k,
{
    if k < 0 || k >= frontier.len() {
        r
    } else {
        widen(s, absorb(r, adjacent(s, frontier[k]), 0), frontier, k + 1)
    }
}

/// What is reached from `frontier` in `depth` rounds, in the order of reaching.
pub open spec fn spread(
    s: Seq<NoteView>,
    frontier: Seq<int>,
    seen: Seq<int>,
    depth: nat,
) -> Seq<int>
    decreases depth,
{
    if depth == 0 {
        seq![]
    } else {
        let r = widen(s, Reach { seen, found: seq![] }, frontier, 0);
        r.found + spread(s, r.found, r.seen, (depth - 1) as nat)
    }
}

/// The positions that a graph query answers with. A depth of zero counts as one.
pub open spec fn graph_positions(
    s: Seq<NoteView>,
    from: Seq<char>,
    relation: Relation,
    depth: usize,
) -> Seq<int> {
    match relation {
        Relation::Links => outgoing_of(s, from),
        Relation::Backlinks => backlinks_of(s, from),
        Relation::Neighbors => match find(s, from) {
            Some(p) => spread(
                s,
                seq![p],
                seq![p],
                if depth == 0 {
                    1
                } else {
                    depth as nat
                },
            ),
            None => seq![],
        },
    }
}

/// The answer of a graph query.
pub open spec fn graph_answer(
    s: Seq<NoteView>,
    from: Seq<char>,
    relation: Relation,
    depth: usize,
) -> Seq<GraphNodeView> {
    graph_positions(s, from, relation, depth).map_values(
        |p: int| GraphNodeView { note_id: s[p].id, title: s[p].title },
    )
}

fn neighbors(index: &VaultIndex, from: &str, start: usize, depth: usize) -> (r: Vec<usize>)
    requires
        find(index@, from@) == Some(start as int),
        start < index@.len(),
    ensures
        positions(r@) == spread(index@, seq![start as int], seq![start as int], depth as nat),
        forall|k: int| 0 <= k < r@.len() ==> #[trigger] r@[k] < index@.len(),
{
    let ghost s = index@;
    let mut seen: Vec<usize> = Vec::new();
    seen.push(start);
    let mut frontier: Vec<usize> = Vec::new();
    frontier.push(start);
    let mut collected: Vec<usize> = Vec::new();
    let ghost whole = spread(s, seq![start as int], seq![start as int], depth as nat);
    assert(positions(seen@) =~= seq![start as int]);
    assert(positions(frontier@) =~= seq![start as int]);
    assert(positions(collected@) =~= seq![]);
    assert(seq![] + whole =~= whole);
    let mut round: usize = 0;
    while round < depth
        invariant
            round <= depth,
            s == index@,
            forall|k: int| 0 <= k < frontier@.len() ==> #[trigger] frontier@[k] < s.len(),
            forall|k: int| 0 <= k < collected@.len() ==> #[trigger] collected@[k] < s.len(),
            whole == positions(collected@) + spread(
                s,
                positions(frontier@),
                positions(seen@),
                (depth - round) as nat,
            ),
        decreases depth - round,
    {
        let mut next: Vec<usize> = Vec::new();
        let ghost goal = widen(
            s,
            Reach { seen: positions(seen@), found: seq![] },
            positions(frontier@),
            0,
        );
        assert(positions(next@) =~= seq![]);
        let mut k: usize = 0;
        while k < frontier.len()
            invariant
                k <= frontier@.len(),
                s == index@,
                forall|j: int| 0 <= j < frontier@.len() ==> #[trigger] frontier@[j] < s.len(),
                forall|j: int| 0 <= j < next@.len() ==> #[trigger] next@[j] < s.len(),
                goal == widen(
                    s,
                    Reach { seen: positions(seen@), found: positions(next@) },
                    positions(frontier@),
                    k as int,
                ),
            decreases frontier@.len() - k,
        {
            let here: usize = frontier[k];
            let id = index.at(here).id.clone();
            let mut list = index.outgoing_positions(id.as_str());
            let ghost first = positions(list@);
            let mut more = index.backlink_positions(id.as_str());
            let ghost second = positions(more@);
            let ghost list0 = list@;
            let ghost more0 = more@;
            list.append(&mut more);
            assert(list@ =~= list0 + more0);
            assert(positions(list@) =~= first + second);
            assert(positions(frontier@)[k as int] == here as int);
            assert(positions(list@) == adjacent(s, here as int));
            assert forall|j: int| 0 <= j < list@.len() implies #[trigger] list@[j] < s.len() by {
                if j < list0.len() {
                    assert(list@[j] == list0[j]);
                } else {
                    assert(list@[j] == more0[j - list0.len()]);
                }
            }
            let ghost after = absorb(
                Reach { seen: positions(seen@), found: positions(next@) },
                positions(list@),
                0,
            );
            let mut j: usize = 0;
            while j < list.len()
                invariant
                    j <= list@.len(),
                    forall|m: int| 0 <= m < list@.len() ==> #[trigger] list@[m] < s.len(),
                    forall|m: int| 0 <= m < next@.len() ==> #[trigger] next@[m] < s.len(),
                    after == absorb(
                        Reach { seen: positions(seen@), found: positions(next@) },
                        positions(list@),
                        j as int,
                    ),
                decreases list@.len() - j,
            {
                let p: usize = list[j];
                assert(positions(list@)[j as int] == p as int);
                if !has_position(&seen, p) {
                    let ghost prev_seen = positions(seen@);
                    let ghost prev_next = positions(next@);
                    seen.push(p);
                    next.push(p);
                    assert(positions(seen@) =~= prev_seen.push(p as int));
                    assert(positions(next@) =~= prev_next.push(p as int));
                }
                j = j + 1;
            }
            k = k + 1;
        }
        let ghost c0 = collected@;
        let ghost n0 = next@;
        let mut m: usize = 0;
        while m < next.len()
            invariant
                m <= next@.len(),
                n0 == next@,
                forall|q: int| 0 <= q < next@.len() ==> #[trigger] next@[q] < s.len(),
                forall|q: int| 0 <= q < collected@.len() ==> #[trigger] collected@[q] < s.len(),
                collected@ == c0 + n0.take(m as int),
            decreases next@.len() - m,
        {
            collected.push(next[m]);
            assert(n0.take(m + 1) =~= n0.take(m as int).push(n0[m as int]));
            m = m + 1;
        }
        assert(n0.take(n0.len() as int) =~= n0);
        proof {
            let rest = spread(s, goal.found, goal.seen, (depth - round - 1) as nat);
            assert(goal.found == positions(n0));
            assert(positions(collected@) =~= positions(c0) + positions(n0));
            assert(positions(c0) + (goal.found + rest) =~= positions(collected@) + rest);
        }
        frontier = next;
        round = round + 1;
    }
    assert(positions(collected@) + spread(s, positions(frontier@), positions(seen@), 0)
        =~= positions(collected@));
    collected
}

/// The wikilink graph as a query: outgoing links, backlinks, or neighbours
/// (both directions, breadth first to `depth`).
pub fn graph_query(
    index: &VaultIndex,
    from: &str,
    relation: Relation,
    depth: usize,
) -> (r: Result<Vec<GraphNode>, TacitusError>)
    ensures
        match r {
            Ok(nodes) => note_at(index@, from@) is Some && nodes_view(nodes@) == graph_answer(
                index@,
                from@,
                relation,
                depth,
            ),
            Err(e) => note_at(index@, from@) is None && e@ == no_such_note(
                from@,
                "Use list_notes to discover valid note ids."@,
            ),
        },
{
    let ghost s = index@;
    let start: usize = match index.position(from) {
        Some(p) => p,
        None => {
            return Err(missing_note(from, "Use list_notes to discover valid note ids."));
        },
    };
    let at: Vec<usize> = match relation {
        Relation::Links => index.outgoing_positions(from),
        Relation::Backlinks => index.backlink_positions(from),
        Relation::Neighbors => {
            let d: usize = if depth == 0 {
                1
            } else {
                depth
            };
            neighbors(index, from, start, d)
        },
    };
    let ghost want = graph_answer(s, from@, relation, depth);
    let mut out: Vec<GraphNode> = Vec::new();
    let mut k: usize = 0;
    while k < at.len()
        invariant
            k <= at@.len(),
            s == index@,
            forall|j: int| 0 <= j < at@.len() ==> #[trigger] at@[j] < s.len(),
            positions(at@) == graph_positions(s, from@, relation, depth),
            want == graph_answer(s, from@, relation, depth),
            nodes_view(out@) == want.take(k as int),
        decreases at@.len() - k,
    {
        let n = index.at(at[k]);
        let node = GraphNode { note_id: n.id.clone(), title: n.title.clone() };
        let ghost prev = nodes_view(out@);
        assert(positions(at@)[k as int] == at@[k as int] as int);
        assert(node@ == want[k as int]);
        out.push(node);
        assert(nodes_view(out@) =~= prev.push(want[k as int]));
        assert(want.take(k + 1) =~= want.take(k as int).push(want[k as int]));
        k = k + 1;
    }
    assert(want.take(want.len() as int) =~= want);
    Ok(out)
}

proof fn lemma_absorb(r: Reach, list: Seq<int>, k: int)
    requires
        0 <= k,
        r.seen.no_duplicates(),
    ensures
        absorb(r, list, k).seen.no_duplicates(),
        exists|fresh: Seq<int>|
            absorb(r, list, k).seen == r.seen + fresh && absorb(r, list, k).found == #[trigger] (
            r.found + fresh),
    decreases list.len() - k,
{
    if k < list.len() && !r.seen.contains(list[k]) {
        let q = Reach { seen: r.seen.push(list[k]), found: r.found.push(list[k]) };
        lemma_absorb(q, list, k + 1);
        let fresh = choose|fresh: Seq<int>|
            absorb(q, list, k + 1).seen == q.seen + fresh && absorb(q, list, k + 1).found
                == #[trigger] (q.found + fresh);
        let mine = seq![list[k]] + fresh;
        assert(q.seen + fresh =~= r.seen + mine);
        assert(q.found + fresh =~= r.found + mine);
    } else if k < list.len() {
        lemma_absorb(r, list, k + 1);
    } else {
        assert(r.seen + seq![] =~= r.seen);
        assert(r.found + seq![] =~= r.found);
    }
}

proof fn lemma_widen(s: Seq<NoteView>, r: Reach, frontier: Seq<int>, k: int)
    requires
        0 <= k,
        r.seen.no_duplicates(),
    ensures
        widen(s, r, frontier, k).seen.no_duplicates(),
        exists|fresh: Seq<int>|
            widen(s, r, frontier, k).seen == r.seen + fresh && widen(s, r, frontier, k).found
                == #[trigger] (r.found + fresh),
    decreases frontier.len() - k,
{
    if k < frontier.len() {
        let q = absorb(r, adjacent(s, frontier[k]), 0);
        lemma_absorb(r, adjacent(s, frontier[k]), 0);
        lemma_widen(s, q, frontier, k + 1);
        let first = choose|fresh: Seq<int>|
            q.seen == r.seen + fresh && q.found == #[trigger] (r.found + fresh);
        let second = choose|fresh: Seq<int>|
            widen(s, q, frontier, k + 1).seen == q.seen + fresh && widen(
                s,
                q,
                frontier,
                k + 1,
            ).found == #[trigger] (q.found + fresh);
        let both = first + second;
        assert(q.seen + second =~= r.seen + both);
        assert(q.found + second =~= r.found + both);
    } else {
        assert(r.seen + seq![] =~= r.seen);
        assert(r.found + seq![] =~= r.found);
    }
}

/// Neighbours come once each, and what was seen before the search, such as the
/// note that it starts from, is never among them.
pub proof fn law_neighbors_are_new(
    s: Seq<NoteView>,
    frontier: Seq<int>,
    seen: Seq<int>,
    depth: nat,
)
    requires
        seen.no_duplicates(),
    ensures
        (seen + spread(s, frontier, seen, depth)).no_duplicates(),
    decreases depth,
{
    if depth == 0 {
        assert(seen + spread(s, frontier, seen, depth) =~= seen);
    } else {
        let r = Reach { seen, found: seq![] };
        let w = widen(s, r, frontier, 0);
        lemma_widen(s, r, frontier, 0);
        let fresh = choose|fresh: Seq<int>|
            w.seen == r.seen + fresh && w.found == #[trigger] (r.found + fresh);
        assert(r.found + fresh =~= fresh);
        law_neighbors_are_new(s, w.found, w.seen, (depth - 1) as nat);
        let rest = spread(s, w.found, w.seen, (depth - 1) as nat);
        assert(seen + (w.found + rest) =~= w.seen + rest);
    }
}

/// Two notes are next to each other: one has a link that means the other.
pub open spec fn linked(s: Seq<NoteView>, a: int, b: int) -> bool {
    &&& 0 <= a < s.len()
    &&& 0 <= b < s.len()
    &&& a != b
    &&& points_at(s, a, b) || points_at(s, b, a)
}

/// A walk from `a` to `b` along links, whichever way they point.
pub open spec fn is_walk(s: Seq<NoteView>, w: Seq<int>, a: int, b: int) -> bool {
    &&& w.len() > 0
    &&& w[0] == a
    &&& w[w.len() - 1] == b
    &&& forall|i: int, j: int|
        0 <= i && j == i + 1 && j < w.len() ==> linked(s, #[trigger] w[i], #[trigger] w[j])
}

/// A walk of at most `d` links leads from `a` to `b`.
pub open spec fn within(s: Seq<NoteView>, a: int, b: int, d: nat) -> bool {
    exists|w: Seq<int>| #[trigger] is_walk(s, w, a, b) && w.len() <= d + 1
}

proof fn lemma_absorb_has(r: Reach, list: Seq<int>, k: int, b: int)
    requires
        0 <= k <= list.len(),
    ensures
        absorb(r, list, k).seen.contains(b) <==> r.seen.contains(b) || list.skip(k).contains(b),
        absorb(r, list, k).found.contains(b) <==> r.found.contains(b) || list.skip(k).contains(b)
            && !r.seen.contains(b),
    decreases list.len() - k,
{
    if k < list.len() {
        let rest = list.skip(k + 1);
        assert(list.skip(k) =~= seq![list[k]] + rest);
        assert(list.skip(k).contains(b) <==> b == list[k] || rest.contains(b)) by {
            if rest.contains(b) {
                let i = choose|i: int| 0 <= i < rest.len() && rest[i] == b;
                assert(list.skip(k)[i + 1] == b);
            }
            assert(list.skip(k)[0] == list[k]);
        }
        if r.seen.contains(list[k]) {
            lemma_absorb_has(r, list, k + 1, b);
        } else {
            let q = Reach { seen: r.seen.push(list[k]), found: r.found.push(list[k]) };
            lemma_absorb_has(q, list, k + 1, b);
            lemma_push_has(r.seen, list[k], b);
            lemma_push_has(r.found, list[k], b);
        }
    } else {
        assert(list.skip(k) =~= seq![]);
        assert(!list.skip(k).contains(b));
    }
}

proof fn lemma_push_has(v: Seq<int>, x: int, b: int)
    ensures
        v.push(x).contains(b) <==> v.contains(b) || b == x,
{
    if v.contains(b) {
        let i = choose|i: int| 0 <= i < v.len() && v[i] == b;
        assert(v.push(x)[i] == b);
    }
    assert(v.push(x)[v.len() as int] == x);
    if v.push(x).contains(b) && b != x {
        let i = choose|i: int| 0 <= i < v.push(x).len() && v.push(x)[i] == b;
        assert(v[i] == b);
    }
}

/// One of the notes of `frontier` from `k` on is next to the note at `b`.
spec fn borders(s: Seq<NoteView>, frontier: Seq<int>, k: int, b: int) -> bool {
    exists|i: int| k <= i < frontier.len() && adjacent(s, #[trigger] frontier[i]).contains(b)
}

proof fn lemma_widen_has(s: Seq<NoteView>, r: Reach, frontier: Seq<int>, k: int, b: int)
    requires
        0 <= k <= frontier.len(),
    ensures
        widen(s, r, frontier, k).seen.contains(b) <==> r.seen.contains(b) || borders(
            s,
            frontier,
            k,
            b,
        ),
        widen(s, r, frontier, k).found.contains(b) <==> r.found.contains(b) || borders(
            s,
            frontier,
            k,
            b,
        ) && !r.seen.contains(b),
    decreases frontier.len() - k,
{
    if k < frontier.len() {
        let list = adjacent(s, frontier[k]);
        let q = absorb(r, list, 0);
        lemma_absorb_has(r, list, 0, b);
        assert(list.skip(0) =~= list);
        lemma_widen_has(s, q, frontier, k + 1, b);
        assert(borders(s, frontier, k, b) <==> list.contains(b) || borders(s, frontier, k + 1, b));
    }
}

proof fn lemma_adjacent_is_linked(s: Seq<NoteView>, a: int, b: int)
    requires
        ids_ascend(s),
        0 <= a < s.len(),
    ensures
        adjacent(s, a).contains(b) <==> linked(s, a, b),
{
    let out = outgoing_of(s, s[a].id);
    let back = backlinks_of(s, s[a].id);
    law_links_lead_to_what_they_mean(s, a, b);
    assert((out + back).contains(b) <==> out.contains(b) || back.contains(b)) by {
        if out.contains(b) {
            let i = choose|i: int| 0 <= i < out.len() && out[i] == b;
            assert((out + back)[i] == b);
        }
        if back.contains(b) {
            let i = choose|i: int| 0 <= i < back.len() && back[i] == b;
            assert((out + back)[out.len() + i] == b);
        }
    }
}

/// A walk of at most `d` links leads from one of `seen` to the note at `b`.
spec fn within_any(s: Seq<NoteView>, seen: Seq<int>, b: int, d: nat) -> bool {
    exists|x: int| #[trigger] seen.contains(x) && within(s, x, b, d)
}

proof fn lemma_walk_on(s: Seq<NoteView>, x: int, y: int, b: int, d: nat)
    requires
        linked(s, x, y),
        within(s, y, b, d),
    ensures
        within(s, x, b, d + 1),
{
    let w = choose|w: Seq<int>| #[trigger] is_walk(s, w, y, b) && w.len() <= d + 1;
    let v = seq![x] + w;
    assert forall|i: int, j: int| 0 <= i && j == i + 1 && j < v.len() implies linked(
        s,
        #[trigger] v[i],
        #[trigger] v[j],
    ) by {
        assert(v[j] == w[j - 1]);
        if i > 0 {
            assert(v[i] == w[i - 1]);
        }
    }
    assert(is_walk(s, v, x, b));
}

proof fn lemma_spread_reaches(
    s: Seq<NoteView>,
    frontier: Seq<int>,
    seen: Seq<int>,
    depth: nat,
    b: int,
)
    requires
        ids_ascend(s),
        forall|x: int| #[trigger] seen.contains(x) ==> 0 <= x < s.len(),
        forall|x: int| #[trigger] frontier.contains(x) ==> seen.contains(x),
        forall|x: int, y: int|
            #[trigger] seen.contains(x) && !frontier.contains(x) && #[trigger] linked(s, x, y)
                ==> seen.contains(y),
    ensures
        seen.contains(b) || spread(s, frontier, seen, depth).contains(b) <==> within_any(
            s,
            seen,
            b,
            depth,
        ),
    decreases depth,
{
    if seen.contains(b) {
        assert(is_walk(s, seq![b], b, b));
        assert(within(s, b, b, depth));
    }
    if depth == 0 {
        assert(!spread(s, frontier, seen, depth).contains(b));
        if within_any(s, seen, b, depth) {
            let x = choose|x: int| #[trigger] seen.contains(x) && within(s, x, b, depth);
            let w = choose|w: Seq<int>| #[trigger] is_walk(s, w, x, b) && w.len() <= depth + 1;
            assert(w.len() == 1);
        }
    } else {
        let less = (depth - 1) as nat;
        let r = widen(s, Reach { seen, found: seq![] }, frontier, 0);
        let rest = spread(s, r.found, r.seen, less);
        lemma_round(s, frontier, seen, r);
        lemma_spread_reaches(s, r.found, r.seen, less, b);
        lemma_widen_has(s, Reach { seen, found: seq![] }, frontier, 0, b);
        assert(!Seq::<int>::empty().contains(b));
        assert((r.found + rest).contains(b) <==> r.found.contains(b) || rest.contains(b)) by {
            if r.found.contains(b) {
                let i = choose|i: int| 0 <= i < r.found.len() && r.found[i] == b;
                assert((r.found + rest)[i] == b);
            }
            if rest.contains(b) {
                let i = choose|i: int| 0 <= i < rest.len() && rest[i] == b;
                assert((r.found + rest)[r.found.len() + i] == b);
            }
        }
        lemma_one_more(s, frontier, seen, r, b, less);
    }
}

/// What a round leaves: the new notes are seen, and all that is next to an older one.
proof fn lemma_round(s: Seq<NoteView>, frontier: Seq<int>, seen: Seq<int>, r: Reach)
    requires
        ids_ascend(s),
        r == widen(s, Reach { seen, found: seq![] }, frontier, 0),
        forall|x: int| #[trigger] seen.contains(x) ==> 0 <= x < s.len(),
        forall|x: int| #[trigger] frontier.contains(x) ==> seen.contains(x),
        forall|x: int, y: int|
            #[trigger] seen.contains(x) && !frontier.contains(x) && #[trigger] linked(s, x, y)
                ==> seen.contains(y),
    ensures
        forall|x: int| #[trigger] r.seen.contains(x) ==> 0 <= x < s.len(),
        forall|x: int| #[trigger] r.found.contains(x) ==> r.seen.contains(x),
        forall|x: int, y: int|
            #[trigger] r.seen.contains(x) && !r.found.contains(x) && #[trigger] linked(s, x, y)
                ==> r.seen.contains(y),
        forall|x: int| #[trigger] seen.contains(x) ==> r.seen.contains(x),
        forall|x: int|
            #[trigger] r.seen.contains(x) && !seen.contains(x) ==> exists|z: int|
                seen.contains(z) && #[trigger] linked(s, z, x),
        forall|x: int, y: int|
            #[trigger] seen.contains(x) && #[trigger] linked(s, x, y) ==> r.seen.contains(y),
{
    let start = Reach { seen, found: seq![] };
    assert forall|x: int| true implies (#[trigger] r.seen.contains(x) <==> seen.contains(x)
        || borders(s, frontier, 0, x)) && (r.found.contains(x) <==> borders(s, frontier, 0, x)
        && !seen.contains(x)) by {
        lemma_widen_has(s, start, frontier, 0, x);
        assert(!Seq::<int>::empty().contains(x));
    }
    assert forall|x: int| borders(s, frontier, 0, x) implies exists|z: int|
        seen.contains(z) && #[trigger] linked(s, z, x) by {
        let i = choose|i: int| 0 <= i < frontier.len() && adjacent(s, #[trigger] frontier[i]).contains(x);
        assert(frontier.contains(frontier[i]));
        lemma_adjacent_is_linked(s, frontier[i], x);
        assert(linked(s, frontier[i], x));
    }
    assert forall|x: int, y: int| #[trigger]
        seen.contains(x) && #[trigger] linked(s, x, y) implies r.seen.contains(y) by {
        if frontier.contains(x) {
            let i = choose|i: int| 0 <= i < frontier.len() && frontier[i] == x;
            lemma_adjacent_is_linked(s, x, y);
            assert(adjacent(s, frontier[i]).contains(y));
            assert(borders(s, frontier, 0, y));
        }
        assert(r.seen.contains(y) <==> seen.contains(y) || borders(s, frontier, 0, y));
    }
    assert forall|x: int| #[trigger] r.found.contains(x) implies r.seen.contains(x) by {
        assert(r.seen.contains(x) <==> seen.contains(x) || borders(s, frontier, 0, x));
    }
    assert forall|x: int, y: int| #[trigger]
        r.seen.contains(x) && !r.found.contains(x) && #[trigger] linked(
            s,
            x,
            y,
        ) implies r.seen.contains(y) by {
        assert(seen.contains(x));
    }
}

proof fn lemma_one_more(
    s: Seq<NoteView>,
    frontier: Seq<int>,
    seen: Seq<int>,
    r: Reach,
    b: int,
    less: nat,
)
    requires
        forall|x: int| #[trigger] seen.contains(x) ==> r.seen.contains(x),
        forall|x: int|
            #[trigger] r.seen.contains(x) && !seen.contains(x) ==> exists|z: int|
                seen.contains(z) && #[trigger] linked(s, z, x),
        forall|x: int, y: int|
            #[trigger] seen.contains(x) && #[trigger] linked(s, x, y) ==> r.seen.contains(y),
    ensures
        within_any(s, r.seen, b, less) <==> within_any(s, seen, b, less + 1),
{
    if within_any(s, r.seen, b, less) {
        let y = choose|y: int| #[trigger] r.seen.contains(y) && within(s, y, b, less);
        let w = choose|w: Seq<int>| #[trigger] is_walk(s, w, y, b) && w.len() <= less + 1;
        if seen.contains(y) {
            assert(is_walk(s, w, y, b) && w.len() <= less + 2);
            assert(within(s, y, b, less + 1));
        } else {
            let z = choose|z: int| seen.contains(z) && #[trigger] linked(s, z, y);
            lemma_walk_on(s, z, y, b, less);
        }
    }
    if within_any(s, seen, b, less + 1) {
        let x = choose|x: int| #[trigger] seen.contains(x) && within(s, x, b, less + 1);
        let w = choose|w: Seq<int>| #[trigger] is_walk(s, w, x, b) && w.len() <= less + 2;
        if w.len() == 1 {
            assert(is_walk(s, w, x, b) && w.len() <= less + 1);
            assert(within(s, x, b, less));
            assert(r.seen.contains(x));
        } else {
            let v = w.skip(1);
            let y = w[1];
            assert(linked(s, w[0], w[1]));
            assert(r.seen.contains(y));
            assert forall|i: int, j: int| 0 <= i && j == i + 1 && j < v.len() implies linked(
                s,
                #[trigger] v[i],
                #[trigger] v[j],
            ) by {
                assert(v[i] == w[i + 1] && v[j] == w[j + 1]);
            }
            assert(is_walk(s, v, y, b));
            assert(within(s, y, b, less));
        }
    }
}

/// The neighbours of a note to a depth are exactly the other notes that a walk of
/// at most that many links leads to, whichever way the links point. A depth of zero
/// counts as one.
pub proof fn law_neighbors_are_within_the_depth(s: Seq<NoteView>, p: int, depth: usize, b: int)
    requires
        ids_ascend(s),
        0 <= p < s.len(),
    ensures
        graph_positions(s, s[p].id, Relation::Neighbors, depth).contains(b) <==> b != p && within(
            s,
            p,
            b,
            if depth == 0 {
                1
            } else {
                depth as nat
            },
        ),
{
    let d = if depth == 0 {
        1nat
    } else {
        depth as nat
    };
    let start = seq![p];
    lemma_find_is(s, p);
    assert forall|x: int| #[trigger] start.contains(x) implies x == p by {}
    lemma_spread_reaches(s, start, start, d, b);
    assert(start[0] == p);
    assert(start.contains(p));
    assert(within_any(s, start, b, d) <==> within(s, p, b, d));
    let all = spread(s, start, start, d);
    assert(start.no_duplicates());
    law_neighbors_are_new(s, start, start, d);
    if all.contains(p) {
        let i = choose|i: int| 0 <= i < all.len() && all[i] == p;
        assert((start + all)[0] == p);
        assert((start + all)[i + 1] == p);
    }
    if b == p {
        assert(!all.contains(b));
    } else {
        assert(!start.contains(b));
    }
}

/// To a depth of one the neighbours are the notes that the note links to and those
/// that link to it.
pub proof fn law_neighbors_are_linked(s: Seq<NoteView>, p: int, b: int)
    requires
        ids_ascend(s),
        0 <= p < s.len(),
    ensures
        graph_positions(s, s[p].id, Relation::Neighbors, 1).contains(b) <==> linked(s, p, b),
{
    law_neighbors_are_within_the_depth(s, p, 1, b);
    if linked(s, p, b) {
        let w = seq![p, b];
        assert(is_walk(s, w, p, b));
    }
    if b != p && within(s, p, b, 1) {
        let w = choose|w: Seq<int>| #[trigger] is_walk(s, w, p, b) && w.len() <= 2;
        assert(w.len() == 2);
        assert(linked(s, w[0], w[1]));
    }
}

proof fn lemma_walk_back(s: Seq<NoteView>, a: int, b: int, d: nat)
    requires
        within(s, a, b, d),
    ensures
        within(s, b, a, d),
{
    let w = choose|w: Seq<int>| #[trigger] is_walk(s, w, a, b) && w.len() <= d + 1;
    let n: int = w.len() as int;
    let v = Seq::new(w.len(), |i: int| w[n - 1 - i]);
    assert forall|i: int, j: int| 0 <= i && j == i + 1 && j < v.len() implies linked(
        s,
        #[trigger] v[i],
        #[trigger] v[j],
    ) by {
        assert(linked(s, w[n - 1 - j], w[n - 1 - i]));
    }
    assert(is_walk(s, v, b, a));
}

/// Neighbours are mutual: to any depth, one note is among those of another exactly
/// when the other is among its own.
pub proof fn law_neighbors_are_mutual(s: Seq<NoteView>, a: int, b: int, depth: usize)
    requires
        ids_ascend(s),
        0 <= a < s.len(),
        0 <= b < s.len(),
    ensures
        graph_positions(s, s[a].id, Relation::Neighbors, depth).contains(b) <==> graph_positions(
            s,
            s[b].id,
            Relation::Neighbors,
            depth,
        ).contains(a),
{
    let d = if depth == 0 {
        1nat
    } else {
        depth as nat
    };
    law_neighbors_are_within_the_depth(s, a, depth, b);
    law_neighbors_are_within_the_depth(s, b, depth, a);
    if within(s, a, b, d) {
        lemma_walk_back(s, a, b, d);
    }
    if within(s, b, a, d) {
        lemma_walk_back(s, b, a, d);
    }
}

/// A graph query for the links of a note answers with the others that its links
/// mean, and one for its backlinks with the others whose links mean it. Whatever is
/// asked, a node has the id and the title of its note, and no note comes twice.
pub proof fn law_a_graph_answer_is_of_notes(
    s: Seq<NoteView>,
    p: int,
    relation: Relation,
    depth: usize,
    k: int,
)
    requires
        ids_ascend(s),
        0 <= p < s.len(),
        0 <= k < graph_answer(s, s[p].id, relation, depth).len(),
    ensures
        ({
            let at = graph_positions(s, s[p].id, relation, depth);
            let node = graph_answer(s, s[p].id, relation, depth)[k];
            &&& at.len() == graph_answer(s, s[p].id, relation, depth).len()
            &&& at.no_duplicates()
            &&& 0 <= at[k] < s.len()
            &&& at[k] != p
            &&& node.note_id == s[at[k]].id
            &&& node.title == s[at[k]].title
            &&& relation == Relation::Links ==> points_at(s, p, at[k])
            &&& relation == Relation::Backlinks ==> points_at(s, at[k], p)
        }),
{
    let at = graph_positions(s, s[p].id, relation, depth);
    let b = at[k];
    assert(at.contains(b));
    lemma_find_is(s, p);
    match relation {
        Relation::Links => {
            law_links_lead_to_what_they_mean(s, p, b);
            law_links_come_in_text_order(s, p, 0, b);
        },
        Relation::Backlinks => {
            law_links_lead_to_what_they_mean(s, p, b);
            law_backlinks_come_in_the_order_of_ids(s, s[p].id);
        },
        Relation::Neighbors => {
            let d = if depth == 0 {
                1nat
            } else {
                depth as nat
            };
            law_neighbors_are_within_the_depth(s, p, depth, b);
            let w = choose|w: Seq<int>| #[trigger] is_walk(s, w, p, b) && w.len() <= d + 1;
            let n: int = w.len() as int;
            assert(n > 1);
            assert(linked(s, w[n - 2], w[n - 1]));
            let start = seq![p];
            assert(start.no_duplicates());
            law_neighbors_are_new(s, start, start, d);
            let all = start + spread(s, start, start, d);
            assert forall|i: int, j: int| 0 <= i < at.len() && 0 <= j < at.len() && i
                != j implies at[i] != at[j] by {
                assert(all[i + 1] == at[i]);
                assert(all[j + 1] == at[j]);
            }
        },
    }
}

} // verus!
