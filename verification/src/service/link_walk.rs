//! The whole link-context walk over a graph held in memory, and what it
//! gives: every entity within the depth, each once, at its distance from
//! the root, over the least `from->to` link that reaches it from one step
//! nearer.
use vstd::prelude::*;
use vstd::seq_lib::{group_to_multiset_ensures, seq_to_set_is_finite};

use crate::entity::{Entity, EntityLink};
use crate::service::entity_link_context::{
    clone_entity, clone_link, edge_text, entries_ok, find_ctx, lemma_record_keeps_entries,
    lemma_find_ctx, record, sorted_by_depth_then_id, visit_found, visit_queue, visit_seen, LinkContextSearch,
};
use crate::service::entity_service::LinkedEntityContext;
use crate::text::{lemma_text_lt_irreflexive, lemma_text_lt_transitive, text_lt};

verus! {

broadcast use group_to_multiset_ensures;


/// Each link comes with its two ends: `from` entity, then `to` entity.
pub open spec fn graph_ok(g: Seq<(EntityLink, Entity, Entity)>) -> bool {
    forall|t: int|
        0 <= t < g.len() ==> (#[trigger] g[t]).1.entity_id == g[t].0.from_entity_id
            && g[t].2.entity_id == g[t].0.to_entity_id
}

/// Entity `x` is at most `n` links away from `root`, links followed in
/// either direction.
pub open spec fn within(g: Seq<(EntityLink, Entity, Entity)>, root: i64, x: i64, n: nat) -> bool
    decreases n,
{
    if n == 0 {
        x == root
    } else {
        within(g, root, x, (n - 1) as nat) || exists|t: int|
            0 <= t < g.len() && ((#[trigger] g[t]).0.from_entity_id == x && within(
                g,
                root,
                g[t].0.to_entity_id,
                (n - 1) as nat,
            ) || g[t].0.to_entity_id == x && within(g, root, g[t].0.from_entity_id, (n - 1) as nat))
    }
}

/// Entity `x` is exactly `k` links away from `root`.
pub open spec fn at_distance(g: Seq<(EntityLink, Entity, Entity)>, root: i64, x: i64, k: nat) -> bool {
    within(g, root, x, k) && (k == 0 || !within(g, root, x, (k - 1) as nat))
}

/// Link `t` of the graph joins `x` with an entity exactly `k` links away
/// from `root`.
pub open spec fn joins_at(g: Seq<(EntityLink, Entity, Entity)>, root: i64, t: int, x: i64, k: nat) -> bool {
    (g[t].0.from_entity_id == x && at_distance(g, root, g[t].0.to_entity_id, k)) || (
    g[t].0.to_entity_id == x && at_distance(g, root, g[t].0.from_entity_id, k))
}

proof fn lemma_within_mono(g: Seq<(EntityLink, Entity, Entity)>, root: i64, x: i64, n: nat, m: nat)
    requires
        n <= m,
        within(g, root, x, n),
    ensures
        within(g, root, x, m),
    decreases m,
{
    if n < m {
        lemma_within_mono(g, root, x, n, (m - 1) as nat);
    }
}

proof fn lemma_distance_unique(g: Seq<(EntityLink, Entity, Entity)>, root: i64, x: i64, a: nat, b: nat)
    requires
        at_distance(g, root, x, a),
        at_distance(g, root, x, b),
    ensures
        a == b,
{
    if a < b {
        lemma_within_mono(g, root, x, a, (b - 1) as nat);
    } else if b < a {
        lemma_within_mono(g, root, x, b, (a - 1) as nat);
    }
}

proof fn lemma_within_step(g: Seq<(EntityLink, Entity, Entity)>, root: i64, t: int, x: i64, n: nat)
    requires
        0 <= t < g.len(),
        (g[t].0.from_entity_id == x && within(g, root, g[t].0.to_entity_id, n)) || (
        g[t].0.to_entity_id == x && within(g, root, g[t].0.from_entity_id, n)),
    ensures
        within(g, root, x, n + 1),
{
    assert(((n + 1) - 1) as nat == n);
    let _ = g[t];
}

/// An entity exactly `n + 1` links away is joined by some link to one
/// exactly `n` away.
proof fn lemma_predecessor(g: Seq<(EntityLink, Entity, Entity)>, root: i64, x: i64, n: nat) -> (t: int)
    requires
        at_distance(g, root, x, n + 1),
    ensures
        0 <= t < g.len(),
        joins_at(g, root, t, x, n),
{
    assert(((n + 1) - 1) as nat == n);
    let t = choose|t: int|
        0 <= t < g.len() && ((#[trigger] g[t]).0.from_entity_id == x && within(
            g,
            root,
            g[t].0.to_entity_id,
            n,
        ) || g[t].0.to_entity_id == x && within(g, root, g[t].0.from_entity_id, n));
    if n > 0 {
        let q = if g[t].0.from_entity_id == x && within(g, root, g[t].0.to_entity_id, n) {
            g[t].0.to_entity_id
        } else {
            g[t].0.from_entity_id
        };
        if within(g, root, q, (n - 1) as nat) {
            lemma_within_step(g, root, t, x, (n - 1) as nat);
            assert(false);
        }
    }
    t
}


/// The end of link `l` the walk stands on (`from` when following it
/// outward), and the end it reaches.
pub open spec fn near_end(l: EntityLink, out: bool) -> i64 {
    if out {
        l.from_entity_id
    } else {
        l.to_entity_id
    }
}

pub open spec fn far_end(l: EntityLink, out: bool) -> i64 {
    if out {
        l.to_entity_id
    } else {
        l.from_entity_id
    }
}

/// Link `t`, followed outward (`out`) or inward, from queue entry `i` has
/// been followed: every entry before `full` is done, and entry `full` is
/// done up to link `tco` outward and `tci` inward.
pub open spec fn followed(full: int, tco: int, tci: int, i: int, t: int, out: bool) -> bool {
    i < full || (i == full && t < (if out {
        tco
    } else {
        tci
    }))
}

/// The queue lines up with the queued entities, starts at the root, holds
/// each entity once, never gets shallower, and puts each entity at its
/// distance from the root.
pub open spec fn queue_ok(
    g: Seq<(EntityLink, Entity, Entity)>,
    root: i64,
    q: Seq<(i64, usize)>,
    s: Seq<i64>,
) -> bool {
    &&& q.len() == s.len()
    &&& q.len() >= 1
    &&& q[0] == (root, 0usize)
    &&& forall|i: int| 0 <= i < q.len() ==> (#[trigger] q[i]).0 == s[i]
    &&& s.no_duplicates()
    &&& forall|i: int, j: int| 0 <= i <= j < q.len() ==> q[i].1 <= q[j].1
    &&& forall|i: int| 0 <= i < q.len() ==> at_distance(g, root, (#[trigger] q[i]).0, q[i].1 as nat)
}

/// Every queued entity is the root or an end of some link.
pub open spec fn in_graph(g: Seq<(EntityLink, Entity, Entity)>, root: i64, s: Seq<i64>) -> bool {
    forall|j: int|
        0 <= j < s.len() ==> #[trigger] s[j] == root || exists|t: int|
            0 <= t < g.len() && (g[t].0.from_entity_id == s[j] || g[t].0.to_entity_id == s[j])
}

/// Every link followed from a queue entry above the full depth reached a
/// queued entity.
pub open spec fn expanded(
    g: Seq<(EntityLink, Entity, Entity)>,
    q: Seq<(i64, usize)>,
    s: Seq<i64>,
    m: usize,
    full: int,
    tco: int,
    tci: int,
) -> bool {
    forall|i: int, t: int, out: bool|
        #![trigger q[i], near_end(g[t].0, out)]
        0 <= i < q.len() && 0 <= t < g.len() && q[i].1 < m && followed(full, tco, tci, i, t, out)
            && near_end(g[t].0, out) == q[i].0 ==> s.contains(far_end(g[t].0, out))
}

/// Every entry is for a queued entity, at its distance from the root, over
/// a link of the graph from an entity one step nearer.
pub open spec fn grounded(
    g: Seq<(EntityLink, Entity, Entity)>,
    root: i64,
    s: Seq<i64>,
    d: Seq<LinkedEntityContext>,
) -> bool {
    forall|u: int|
        0 <= u < d.len() ==> s.contains((#[trigger] d[u]).entity.entity_id) && at_distance(
            g,
            root,
            d[u].entity.entity_id,
            d[u].depth as nat,
        ) && exists|t: int|
            0 <= t < g.len() && g[t].0 == d[u].link && joins_at(
                g,
                root,
                t,
                d[u].entity.entity_id,
                (d[u].depth - 1) as nat,
            )
}

/// Every queued entity but the root has an entry.
pub open spec fn covered(root: i64, s: Seq<i64>, d: Seq<LinkedEntityContext>) -> bool {
    forall|j: int|
        0 <= j < s.len() && #[trigger] s[j] != root ==> exists|u: int|
            0 <= u < d.len() && d[u].entity.entity_id == s[j]
}

/// No link followed so far from an entity one step nearer reaches an
/// entry's entity with a smaller `from->to` than the entry's link.
pub open spec fn least(
    g: Seq<(EntityLink, Entity, Entity)>,
    q: Seq<(i64, usize)>,
    d: Seq<LinkedEntityContext>,
    full: int,
    tco: int,
    tci: int,
) -> bool {
    forall|u: int, i: int, t: int, out: bool|
        #![trigger d[u], q[i], near_end(g[t].0, out)]
        0 <= u < d.len() && 0 <= i < q.len() && 0 <= t < g.len() && followed(
            full,
            tco,
            tci,
            i,
            t,
            out,
        ) && near_end(g[t].0, out) == q[i].0 && far_end(g[t].0, out) == d[u].entity.entity_id
            && q[i].1 + 1 == d[u].depth ==> !text_lt(edge_text(g[t].0), edge_text(d[u].link))
}

/// The queued entities are at most the root and both ends of every link.
proof fn lemma_queued_bound(g: Seq<(EntityLink, Entity, Entity)>, root: i64, s: Seq<i64>)
    requires
        s.no_duplicates(),
        in_graph(g, root, s),
    ensures
        s.len() <= 2 * g.len() + 1,
{
    broadcast use seq_to_set_is_finite;

    let ends = Seq::new(
        (2 * g.len()) as nat,
        |j: int|
            if j % 2 == 0 {
                g[j / 2].0.from_entity_id
            } else {
                g[j / 2].0.to_entity_id
            },
    );
    let u = seq![root] + ends;
    assert forall|x: i64| s.to_set().contains(x) implies u.to_set().contains(x) by {
        let j = choose|j: int| 0 <= j < s.len() && s[j] == x;
        assert(s[j] == x);
        if x == root {
            assert(u[0] == x);
        } else {
            let t = choose|t: int|
                0 <= t < g.len() && (g[t].0.from_entity_id == s[j] || g[t].0.to_entity_id == s[j]);
            if g[t].0.from_entity_id == x {
                assert((2 * t) % 2 == 0 && (2 * t) / 2 == t);
                assert(u[1 + 2 * t] == x);
            } else {
                assert((2 * t + 1) % 2 == 1 && (2 * t + 1) / 2 == t);
                assert(u[2 + 2 * t] == x);
            }
        }
    }
    s.unique_seq_to_set();
    u.lemma_cardinality_of_set();
    vstd::set_lib::lemma_len_subset(s.to_set(), u.to_set());
}

/// Every entity within `j` links of the root is queued, once the queue
/// entries nearer than `k` are all expanded.
proof fn lemma_near_entities_queued(
    g: Seq<(EntityLink, Entity, Entity)>,
    root: i64,
    q: Seq<(i64, usize)>,
    s: Seq<i64>,
    m: usize,
    full: int,
    tco: int,
    tci: int,
    k: nat,
    x: i64,
    j: nat,
)
    requires
        queue_ok(g, root, q, s),
        expanded(g, q, s, m, full, tco, tci),
        forall|i: int| 0 <= i < q.len() && (#[trigger] q[i]).1 < k ==> i < full,
        k <= m,
        j <= k,
        within(g, root, x, j),
    ensures
        s.contains(x),
    decreases j,
{
    if j == 0 {
        assert(q[0].0 == s[0]);
    } else if within(g, root, x, (j - 1) as nat) {
        lemma_near_entities_queued(g, root, q, s, m, full, tco, tci, k, x, (j - 1) as nat);
    } else {
        assert(at_distance(g, root, x, j));
        let t = lemma_predecessor(g, root, x, (j - 1) as nat);
        let out = g[t].0.to_entity_id == x && at_distance(
            g,
            root,
            g[t].0.from_entity_id,
            (j - 1) as nat,
        );
        let z = near_end(g[t].0, out);
        assert(far_end(g[t].0, out) == x);
        assert(at_distance(g, root, z, (j - 1) as nat));
        lemma_near_entities_queued(g, root, q, s, m, full, tco, tci, k, z, (j - 1) as nat);
        let i = choose|i: int| 0 <= i < s.len() && s[i] == z;
        assert(q[i].0 == z);
        lemma_distance_unique(g, root, z, q[i].1 as nat, (j - 1) as nat);
        assert(i < full);
        assert(followed(full, tco, tci, i, t, out));
    }
}

/// The walk's state, for the proofs: the queue `q`, the queued entities
/// `s`, the entries `d`, and how far the expansion has got.
pub open spec fn walk_ok(
    g: Seq<(EntityLink, Entity, Entity)>,
    root: i64,
    m: usize,
    q: Seq<(i64, usize)>,
    s: Seq<i64>,
    d: Seq<LinkedEntityContext>,
    full: int,
    tco: int,
    tci: int,
) -> bool {
    &&& queue_ok(g, root, q, s)
    &&& in_graph(g, root, s)
    &&& entries_ok(d, root, m)
    &&& expanded(g, q, s, m, full, tco, tci)
    &&& grounded(g, root, s, d)
    &&& covered(root, s, d)
    &&& least(g, q, d, full, tco, tci)
}

/// Following link `t` from the entry being expanded (`full`, at depth `k`)
/// keeps the walk's state, with that link now followed.
proof fn lemma_follow_link(
    g: Seq<(EntityLink, Entity, Entity)>,
    root: i64,
    m: usize,
    q: Seq<(i64, usize)>,
    s: Seq<i64>,
    d: Seq<LinkedEntityContext>,
    full: int,
    tco: int,
    tci: int,
    t: int,
    out: bool,
    e: Entity,
)
    requires
        graph_ok(g),
        walk_ok(g, root, m, q, s, d, full, tco, tci),
        0 <= full < q.len(),
        q[full].1 < m,
        forall|i: int| 0 <= i < q.len() ==> (#[trigger] q[i]).1 <= q[full].1 + 1,
        0 <= t < g.len(),
        t == (if out {
            tco
        } else {
            tci
        }),
        near_end(g[t].0, out) == q[full].0,
        e.entity_id == far_end(g[t].0, out),
    ensures
        ({
            let k1 = (q[full].1 + 1) as usize;
            let ns = seq![(g[t].0, e)];
            let q2 = q + visit_queue(s, ns, k1);
            let s2 = visit_seen(s, ns);
            let d2 = visit_found(d, root, ns, k1);
            &&& walk_ok(
                g,
                root,
                m,
                q2,
                s2,
                d2,
                full,
                if out {
                    t + 1
                } else {
                    tco
                },
                if out {
                    tci
                } else {
                    t + 1
                },
            )
            &&& forall|i: int| 0 <= i < q2.len() ==> (#[trigger] q2[i]).1 <= q[full].1 + 1
        }),
{
    let k = q[full].1;
    let k1 = (k + 1) as usize;
    let l = g[t].0;
    let p = q[full].0;
    let y = e.entity_id;
    let ns = seq![(l, e)];
    assert(ns.drop_last() =~= Seq::<(EntityLink, Entity)>::empty());
    assert(ns.last() == (l, e));
    let q2 = q + visit_queue(s, ns, k1);
    let s2 = visit_seen(s, ns);
    let d2 = visit_found(d, root, ns, k1);
    let tco2 = if out { t + 1 } else { tco };
    let tci2 = if out { tci } else { t + 1 };
    let fresh = !s.contains(y);
    assert(visit_seen(s, Seq::<(EntityLink, Entity)>::empty()) == s);
    assert(visit_queue(s, Seq::<(EntityLink, Entity)>::empty(), k1) =~= Seq::<(i64, usize)>::empty());
    assert(visit_found(d, root, Seq::<(EntityLink, Entity)>::empty(), k1) == d);
    assert(s2 == if fresh { s.push(y) } else { s });
    assert(q2 =~= if fresh { q.push((y, k1)) } else { q });
    assert(d2 == record(d, root, l, e, k1));
    // distances
    assert(q[full].0 == s[full]);
    assert(at_distance(g, root, p, k as nat));
    lemma_within_step(g, root, t, y, k as nat);
    assert(q[0].0 == s[0]);
    if fresh {
        if within(g, root, y, k as nat) {
            assert forall|i: int| 0 <= i < q.len() && (#[trigger] q[i]).1 < k implies i < full by {
                if i >= full {
                    assert(q[full].1 <= q[i].1);
                }
            }
            lemma_near_entities_queued(g, root, q, s, m, full, tco, tci, k as nat, y, k as nat);
        }
        assert(at_distance(g, root, y, k1 as nat));
    }
    // the queue
    assert forall|i: int| 0 <= i < q2.len() implies (#[trigger] q2[i]).0 == s2[i] by {
        if i < q.len() {
            assert(q2[i] == q[i]);
            assert(q[i].0 == s[i]);
        }
    }
    assert forall|i: int, j: int| 0 <= i <= j < q2.len() implies q2[i].1 <= q2[j].1 by {
        if j < q.len() {
            assert(q2[i] == q[i] && q2[j] == q[j]);
        } else {
            if i < q.len() {
                assert(q2[i] == q[i]);
            }
        }
    }
    assert forall|i: int| 0 <= i < q2.len() implies at_distance(
        g,
        root,
        (#[trigger] q2[i]).0,
        q2[i].1 as nat,
    ) by {
        if i < q.len() {
            assert(q2[i] == q[i]);
        }
    }
    assert forall|i: int| 0 <= i < q2.len() implies (#[trigger] q2[i]).1 <= q[full].1 + 1 by {
        if i < q.len() {
            assert(q2[i] == q[i]);
        }
    }
    assert(queue_ok(g, root, q2, s2));
    // the queued entities
    assert forall|j: int| 0 <= j < s2.len() implies #[trigger] s2[j] == root || exists|t2: int|
        0 <= t2 < g.len() && (g[t2].0.from_entity_id == s2[j] || g[t2].0.to_entity_id == s2[j]) by {
        if j < s.len() {
            assert(s2[j] == s[j]);
        } else {
            assert(g[t].0.from_entity_id == s2[j] || g[t].0.to_entity_id == s2[j]);
        }
    }
    assert forall|x: i64| s.contains(x) implies s2.contains(x) by {
        let j = choose|j: int| 0 <= j < s.len() && s[j] == x;
        assert(s2[j] == x);
    }
    assert(s2.contains(y)) by {
        if fresh {
            assert(s2[s.len() as int] == y);
        }
    }
    // the entries
    lemma_record_keeps_entries(d, root, l, e, k1, m);
    lemma_text_lt_irreflexive(edge_text(l));
    lemma_find_ctx(d, y, 0);
    let found = find_ctx(d, y, 0);
    if y != root && found is None {
        assert(!s.contains(y)) by {
            if s.contains(y) {
                let j = choose|j: int| 0 <= j < s.len() && s[j] == y;
                assert(s[j] != root);
            }
        }
    }
    if let Some(c) = found {
        assert(d[c].entity.entity_id == y);
        assert(at_distance(g, root, y, d[c].depth as nat));
        if (d[c].depth as int) > k1 {
            lemma_within_mono(g, root, y, k1 as nat, (d[c].depth - 1) as nat);
        }
    }
    assert forall|u: int| 0 <= u < d2.len() implies s2.contains((#[trigger] d2[u]).entity.entity_id)
        && at_distance(g, root, d2[u].entity.entity_id, d2[u].depth as nat) && exists|t2: int|
        0 <= t2 < g.len() && g[t2].0 == d2[u].link && joins_at(
            g,
            root,
            t2,
            d2[u].entity.entity_id,
            (d2[u].depth - 1) as nat,
        ) by {
        if u < d.len() && d2[u] == d[u] {
        } else {
            assert(d2[u].entity.entity_id == y && d2[u].depth == k1 && d2[u].link == l);
            assert(joins_at(g, root, t, y, k as nat));
        }
    }
    assert forall|j: int| 0 <= j < s2.len() && #[trigger] s2[j] != root implies exists|u: int|
        0 <= u < d2.len() && d2[u].entity.entity_id == s2[j] by {
        if j < s.len() {
            assert(s2[j] == s[j]);
            let u = choose|u: int| 0 <= u < d.len() && d[u].entity.entity_id == s[j];
            assert(d2[u].entity.entity_id == s[j]);
        } else {
            assert(s2[j] == y);
            match found {
                Some(c) => {
                    assert(d2[c].entity.entity_id == y);
                },
                None => {
                    assert(d2[d.len() as int].entity.entity_id == y);
                },
            }
        }
    }
    // the links followed
    assert forall|i: int, t2: int, o: bool|
        #![trigger q2[i], near_end(g[t2].0, o)]
        0 <= i < q2.len() && 0 <= t2 < g.len() && q2[i].1 < m && followed(full, tco2, tci2, i, t2, o)
            && near_end(g[t2].0, o) == q2[i].0 implies s2.contains(far_end(g[t2].0, o)) by {
        if followed(full, tco, tci, i, t2, o) {
            assert(q2[i] == q[i]);
            assert(s.contains(far_end(g[t2].0, o)));
        } else {
            assert(t2 == t && o == out);
        }
    }
    assert forall|u: int, i: int, t2: int, o: bool|
        #![trigger d2[u], q2[i], near_end(g[t2].0, o)]
        0 <= u < d2.len() && 0 <= i < q2.len() && 0 <= t2 < g.len() && followed(
            full,
            tco2,
            tci2,
            i,
            t2,
            o,
        ) && near_end(g[t2].0, o) == q2[i].0 && far_end(g[t2].0, o) == d2[u].entity.entity_id
            && q2[i].1 + 1 == d2[u].depth implies !text_lt(
        edge_text(g[t2].0),
        edge_text(d2[u].link),
    ) by {
        assert(i <= full);
        assert(q2[i] == q[i]);
        if followed(full, tco, tci, i, t2, o) {
            if u < d.len() {
                if d2[u] != d[u] {
                    assert(found == Some(u));
                    assert(text_lt(edge_text(l), edge_text(d[u].link)));
                    if text_lt(edge_text(g[t2].0), edge_text(l)) {
                        lemma_text_lt_transitive(edge_text(g[t2].0), edge_text(l), edge_text(d[u].link));
                    }
                }
            } else {
                assert(d2[u].entity.entity_id == y);
                assert(q[i].1 < m);
                assert(s.contains(far_end(g[t2].0, o)));
            }
        } else {
            assert(t2 == t && o == out);
        }
    }
}

proof fn lemma_walk_ok_pass(
    g: Seq<(EntityLink, Entity, Entity)>,
    root: i64,
    m: usize,
    q: Seq<(i64, usize)>,
    s: Seq<i64>,
    d: Seq<LinkedEntityContext>,
    full: int,
    tco: int,
    tci: int,
    t: int,
    out: bool,
)
    requires
        walk_ok(g, root, m, q, s, d, full, tco, tci),
        0 <= full < q.len(),
        0 <= t < g.len(),
        t == (if out {
            tco
        } else {
            tci
        }),
        near_end(g[t].0, out) != q[full].0,
    ensures
        walk_ok(
            g,
            root,
            m,
            q,
            s,
            d,
            full,
            if out {
                t + 1
            } else {
                tco
            },
            if out {
                tci
            } else {
                t + 1
            },
        ),
{
    let tco2 = if out { t + 1 } else { tco };
    let tci2 = if out { tci } else { t + 1 };
    assert forall|i: int, t2: int, o: bool|
        #![trigger q[i], near_end(g[t2].0, o)]
        0 <= i < q.len() && 0 <= t2 < g.len() && q[i].1 < m && followed(full, tco2, tci2, i, t2, o)
            && near_end(g[t2].0, o) == q[i].0 implies s.contains(far_end(g[t2].0, o)) by {
        if !followed(full, tco, tci, i, t2, o) {
            assert(t2 == t && o == out && i == full);
        }
    }
    assert forall|u: int, i: int, t2: int, o: bool|
        #![trigger d[u], q[i], near_end(g[t2].0, o)]
        0 <= u < d.len() && 0 <= i < q.len() && 0 <= t2 < g.len() && followed(
            full,
            tco2,
            tci2,
            i,
            t2,
            o,
        ) && near_end(g[t2].0, o) == q[i].0 && far_end(g[t2].0, o) == d[u].entity.entity_id
            && q[i].1 + 1 == d[u].depth implies !text_lt(edge_text(g[t2].0), edge_text(d[u].link)) by {
        if !followed(full, tco, tci, i, t2, o) {
            assert(t2 == t && o == out && i == full);
        }
    }
}

/// Moving the expansion mark from `full` to `full2`: the entries in between
/// are fully expanded, or too deep to be expanded at all.
proof fn lemma_walk_ok_move(
    g: Seq<(EntityLink, Entity, Entity)>,
    root: i64,
    m: usize,
    q: Seq<(i64, usize)>,
    s: Seq<i64>,
    d: Seq<LinkedEntityContext>,
    full: int,
    tco: int,
    tci: int,
    full2: int,
)
    requires
        walk_ok(g, root, m, q, s, d, full, tco, tci),
        full <= full2 <= q.len(),
        full < full2 ==> (tco == g.len() && tci == g.len()) || (tco == 0 && tci == 0 && q[full].1
            >= m),
        forall|i: int| full < i < full2 ==> (#[trigger] q[i]).1 >= m,
        full == full2 ==> tco == 0 && tci == 0,
    ensures
        walk_ok(g, root, m, q, s, d, full2, 0, 0),
{
    assert forall|i: int, t2: int, o: bool|
        #![trigger q[i], near_end(g[t2].0, o)]
        0 <= i < q.len() && 0 <= t2 < g.len() && q[i].1 < m && followed(full2, 0, 0, i, t2, o)
            && near_end(g[t2].0, o) == q[i].0 implies s.contains(far_end(g[t2].0, o)) by {
        assert(followed(full, tco, tci, i, t2, o));
    }
    assert forall|u: int, i: int, t2: int, o: bool|
        #![trigger d[u], q[i], near_end(g[t2].0, o)]
        0 <= u < d.len() && 0 <= i < q.len() && 0 <= t2 < g.len() && followed(
            full2,
            0,
            0,
            i,
            t2,
            o,
        ) && near_end(g[t2].0, o) == q[i].0 && far_end(g[t2].0, o) == d[u].entity.entity_id
            && q[i].1 + 1 == d[u].depth implies !text_lt(edge_text(g[t2].0), edge_text(d[u].link)) by {
        assert(d[u].depth <= m);
        assert(followed(full, tco, tci, i, t2, o));
    }
}

/// The link context of `root_entity_id` up to `link_depth` links away, in a
/// graph given as its links, each with its two ends. It has one entry for
/// every entity other than the root within `link_depth` links, and no
/// other; each at its distance from the root, over a link that joins it
/// with an entity one step nearer, whose `from->to` is the least among all
/// such links; ordered by depth, then by entity id.
pub fn link_context_in_graph(
    root_entity_id: i64,
    link_depth: usize,
    graph: &Vec<(EntityLink, Entity, Entity)>,
) -> (r: Vec<LinkedEntityContext>)
    requires
        graph_ok(graph@),
    ensures
        sorted_by_depth_then_id(r@),
        entries_ok(r@, root_entity_id, link_depth),
        forall|u: int|
            0 <= u < r@.len() ==> at_distance(
                graph@,
                root_entity_id,
                (#[trigger] r@[u]).entity.entity_id,
                r@[u].depth as nat,
            ) && exists|t: int|
                0 <= t < graph@.len() && graph@[t].0 == r@[u].link && joins_at(
                    graph@,
                    root_entity_id,
                    t,
                    r@[u].entity.entity_id,
                    (r@[u].depth - 1) as nat,
                ),
        forall|x: i64|
            x != root_entity_id && within(graph@, root_entity_id, x, link_depth as nat) ==> exists|
                u: int,
            |
                0 <= u < r@.len() && (#[trigger] r@[u]).entity.entity_id == x,
        forall|u: int, t: int|
            0 <= u < r@.len() && 0 <= t < graph@.len() && joins_at(
                graph@,
                root_entity_id,
                t,
                (#[trigger] r@[u]).entity.entity_id,
                (r@[u].depth - 1) as nat,
            ) ==> !text_lt(edge_text(#[trigger] graph@[t].0), edge_text(r@[u].link)),
{
    let ghost g = graph@;
    let ghost root = root_entity_id;
    let ghost m = link_depth;
    let mut search = LinkContextSearch::new(root_entity_id, link_depth);
    proof {
        let q = search.queue_all();
        let s = search.seen();
        assert(q[0] == (root, 0usize));
        assert(at_distance(g, root, root, 0));
        assert(walk_ok(g, root, m, q, s, search.found(), 0, 0, 0));
    }
    let mut done = false;
    while !done
        invariant
            graph@ == g,
            graph_ok(g),
            search.wf(),
            search.root() == root,
            search.max_depth() == m,
            0 <= search.head_at() <= search.queue_all().len(),
            search.pending() == search.queue_all().skip(search.head_at()),
            walk_ok(g, root, m, search.queue_all(), search.seen(), search.found(), search.head_at(), 0, 0),
            forall|i: int|
                0 <= i < search.queue_all().len() ==> (#[trigger] search.queue_all()[i]).1 <= (if search.head_at() == 0 {
                    0
                } else {
                    search.queue_all()[search.head_at() - 1].1 as int
                }) + 1,
            done ==> search.head_at() == search.queue_all().len(),
        decreases 2 * g.len() + 2 - search.head_at() - (if done {
            1int
        } else {
            0int
        }),
    {
        let ghost q0 = search.queue_all();
        let ghost s0 = search.seen();
        let ghost d0 = search.found();
        let ghost h0 = search.head_at();
        proof {
            lemma_queued_bound(g, root, s0);
        }
        match search.next_entity() {
            None => {
                proof {
                    let h1 = search.head_at();
                    assert(search.pending().len() == 0);
                    assert forall|i: int| h0 <= i < h1 implies (#[trigger] q0[i]).1 >= m by {
                        assert(q0[i] == q0.skip(h0)[i - h0]);
                    }
                    if h0 < h1 {
                        assert(q0.skip(h0)[0] == q0[h0]);
                    }
                    lemma_walk_ok_move(g, root, m, q0, s0, d0, h0, 0, 0, h1);
                    assert forall|i: int| 0 <= i < q0.len() implies (#[trigger] q0[i]).1 <= (if h1 == 0 {
                        0
                    } else {
                        q0[h1 - 1].1 as int
                    }) + 1 by {
                        if h0 > 0 {
                            assert(q0[h0 - 1].1 <= q0[h1 - 1].1);
                        }
                    }
                }
                done = true;
            },
            Some((id, k)) => {
                let ghost full = h0;
                proof {
                    let j = search.head_at() - h0 - 1;
                    let p0 = q0.skip(h0);
                    assert(p0[j] == q0[h0 + j]);
                    if j > 0 {
                        assert(p0[0] == q0[h0]);
                        assert(q0[h0].1 <= q0[h0 + j].1);
                        assert(p0[0].1 >= m);
                    }
                    assert(j == 0);
                    assert(q0[full] == (id, k));
                    assert forall|i: int| 0 <= i < q0.len() implies (#[trigger] q0[i]).1 <= q0[full].1 + 1 by {
                        if h0 > 0 {
                            assert(q0[h0 - 1].1 <= q0[full].1);
                        }
                    }
                }
                let mut t: usize = 0;
                while t < graph.len()
                    invariant
                        graph@ == g,
                        graph_ok(g),
                        search.wf(),
                        search.root() == root,
                        search.max_depth() == m,
                        0 <= full,
                        search.head_at() == full + 1,
                        full + 1 <= search.queue_all().len(),
                        search.pending() == search.queue_all().skip(search.head_at()),
                        search.queue_all()[full] == (id, k),
                        k < m,
                        t <= g.len(),
                        walk_ok(g, root, m, search.queue_all(), search.seen(), search.found(), full, t as int, t as int),
                        forall|i: int|
                            0 <= i < search.queue_all().len() ==> (#[trigger] search.queue_all()[i]).1 <= k + 1,
                    decreases g.len() - t,
                {
                    let link = &graph[t].0;
                    if link.from_entity_id == id {
                        proof {
                            lemma_follow_link(
                                g,
                                root,
                                m,
                                search.queue_all(),
                                search.seen(),
                                search.found(),
                                full,
                                t as int,
                                t as int,
                                t as int,
                                true,
                                g[t as int].2,
                            );
                        }
                        let nb = vec![(clone_link(link), clone_entity(&graph[t].2))];
                        proof {
                            assert(nb@ =~= seq![(g[t as int].0, g[t as int].2)]);
                        }
                        search.visit(k + 1, nb);
                    } else {
                        proof {
                            lemma_walk_ok_pass(
                                g,
                                root,
                                m,
                                search.queue_all(),
                                search.seen(),
                                search.found(),
                                full,
                                t as int,
                                t as int,
                                t as int,
                                true,
                            );
                        }
                    }
                    if link.to_entity_id == id {
                        proof {
                            lemma_follow_link(
                                g,
                                root,
                                m,
                                search.queue_all(),
                                search.seen(),
                                search.found(),
                                full,
                                t + 1,
                                t as int,
                                t as int,
                                false,
                                g[t as int].1,
                            );
                        }
                        let nb = vec![(clone_link(link), clone_entity(&graph[t].1))];
                        proof {
                            assert(nb@ =~= seq![(g[t as int].0, g[t as int].1)]);
                        }
                        search.visit(k + 1, nb);
                    } else {
                        proof {
                            lemma_walk_ok_pass(
                                g,
                                root,
                                m,
                                search.queue_all(),
                                search.seen(),
                                search.found(),
                                full,
                                t + 1,
                                t as int,
                                t as int,
                                false,
                            );
                        }
                    }
                    t += 1;
                }
                proof {
                    lemma_walk_ok_move(
                        g,
                        root,
                        m,
                        search.queue_all(),
                        search.seen(),
                        search.found(),
                        full,
                        g.len() as int,
                        g.len() as int,
                        full + 1,
                    );
                }
            },
        }
    }
    let ghost q = search.queue_all();
    let ghost s = search.seen();
    let ghost d = search.found();
    let r = search.finish();
    proof {
        assert forall|u: int| 0 <= u < r@.len() implies exists|w: int|
            0 <= w < d.len() && d[w] == #[trigger] r@[u] by {
            assert(r@.contains(r@[u]));
            assert(d.to_multiset().count(r@[u]) > 0);
            assert(d.contains(r@[u]));
        }
        assert forall|x: i64|
            x != root && within(g, root, x, m as nat) implies exists|u: int|
            0 <= u < r@.len() && (#[trigger] r@[u]).entity.entity_id == x by {
            assert forall|i: int| 0 <= i < q.len() && (#[trigger] q[i]).1 < m implies i < q.len() by {
            }
            lemma_near_entities_queued(g, root, q, s, m, q.len() as int, 0, 0, m as nat, x, m as nat);
            let j = choose|j: int| 0 <= j < s.len() && s[j] == x;
            assert(s[j] != root);
            let w = choose|w: int| 0 <= w < d.len() && d[w].entity.entity_id == s[j];
            assert(d.contains(d[w]));
            assert(r@.to_multiset().count(d[w]) > 0);
            assert(r@.contains(d[w]));
            let u = choose|u: int| 0 <= u < r@.len() && r@[u] == d[w];
            assert(r@[u].entity.entity_id == x);
        }
        assert forall|u: int, t: int|
            0 <= u < r@.len() && 0 <= t < g.len() && joins_at(
                g,
                root,
                t,
                (#[trigger] r@[u]).entity.entity_id,
                (r@[u].depth - 1) as nat,
            ) implies !text_lt(edge_text(#[trigger] g[t].0), edge_text(r@[u].link)) by {
            let w = choose|w: int| 0 <= w < d.len() && d[w] == r@[u];
            let c = d[w];
            let out = g[t].0.to_entity_id == c.entity.entity_id && at_distance(
                g,
                root,
                g[t].0.from_entity_id,
                (c.depth - 1) as nat,
            );
            let z = near_end(g[t].0, out);
            assert(far_end(g[t].0, out) == c.entity.entity_id);
            assert(at_distance(g, root, z, (c.depth - 1) as nat));
            assert forall|i: int| 0 <= i < q.len() && (#[trigger] q[i]).1 < m implies i < q.len() by {
            }
            lemma_near_entities_queued(
                g,
                root,
                q,
                s,
                m,
                q.len() as int,
                0,
                0,
                m as nat,
                z,
                (c.depth - 1) as nat,
            );
            let i = choose|i: int| 0 <= i < s.len() && s[i] == z;
            assert(q[i].0 == z);
            lemma_distance_unique(g, root, z, q[i].1 as nat, (c.depth - 1) as nat);
            assert(followed(q.len() as int, 0, 0, i, t, out));
            assert(d[w] == c);
        }
    }
    r
}

} // verus!
