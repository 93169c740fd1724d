//! The neighbourhood of an entity in the link graph: a breadth-first walk
//! over links in both directions, up to a depth, keeping for every reached
//! entity the shallowest link that reached it.
//!
//! Reading an entity's links is a query against the store, so the walk is a
//! state machine: `next_entity` names the entity whose links are wanted,
//! `visit` takes them, and `finish` hands out the result.
use vstd::prelude::*;
use vstd::seq_lib::group_to_multiset_ensures;

use crate::entity::{Entity, EntityLink};
use crate::service::entity_service::LinkedEntityContext;
use crate::text::{
    clone_opt_string, clone_string, int_str, lemma_text_lt_irreflexive, lemma_text_lt_total,
    lemma_text_lt_transitive, push_i64, text_lt,
};

verus! {

broadcast use group_to_multiset_ensures;

/// `from->to`, the text by which two links of equal depth are ordered.
pub open spec fn edge_text(l: EntityLink) -> Seq<char> {
    int_str(l.from_entity_id as int) + seq!['-', '>'] + int_str(l.to_entity_id as int)
}

/// Index of the entry for entity `id`, searching from `i`.
pub open spec fn find_ctx(d: Seq<LinkedEntityContext>, id: i64, i: int) -> Option<int>
    decreases d.len() - i,
{
    if i < 0 || i >= d.len() {
        None
    } else if d[i].entity.entity_id == id {
        Some(i)
    } else {
        find_ctx(d, id, i + 1)
    }
}

/// What recording one reached entity does to the discovered entries: the
/// root is never recorded; a new entity is added; a known one takes the
/// new link when it is shallower, or as deep with a smaller `from->to`.
pub open spec fn record(
    d: Seq<LinkedEntityContext>,
    root: i64,
    link: EntityLink,
    related: Entity,
    depth: usize,
) -> Seq<LinkedEntityContext> {
    if related.entity_id == root {
        d
    } else {
        match find_ctx(d, related.entity_id, 0) {
            None => d.push(LinkedEntityContext { link, entity: related, depth }),
            Some(i) => {
                let c = d[i];
                if depth < c.depth {
                    d.update(i, LinkedEntityContext { link, entity: related, depth })
                } else if depth == c.depth && text_lt(edge_text(link), edge_text(c.link)) {
                    d.update(i, LinkedEntityContext { link, entity: related, depth: c.depth })
                } else {
                    d
                }
            },
        }
    }
}

/// Entries for distinct entities, none of them the root, each at a depth
/// from 1 to `max_depth`.
pub open spec fn entries_ok(d: Seq<LinkedEntityContext>, root: i64, max_depth: usize) -> bool {
    &&& forall|i: int, j: int|
        0 <= i < j < d.len() ==> d[i].entity.entity_id != d[j].entity.entity_id
    &&& forall|i: int| 0 <= i < d.len() ==> d[i].entity.entity_id != root
    &&& forall|i: int| 0 <= i < d.len() ==> 1 <= #[trigger] d[i].depth <= max_depth
}

/// Whether `a` comes before `b`: by depth, then by entity id.
pub open spec fn ctx_before(a: LinkedEntityContext, b: LinkedEntityContext) -> bool {
    a.depth < b.depth || (a.depth == b.depth && a.entity.entity_id < b.entity.entity_id)
}

pub open spec fn sorted_by_depth_then_id(d: Seq<LinkedEntityContext>) -> bool {
    forall|i: int, j: int| 0 <= i < j < d.len() ==> ctx_before(d[i], d[j])
}

pub(crate) proof fn lemma_find_ctx(d: Seq<LinkedEntityContext>, id: i64, i: int)
    requires
        0 <= i <= d.len(),
    ensures
        match find_ctx(d, id, i) {
            Some(k) => i <= k < d.len() && d[k].entity.entity_id == id && forall|m: int|
                i <= m < k ==> d[m].entity.entity_id != id,
            None => forall|m: int| i <= m < d.len() ==> d[m].entity.entity_id != id,
        },
    decreases d.len() - i,
{
    if i < d.len() {
        lemma_find_ctx(d, id, i + 1);
    }
}

pub fn clone_entity(e: &Entity) -> (r: Entity)
    ensures
        r == *e,
{
    Entity {
        entity_id: e.entity_id,
        name: clone_string(&e.name),
        entity_ref: clone_opt_string(&e.entity_ref),
        description: clone_opt_string(&e.description),
        created_at: clone_string(&e.created_at),
        updated_at: clone_string(&e.updated_at),
    }
}

pub fn clone_link(l: &EntityLink) -> (r: EntityLink)
    ensures
        r == *l,
{
    EntityLink {
        from_entity_id: l.from_entity_id,
        to_entity_id: l.to_entity_id,
        relation: clone_string(&l.relation),
        created_at: clone_string(&l.created_at),
        updated_at: clone_string(&l.updated_at),
    }
}

fn edge_chars(l: &EntityLink) -> (r: Vec<char>)
    ensures
        r@ == edge_text(*l),
{
    let mut v: Vec<char> = Vec::new();
    push_i64(&mut v, l.from_entity_id);
    v.push('-');
    v.push('>');
    push_i64(&mut v, l.to_entity_id);
    proof {
        assert(v@ =~= edge_text(*l));
    }
    v
}

fn chars_lt(a: &Vec<char>, b: &Vec<char>) -> (r: bool)
    ensures
        r == text_lt(a@, b@),
{
    let mut i: usize = 0;
    proof {
        assert(a@.skip(0) =~= a@);
        assert(b@.skip(0) =~= b@);
    }
    while i < a.len() && i < b.len() && a[i] == b[i]
        invariant
            i <= a@.len(),
            i <= b@.len(),
            text_lt(a@, b@) == text_lt(a@.skip(i as int), b@.skip(i as int)),
        decreases a.len() - i,
    {
        proof {
            assert(a@.skip(i as int).drop_first() =~= a@.skip(i + 1));
            assert(b@.skip(i as int).drop_first() =~= b@.skip(i + 1));
        }
        i += 1;
    }
    if i == b.len() {
        false
    } else if i == a.len() {
        true
    } else {
        a[i] < b[i]
    }
}

fn find_ctx_exec(d: &Vec<LinkedEntityContext>, id: i64) -> (r: Option<usize>)
    ensures
        match r {
            Some(k) => find_ctx(d@, id, 0) == Some(k as int) && k < d@.len(),
            None => find_ctx(d@, id, 0) is None,
        },
{
    proof {
        lemma_find_ctx(d@, id, 0);
    }
    let mut i: usize = 0;
    while i < d.len()
        invariant
            i <= d@.len(),
            find_ctx(d@, id, 0) == find_ctx(d@, id, i as int),
        decreases d.len() - i,
    {
        if d[i].entity.entity_id == id {
            return Some(i);
        }
        i += 1;
    }
    None
}

/// Records that `related` was reached over `link` at `depth`.
pub fn record_link_context(
    discovered: &mut Vec<LinkedEntityContext>,
    root_entity_id: i64,
    link: EntityLink,
    related: Entity,
    depth: usize,
)
    ensures
        final(discovered)@ == record(old(discovered)@, root_entity_id, link, related, depth),
{
    if related.entity_id == root_entity_id {
        return;
    }
    match find_ctx_exec(discovered, related.entity_id) {
        None => {
            discovered.push(LinkedEntityContext { link, entity: related, depth });
        },
        Some(i) => {
            let current_depth = discovered[i].depth;
            if depth < current_depth {
                discovered.set(i, LinkedEntityContext { link, entity: related, depth });
            } else if depth == current_depth {
                let candidate = edge_chars(&link);
                let current = edge_chars(&discovered[i].link);
                if chars_lt(&candidate, &current) {
                    discovered.set(
                        i,
                        LinkedEntityContext { link, entity: related, depth: current_depth },
                    );
                }
            }
        },
    }
}

pub(crate) proof fn lemma_record_keeps_entries(
    d: Seq<LinkedEntityContext>,
    root: i64,
    link: EntityLink,
    related: Entity,
    depth: usize,
    max_depth: usize,
)
    requires
        entries_ok(d, root, max_depth),
        1 <= depth <= max_depth,
    ensures
        entries_ok(record(d, root, link, related, depth), root, max_depth),
{
    lemma_find_ctx(d, related.entity_id, 0);
    let r = record(d, root, link, related, depth);
    if related.entity_id != root {
        match find_ctx(d, related.entity_id, 0) {
            None => {
                assert forall|i: int, j: int| 0 <= i < j < r.len() implies r[i].entity.entity_id
                    != r[j].entity.entity_id by {
                    if j == d.len() {
                        assert(r[i] == d[i]);
                    }
                }
                assert forall|i: int| 0 <= i < r.len() implies 1 <= #[trigger] r[i].depth
                    <= max_depth by {
                    if i < d.len() {
                        assert(r[i] == d[i]);
                    }
                }
            },
            Some(k) => {
                assert forall|i: int, j: int| 0 <= i < j < r.len() implies r[i].entity.entity_id
                    != r[j].entity.entity_id by {
                    assert(r[i].entity.entity_id == d[i].entity.entity_id);
                    assert(r[j].entity.entity_id == d[j].entity.entity_id);
                }
                assert forall|i: int| 0 <= i < r.len() implies 1 <= #[trigger] r[i].depth
                    <= max_depth by {
                    if i != k {
                        assert(r[i] == d[i]);
                    } else {
                        assert(d[k].depth >= 1);
                    }
                }
            },
        }
    }
}

/// The walk's state: the entries found so far, the entities already put on
/// the queue, and the queue of `(entity, depth)` pairs with the index of
/// its head.
pub struct LinkContextSearch {
    root_entity_id: i64,
    link_depth: usize,
    discovered: Vec<LinkedEntityContext>,
    queued: Vec<i64>,
    queue: Vec<(i64, usize)>,
    head: usize,
}

impl LinkContextSearch {
    pub closed spec fn wf(&self) -> bool {
        &&& self.head <= self.queue@.len()
        &&& forall|i: int| 0 <= i < self.queue@.len() ==> #[trigger] self.queue@[i].1 <= self.link_depth
        &&& entries_ok(self.discovered@, self.root_entity_id, self.link_depth)
    }

    pub closed spec fn root(&self) -> i64 {
        self.root_entity_id
    }

    pub closed spec fn max_depth(&self) -> usize {
        self.link_depth
    }

    /// The entries found so far.
    pub closed spec fn found(&self) -> Seq<LinkedEntityContext> {
        self.discovered@
    }

    /// The queue entries not yet handed out.
    pub closed spec fn pending(&self) -> Seq<(i64, usize)> {
        self.queue@.skip(self.head as int)
    }

    /// The entities ever queued, the root first.
    pub closed spec fn seen(&self) -> Seq<i64> {
        self.queued@
    }

    /// Every queue entry, those handed out included, in order.
    pub closed spec fn queue_all(&self) -> Seq<(i64, usize)> {
        self.queue@
    }

    /// How many queue entries were handed out or passed over.
    pub closed spec fn head_at(&self) -> int {
        self.head as int
    }

    /// A walk from `root_entity_id` that follows links up to `link_depth`
    /// steps; only the root is queued.
    pub fn new(root_entity_id: i64, link_depth: usize) -> (s: Self)
        ensures
            s.wf(),
            s.root() == root_entity_id,
            s.max_depth() == link_depth,
            s.found().len() == 0,
            s.pending() == seq![(root_entity_id, 0usize)],
            s.seen() == seq![root_entity_id],
            s.queue_all() == seq![(root_entity_id, 0usize)],
            s.head_at() == 0,
    {
        let s = LinkContextSearch {
            root_entity_id,
            link_depth,
            discovered: Vec::new(),
            queued: vec![root_entity_id],
            queue: vec![(root_entity_id, 0usize)],
            head: 0,
        };
        proof {
            assert(s.queue@.skip(0) =~= seq![(root_entity_id, 0usize)]);
        }
        s
    }

    /// The next queued entity whose links are to be followed: queue entries
    /// already at the full depth are passed over. `None` when the queue is
    /// exhausted.
    pub fn next_entity(&mut self) -> (r: Option<(i64, usize)>)
        requires
            old(self).wf(),
        ensures
            final(self).wf(),
            final(self).root() == old(self).root(),
            final(self).max_depth() == old(self).max_depth(),
            final(self).found() == old(self).found(),
            final(self).seen() == old(self).seen(),
            final(self).queue_all() == old(self).queue_all(),
            old(self).head_at() <= final(self).head_at() <= final(self).queue_all().len(),
            final(self).pending() == final(self).queue_all().skip(final(self).head_at()),
            old(self).pending() == old(self).queue_all().skip(old(self).head_at()),
            match r {
                Some((id, depth)) => exists|k: int|
                    0 <= k < old(self).pending().len()
                        && old(self).pending()[k] == (id, depth)
                        && depth < old(self).max_depth()
                        && (forall|m: int| 0 <= m < k ==> #[trigger] old(self).pending()[m].1 >= old(self).max_depth())
                        && final(self).pending() == old(self).pending().skip(k + 1)
                        && final(self).head_at() == old(self).head_at() + k + 1,
                None => (forall|m: int|
                    0 <= m < old(self).pending().len() ==> #[trigger] old(self).pending()[m].1
                        >= old(self).max_depth()) && final(self).pending().len() == 0,
            },
    {
        let ghost start = self.head as int;
        let ghost p0 = self.queue@.skip(start);
        while self.head < self.queue.len()
            invariant
                self.wf(),
                start <= self.head <= self.queue@.len(),
                p0 == self.queue@.skip(start),
                self.root_entity_id == old(self).root_entity_id,
                self.link_depth == old(self).link_depth,
                self.discovered@ == old(self).discovered@,
                self.queued@ == old(self).queued@,
                self.queue@ == old(self).queue@,
                start == old(self).head,
                forall|m: int| start <= m < self.head ==> #[trigger] self.queue@[m].1 >= self.link_depth,
            decreases self.queue.len() - self.head,
        {
            let (id, depth) = self.queue[self.head];
            self.head += 1;
            if depth < self.link_depth {
                proof {
                    let k = self.head - 1 - start;
                    assert(p0[k] == (id, depth));
                    assert(self.queue@.skip(self.head as int) =~= p0.skip(k + 1));
                    assert forall|m: int| 0 <= m < k implies #[trigger] p0[m].1 >= self.link_depth by {
                        assert(p0[m] == self.queue@[start + m]);
                    }
                    assert(old(self).pending() == p0);
                    assert(0 <= k < p0.len() && old(self).pending()[k] == (id, depth) && depth < self.link_depth
                        && (forall|m: int| 0 <= m < k ==> #[trigger] p0[m].1 >= self.link_depth)
                        && self.queue@.skip(self.head as int) == p0.skip(k + 1));
                }
                return Some((id, depth));
            }
        }
        proof {
            assert forall|m: int| 0 <= m < p0.len() implies #[trigger] p0[m].1 >= self.link_depth by {
                assert(p0[m] == self.queue@[start + m]);
            }
        }
        None
    }

    /// Takes the links of an entity handed out at depth `depth - 1`: each
    /// reached entity is recorded, and queued at `depth` unless it was
    /// queued before.
    pub fn visit(&mut self, depth: usize, neighbors: Vec<(EntityLink, Entity)>)
        requires
            old(self).wf(),
            1 <= depth <= old(self).max_depth(),
        ensures
            final(self).wf(),
            final(self).root() == old(self).root(),
            final(self).max_depth() == old(self).max_depth(),
            final(self).found() == visit_found(old(self).found(), old(self).root(), neighbors@, depth),
            final(self).seen() == visit_seen(old(self).seen(), neighbors@),
            final(self).pending() == old(self).pending() + visit_queue(old(self).seen(), neighbors@, depth),
            final(self).queue_all() == old(self).queue_all() + visit_queue(old(self).seen(), neighbors@, depth),
            final(self).head_at() == old(self).head_at(),
            improves_on(final(self).found(), old(self).found()),
            forall|j: int|
                0 <= j < neighbors@.len() && (#[trigger] neighbors@[j]).1.entity_id != old(self).root()
                    ==> has_entry_beating(
                    final(self).found(),
                    neighbors@[j].1.entity_id,
                    neighbors@[j].0,
                    depth,
                ),
    {
        let ghost d0 = self.discovered@;
        let ghost s0 = self.queued@;
        let ghost p0 = self.queue@.skip(self.head as int);
        let ghost q0 = self.queue@;
        let ghost ns = neighbors@;
        let n = neighbors.len();
        let mut rest = neighbors;
        let mut i: usize = 0;
        proof {
            assert(rest@ =~= ns.skip(0));
            assert(ns.take(0) =~= Seq::<(EntityLink, Entity)>::empty());
            assert(p0 + Seq::<(i64, usize)>::empty() =~= p0);
            assert(q0 + Seq::<(i64, usize)>::empty() =~= q0);
        }
        while rest.len() > 0
            invariant
                self.wf(),
                1 <= depth <= self.link_depth,
                self.root_entity_id == old(self).root_entity_id,
                self.link_depth == old(self).link_depth,
                self.head == old(self).head,
                i <= ns.len(),
                ns.len() <= usize::MAX,
                rest@ == ns.skip(i as int),
                self.discovered@ == visit_found(d0, self.root_entity_id, ns.take(i as int), depth),
                self.queued@ == visit_seen(s0, ns.take(i as int)),
                self.queue@.skip(self.head as int) == p0 + visit_queue(s0, ns.take(i as int), depth),
                self.queue@ == q0 + visit_queue(s0, ns.take(i as int), depth),
            decreases rest.len(),
        {
            let (link, entity) = rest.remove(0);
            proof {
                assert(ns.take(i + 1).drop_last() =~= ns.take(i as int));
                assert(ns.take(i + 1).last() == (link, entity));
                assert(rest@ =~= ns.skip(i + 1));
                lemma_record_keeps_entries(
                    self.discovered@,
                    self.root_entity_id,
                    link,
                    entity,
                    depth,
                    self.link_depth,
                );
            }
            let id = entity.entity_id;
            record_link_context(&mut self.discovered, self.root_entity_id, link, entity, depth);
            let ghost q_before = self.queue@;
            if !contains_id(&self.queued, id) {
                self.queued.push(id);
                self.queue.push((id, depth));
                proof {
                    assert(self.queue@.skip(self.head as int) =~= q_before.skip(self.head as int).push((id, depth)));
                }
            }
            i += 1;
        }
        proof {
            assert(ns.take(ns.len() as int) =~= ns);
            lemma_visit_reaches_every_neighbour(d0, self.root_entity_id, ns, depth);
        }
    }

    /// The entries found, ordered by depth and then by entity id.
    pub fn finish(self) -> (r: Vec<LinkedEntityContext>)
        requires
            self.wf(),
        ensures
            r@.to_multiset() == self.found().to_multiset(),
            sorted_by_depth_then_id(r@),
            entries_ok(r@, self.root(), self.max_depth()),
    {
        let ghost d0 = self.discovered@;
        let ghost root = self.root_entity_id;
        let ghost maxd = self.link_depth;
        let mut rest = self.discovered;
        let mut out: Vec<LinkedEntityContext> = Vec::new();
        proof {
            assert(out@.to_multiset().add(rest@.to_multiset()) =~= d0.to_multiset());
            assert(out@ + rest@ =~= d0);
        }
        while rest.len() > 0
            invariant
                entries_ok(d0, root, maxd),
                out@.to_multiset().add(rest@.to_multiset()) == d0.to_multiset(),
                sorted_by_depth_then_id(out@),
                forall|a: int, b: int|
                    0 <= a < out@.len() && 0 <= b < rest@.len() ==> ctx_before(out@[a], rest@[b]),
                entries_ok(out@ + rest@, root, maxd),
            decreases rest.len(),
        {
            let mut best: usize = 0;
            let mut j: usize = 1;
            while j < rest.len()
                invariant
                    best < j <= rest@.len(),
                    entries_ok(out@ + rest@, root, maxd),
                    forall|m: int| 0 <= m < j ==> m == best || ctx_before(rest@[best as int], #[trigger] rest@[m]),
                decreases rest.len() - j,
            {
                let bd = rest[best].depth;
                let bi = rest[best].entity.entity_id;
                let jd = rest[j].depth;
                let ji = rest[j].entity.entity_id;
                if jd < bd || (jd == bd && ji < bi) {
                    proof {
                        let c = out@ + rest@;
                        assert(c[out@.len() + best] == rest@[best as int]);
                        assert(c[out@.len() + j] == rest@[j as int]);
                        assert forall|m: int| 0 <= m < j + 1 implies m == j || ctx_before(rest@[j as int], #[trigger] rest@[m]) by {
                            if m != best && m < j {
                                assert(ctx_before(rest@[best as int], rest@[m]));
                            }
                            if m == best {
                                assert(ctx_before(rest@[j as int], rest@[best as int]));
                            }
                        }
                    }
                    best = j;
                } else {
                    proof {
                        let c = out@ + rest@;
                        assert(c[out@.len() + best] == rest@[best as int]);
                        assert(c[out@.len() + j] == rest@[j as int]);
                        assert(rest@[best as int].entity.entity_id != rest@[j as int].entity.entity_id);
                    }
                }
                j += 1;
            }
            let ghost before_out = out@;
            let ghost before_rest = rest@;
            let x = rest.remove(best);
            out.push(x);
            proof {
                assert(out@ == before_out.push(x));
                assert(rest@ == before_rest.remove(best as int));
                assert(out@.to_multiset() == before_out.to_multiset().insert(x));
                assert(rest@.to_multiset() == before_rest.to_multiset().remove(x));
                assert(before_rest.to_multiset().count(x) > 0);
                assert(out@.to_multiset().add(rest@.to_multiset()) =~= d0.to_multiset());
                assert forall|a: int, b: int| 0 <= a < out@.len() && 0 <= b < rest@.len() implies ctx_before(
                    out@[a],
                    rest@[b],
                ) by {
                    let bb = if b < best { b } else { b + 1 };
                    assert(rest@[b] == before_rest[bb]);
                    if a < before_out.len() {
                        assert(ctx_before(before_out[a], before_rest[bb]));
                    } else {
                        assert(bb != best);
                        assert(ctx_before(x, before_rest[bb]));
                    }
                }
                assert forall|a: int, b: int| 0 <= a < b < out@.len() implies ctx_before(out@[a], out@[b]) by {
                    if b < before_out.len() {
                    } else {
                        assert(ctx_before(before_out[a], before_rest[best as int]));
                    }
                }
                lemma_entries_after_move(before_out, before_rest, best as int, root, maxd);
            }
        }
        proof {
            assert(rest@ =~= Seq::<LinkedEntityContext>::empty());
            assert(rest@.to_multiset() =~= vstd::multiset::Multiset::empty());
            assert(out@.to_multiset().add(rest@.to_multiset()) =~= out@.to_multiset());
            assert(out@ + rest@ =~= out@);
        }
        out
    }
}

proof fn lemma_entries_after_move(
    o: Seq<LinkedEntityContext>,
    r: Seq<LinkedEntityContext>,
    b: int,
    root: i64,
    maxd: usize,
)
    requires
        0 <= b < r.len(),
        entries_ok(o + r, root, maxd),
    ensures
        entries_ok(o.push(r[b]) + r.remove(b), root, maxd),
{
    let c0 = o + r;
    let c1 = o.push(r[b]) + r.remove(b);
    let f = |i: int|
        if i < o.len() {
            i
        } else if i == o.len() {
            o.len() + b
        } else if i - o.len() - 1 < b {
            i - 1
        } else {
            i
        };
    assert forall|i: int| 0 <= i < c1.len() implies c1[i] == c0[f(i)] && 0 <= f(i) < c0.len() by {
        if i < o.len() {
        } else if i == o.len() {
        } else {
            let k = i - o.len() - 1;
            if k < b {
                assert(r.remove(b)[k] == r[k]);
            } else {
                assert(r.remove(b)[k] == r[k + 1]);
            }
        }
    }
    assert forall|i: int, j: int| 0 <= i < j < c1.len() implies c1[i].entity.entity_id
        != c1[j].entity.entity_id by {
        assert(c1[i] == c0[f(i)]);
        assert(c1[j] == c0[f(j)]);
        assert(f(i) != f(j));
        if f(i) < f(j) {
        } else {
        }
    }
    assert forall|i: int| 0 <= i < c1.len() implies c1[i].entity.entity_id != root by {
        assert(c1[i] == c0[f(i)]);
    }
    assert forall|i: int| 0 <= i < c1.len() implies 1 <= #[trigger] c1[i].depth <= maxd by {
        assert(c1[i] == c0[f(i)]);
        assert(1 <= c0[f(i)].depth <= maxd);
    }
}

fn contains_id(v: &Vec<i64>, id: i64) -> (r: bool)
    ensures
        r == v@.contains(id),
{
    let mut i: usize = 0;
    while i < v.len()
        invariant
            i <= v@.len(),
            forall|m: int| 0 <= m < i ==> v@[m] != id,
        decreases v.len() - i,
    {
        if v[i] == id {
            return true;
        }
        i += 1;
    }
    false
}

/// The entries after recording each neighbour in turn.
pub open spec fn visit_found(
    d: Seq<LinkedEntityContext>,
    root: i64,
    ns: Seq<(EntityLink, Entity)>,
    depth: usize,
) -> Seq<LinkedEntityContext>
    decreases ns.len(),
{
    if ns.len() == 0 {
        d
    } else {
        let last = ns.last();
        record(visit_found(d, root, ns.drop_last(), depth), root, last.0, last.1, depth)
    }
}

/// The entities queued after the neighbours are seen, in order.
pub open spec fn visit_seen(s: Seq<i64>, ns: Seq<(EntityLink, Entity)>) -> Seq<i64>
    decreases ns.len(),
{
    if ns.len() == 0 {
        s
    } else {
        let prev = visit_seen(s, ns.drop_last());
        let id = ns.last().1.entity_id;
        if prev.contains(id) {
            prev
        } else {
            prev.push(id)
        }
    }
}

/// The queue entries the neighbours add: each entity not queued before, at
/// `depth`.
pub open spec fn visit_queue(s: Seq<i64>, ns: Seq<(EntityLink, Entity)>, depth: usize) -> Seq<(i64, usize)>
    decreases ns.len(),
{
    if ns.len() == 0 {
        seq![]
    } else {
        let prev = visit_seen(s, ns.drop_last());
        let id = ns.last().1.entity_id;
        if prev.contains(id) {
            visit_queue(s, ns.drop_last(), depth)
        } else {
            visit_queue(s, ns.drop_last(), depth).push((id, depth))
        }
    }
}

proof fn lemma_find_ctx_update(d: Seq<LinkedEntityContext>, id: i64, i: int, x: LinkedEntityContext)
    requires
        find_ctx(d, id, 0) == Some(i),
        x.entity.entity_id == id,
    ensures
        find_ctx(d.update(i, x), id, 0) == Some(i),
{
    lemma_find_ctx(d, id, 0);
    lemma_find_ctx(d.update(i, x), id, 0);
    let u = d.update(i, x);
    match find_ctx(u, id, 0) {
        Some(k) => {
            if k < i {
                assert(u[k] == d[k]);
            }
            if k > i {
                assert(u[i].entity.entity_id == id);
            }
        },
        None => {
            assert(u[i].entity.entity_id == id);
        },
    }
}

proof fn lemma_find_ctx_push(d: Seq<LinkedEntityContext>, id: i64, x: LinkedEntityContext)
    requires
        find_ctx(d, id, 0) is None,
        x.entity.entity_id == id,
    ensures
        find_ctx(d.push(x), id, 0) == Some(d.len() as int),
{
    lemma_find_ctx(d, id, 0);
    let u = d.push(x);
    lemma_find_ctx(u, id, 0);
    match find_ctx(u, id, 0) {
        Some(k) => {
            if k < d.len() {
                assert(u[k] == d[k]);
            }
        },
        None => {
            assert(u[d.len() as int].entity.entity_id == id);
        },
    }
}

/// Reaching an entity over the same link at the same depth a second time
/// changes nothing: the walk may meet a link from both of its ends.
pub proof fn lemma_record_idempotent(
    d: Seq<LinkedEntityContext>,
    root: i64,
    link: EntityLink,
    related: Entity,
    depth: usize,
)
    ensures
        record(record(d, root, link, related, depth), root, link, related, depth) == record(
            d,
            root,
            link,
            related,
            depth,
        ),
{
    lemma_text_lt_irreflexive(edge_text(link));
    if related.entity_id != root {
        lemma_find_ctx(d, related.entity_id, 0);
        let d1 = record(d, root, link, related, depth);
        match find_ctx(d, related.entity_id, 0) {
            None => {
                lemma_find_ctx_push(
                    d,
                    related.entity_id,
                    LinkedEntityContext { link, entity: related, depth },
                );
                assert(d1[d.len() as int] == LinkedEntityContext { link, entity: related, depth });
            },
            Some(i) => {
                let c = d[i];
                if depth < c.depth {
                    let x = LinkedEntityContext { link, entity: related, depth };
                    lemma_find_ctx_update(d, related.entity_id, i, x);
                    assert(d1[i] == x);
                } else if depth == c.depth && text_lt(edge_text(link), edge_text(c.link)) {
                    let x = LinkedEntityContext { link, entity: related, depth: c.depth };
                    lemma_find_ctx_update(d, related.entity_id, i, x);
                    assert(d1[i] == x);
                } else {
                }
            },
        }
    }
}

/// Entry `c` is at least as good as reaching its entity over `l` at
/// `depth`: shallower, or as deep over a link whose `from->to` is not
/// greater.
pub open spec fn entry_beats(c: LinkedEntityContext, l: EntityLink, depth: usize) -> bool {
    c.depth < depth || (c.depth == depth && !text_lt(edge_text(l), edge_text(c.link)))
}

/// Some entry of `d` is for entity `id` and at least as good as reaching it
/// over `l` at `depth`.
pub open spec fn has_entry_beating(
    d: Seq<LinkedEntityContext>,
    id: i64,
    l: EntityLink,
    depth: usize,
) -> bool {
    exists|i: int|
        0 <= i < d.len() && #[trigger] d[i].entity.entity_id == id && entry_beats(d[i], l, depth)
}

/// `r` keeps every entry of `d` in place, for the same entity, and never
/// worse than it was.
pub open spec fn improves_on(r: Seq<LinkedEntityContext>, d: Seq<LinkedEntityContext>) -> bool {
    &&& d.len() <= r.len()
    &&& forall|i: int|
        0 <= i < d.len() ==> #[trigger] r[i].entity.entity_id == d[i].entity.entity_id
            && entry_beats(r[i], d[i].link, d[i].depth)
}

proof fn lemma_entry_beats_refl(c: LinkedEntityContext)
    ensures
        entry_beats(c, c.link, c.depth),
{
    lemma_text_lt_irreflexive(edge_text(c.link));
}

proof fn lemma_entry_beats_trans(
    a: LinkedEntityContext,
    b: LinkedEntityContext,
    l: EntityLink,
    depth: usize,
)
    requires
        entry_beats(a, b.link, b.depth),
        entry_beats(b, l, depth),
    ensures
        entry_beats(a, l, depth),
{
    if a.depth == depth {
        let at = edge_text(a.link);
        let bt = edge_text(b.link);
        let lt = edge_text(l);
        lemma_text_lt_total(at, bt);
        if text_lt(lt, at) {
            if text_lt(at, bt) {
                lemma_text_lt_transitive(lt, at, bt);
            }
        }
    }
}

proof fn lemma_improves_trans(
    r: Seq<LinkedEntityContext>,
    m: Seq<LinkedEntityContext>,
    d: Seq<LinkedEntityContext>,
)
    requires
        improves_on(r, m),
        improves_on(m, d),
    ensures
        improves_on(r, d),
{
    assert forall|i: int| 0 <= i < d.len() implies #[trigger] r[i].entity.entity_id
        == d[i].entity.entity_id && entry_beats(r[i], d[i].link, d[i].depth) by {
        assert(r[i].entity.entity_id == m[i].entity.entity_id);
        assert(m[i].entity.entity_id == d[i].entity.entity_id);
        lemma_entry_beats_trans(r[i], m[i], d[i].link, d[i].depth);
    }
}

/// Recording a reached entity loses no entry and makes none worse, and
/// afterwards the entity (unless it is the root) has an entry at least as
/// good as the link that reached it.
pub proof fn lemma_record_improves(
    d: Seq<LinkedEntityContext>,
    root: i64,
    link: EntityLink,
    related: Entity,
    depth: usize,
)
    ensures
        improves_on(record(d, root, link, related, depth), d),
        related.entity_id != root ==> has_entry_beating(
            record(d, root, link, related, depth),
            related.entity_id,
            link,
            depth,
        ),
{
    let r = record(d, root, link, related, depth);
    lemma_text_lt_irreflexive(edge_text(link));
    assert forall|i: int| 0 <= i < d.len() implies #[trigger] r[i].entity.entity_id
        == d[i].entity.entity_id && entry_beats(r[i], d[i].link, d[i].depth) by {
        lemma_entry_beats_refl(d[i]);
        if related.entity_id != root {
            lemma_find_ctx(d, related.entity_id, 0);
            if let Some(k) = find_ctx(d, related.entity_id, 0) {
                if i == k && depth == d[k].depth && text_lt(edge_text(link), edge_text(d[k].link)) {
                    if text_lt(edge_text(d[k].link), edge_text(link)) {
                        lemma_text_lt_transitive(edge_text(link), edge_text(d[k].link), edge_text(link));
                    }
                }
            }
        }
    }
    if related.entity_id != root {
        lemma_find_ctx(d, related.entity_id, 0);
        match find_ctx(d, related.entity_id, 0) {
            None => {
                assert(r[d.len() as int].entity.entity_id == related.entity_id);
                assert(entry_beats(r[d.len() as int], link, depth));
            },
            Some(k) => {
                assert(r[k].entity.entity_id == related.entity_id);
                assert(entry_beats(r[k], link, depth));
            },
        }
    }
}

/// What a visit does to the entries: none is lost or made worse, and every
/// neighbour other than the root ends with an entry at most `depth` deep,
/// and, when exactly `depth` deep, over a link whose `from->to` is not
/// greater than that of any link that reached it in the visit.
pub proof fn lemma_visit_reaches_every_neighbour(
    d: Seq<LinkedEntityContext>,
    root: i64,
    ns: Seq<(EntityLink, Entity)>,
    depth: usize,
)
    ensures
        improves_on(visit_found(d, root, ns, depth), d),
        forall|j: int|
            0 <= j < ns.len() && (#[trigger] ns[j]).1.entity_id != root ==> has_entry_beating(
                visit_found(d, root, ns, depth),
                ns[j].1.entity_id,
                ns[j].0,
                depth,
            ),
    decreases ns.len(),
{
    let r = visit_found(d, root, ns, depth);
    if ns.len() == 0 {
        assert(r == d);
        assert forall|i: int| 0 <= i < d.len() implies entry_beats(
            #[trigger] d[i],
            d[i].link,
            d[i].depth,
        ) by {
            lemma_entry_beats_refl(d[i]);
        }
        assert(improves_on(d, d));
        assert(improves_on(r, d));
    } else {
        let init = ns.drop_last();
        let last = ns.last();
        let m = visit_found(d, root, init, depth);
        lemma_visit_reaches_every_neighbour(d, root, init, depth);
        lemma_record_improves(m, root, last.0, last.1, depth);
        assert(r == record(m, root, last.0, last.1, depth));
        lemma_improves_trans(r, m, d);
        assert(improves_on(r, d));
        assert forall|j: int|
            0 <= j < ns.len() && (#[trigger] ns[j]).1.entity_id != root implies has_entry_beating(
                r,
                ns[j].1.entity_id,
                ns[j].0,
                depth,
            ) by {
            if j < ns.len() - 1 {
                assert(init[j] == ns[j]);
                let i = choose|i: int|
                    0 <= i < m.len() && #[trigger] m[i].entity.entity_id == ns[j].1.entity_id
                        && entry_beats(m[i], ns[j].0, depth);
                assert(r[i].entity.entity_id == m[i].entity.entity_id);
                lemma_entry_beats_trans(r[i], m[i], ns[j].0, depth);
            }
        }
    }
}

} // verus!
