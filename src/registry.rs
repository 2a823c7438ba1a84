//! The registry of open ports: one worker per identifier, kept in identifier
//! order, and the batching of what the ports received into events.

use crate::buffer::bytes_contents;
use crate::inbound::chunk_contents;
use crate::port_id::{
    compare_ids, id_lt, lemma_id_lt_irreflexive, lemma_id_lt_total, lemma_id_lt_transitive,
    sorted_ids,
};
use bytes::Bytes;
use std::cmp::Ordering;
use vstd::prelude::*;

verus! {

/// One chunk received on a port, as handed to the foreground.
pub struct SerialData {
    /// The identifier of the port the chunk came from.
    pub port: String,
    /// The bytes received.
    pub data: Bytes,
}

/// An event as a port identifier and the bytes it carries.
pub open spec fn event_view(e: SerialData) -> (Seq<char>, Seq<u8>) {
    (e.port@, bytes_contents(e.data))
}

/// The events of a batch, in order.
pub open spec fn events_view(es: Seq<SerialData>) -> Seq<(Seq<char>, Seq<u8>)> {
    es.map_values(|e: SerialData| event_view(e))
}

/// The events that ports `ids` give when port `ids[i]` has handed out the
/// chunks `drained[i]`: port by port in the order of `ids`, and each port's
/// chunks in their own order.
pub open spec fn events_of(ids: Seq<Seq<char>>, drained: Seq<Seq<Seq<u8>>>) -> Seq<
    (Seq<char>, Seq<u8>),
>
    decreases ids.len(),
{
    if ids.len() == 0 || drained.len() == 0 {
        Seq::empty()
    } else {
        events_of(ids.drop_last(), drained.drop_last()) + drained.last().map_values(
            |c: Seq<u8>| (ids.last(), c),
        )
    }
}

/// The open ports, each with its worker, in identifier order.
pub struct PortRegistry<W> {
    ports: Vec<(String, W)>,
}

impl<W> PortRegistry<W> {
    /// The identifiers of the open ports, in order.
    pub closed spec fn ids(&self) -> Seq<Seq<char>> {
        self.ports@.map_values(|e: (String, W)| e.0@)
    }

    /// The workers of the open ports, in the order of `ids`.
    pub closed spec fn workers(&self) -> Seq<W> {
        self.ports@.map_values(|e: (String, W)| e.1)
    }

    /// Identifiers sorted and unique, one worker for each.
    pub open spec fn wf(&self) -> bool {
        &&& sorted_ids(self.ids())
        &&& self.workers().len() == self.ids().len()
    }

    /// A registry with no port open.
    pub fn new() -> (r: PortRegistry<W>)
        ensures
            r.wf(),
            r.ids() == Seq::<Seq<char>>::empty(),
    {
        let r = PortRegistry { ports: Vec::new() };
        assert(r.ids() =~= Seq::<Seq<char>>::empty());
        r
    }

    /// The number of open ports.
    pub fn len(&self) -> (r: usize)
        ensures
            r == self.ids().len(),
    {
        self.ports.len()
    }

    /// The identifier of the `i`-th port in order.
    pub fn id_at(&self, i: usize) -> (r: &String)
        requires
            i < self.ids().len(),
        ensures
            r@ == self.ids()[i as int],
    {
        &self.ports[i].0
    }

    /// The worker of the `i`-th port in order.
    pub fn worker_at(&self, i: usize) -> (r: &W)
        requires
            i < self.ids().len(),
            self.wf(),
        ensures
            *r == self.workers()[i as int],
    {
        &self.ports[i].1
    }

    /// Where `id` stands in the order: every port before it sorts before
    /// `id`, and the port there, if any, is `id` itself or sorts after it.
    fn insertion_point(&self, id: &str) -> (r: usize)
        requires
            self.wf(),
        ensures
            r <= self.ids().len(),
            forall|j: int| 0 <= j < r ==> id_lt(#[trigger] self.ids()[j], id@),
            r < self.ids().len() ==> !id_lt(self.ids()[r as int], id@),
    {
        let n = self.ports.len();
        let mut p: usize = 0;
        while p < n
            invariant
                n == self.ids().len(),
                p <= n,
                forall|j: int| 0 <= j < p ==> id_lt(#[trigger] self.ids()[j], id@),
            decreases n - p,
        {
            if !matches!(compare_ids(self.ports[p].0.as_str(), id), Ordering::Less) {
                return p;
            }
            p = p + 1;
        }
        p
    }

    /// The position of port `id`, if it is open.
    pub fn position(&self, id: &str) -> (r: Option<usize>)
        requires
            self.wf(),
        ensures
            r is None <==> !self.ids().contains(id@),
            r matches Some(i) ==> i < self.ids().len() && self.ids()[i as int] == id@,
    {
        let p = self.insertion_point(id);
        if p < self.ports.len() && matches!(compare_ids(self.ports[p].0.as_str(), id), Ordering::Equal) {
            Some(p)
        } else {
            proof {
                if self.ids().contains(id@) {
                    let k = choose|k: int| 0 <= k < self.ids().len() && self.ids()[k] == id@;
                    lemma_id_lt_irreflexive(id@);
                    if k > p {
                        lemma_id_lt_total(self.ids()[p as int], id@);
                        lemma_id_lt_irreflexive(self.ids()[p as int]);
                    }
                }
            }
            None
        }
    }

    /// The worker of port `id`; none when no port of that name was opened.
    pub fn get(&self, id: &str) -> (r: Option<&W>)
        requires
            self.wf(),
        ensures
            r is None <==> !self.ids().contains(id@),
            r matches Some(w) ==> forall|i: int|
                0 <= i < self.ids().len() && self.ids()[i] == id@ ==> *w == self.workers()[i],
    {
        match self.position(id) {
            Some(i) => {
                proof {
                    assert forall|k: int|
                        0 <= k < self.ids().len() && self.ids()[k] == id@ implies k == i by {
                        if k != i {
                            lemma_id_lt_irreflexive(id@);
                        }
                    }
                }
                Some(&self.ports[i].1)
            },
            None => None,
        }
    }

    /// Opens port `id` with `worker`, replacing the worker of a port already
    /// open under that identifier; every other port keeps its worker.
    pub fn insert(&mut self, id: String, worker: W)
        requires
            old(self).wf(),
        ensures
            final(self).wf(),
            forall|k: Seq<char>|
                #[trigger] final(self).ids().contains(k) <==> (old(self).ids().contains(k) || k
                    == id@),
            forall|i: int|
                0 <= i < final(self).ids().len() && #[trigger] final(self).ids()[i] == id@
                    ==> final(self).workers()[i] == worker,
            forall|i: int, j: int|
                0 <= i < final(self).ids().len() && 0 <= j < old(self).ids().len()
                    && #[trigger] final(self).ids()[i] == #[trigger] old(self).ids()[j]
                    && old(self).ids()[j] != id@ ==> final(self).workers()[i]
                    == old(self).workers()[j],
    {
        let ghost old_ids = self.ids();
        let ghost old_ports = self.ports@;
        let p = self.insertion_point(id.as_str());
        if p < self.ports.len() && matches!(
            compare_ids(self.ports[p].0.as_str(), id.as_str()),
            Ordering::Equal
        ) {
            self.ports.set(p, (id, worker));
            proof {
                assert(self.ids() =~= old_ids);
                assert forall|i: int, j: int|
                    0 <= i < self.ids().len() && 0 <= j < old_ids.len() && self.ids()[i]
                        == old_ids[j] && old_ids[j] != id@ implies self.workers()[i]
                    == old_ports[j].1 by {
                    if i != j {
                        lemma_id_lt_irreflexive(old_ids[j]);
                    }
                }
                assert forall|k: Seq<char>|
                    self.ids().contains(k) <==> (old_ids.contains(k) || k == id@) by {
                    if k == id@ {
                        assert(self.ids()[p as int] == k);
                    }
                }
            }
        } else {
            self.ports.insert(p, (id, worker));
            proof {
                let ids = self.ids();
                assert(ids =~= old_ids.insert(p as int, id@));
                if p < old_ids.len() {
                    lemma_id_lt_total(old_ids[p as int], id@);
                }
                assert forall|i: int, j: int| 0 <= i < j < ids.len() implies id_lt(
                    #[trigger] ids[i],
                    #[trigger] ids[j],
                ) by {
                    if i < p && j > p {
                        assert(id_lt(old_ids[i], old_ids[j - 1]));
                    } else if i == p && j > p + 1 {
                        lemma_id_lt_transitive(id@, old_ids[p as int], old_ids[j - 1]);
                    } else if i > p {
                        assert(id_lt(old_ids[i - 1], old_ids[j - 1]));
                    }
                }
                assert forall|i: int, j: int|
                    0 <= i < ids.len() && 0 <= j < old_ids.len() && ids[i] == old_ids[j]
                        && old_ids[j] != id@ implies self.workers()[i] == old_ports[j].1 by {
                    let oi = if i < p { i } else { i - 1 };
                    if oi != j {
                        lemma_id_lt_irreflexive(old_ids[j]);
                    }
                }
                assert forall|k: Seq<char>|
                    ids.contains(k) <==> (old_ids.contains(k) || k == id@) by {
                    if k == id@ {
                        assert(ids[p as int] == k);
                    }
                    if old_ids.contains(k) {
                        let j = choose|j: int| 0 <= j < old_ids.len() && old_ids[j] == k;
                        if j < p {
                            assert(ids[j] == k);
                        } else {
                            assert(ids[j + 1] == k);
                        }
                    }
                }
                assert forall|i: int|
                    0 <= i < ids.len() && ids[i] == id@ implies self.workers()[i] == worker by {
                    if i != p {
                        lemma_id_lt_irreflexive(id@);
                    }
                }
            }
        }
    }

    /// Turns what each port handed out into events: `drained[i]` holds the
    /// chunks of the `i`-th port in order. The events come port by port in
    /// identifier order, each port's chunks in the order they arrived.
    pub fn collect_events(&self, drained: Vec<Vec<Bytes>>) -> (r: Vec<SerialData>)
        requires
            drained@.len() == self.ids().len(),
        ensures
            events_view(r@) == events_of(
                self.ids(),
                drained@.map_values(|cs: Vec<Bytes>| chunk_contents(cs@)),
            ),
    {
        let ghost all = drained@.map_values(|cs: Vec<Bytes>| chunk_contents(cs@));
        let mut drained = drained;
        let mut out: Vec<SerialData> = Vec::new();
        let n = self.ports.len();
        let mut i: usize = 0;
        while i < n
            invariant
                n == self.ids().len(),
                i <= n,
                drained@.len() == n,
                all.len() == n,
                forall|k: int|
                    i <= k < n ==> chunk_contents(#[trigger] drained@[k]@) == all[k],
                events_view(out@) == events_of(self.ids().take(i as int), all.take(i as int)),
            decreases n - i,
        {
            let mut chunks: Vec<Bytes> = Vec::new();
            drained.set_and_swap(i, &mut chunks);
            let ghost before = out@;
            let ghost arrived = chunks@;
            assert(chunk_contents(arrived) == all[i as int]);
            let m = chunks.len();
            let mut j: usize = 0;
            while j < m
                invariant
                    m == chunks@.len(),
                    m == arrived.len(),
                    j <= m,
                    i < n,
                    n == self.ids().len(),
                    all.len() == n,
                    chunk_contents(arrived) == all[i as int],
                    forall|k: int| j <= k < m ==> chunks@[k] == arrived[k],
                    events_view(out@) == events_view(before) + all[i as int].take(
                        j as int,
                    ).map_values(|c: Seq<u8>| (self.ids()[i as int], c)),
                decreases m - j,
            {
                let mut chunk = Bytes::new();
                chunks.set_and_swap(j, &mut chunk);
                let ev = SerialData { port: self.ports[i].0.clone(), data: chunk };
                let ghost prev = out@;
                out.push(ev);
                proof {
                    let f = |c: Seq<u8>| (self.ids()[i as int], c);
                    assert(events_view(out@) =~= events_view(prev).push(event_view(ev)));
                    assert(all[i as int].take(j + 1).map_values(f) =~= all[i as int].take(
                        j as int,
                    ).map_values(f).push(f(all[i as int][j as int])));
                    assert(bytes_contents(chunk) == all[i as int][j as int]);
                    assert(event_view(ev) == (self.ids()[i as int], all[i as int][j as int]));
                    assert(events_view(out@) =~= events_view(before) + all[i as int].take(
                        j + 1,
                    ).map_values(|c: Seq<u8>| (self.ids()[i as int], c)));
                }
                j = j + 1;
            }
            proof {
                assert(self.ids().take(i + 1).drop_last() =~= self.ids().take(i as int));
                assert(all.take(i + 1).drop_last() =~= all.take(i as int));
                assert(all[i as int].take(m as int) =~= all[i as int]);
            }
            i = i + 1;
        }
        proof {
            assert(self.ids().take(n as int) =~= self.ids());
            assert(all.take(n as int) =~= all);
        }
        out
    }
}

/// Every event of a batch comes from one of the ports, and carries one of the
/// chunks that this port handed out.
proof fn lemma_event_source(ids: Seq<Seq<char>>, drained: Seq<Seq<Seq<u8>>>, k: int)
    requires
        drained.len() == ids.len(),
        0 <= k < events_of(ids, drained).len(),
    ensures
        exists|i: int|
            0 <= i < ids.len() && ids[i] == events_of(ids, drained)[k].0 && #[trigger] drained[i].contains(
                events_of(ids, drained)[k].1,
            ),
    decreases ids.len(),
{
    let e = events_of(ids, drained)[k];
    let front = events_of(ids.drop_last(), drained.drop_last());
    let last = ids.len() - 1;
    if k < front.len() {
        lemma_event_source(ids.drop_last(), drained.drop_last(), k);
        let i = choose|i: int|
            0 <= i < ids.drop_last().len() && ids.drop_last()[i] == front[k].0
                && #[trigger] drained.drop_last()[i].contains(front[k].1);
        assert(ids[i] == e.0 && drained[i].contains(e.1));
    } else {
        let c = k - front.len();
        assert(drained[last][c] == e.1);
        assert(ids[last] == e.0 && drained[last].contains(e.1));
    }
}

/// Port isolation: an event that names port `x` carries one of the chunks
/// that port `x` itself handed out, never bytes that only another port
/// received; and it names a port of the registry.
pub proof fn lemma_port_isolation<W>(reg: &PortRegistry<W>, drained: Seq<Seq<Seq<u8>>>, k: int)
    requires
        reg.wf(),
        drained.len() == reg.ids().len(),
        0 <= k < events_of(reg.ids(), drained).len(),
    ensures
        reg.ids().contains(events_of(reg.ids(), drained)[k].0),
        forall|i: int|
            0 <= i < reg.ids().len() && reg.ids()[i] == events_of(reg.ids(), drained)[k].0
                ==> #[trigger] drained[i].contains(events_of(reg.ids(), drained)[k].1),
{
    let ids = reg.ids();
    let e = events_of(ids, drained)[k];
    lemma_event_source(ids, drained, k);
    let i = choose|i: int| 0 <= i < ids.len() && ids[i] == e.0 && #[trigger] drained[i].contains(e.1);
    assert(ids.contains(e.0));
    assert forall|j: int| 0 <= j < ids.len() && ids[j] == e.0 implies #[trigger] drained[j].contains(
        e.1,
    ) by {
        if j != i {
            lemma_id_lt_irreflexive(e.0);
        }
    }
}

/// A port that was never opened has no worker to send to, and no event of a
/// batch ever names it.
pub proof fn lemma_unknown_port<W>(reg: &PortRegistry<W>, drained: Seq<Seq<Seq<u8>>>, id: Seq<char>)
    requires
        reg.wf(),
        drained.len() == reg.ids().len(),
        !reg.ids().contains(id),
    ensures
        forall|k: int|
            0 <= k < events_of(reg.ids(), drained).len() ==> #[trigger] events_of(
                reg.ids(),
                drained,
            )[k].0 != id,
{
    assert forall|k: int| 0 <= k < events_of(reg.ids(), drained).len() implies #[trigger] events_of(
        reg.ids(),
        drained,
    )[k].0 != id by {
        lemma_port_isolation(reg, drained, k);
    }
}

} // verus!
