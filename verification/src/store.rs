//! In-memory model of the host's content-addressed, append-only record
//! store: `put` addresses a record by its content, `create_edge`,
//! `list_edges` and `delete_edge` manage directed, tagged edges between
//! record hashes, and the host clock stamps every edge at creation.

use vstd::prelude::*;

verus! {

use crate::mews::FullMew;

/// Tag on an edge. The vocabulary is closed: reply edges, remew edges, and
/// untagged edges (`None` in the edge's `tag` field).
#[derive(Clone, Copy, Debug, PartialEq, Eq, Structural)]
pub enum LinkTag {
    Reply,
    Remew,
}

/// A record in the content-addressed store: a post body, an anchor derived
/// from a semantic key, an agent identity, or a post envelope.
#[derive(Debug)]
pub enum Record {
    Blob(Vec<u8>),
    Anchor(Vec<u8>),
    Ident(Vec<u8>),
    Envelope(FullMew),
}

/// Spec-level image of a record, with byte sequences for the byte vectors.
pub enum RecordV {
    Blob(Seq<u8>),
    Anchor(Seq<u8>),
    Ident(Seq<u8>),
    Envelope(FullMew),
}

impl View for Record {
    type V = RecordV;

    open spec fn view(&self) -> RecordV {
        match self {
            Record::Blob(b) => RecordV::Blob(b@),
            Record::Anchor(k) => RecordV::Anchor(k@),
            Record::Ident(a) => RecordV::Ident(a@),
            Record::Envelope(e) => RecordV::Envelope(*e),
        }
    }
}

/// A directed edge from one record hash to another, carrying an optional
/// tag and the host clock's value at the moment it was created.
#[derive(Clone, Copy, Debug, PartialEq, Eq)]
pub struct Edge {
    pub id: u64,
    pub from: usize,
    pub to: usize,
    pub tag: Option<LinkTag>,
    pub created_at: u64,
}

/// The in-memory store. All state of the graph index lives here; hashes are
/// indices into the record list, assigned so that equal content always gets
/// the equal hash.
pub struct Store {
    records: Vec<Record>,
    edges: Vec<Edge>,
    now: u64,
    next_edge_id: u64,
}

/// Spec-level image of the whole store.
pub struct StoreV {
    pub records: Seq<RecordV>,
    pub edges: Seq<Edge>,
    pub now: u64,
    pub next_edge_id: u64,
}

impl View for Store {
    type V = StoreV;

    closed spec fn view(&self) -> StoreV {
        StoreV {
            records: self.records@.map_values(|r: Record| r@),
            edges: self.edges@,
            now: self.now,
            next_edge_id: self.next_edge_id,
        }
    }
}

/// First position at `i` or later whose record equals `r`.
pub open spec fn find_from(recs: Seq<RecordV>, r: RecordV, i: int) -> Option<int>
    decreases recs.len() - i,
    when 0 <= i <= recs.len()
{
    if i >= recs.len() {
        None
    } else if recs[i] == r {
        Some(i)
    } else {
        find_from(recs, r, i + 1)
    }
}

/// Content address of `r` among `recs`: the first record equal to it.
pub open spec fn find_rec(recs: Seq<RecordV>, r: RecordV) -> Option<int> {
    find_from(recs, r, 0)
}

/// Hash that `put` returns for `r`: the existing address when the record is
/// already stored, the next free one otherwise.
pub open spec fn put_hash(s: StoreV, r: RecordV) -> int {
    match find_rec(s.records, r) {
        Some(i) => i,
        None => s.records.len() as int,
    }
}

/// Store after `put`: unchanged when the record is already stored, extended
/// by it otherwise.
pub open spec fn put_store(s: StoreV, r: RecordV) -> StoreV {
    match find_rec(s.records, r) {
        Some(_) => s,
        None => StoreV { records: s.records.push(r), ..s },
    }
}

/// Store after `create_edge(from, to, tag)`.
pub open spec fn add_edge_spec(s: StoreV, from: usize, to: usize, tag: Option<LinkTag>) -> StoreV {
    StoreV {
        edges: s.edges.push(
            Edge { id: s.next_edge_id, from, to, tag, created_at: s.now },
        ),
        next_edge_id: (s.next_edge_id + 1) as u64,
        ..s
    }
}

/// Predicate selecting the edges that leave `from`.
pub open spec fn leaves_from(from: usize) -> spec_fn(Edge) -> bool {
    |e: Edge| e.from == from
}

/// What `list_edges(from)` returns: the edges leaving `from`, in creation
/// order.
pub open spec fn edges_from_spec(s: StoreV, from: usize) -> Seq<Edge> {
    s.edges.filter(leaves_from(from))
}

/// Predicate selecting the edges that survive `delete_edge(id)`.
pub open spec fn keeps_id(id: u64) -> spec_fn(Edge) -> bool {
    |e: Edge| e.id != id
}

/// Store after `delete_edge(id)`.
pub open spec fn remove_edge_spec(s: StoreV, id: u64) -> StoreV {
    StoreV { edges: s.edges.filter(keeps_id(id)), ..s }
}

/// No two edges share an id.
pub open spec fn ids_unique(es: Seq<Edge>) -> bool {
    forall|i: int, j: int| 0 <= i < j < es.len() ==> es[i].id != es[j].id
}

/// Every edge id is below `n`.
pub open spec fn ids_below(es: Seq<Edge>, n: u64) -> bool {
    forall|i: int| 0 <= i < es.len() ==> es[i].id < n
}

impl StoreV {
    /// Well-formedness: records are pairwise distinct (each content has one
    /// address), and edge ids are unique and below the id counter.
    pub open spec fn wf(self) -> bool {
        &&& forall|i: int, j: int|
            0 <= i < j < self.records.len() ==> self.records[i] != self.records[j]
        &&& ids_unique(self.edges)
        &&& ids_below(self.edges, self.next_edge_id)
    }

    /// Every edge endpoint resolves to a stored record: no dangling hashes.
    pub open spec fn closed(self) -> bool {
        forall|i: int|
            0 <= i < self.edges.len() ==> (#[trigger] self.edges[i]).from < self.records.len()
                && self.edges[i].to < self.records.len()
    }
}

/// When the search failed, no record from `i` on equals `r`.
pub proof fn lemma_find_from_none(recs: Seq<RecordV>, r: RecordV, i: int)
    requires
        0 <= i <= recs.len(),
        find_from(recs, r, i) is None,
    ensures
        forall|j: int| i <= j < recs.len() ==> recs[j] != r,
    decreases recs.len() - i,
{
    if i < recs.len() {
        lemma_find_from_none(recs, r, i + 1);
    }
}

/// When the search succeeded, it found the first match at or after `i`.
pub proof fn lemma_find_from_some(recs: Seq<RecordV>, r: RecordV, i: int, k: int)
    requires
        0 <= i <= recs.len(),
        find_from(recs, r, i) == Some(k),
    ensures
        i <= k < recs.len(),
        recs[k] == r,
        forall|j: int| i <= j < k ==> recs[j] != r,
    decreases recs.len() - i,
{
    if i < recs.len() && recs[i] != r {
        lemma_find_from_some(recs, r, i + 1, k);
    }
}

/// A record at `k` makes the search from any position at or before `k`
/// succeed (not necessarily at `k` itself).
pub proof fn lemma_find_from_hit(recs: Seq<RecordV>, r: RecordV, i: int, k: int)
    requires
        0 <= i <= k < recs.len(),
        recs[k] == r,
    ensures
        find_from(recs, r, i) is Some,
    decreases recs.len() - i,
{
    if recs[i] != r {
        lemma_find_from_hit(recs, r, i + 1, k);
    }
}

/// Searching a longer record list that starts with `recs` finds the same
/// first match, provided there was one.
pub proof fn lemma_find_from_extend(recs: Seq<RecordV>, longer: Seq<RecordV>, r: RecordV, i: int)
    requires
        0 <= i <= recs.len(),
        recs.is_prefix_of(longer),
        find_from(recs, r, i) is Some,
    ensures
        find_from(longer, r, i) == find_from(recs, r, i),
    decreases recs.len() - i,
{
    if i < recs.len() && recs[i] != r {
        lemma_find_from_extend(recs, longer, r, i + 1);
    }
}

/// Pushing a record that was absent places it at the end, where the search
/// finds it.
pub proof fn lemma_find_pushed(recs: Seq<RecordV>, r: RecordV, i: int)
    requires
        0 <= i <= recs.len(),
        find_from(recs, r, i) is None,
    ensures
        find_from(recs.push(r), r, i) == Some(recs.len() as int),
    decreases recs.len() - i,
{
    let longer = recs.push(r);
    if i < recs.len() {
        lemma_find_pushed(recs, r, i + 1);
    } else {
        assert(longer[i] == r);
    }
}

/// What `put` guarantees at the spec level: well-formedness is preserved,
/// records only grow, edges and clock stay, and the returned hash addresses
/// the record.
pub proof fn lemma_put_props(s: StoreV, r: RecordV)
    requires
        s.wf(),
    ensures
        put_store(s, r).wf(),
        s.records.is_prefix_of(put_store(s, r).records),
        put_store(s, r).records.len() <= s.records.len() + 1,
        put_store(s, r).edges == s.edges,
        put_store(s, r).now == s.now,
        put_store(s, r).next_edge_id == s.next_edge_id,
        0 <= put_hash(s, r) < put_store(s, r).records.len(),
        put_store(s, r).records[put_hash(s, r)] == r,
        find_rec(put_store(s, r).records, r) == Some(put_hash(s, r)),
{
    match find_rec(s.records, r) {
        Some(i) => {
            lemma_find_from_some(s.records, r, 0, i);
            assert(s.records.is_prefix_of(s.records)) by {
                assert(s.records =~= s.records.take(s.records.len() as int));
            }
        },
        None => {
            lemma_find_from_none(s.records, r, 0);
            lemma_find_pushed(s.records, r, 0);
            let t = put_store(s, r);
            assert(s.records.is_prefix_of(t.records)) by {
                assert(s.records =~= t.records.take(s.records.len() as int));
            }
            assert forall|i: int, j: int|
                0 <= i < j < t.records.len() implies t.records[i] != t.records[j] by {
                if j == s.records.len() as int {
                    assert(s.records[i] != r);
                }
            }
        },
    }
}

/// What `create_edge` guarantees at the spec level.
pub proof fn lemma_add_edge_props(s: StoreV, from: usize, to: usize, tag: Option<LinkTag>)
    requires
        s.wf(),
        s.next_edge_id < u64::MAX,
    ensures
        add_edge_spec(s, from, to, tag).wf(),
        add_edge_spec(s, from, to, tag).records == s.records,
        add_edge_spec(s, from, to, tag).now == s.now,
        add_edge_spec(s, from, to, tag).next_edge_id == s.next_edge_id + 1,
        add_edge_spec(s, from, to, tag).edges == s.edges.push(
            Edge { id: s.next_edge_id, from, to, tag, created_at: s.now },
        ),
{
    let t = add_edge_spec(s, from, to, tag);
    assert forall|i: int, j: int| 0 <= i < j < t.edges.len() implies t.edges[i].id
        != t.edges[j].id by {
        if j == t.edges.len() - 1 {
            assert(s.edges[i].id < s.next_edge_id);
        }
    }
    assert forall|i: int| 0 <= i < t.edges.len() implies t.edges[i].id < t.next_edge_id by {
        if i < t.edges.len() - 1 {
            assert(s.edges[i].id < s.next_edge_id);
        }
    }
}

/// Filtering distributes over push: the pushed element is kept exactly when
/// it satisfies the predicate.
pub proof fn lemma_filter_push<A>(s: Seq<A>, a: A, pred: spec_fn(A) -> bool)
    ensures
        s.push(a).filter(pred) == (if pred(a) {
            s.filter(pred).push(a)
        } else {
            s.filter(pred)
        }),
{
    reveal(Seq::filter);
    assert(s.push(a).drop_last() =~= s);
}

/// Every element of a filtered sequence occurs in the original.
pub proof fn lemma_filter_is_subset<A>(s: Seq<A>, pred: spec_fn(A) -> bool)
    ensures
        forall|k: int|
            0 <= k < s.filter(pred).len() ==> s.contains(#[trigger] s.filter(pred)[k]),
    decreases s.len(),
{
    reveal(Seq::filter);
    if s.len() > 0 {
        let dl = s.drop_last();
        lemma_filter_is_subset(dl, pred);
        assert forall|k: int| 0 <= k < s.filter(pred).len() implies s.contains(
            #[trigger] s.filter(pred)[k],
        ) by {
            if k < dl.filter(pred).len() {
                let e = dl.filter(pred)[k];
                let j = choose|j: int| 0 <= j < dl.len() && dl[j] == e;
                assert(s[j] == e);
            } else {
                assert(s[s.len() - 1] == s.last());
            }
        }
    }
}

/// Filtering a sequence with unique edge ids keeps the ids unique.
pub proof fn lemma_filter_ids_unique(es: Seq<Edge>, pred: spec_fn(Edge) -> bool)
    requires
        ids_unique(es),
    ensures
        ids_unique(es.filter(pred)),
    decreases es.len(),
{
    reveal(Seq::filter);
    if es.len() > 0 {
        let dl = es.drop_last();
        assert(ids_unique(dl)) by {
            assert(forall|i: int| 0 <= i < dl.len() ==> dl[i] == es[i]);
        }
        lemma_filter_ids_unique(dl, pred);
        lemma_filter_is_subset(dl, pred);
        if pred(es.last()) {
            let f = es.filter(pred);
            assert(es =~= dl.push(es.last()));
            lemma_filter_push(dl, es.last(), pred);
            assert forall|i: int, j: int| 0 <= i < j < f.len() implies f[i].id != f[j].id by {
                if j == f.len() - 1 {
                    let e = dl.filter(pred)[i];
                    let k = choose|k: int| 0 <= k < dl.len() && dl[k] == e;
                    assert(es[k] == e);
                    assert(es[es.len() - 1] == es.last());
                }
            }
        }
    }
}

/// Every id in a filtered sequence stays below the bound of the original.
pub proof fn lemma_filter_ids_below(es: Seq<Edge>, pred: spec_fn(Edge) -> bool, n: u64)
    requires
        ids_below(es, n),
    ensures
        ids_below(es.filter(pred), n),
{
    lemma_filter_is_subset(es, pred);
    assert forall|i: int| 0 <= i < es.filter(pred).len() implies es.filter(pred)[i].id < n by {
        let e = es.filter(pred)[i];
        let k = choose|k: int| 0 <= k < es.len() && es[k] == e;
    }
}

/// Copies a byte vector.
pub fn clone_bytes(v: &Vec<u8>) -> (r: Vec<u8>)
    ensures
        r@ == v@,
{
    let mut r: Vec<u8> = Vec::new();
    let mut i: usize = 0;
    while i < v.len()
        invariant
            i <= v@.len(),
            r@ == v@.take(i as int),
        decreases v@.len() - i,
    {
        let b = v[i];
        r.push(b);
        proof {
            assert(v@.take(i + 1) =~= v@.take(i as int).push(v@[i as int]));
        }
        i += 1;
    }
    proof {
        assert(v@.take(v@.len() as int) =~= v@);
    }
    r
}

/// Compares two byte vectors for equality of their contents.
fn bytes_eq(a: &Vec<u8>, b: &Vec<u8>) -> (r: bool)
    ensures
        r == (a@ == b@),
{
    if a.len() != b.len() {
        return false;
    }
    let mut i: usize = 0;
    while i < a.len()
        invariant
            a@.len() == b@.len(),
            i <= a@.len(),
            forall|j: int| 0 <= j < i ==> a@[j] == b@[j],
        decreases a@.len() - i,
    {
        if a[i] != b[i] {
            return false;
        }
        i += 1;
    }
    proof {
        assert(a@ =~= b@);
    }
    true
}

/// Compares two records for equality of their content.
fn record_eq(a: &Record, b: &Record) -> (r: bool)
    ensures
        r == (a@ == b@),
{
    match (a, b) {
        (Record::Blob(x), Record::Blob(y)) => bytes_eq(x, y),
        (Record::Anchor(x), Record::Anchor(y)) => bytes_eq(x, y),
        (Record::Ident(x), Record::Ident(y)) => bytes_eq(x, y),
        (Record::Envelope(x), Record::Envelope(y)) => x == y,
        _ => false,
    }
}

impl Store {
    /// A fresh, empty store with the clock at zero.
    pub fn new() -> (s: Store)
        ensures
            s@ == (StoreV {
                records: Seq::<RecordV>::empty(),
                edges: Seq::<Edge>::empty(),
                now: 0,
                next_edge_id: 0,
            }),
            s@.wf(),
    {
        let s = Store { records: Vec::new(), edges: Vec::new(), now: 0, next_edge_id: 0 };
        proof {
            assert(s@.records =~= Seq::<RecordV>::empty());
            assert(s@.edges =~= Seq::<Edge>::empty());
        }
        s
    }

    /// Sets the host clock; every edge created afterwards is stamped with
    /// this value until it is set again.
    pub fn set_now(&mut self, t: u64)
        ensures
            final(self)@ == (StoreV { now: t, ..old(self)@ }),
    {
        self.now = t;
    }

    /// Derives the content address of `r` without materializing anything:
    /// `None` when no equal record is stored.
    pub fn locate(&self, r: &Record) -> (h: Option<usize>)
        ensures
            match h {
                Some(i) => find_rec(self@.records, r@) == Some(i as int),
                None => find_rec(self@.records, r@) is None,
            },
    {
        let mut i: usize = 0;
        while i < self.records.len()
            invariant
                i <= self.records.len(),
                find_rec(self@.records, r@) == find_from(self@.records, r@, i as int),
            decreases self.records.len() - i,
        {
            if record_eq(&self.records[i], r) {
                return Some(i);
            }
            i += 1;
        }
        None
    }

    /// Stores `r` and returns its content hash. Idempotent: a record equal
    /// to one already stored changes nothing and returns the existing hash.
    pub fn put(&mut self, r: Record) -> (h: usize)
        requires
            old(self)@.wf(),
        ensures
            final(self)@.wf(),
            final(self)@ == put_store(old(self)@, r@),
            h as int == put_hash(old(self)@, r@),
            h < final(self)@.records.len(),
            final(self)@.records[h as int] == r@,
    {
        let found = self.locate(&r);
        match found {
            Some(i) => {
                proof {
                    lemma_find_from_some(self@.records, r@, 0, i as int);
                }
                i
            },
            None => {
                let n = self.records.len();
                proof {
                    lemma_find_from_none(self@.records, r@, 0);
                    lemma_find_pushed(self@.records, r@, 0);
                }
                let ghost orecs = self@.records;
                self.records.push(r);
                proof {
                    assert(self@.records =~= orecs.push(r@));
                    assert forall|i: int, j: int|
                        0 <= i < j < self@.records.len() implies self@.records[i]
                        != self@.records[j] by {
                        if j == orecs.len() as int {
                            assert(orecs[i] != r@);
                        }
                    }
                }
                n
            },
        }
    }

    /// Reads the record at hash `h`, `None` when the hash resolves to
    /// nothing.
    pub fn get(&self, h: usize) -> (r: Option<&Record>)
        ensures
            match r {
                Some(rec) => h < self@.records.len() && rec@ == self@.records[h as int],
                None => h >= self@.records.len(),
            },
    {
        if h < self.records.len() {
            Some(&self.records[h])
        } else {
            None
        }
    }

    /// Creates an edge from `from` to `to` with tag `tag`, stamped with the
    /// current clock, and returns its id.
    pub fn create_edge(&mut self, from: usize, to: usize, tag: Option<LinkTag>) -> (id: u64)
        requires
            old(self)@.wf(),
            old(self)@.next_edge_id < u64::MAX,
        ensures
            final(self)@.wf(),
            final(self)@ == add_edge_spec(old(self)@, from, to, tag),
            id == old(self)@.next_edge_id,
    {
        let id = self.next_edge_id;
        let e = Edge { id, from, to, tag, created_at: self.now };
        self.edges.push(e);
        self.next_edge_id = self.next_edge_id + 1;
        proof {
            let oe = old(self)@.edges;
            let ne = self@.edges;
            assert forall|i: int, j: int| 0 <= i < j < ne.len() implies ne[i].id != ne[j].id by {
                if j == ne.len() - 1 {
                    assert(oe[i].id < old(self)@.next_edge_id);
                }
            }
            assert forall|i: int| 0 <= i < ne.len() implies ne[i].id < self@.next_edge_id by {
                if i < ne.len() - 1 {
                    assert(oe[i].id < old(self)@.next_edge_id);
                }
            }
            assert(self@.records == old(self)@.records);
            assert(ids_unique(self@.edges));
            assert(ids_below(self@.edges, self@.next_edge_id));
        }
        id
    }

    /// Lists the edges that leave `from`, in creation order.
    pub fn list_edges(&self, from: usize) -> (es: Vec<Edge>)
        ensures
            es@ == edges_from_spec(self@, from),
    {
        let mut out: Vec<Edge> = Vec::new();
        let mut i: usize = 0;
        proof {
            assert(self@.edges.take(0).filter(leaves_from(from)) =~= Seq::<Edge>::empty()) by {
                reveal(Seq::filter);
                assert(self@.edges.take(0) =~= Seq::<Edge>::empty());
            }
        }
        while i < self.edges.len()
            invariant
                i <= self.edges.len(),
                out@ == self@.edges.take(i as int).filter(leaves_from(from)),
            decreases self.edges.len() - i,
        {
            let e = self.edges[i];
            proof {
                assert(self@.edges.take(i + 1) =~= self@.edges.take(i as int).push(
                    self@.edges[i as int],
                ));
                lemma_filter_push(self@.edges.take(i as int), self@.edges[i as int], leaves_from(from));
            }
            if e.from == from {
                out.push(e);
            }
            i += 1;
        }
        proof {
            assert(self@.edges.take(self@.edges.len() as int) =~= self@.edges);
        }
        out
    }

    /// Deletes the edge with id `id`; a no-op when no such edge exists.
    pub fn delete_edge(&mut self, id: u64)
        requires
            old(self)@.wf(),
        ensures
            final(self)@.wf(),
            final(self)@ == remove_edge_spec(old(self)@, id),
    {
        let mut out: Vec<Edge> = Vec::new();
        let mut i: usize = 0;
        proof {
            assert(self@.edges.take(0).filter(keeps_id(id)) =~= Seq::<Edge>::empty()) by {
                reveal(Seq::filter);
                assert(self@.edges.take(0) =~= Seq::<Edge>::empty());
            }
        }
        while i < self.edges.len()
            invariant
                i <= self.edges.len(),
                self == old(self),
                out@ == self@.edges.take(i as int).filter(keeps_id(id)),
            decreases self.edges.len() - i,
        {
            let e = self.edges[i];
            proof {
                assert(self@.edges.take(i + 1) =~= self@.edges.take(i as int).push(
                    self@.edges[i as int],
                ));
                lemma_filter_push(self@.edges.take(i as int), self@.edges[i as int], keeps_id(id));
            }
            if e.id != id {
                out.push(e);
            }
            i += 1;
        }
        proof {
            assert(self@.edges.take(self@.edges.len() as int) =~= self@.edges);
            lemma_filter_ids_unique(self@.edges, keeps_id(id));
            lemma_filter_ids_below(self@.edges, keeps_id(id), self@.next_edge_id);
        }
        self.edges = out;
        proof {
            assert(self@.records == old(self)@.records);
            assert(self@.edges == old(self)@.edges.filter(keeps_id(id)));
            assert(ids_unique(self@.edges));
            assert(ids_below(self@.edges, self@.next_edge_id));
        }
    }
}

} // verus!
