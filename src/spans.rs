//! The span table: the fields of each open span and the links to their
//! parents, walked from the root down to a leaf.

use vstd::prelude::*;
use crate::store::{Fields, Store};

verus! {

#[derive(Debug, Clone, Copy, PartialEq, Eq, Structural)]
pub enum SpanError {
    /// No open span has this id.
    NotFound,
    /// A span with this id is already open.
    Duplicate,
}

pub struct SpanNode {
    id: u64,
    parent: Option<u64>,
    store: Store,
}

/// Open spans in order of creation; a parent always precedes its children.
pub struct SpanTable {
    nodes: Vec<SpanNode>,
}

/// Last position before `n` that holds `id`, or -1.
spec fn position(nodes: Seq<SpanNode>, id: u64, n: int) -> int
    decreases n,
{
    if n <= 0 {
        -1
    } else if nodes[n - 1].id == id {
        n - 1
    } else {
        position(nodes, id, n - 1)
    }
}

/// Fields seen from position `i`: those of its ancestors, root first, then
/// its own, a later value replacing an earlier one.
spec fn chain(nodes: Seq<SpanNode>, i: int) -> Fields
    decreases i,
{
    if i < 0 || i >= nodes.len() {
        Fields::empty()
    } else {
        let own = nodes[i].store@;
        match nodes[i].parent {
            Some(p) => {
                let j = position(nodes, p, i);
                if 0 <= j < i {
                    chain(nodes, j).union_prefer_right(own)
                } else {
                    own
                }
            },
            None => own,
        }
    }
}

proof fn lemma_position(nodes: Seq<SpanNode>, id: u64, n: int)
    requires
        0 <= n <= nodes.len(),
    ensures
        -1 <= position(nodes, id, n) < n,
        position(nodes, id, n) >= 0 ==> nodes[position(nodes, id, n)].id == id,
        position(nodes, id, n) == -1 <==> forall|j: int| 0 <= j < n ==> nodes[j].id != id,
    decreases n,
{
    if n > 0 {
        lemma_position(nodes, id, n - 1);
    }
}

spec fn ids_distinct(nodes: Seq<SpanNode>) -> bool {
    forall|i: int, j: int| 0 <= i < nodes.len() && 0 <= j < nodes.len() && i != j
        ==> nodes[i].id != nodes[j].id
}

proof fn lemma_position_unique(nodes: Seq<SpanNode>, j: int, n: int)
    requires
        ids_distinct(nodes),
        0 <= j < n <= nodes.len(),
    ensures
        position(nodes, nodes[j].id, n) == j,
    decreases n,
{
    if n - 1 != j {
        lemma_position_unique(nodes, j, n - 1);
    }
}

pub type SpanView = Map<u64, (Option<u64>, Fields)>;

spec fn view_of(nodes: Seq<SpanNode>) -> SpanView {
    Map::new(
        |id: u64| position(nodes, id, nodes.len() as int) >= 0,
        |id: u64|
            {
                let i = position(nodes, id, nodes.len() as int);
                (nodes[i].parent, nodes[i].store@)
            },
    )
}

/// `t` after span `id` records `attrs`: a later value replaces an earlier
/// one under the same key.
pub open spec fn recorded(t: SpanView, id: u64, attrs: Fields) -> SpanView {
    t.insert(id, (t[id].0, t[id].1.union_prefer_right(attrs)))
}

/// Each open span, once its parent is gone, loses the link to it.
pub open spec fn severed(m: SpanView, id: u64) -> SpanView {
    Map::new(
        |x: u64| m.contains_key(x),
        |x: u64| if m[x].0 == Some(id) { (None, m[x].1) } else { m[x] },
    )
}

proof fn lemma_position_prefix(a: Seq<SpanNode>, b: Seq<SpanNode>, id: u64, n: int)
    requires
        0 <= n <= a.len(),
        n <= b.len(),
        forall|k: int| 0 <= k < n ==> a[k].id == b[k].id,
    ensures
        position(a, id, n) == position(b, id, n),
    decreases n,
{
    if n > 0 {
        lemma_position_prefix(a, b, id, n - 1);
    }
}

proof fn lemma_view_of(nodes: Seq<SpanNode>, m: SpanView)
    requires
        ids_distinct(nodes),
        forall|x: u64| m.contains_key(x) <==> exists|j: int| 0 <= j < nodes.len() && nodes[j].id == x,
        forall|j: int| 0 <= j < nodes.len() ==> m[#[trigger] nodes[j].id] == (nodes[j].parent, nodes[j].store@),
    ensures
        view_of(nodes) == m,
{
    let n = nodes.len() as int;
    assert forall|x: u64| view_of(nodes).contains_key(x) == m.contains_key(x) by {
        lemma_position(nodes, x, n);
        if m.contains_key(x) {
            let j = choose|j: int| 0 <= j < nodes.len() && nodes[j].id == x;
            assert(nodes[j].id == x);
        }
    }
    assert forall|x: u64| #[trigger] view_of(nodes).contains_key(x) implies view_of(nodes)[x] == m[x] by {
        lemma_position(nodes, x, n);
        let i = position(nodes, x, n);
        assert(nodes[i].id == x);
    }
    assert(view_of(nodes) =~= m);
}

proof fn lemma_view_at(nodes: Seq<SpanNode>, j: int)
    requires
        ids_distinct(nodes),
        0 <= j < nodes.len(),
    ensures
        view_of(nodes).contains_key(nodes[j].id),
        view_of(nodes)[nodes[j].id] == (nodes[j].parent, nodes[j].store@),
{
    lemma_position_unique(nodes, j, nodes.len() as int);
}

impl View for SpanTable {
    type V = SpanView;

    /// Each open span's parent link and fields.
    closed spec fn view(&self) -> SpanView {
        view_of(self.nodes@)
    }
}

impl SpanTable {
    pub closed spec fn wf(&self) -> bool {
        let nodes = self.nodes@;
        &&& ids_distinct(nodes)
        &&& forall|i: int| 0 <= i < nodes.len() ==> (#[trigger] nodes[i]).store.wf() && nodes[i].store.is_flat()
        &&& forall|i: int| 0 <= i < nodes.len() && (#[trigger] nodes[i]).parent is Some
            ==> position(nodes, nodes[i].parent->Some_0, i) >= 0
    }

    /// The fields seen from span `id`: its ancestors' from the root down,
    /// then its own, a later value replacing an earlier one. Empty for an
    /// unknown span.
    pub closed spec fn accumulated(&self, id: u64) -> Fields {
        let i = position(self.nodes@, id, self.nodes@.len() as int);
        if i >= 0 {
            chain(self.nodes@, i)
        } else {
            Fields::empty()
        }
    }

    pub fn new() -> (r: SpanTable)
        ensures
            r.wf(),
            r@ == SpanView::empty(),
    {
        let r = SpanTable { nodes: Vec::new() };
        assert(r@ =~= SpanView::empty());
        r
    }

    fn find_before(&self, id: u64, n: usize) -> (r: Option<usize>)
        requires
            n <= self.nodes@.len(),
        ensures
            match r {
                Some(i) => i < n && i as int == position(self.nodes@, id, n as int),
                None => position(self.nodes@, id, n as int) == -1,
            },
    {
        let mut k = n;
        while k > 0
            invariant
                k <= n <= self.nodes@.len(),
                position(self.nodes@, id, n as int) == position(self.nodes@, id, k as int),
            decreases k,
        {
            if self.nodes[k - 1].id == id {
                return Some(k - 1);
            }
            k = k - 1;
        }
        None
    }

    fn find(&self, id: u64) -> (r: Option<usize>)
        requires
            self.wf(),
        ensures
            r is Some == self@.contains_key(id),
            r matches Some(i) ==> i < self.nodes@.len() && self.nodes@[i as int].id == id
                && i as int == position(self.nodes@, id, self.nodes@.len() as int),
    {
        let r = self.find_before(id, self.nodes.len());
        proof {
            lemma_position(self.nodes@, id, self.nodes@.len() as int);
        }
        r
    }

    /// Whether span `id` is open.
    pub fn contains(&self, id: u64) -> (r: bool)
        requires
            self.wf(),
        ensures
            r == self@.contains_key(id),
    {
        self.find(id).is_some()
    }

    /// The fields of span `id`.
    pub fn get(&self, id: u64) -> (r: Option<&Store>)
        requires
            self.wf(),
        ensures
            r is Some == self@.contains_key(id),
            r matches Some(s) ==> s.wf() && s.is_flat() && s@ == self@[id].1,
    {
        match self.find(id) {
            Some(i) => Some(&self.nodes[i].store),
            None => None,
        }
    }

    /// Opens span `id` under `parent` with the fields `attrs`. A parent that
    /// is not open is dropped: the span then starts a chain of its own.
    pub fn on_span_create(&mut self, id: u64, parent: Option<u64>, attrs: Store) -> (r: Result<(), SpanError>)
        requires
            old(self).wf(),
            attrs.wf(),
            attrs.is_flat(),
        ensures
            final(self).wf(),
            old(self)@.contains_key(id) ==> r == Err::<(), SpanError>(SpanError::Duplicate) && final(self)@ == old(self)@,
            !old(self)@.contains_key(id) ==> r == Ok::<(), SpanError>(()) && final(self)@ == old(self)@.insert(
                id,
                (
                    if parent matches Some(p) && old(self)@.contains_key(p) { parent } else { None },
                    attrs@,
                ),
            ),
    {
        if self.find(id).is_some() {
            return Err(SpanError::Duplicate);
        }
        let link = match parent {
            Some(p) => if self.find(p).is_some() { parent } else { None },
            None => None,
        };
        let ghost before = self.nodes@;
        let ghost attrs_view = attrs@;
        let ghost n = before.len() as int;
        self.nodes.push(SpanNode { id, parent: link, store: attrs });
        proof {
            let after = self.nodes@;
            assert forall|k: int| 0 <= k < n implies after[k] == before[k] by {}
            assert forall|x: u64, m: int| 0 <= m <= n implies position(after, x, m) == position(before, x, m) by {
                lemma_position_prefix(after, before, x, m);
            }
            lemma_position(before, id, n);
            assert(ids_distinct(after)) by {
                assert forall|a: int, b: int| 0 <= a < after.len() && 0 <= b < after.len() && a != b
                    implies after[a].id != after[b].id by {
                    if a == n {
                        assert(before[b].id != id);
                    } else if b == n {
                        assert(before[a].id != id);
                    }
                }
            }
            if link is Some {
                lemma_position(before, link->Some_0, n);
            }
            assert forall|i: int| 0 <= i < after.len() && (#[trigger] after[i]).parent is Some
                implies position(after, after[i].parent->Some_0, i) >= 0 by {
                if i < n {
                    assert(after[i] == before[i]);
                }
            }
            let m = view_of(before).insert(id, (link, attrs_view));
            assert forall|x: u64| m.contains_key(x) <==> exists|j: int| 0 <= j < after.len() && after[j].id == x by {
                lemma_position(before, x, n);
                if x == id {
                    assert(after[n].id == id);
                } else if view_of(before).contains_key(x) {
                    let j = position(before, x, n);
                    assert(after[j].id == x);
                } else if exists|j: int| 0 <= j < after.len() && after[j].id == x {
                    let j = choose|j: int| 0 <= j < after.len() && after[j].id == x;
                    assert(before[j].id == x);
                }
            }
            assert forall|j: int| 0 <= j < after.len() implies m[#[trigger] after[j].id] == (after[j].parent, after[j].store@) by {
                if j < n {
                    lemma_view_at(before, j);
                }
            }
            lemma_view_of(after, m);
            if parent is Some {
                lemma_position(before, parent->Some_0, n);
            }
        }
        Ok(())
    }
}


impl SpanTable {
    /// Merges `attrs` into the fields of span `id`; a later value replaces
    /// an earlier one under the same key.
    pub fn on_record(&mut self, id: u64, attrs: Store) -> (r: Result<(), SpanError>)
        requires
            old(self).wf(),
            attrs.wf(),
            attrs.is_flat(),
        ensures
            final(self).wf(),
            !old(self)@.contains_key(id) ==> r == Err::<(), SpanError>(SpanError::NotFound) && final(self)@ == old(self)@,
            old(self)@.contains_key(id) ==> r == Ok::<(), SpanError>(()) && final(self)@ == recorded(old(self)@, id, attrs@),
    {
        let i = match self.find(id) {
            Some(i) => i,
            None => {
                return Err(SpanError::NotFound);
            },
        };
        let ghost before = self.nodes@;
        let ghost n = before.len() as int;
        let mut attrs = attrs;
        let ghost attrs_view = attrs@;
        proof {
            lemma_view_at(before, i as int);
        }
        self.nodes[i].store.port_all(&mut attrs);
        proof {
            let after = self.nodes@;
            assert forall|x: u64, m: int| 0 <= m <= n implies position(after, x, m) == position(before, x, m) by {
                lemma_position_prefix(after, before, x, m);
            }
            assert(ids_distinct(after)) by {
                assert forall|a: int, b: int| 0 <= a < after.len() && 0 <= b < after.len() && a != b
                    implies after[a].id != after[b].id by {
                    assert(after[a].id == before[a].id && after[b].id == before[b].id);
                }
            }
            assert forall|k: int| 0 <= k < after.len() implies (#[trigger] after[k]).store.wf() && after[k].store.is_flat() by {
                if k != i {
                    assert(after[k] == before[k]);
                }
            }
            assert forall|k: int| 0 <= k < after.len() && (#[trigger] after[k]).parent is Some
                implies position(after, after[k].parent->Some_0, k) >= 0 by {
                assert(after[k].parent == before[k].parent);
            }
            let m = view_of(before).insert(id, (before[i as int].parent, before[i as int].store@.union_prefer_right(attrs_view)));
            assert forall|x: u64| m.contains_key(x) <==> exists|j: int| 0 <= j < after.len() && after[j].id == x by {
                lemma_position(before, x, n);
                if view_of(before).contains_key(x) {
                    let j = position(before, x, n);
                    assert(after[j].id == x);
                } else if x == id {
                    assert(after[i as int].id == x);
                } else if exists|j: int| 0 <= j < after.len() && after[j].id == x {
                    let j = choose|j: int| 0 <= j < after.len() && after[j].id == x;
                    assert(before[j].id == x);
                }
            }
            assert forall|j: int| 0 <= j < after.len() implies m[#[trigger] after[j].id] == (after[j].parent, after[j].store@) by {
                if j != i {
                    lemma_view_at(before, j);
                    assert(after[j] == before[j]);
                }
            }
            lemma_view_of(after, m);
        }
        Ok(())
    }

    /// Closes span `id` and hands back its fields; the spans that named it
    /// as parent lose that link.
    pub fn on_close(&mut self, id: u64) -> (r: Result<Store, SpanError>)
        requires
            old(self).wf(),
        ensures
            final(self).wf(),
            !old(self)@.contains_key(id) ==> r is Err && r->Err_0 == SpanError::NotFound && final(self)@ == old(self)@,
            old(self)@.contains_key(id) ==> r is Ok && r->Ok_0.wf() && r->Ok_0@ == old(self)@[id].1
                && final(self)@ == severed(old(self)@.remove(id), id),
    {
        let i = match self.find(id) {
            Some(i) => i,
            None => {
                return Err(SpanError::NotFound);
            },
        };
        let ghost before = self.nodes@;
        let ghost n = before.len() as int;
        proof {
            lemma_view_at(before, i as int);
        }
        let node = self.nodes.remove(i);
        let ghost removed = self.nodes@;
        let mut k: usize = 0;
        while k < self.nodes.len()
            invariant
                self.nodes@.len() == removed.len(),
                removed == before.remove(i as int),
                k <= removed.len(),
                forall|j: int| 0 <= j < removed.len() ==> (#[trigger] self.nodes@[j]).id == removed[j].id
                    && self.nodes@[j].store == removed[j].store,
                forall|j: int| 0 <= j < k ==> (#[trigger] self.nodes@[j]).parent
                    == if removed[j].parent == Some(id) { None } else { removed[j].parent },
                forall|j: int| k <= j < removed.len() ==> (#[trigger] self.nodes@[j]).parent == removed[j].parent,
            decreases removed.len() - k,
        {
            if self.nodes[k].parent == Some(id) {
                self.nodes[k].parent = None;
            }
            k = k + 1;
        }
        proof {
            let after = self.nodes@;
            let shift = |j: int| if j < i { j } else { j + 1 };
            assert forall|j: int| 0 <= j < after.len() implies (#[trigger] after[j]).id == before[shift(j)].id
                && after[j].store == before[shift(j)].store by {
                assert(removed[j] == before[shift(j)]);
            }
            assert(ids_distinct(after)) by {
                assert forall|a: int, b: int| 0 <= a < after.len() && 0 <= b < after.len() && a != b
                    implies after[a].id != after[b].id by {
                    assert(after[a].id == before[shift(a)].id);
                    assert(after[b].id == before[shift(b)].id);
                }
            }
            assert forall|a: int| 0 <= a < after.len() && (#[trigger] after[a]).parent is Some
                implies position(after, after[a].parent->Some_0, a) >= 0 by {
                let p = after[a].parent->Some_0;
                let a2 = shift(a);
                assert(removed[a] == before[a2]);
                assert(before[a2].parent == Some(p) && p != id);
                lemma_position(before, p, a2);
                let j2 = position(before, p, a2);
                assert(j2 != i as int);
                let j = if j2 < i { j2 } else { j2 - 1 };
                assert(removed[j] == before[j2]);
                assert(after[j].id == p);
                lemma_position(after, p, a);
            }
            let m = severed(view_of(before).remove(id), id);
            assert forall|x: u64| m.contains_key(x) <==> exists|j: int| 0 <= j < after.len() && after[j].id == x by {
                lemma_position(before, x, n);
                if m.contains_key(x) {
                    let j2 = position(before, x, n);
                    assert(j2 != i as int);
                    let j = if j2 < i { j2 } else { j2 - 1 };
                    assert(removed[j] == before[j2]);
                    assert(after[j].id == x);
                }
                if exists|j: int| 0 <= j < after.len() && after[j].id == x {
                    let j = choose|j: int| 0 <= j < after.len() && after[j].id == x;
                    assert(before[shift(j)].id == x);
                    lemma_view_at(before, shift(j));
                }
            }
            assert forall|j: int| 0 <= j < after.len() implies m[#[trigger] after[j].id] == (after[j].parent, after[j].store@) by {
                lemma_view_at(before, shift(j));
                assert(removed[j] == before[shift(j)]);
                assert(before[shift(j)].id != before[i as int].id);
                assert(view_of(before).remove(id).contains_key(after[j].id));
                assert(after[j].parent == if removed[j].parent == Some(id) { None } else { removed[j].parent });
                assert(after[j].store == removed[j].store);
                let x = after[j].id;
                let v = view_of(before).remove(id);
                assert(v[x] == (removed[j].parent, removed[j].store@));
                assert(m[x] == if v[x].0 == Some(id) { (None, v[x].1) } else { v[x] });
            }
            lemma_view_of(after, m);
            assert forall|a: int| 0 <= a < after.len() implies (#[trigger] after[a]).store.wf() && after[a].store.is_flat() by {
                assert(removed[a] == before[shift(a)]);
            }
        }
        Ok(node.store)
    }

    fn chain_store(&self, i: usize) -> (r: Store)
        requires
            self.wf(),
            i < self.nodes@.len(),
        ensures
            r.wf(),
            r.is_flat(),
            r@ == chain(self.nodes@, i as int),
        decreases i,
    {
        let mut acc = match self.nodes[i].parent {
            Some(p) => match self.find_before(p, i) {
                Some(j) => self.chain_store(j),
                None => Store::new(),
            },
            None => Store::new(),
        };
        let ghost acc_view = acc@;
        let mut own = self.nodes[i].store.copy();
        let ghost own_view = own@;
        acc.port_all(&mut own);
        assert(acc@ =~= acc_view.union_prefer_right(own_view));
        proof {
            if self.nodes@[i as int].parent is None
                || position(self.nodes@, self.nodes@[i as int].parent->Some_0, i as int) < 0 {
                assert(acc@ =~= own_view);
            }
        }
        acc
    }

    /// The fields seen from span `id`, root first: on a shared key the
    /// value nearest to `id` wins. Empty for an unknown span.
    pub fn accumulate(&self, id: u64) -> (r: Store)
        requires
            self.wf(),
        ensures
            r.wf(),
            r.is_flat(),
            r@ == self.accumulated(id),
    {
        match self.find(id) {
            Some(i) => self.chain_store(i),
            None => {
                let r = Store::new();
                assert(r.is_flat());
                r
            },
        }
    }
}

/// Recording a key twice on one span keeps the later value.
pub proof fn lemma_last_write_wins(t: SpanView, id: u64, first: Fields, second: Fields, key: Seq<char>)
    requires
        t.contains_key(id),
        second.contains_key(key),
    ensures
        recorded(recorded(t, id, first), id, second)[id].1[key] == second[key],
{
}

/// Accumulation reads root to leaf: a span sees what its parent sees, with
/// its own fields written over it. An unknown span sees nothing, and an open
/// span's parent is open.
pub proof fn lemma_accumulated(t: &SpanTable, id: u64)
    requires
        t.wf(),
    ensures
        !t@.contains_key(id) ==> t.accumulated(id) == Fields::empty(),
        t@.contains_key(id) ==> t.accumulated(id) == match t@[id].0 {
            Some(p) => t.accumulated(p).union_prefer_right(t@[id].1),
            None => t@[id].1,
        },
        t@.contains_key(id) && t@[id].0 is Some ==> t@.contains_key(t@[id].0->Some_0),
{
    let nodes = t.nodes@;
    let n = nodes.len() as int;
    lemma_position(nodes, id, n);
    if t@.contains_key(id) {
        let i = position(nodes, id, n);
        assert(nodes[i].id == id);
        if nodes[i].parent is Some {
            let p = nodes[i].parent->Some_0;
            lemma_position(nodes, p, i);
            let j = position(nodes, p, i);
            lemma_position_unique(nodes, j, n);
            assert(nodes[j].id == p);
        }
    }
}

} // verus!
