//! Stage scheduling for `#[derive(Schedule)]`: resolving `after` / `before` stage
//! references into dependency edges, ordering stages topologically (Kahn's algorithm,
//! declaration order among ready stages), layering them for debugging, and batching the
//! systems of a stage so that no two systems in a batch conflict.
use vstd::prelude::*;
use crate::text::{chars_eq, chars_of, split, split_seq, str_eq, string_of, text_between, trim, trim_seq, decimal_text};
use crate::render_graph::decimal_chars;
use crate::attr_parse::{entry_views, entries_from, parse_string_entries, stop_view, EntryStop, Tok};

verus! {

/// A stage as declared by a `#[stage(name = .., after = .., before = ..)]` field.
#[derive(Clone, Debug)]
pub struct StageDecl {
    pub name: String,
    /// Stages that must run before this one.
    pub after: Vec<String>,
    /// Stages that must run after this one.
    pub before: Vec<String>,
}

#[derive(Clone, Debug)]
pub enum ScheduleError {
    /// An `after` list names a stage that does not exist.
    UnknownAfter(String),
    /// A `before` list names a stage that does not exist.
    UnknownBefore(String),
    /// The `after` / `before` relation has a cycle.
    Cycle,
}

/// The message a schedule error is reported with.
pub open spec fn spec_schedule_message(e: ScheduleError) -> Seq<char> {
    match e {
        ScheduleError::UnknownAfter(d) => "unknown stage in 'after': '"@ + d@ + "'"@,
        ScheduleError::UnknownBefore(d) => "unknown stage in 'before': '"@ + d@ + "'"@,
        ScheduleError::Cycle => "cycle detected in #[stage(after = ...)] graph"@,
    }
}

impl ScheduleError {
    /// The message the error is reported with (see `spec_schedule_message`).
    pub fn message(&self) -> (r: String)
        ensures
            r@ == spec_schedule_message(*self),
    {
        match self {
            ScheduleError::UnknownAfter(d) => {
                let cs = chars_of(d.as_str());
                text_between("unknown stage in 'after': '", cs.as_slice(), "'")
            },
            ScheduleError::UnknownBefore(d) => {
                let cs = chars_of(d.as_str());
                text_between("unknown stage in 'before': '", cs.as_slice(), "'")
            },
            ScheduleError::Cycle => String::from_str("cycle detected in #[stage(after = ...)] graph"),
        }
    }
}

// ---------------------------------------------------------------------------
// Name resolution
// ---------------------------------------------------------------------------

/// The index a stage name resolves to: the last stage declared under that name.
pub open spec fn resolve(stages: Seq<StageDecl>, name: Seq<char>) -> Option<usize>
    decreases stages.len(),
{
    if stages.len() == 0 {
        None
    } else if stages.last().name@ == name {
        Some((stages.len() - 1) as usize)
    } else {
        resolve(stages.drop_last(), name)
    }
}

/// The edges that the first `k` entries of stage `i`'s dependency list give: from the
/// named stage to `i` for `after`, from `i` to the named stage for `before`; the first
/// name that resolves to no stage is an error.
pub open spec fn dep_edges(
    stages: Seq<StageDecl>,
    i: usize,
    deps: Seq<String>,
    is_after: bool,
    k: int,
) -> Result<Seq<(usize, usize)>, ScheduleError>
    decreases k,
{
    if k <= 0 {
        Ok(Seq::empty())
    } else {
        match dep_edges(stages, i, deps, is_after, k - 1) {
            Err(e) => Err(e),
            Ok(es) => match resolve(stages, deps[k - 1]@) {
                None => if is_after {
                    Err(ScheduleError::UnknownAfter(deps[k - 1]))
                } else {
                    Err(ScheduleError::UnknownBefore(deps[k - 1]))
                },
                Some(j) => if is_after {
                    Ok(es.push((j, i)))
                } else {
                    Ok(es.push((i, j)))
                },
            },
        }
    }
}

/// The edges of the first `m` stages, each stage's `after` edges before its `before`
/// edges.
pub open spec fn stage_edges_prefix(stages: Seq<StageDecl>, m: int) -> Result<
    Seq<(usize, usize)>,
    ScheduleError,
>
    decreases m,
{
    if m <= 0 {
        Ok(Seq::empty())
    } else {
        let i = (m - 1) as usize;
        match stage_edges_prefix(stages, m - 1) {
            Err(e) => Err(e),
            Ok(es) => match dep_edges(stages, i, stages[m - 1].after@, true, stages[m - 1].after@.len() as int) {
                Err(e) => Err(e),
                Ok(a) => match dep_edges(stages, i, stages[m - 1].before@, false, stages[m - 1].before@.len() as int) {
                    Err(e) => Err(e),
                    Ok(b) => Ok(es + a + b),
                },
            },
        }
    }
}

/// The dependency edges of all stages.
pub open spec fn spec_stage_edges(stages: Seq<StageDecl>) -> Result<Seq<(usize, usize)>, ScheduleError> {
    stage_edges_prefix(stages, stages.len() as int)
}

proof fn lemma_resolve_bound(stages: Seq<StageDecl>, name: Seq<char>)
    requires
        stages.len() <= usize::MAX,
    ensures
        resolve(stages, name) matches Some(j) ==> j < stages.len() && stages[j as int].name@ == name,
    decreases stages.len(),
{
    if stages.len() > 0 && stages.last().name@ != name {
        lemma_resolve_bound(stages.drop_last(), name);
    }
}

proof fn lemma_dep_edges_err_stays(
    stages: Seq<StageDecl>,
    i: usize,
    deps: Seq<String>,
    is_after: bool,
    k: int,
    m: int,
)
    requires
        0 <= k <= m,
        dep_edges(stages, i, deps, is_after, k) is Err,
    ensures
        dep_edges(stages, i, deps, is_after, m) == dep_edges(stages, i, deps, is_after, k),
    decreases m - k,
{
    if m > k {
        lemma_dep_edges_err_stays(stages, i, deps, is_after, k, m - 1);
    }
}

proof fn lemma_prefix_err_stays(stages: Seq<StageDecl>, k: int, m: int)
    requires
        0 <= k <= m,
        stage_edges_prefix(stages, k) is Err,
    ensures
        stage_edges_prefix(stages, m) == stage_edges_prefix(stages, k),
    decreases m - k,
{
    if m > k {
        lemma_prefix_err_stays(stages, k, m - 1);
    }
}

proof fn lemma_dep_edges_within(stages: Seq<StageDecl>, i: usize, deps: Seq<String>, is_after: bool, k: int)
    requires
        i < stages.len(),
        stages.len() <= usize::MAX,
    ensures
        dep_edges(stages, i, deps, is_after, k) matches Ok(es) ==> edges_within(stages.len() as usize, es),
    decreases k,
{
    if k > 0 {
        lemma_dep_edges_within(stages, i, deps, is_after, k - 1);
        lemma_resolve_bound(stages, deps[k - 1]@);
    }
}

proof fn lemma_prefix_within(stages: Seq<StageDecl>, m: int)
    requires
        m <= stages.len(),
        stages.len() <= usize::MAX,
    ensures
        stage_edges_prefix(stages, m) matches Ok(es) ==> edges_within(stages.len() as usize, es),
    decreases m,
{
    if m > 0 {
        lemma_prefix_within(stages, m - 1);
        let i = (m - 1) as usize;
        lemma_dep_edges_within(stages, i, stages[m - 1].after@, true, stages[m - 1].after@.len() as int);
        lemma_dep_edges_within(stages, i, stages[m - 1].before@, false, stages[m - 1].before@.len() as int);
        if let Ok(es) = stage_edges_prefix(stages, m) {
            let es0 = stage_edges_prefix(stages, m - 1)->Ok_0;
            let a = dep_edges(stages, i, stages[m - 1].after@, true, stages[m - 1].after@.len() as int)->Ok_0;
            let b = dep_edges(stages, i, stages[m - 1].before@, false, stages[m - 1].before@.len() as int)->Ok_0;
            assert(es == es0 + a + b);
            assert forall|k: int| 0 <= k < es.len() implies (#[trigger] es[k]).0 < stages.len() && es[k].1 < stages.len() by {
                if k < es0.len() {
                    assert(es[k] == es0[k]);
                } else if k < es0.len() + a.len() {
                    assert(es[k] == a[k - es0.len()]);
                } else {
                    assert(es[k] == b[k - es0.len() - a.len()]);
                }
            }
        }
    }
}

/// Finds the stage a name refers to (the last one declared under it).
pub fn resolve_stage(stages: &[StageDecl], name: &String) -> (r: Option<usize>)
    ensures
        r == resolve(stages@, name@),
{
    let target = chars_of(name.as_str());
    let mut k: usize = stages.len();
    assert(stages@.take(k as int) =~= stages@);
    while k > 0
        invariant
            k <= stages@.len(),
            target@ == name@,
            resolve(stages@, name@) == resolve(stages@.take(k as int), name@),
        decreases k,
    {
        let c = chars_of(stages[k - 1].name.as_str());
        assert(stages@.take(k as int).last() == stages@[k - 1]);
        if chars_eq(c.as_slice(), target.as_slice()) {
            return Some(k - 1);
        }
        assert(stages@.take(k as int).drop_last() =~= stages@.take(k - 1));
        k = k - 1;
    }
    None
}

fn push_dep_edges(
    stages: &[StageDecl],
    i: usize,
    deps: &Vec<String>,
    is_after: bool,
    edges: &mut Vec<(usize, usize)>,
) -> (r: Result<(), ScheduleError>)
    ensures
        r matches Err(e) ==> dep_edges(stages@, i, deps@, is_after, deps@.len() as int) == Err::<
            Seq<(usize, usize)>,
            ScheduleError,
        >(e),
        r is Ok ==> dep_edges(stages@, i, deps@, is_after, deps@.len() as int) == Ok::<
            Seq<(usize, usize)>,
            ScheduleError,
        >(final(edges)@.subrange(old(edges)@.len() as int, final(edges)@.len() as int)),
        r is Ok ==> final(edges)@.subrange(0, old(edges)@.len() as int) == old(edges)@,
        r is Ok ==> old(edges)@.len() <= final(edges)@.len(),
{
    let ghost base = edges@;
    let mut k: usize = 0;
    assert(edges@.subrange(base.len() as int, edges@.len() as int) =~= Seq::<(usize, usize)>::empty());
    while k < deps.len()
        invariant
            k <= deps@.len(),
            base.len() <= edges@.len(),
            edges@.subrange(0, base.len() as int) == base,
            base == old(edges)@,
            dep_edges(stages@, i, deps@, is_after, k as int) == Ok::<Seq<(usize, usize)>, ScheduleError>(
                edges@.subrange(base.len() as int, edges@.len() as int),
            ),
        decreases deps@.len() - k,
    {
        match resolve_stage(stages, &deps[k]) {
            None => {
                let name = deps[k].clone();
                proof {
                    lemma_dep_edges_err_stays(stages@, i, deps@, is_after, k + 1, deps@.len() as int);
                }
                if is_after {
                    return Err(ScheduleError::UnknownAfter(name));
                } else {
                    return Err(ScheduleError::UnknownBefore(name));
                }
            },
            Some(j) => {
                let ghost prev = edges@;
                if is_after {
                    edges.push((j, i));
                } else {
                    edges.push((i, j));
                }
                assert(edges@.subrange(0, base.len() as int) =~= prev.subrange(0, base.len() as int));
                assert(edges@.subrange(base.len() as int, edges@.len() as int) =~= prev.subrange(
                    base.len() as int,
                    prev.len() as int,
                ).push(edges@.last()));
            },
        }
        k = k + 1;
    }
    Ok(())
}

/// Resolves every stage's `after` / `before` names into dependency edges `(from, to)`:
/// `from` must run before `to`.
pub fn stage_edges(stages: &[StageDecl]) -> (r: Result<Vec<(usize, usize)>, ScheduleError>)
    ensures
        r matches Ok(es) ==> spec_stage_edges(stages@) == Ok::<Seq<(usize, usize)>, ScheduleError>(es@),
        r matches Ok(es) ==> edges_within(stages@.len() as usize, es@),
        r matches Err(e) ==> spec_stage_edges(stages@) == Err::<Seq<(usize, usize)>, ScheduleError>(e),
{
    let n = stages.len();
    proof {
        lemma_prefix_within(stages@, n as int);
    }
    let mut edges: Vec<(usize, usize)> = Vec::new();
    let mut m: usize = 0;
    while m < stages.len()
        invariant
            m <= stages@.len(),
            stage_edges_prefix(stages@, m as int) == Ok::<Seq<(usize, usize)>, ScheduleError>(edges@),
        decreases stages@.len() - m,
    {
        let ghost e0 = edges@;
        match push_dep_edges(stages, m, &stages[m].after, true, &mut edges) {
            Err(e) => {
                proof {
                    lemma_prefix_err_stays(stages@, m + 1, stages@.len() as int);
                }
                return Err(e);
            },
            Ok(()) => {},
        }
        let ghost e1 = edges@;
        match push_dep_edges(stages, m, &stages[m].before, false, &mut edges) {
            Err(e) => {
                proof {
                    lemma_prefix_err_stays(stages@, m + 1, stages@.len() as int);
                }
                return Err(e);
            },
            Ok(()) => {},
        }
        proof {
            let a = e1.subrange(e0.len() as int, e1.len() as int);
            let b = edges@.subrange(e1.len() as int, edges@.len() as int);
            assert(edges@ =~= e0 + a + b) by {
                assert(e1 =~= e0 + a);
                assert(edges@ =~= e1 + b);
            }
        }
        m = m + 1;
    }
    Ok(edges)
}

// ---------------------------------------------------------------------------
// Topological order
// ---------------------------------------------------------------------------

/// Node `u` comes before node `v` in `o`.
pub open spec fn before_in(o: Seq<usize>, u: usize, v: usize) -> bool {
    exists|i: int, j: int| 0 <= i < j < o.len() && o[i] == u && o[j] == v
}

/// `o` lists every node below `n` exactly once and puts the source of every edge before
/// its target.
pub open spec fn is_topo_order(n: usize, edges: Seq<(usize, usize)>, o: Seq<usize>) -> bool {
    &&& o.no_duplicates()
    &&& forall|i: int| 0 <= i < o.len() ==> #[trigger] o[i] < n
    &&& forall|v: usize| v < n ==> #[trigger] o.contains(v)
    &&& forall|k: int| 0 <= k < edges.len() ==> before_in(o, #[trigger] edges[k].0, edges[k].1)
}

/// Every edge joins nodes below `n`.
pub open spec fn edges_within(n: usize, edges: Seq<(usize, usize)>) -> bool {
    forall|k: int| 0 <= k < edges.len() ==> (#[trigger] edges[k]).0 < n && edges[k].1 < n
}

/// `edges` admit a topological order of the nodes below `n`: they have no cycle.
pub open spec fn acyclic(n: usize, edges: Seq<(usize, usize)>) -> bool {
    exists|o: Seq<usize>| is_topo_order(n, edges, o)
}

/// The number of edges among the first `m` that enter `v` from a node not listed in
/// `done`.
pub open spec fn pending(edges: Seq<(usize, usize)>, done: Seq<usize>, v: usize, m: int) -> nat
    decreases m,
{
    if m <= 0 {
        0
    } else {
        pending(edges, done, v, m - 1) + if edges[m - 1].1 == v && !done.contains(edges[m - 1].0) {
            1nat
        } else {
            0nat
        }
    }
}

/// The number of edges among the first `m` that go from `u` to `v`.
pub open spec fn edge_count(edges: Seq<(usize, usize)>, u: usize, v: usize, m: int) -> nat
    decreases m,
{
    if m <= 0 {
        0
    } else {
        edge_count(edges, u, v, m - 1) + if edges[m - 1].0 == u && edges[m - 1].1 == v {
            1nat
        } else {
            0nat
        }
    }
}

proof fn lemma_pending_zero(edges: Seq<(usize, usize)>, done: Seq<usize>, v: usize, m: int)
    requires
        0 <= m <= edges.len(),
        pending(edges, done, v, m) == 0,
    ensures
        forall|k: int| 0 <= k < m && #[trigger] edges[k].1 == v ==> done.contains(edges[k].0),
    decreases m,
{
    if m > 0 {
        lemma_pending_zero(edges, done, v, m - 1);
    }
}

proof fn lemma_pending_pos(edges: Seq<(usize, usize)>, done: Seq<usize>, v: usize, m: int) -> (k: int)
    requires
        0 <= m <= edges.len(),
        pending(edges, done, v, m) > 0,
    ensures
        0 <= k < m,
        edges[k].1 == v,
        !done.contains(edges[k].0),
    decreases m,
{
    if pending(edges, done, v, m - 1) > 0 {
        lemma_pending_pos(edges, done, v, m - 1)
    } else {
        m - 1
    }
}

proof fn lemma_pending_le(edges: Seq<(usize, usize)>, done: Seq<usize>, v: usize, m: int)
    requires
        0 <= m,
    ensures
        pending(edges, done, v, m) <= m,
    decreases m,
{
    if m > 0 {
        lemma_pending_le(edges, done, v, m - 1);
    }
}

proof fn lemma_count_mono(edges: Seq<(usize, usize)>, u: usize, v: usize, k: int, m: int)
    requires
        0 <= k <= m,
    ensures
        edge_count(edges, u, v, k) <= edge_count(edges, u, v, m),
    decreases m - k,
{
    if m > k {
        lemma_count_mono(edges, u, v, k, m - 1);
    }
}

/// Marking `u` done removes exactly the edges from `u` from the pending count.
proof fn lemma_pending_step(edges: Seq<(usize, usize)>, done: Seq<usize>, u: usize, v: usize, m: int)
    requires
        0 <= m,
        !done.contains(u),
    ensures
        pending(edges, done.push(u), v, m) + edge_count(edges, u, v, m) == pending(edges, done, v, m),
    decreases m,
{
    if m > 0 {
        lemma_pending_step(edges, done, u, v, m - 1);
        let a = edges[m - 1].0;
        assert(done.push(u).contains(a) <==> done.contains(a) || a == u) by {
            if done.contains(a) {
                let i = choose|i: int| 0 <= i < done.len() && done[i] == a;
                assert(done.push(u)[i] == a);
            }
            if a == u {
                assert(done.push(u)[done.len() as int] == a);
            }
            if done.push(u).contains(a) && a != u {
                let i = choose|i: int| 0 <= i < done.len() + 1 && done.push(u)[i] == a;
                assert(done[i] == a);
            }
        }
    }
}

/// The nodes below `n`, as a set.
pub open spec fn nodes_below(n: usize) -> Set<usize> {
    Set::new(|x: usize| x < n)
}

proof fn lemma_nodes_below(n: usize)
    ensures
        nodes_below(n).finite(),
        nodes_below(n).len() == n,
    decreases n,
{
    if n == 0 {
        assert(nodes_below(n) =~= Set::empty());
    } else {
        lemma_nodes_below((n - 1) as usize);
        assert(nodes_below((n - 1) as usize).insert((n - 1) as usize) =~= nodes_below(n));
    }
}

/// A duplicate-free list of nodes below `n` has at most `n` entries, and lists every
/// node when it has exactly `n`.
proof fn lemma_distinct_below(q: Seq<usize>, n: usize)
    requires
        q.no_duplicates(),
        forall|i: int| 0 <= i < q.len() ==> #[trigger] q[i] < n,
    ensures
        q.len() <= n,
        q.len() == n <==> forall|v: usize| v < n ==> #[trigger] q.contains(v),
{
    lemma_nodes_below(n);
    q.unique_seq_to_set();
    let s = q.to_set();
    vstd::seq_lib::seq_to_set_is_finite(q);
    if forall|v: usize| v < n ==> #[trigger] q.contains(v) {
        assert(nodes_below(n).subset_of(s));
        vstd::set_lib::lemma_len_subset(nodes_below(n), s);
    }
    assert(s.subset_of(nodes_below(n))) by {
        assert forall|x: usize| s.contains(x) implies nodes_below(n).contains(x) by {
            let i = choose|i: int| 0 <= i < q.len() && q[i] == x;
            assert(q[i] < n);
        }
    }
    vstd::set_lib::lemma_len_subset(s, nodes_below(n));
    if q.len() == n {
        vstd::set_lib::lemma_subset_equality(s, nodes_below(n));
        assert forall|v: usize| v < n implies #[trigger] q.contains(v) by {
            assert(nodes_below(n).contains(v));
            assert(s.contains(v));
        }
    }
}

/// Some edge enters `v` from a node not listed in `q`.
pub open spec fn entered_from_outside(edges: Seq<(usize, usize)>, q: Seq<usize>, v: usize) -> bool {
    exists|k: int| 0 <= k < edges.len() && (#[trigger] edges[k]).1 == v && !q.contains(edges[k].0)
}

/// If every node below `n` outside `q` is entered from outside `q`, and some node below
/// `n` is outside `q`, no topological order exists.
proof fn lemma_stuck_means_cycle(n: usize, edges: Seq<(usize, usize)>, q: Seq<usize>, v0: usize, o: Seq<usize>)
    requires
        v0 < n,
        !q.contains(v0),
        forall|v: usize| v < n && !q.contains(v) ==> #[trigger] entered_from_outside(edges, q, v),
    ensures
        !is_topo_order(n, edges, o),
{
    if is_topo_order(n, edges, o) {
        assert forall|p: int| 0 <= p < o.len() implies q.contains(#[trigger] o[p]) by {
            lemma_topo_prefix_in(n, edges, q, o, p);
        }
        assert(o.contains(v0));
        let p = choose|p: int| 0 <= p < o.len() && o[p] == v0;
        assert(q.contains(o[p]));
    }
}

proof fn lemma_topo_prefix_in(n: usize, edges: Seq<(usize, usize)>, q: Seq<usize>, o: Seq<usize>, p: int)
    requires
        0 <= p < o.len(),
        forall|v: usize| v < n && !q.contains(v) ==> #[trigger] entered_from_outside(edges, q, v),
        o.no_duplicates(),
        forall|i: int| 0 <= i < o.len() ==> #[trigger] o[i] < n,
        forall|k: int| 0 <= k < edges.len() ==> before_in(o, #[trigger] edges[k].0, edges[k].1),
    ensures
        q.contains(o[p]),
    decreases p,
{
    let v = o[p];
    assert(v < n);
    if !q.contains(v) {
        assert(entered_from_outside(edges, q, v));
        let k = choose|k: int| 0 <= k < edges.len() && (#[trigger] edges[k]).1 == v && !q.contains(edges[k].0);
        assert(before_in(o, edges[k].0, edges[k].1));
        let (i, j) = choose|i: int, j: int| 0 <= i < j < o.len() && o[i] == edges[k].0 && o[j] == edges[k].1;
        assert(j == p);
        lemma_topo_prefix_in(n, edges, q, o, i);
    }
}

/// The number of edges entering each node below `n`.
fn in_degrees(n: usize, edges: &Vec<(usize, usize)>) -> (indeg: Vec<usize>)
    requires
        edges_within(n, edges@),
    ensures
        indeg@.len() == n,
        forall|x: usize| x < n ==> #[trigger] indeg@[x as int] == pending(edges@, Seq::<usize>::empty(), x, edges@.len() as int),
{
    let ne = edges.len();
    let mut indeg: Vec<usize> = Vec::new();
    let mut v: usize = 0;
    while v < n
        invariant
            v <= n,
            indeg@.len() == v,
            forall|x: int| 0 <= x < v ==> indeg@[x] == 0,
        decreases n - v,
    {
        indeg.push(0);
        v = v + 1;
    }
    let ghost empty = Seq::<usize>::empty();
    let mut k: usize = 0;
    while k < ne
        invariant
            k <= ne,
            ne == edges@.len(),
            indeg@.len() == n,
            edges_within(n, edges@),
            empty == Seq::<usize>::empty(),
            forall|x: usize| x < n ==> #[trigger] indeg@[x as int] == pending(edges@, empty, x, k as int),
        decreases ne - k,
    {
        let b = edges[k].1;
        proof {
            assert(edges@[k as int].1 < n);
            lemma_pending_le(edges@, empty, b, k as int);
        }
        let d = indeg[b] + 1;
        indeg.set(b, d);
        proof {
            assert forall|x: usize| x < n implies #[trigger] indeg@[x as int] == pending(edges@, empty, x, k + 1) by {
                assert(!empty.contains(edges@[k as int].0));
            }
        }
        k = k + 1;
    }
    indeg
}

/// The positions among the first `m` whose count is zero, ascending.
pub open spec fn zero_positions(d: Seq<usize>, m: int) -> Seq<usize>
    decreases m,
{
    if m <= 0 {
        Seq::empty()
    } else if d[m - 1] == 0 {
        zero_positions(d, m - 1).push((m - 1) as usize)
    } else {
        zero_positions(d, m - 1)
    }
}

/// The nodes among the first `m` that no edge enters, ascending: the nodes that are
/// ready from the start.
pub open spec fn source_nodes(edges: Seq<(usize, usize)>, m: int) -> Seq<usize>
    decreases m,
{
    if m <= 0 {
        Seq::empty()
    } else if pending(edges, Seq::empty(), (m - 1) as usize, edges.len() as int) == 0 {
        source_nodes(edges, m - 1).push((m - 1) as usize)
    } else {
        source_nodes(edges, m - 1)
    }
}

proof fn lemma_zero_positions_are_sources(d: Seq<usize>, edges: Seq<(usize, usize)>, m: int)
    requires
        0 <= m <= d.len(),
        d.len() <= usize::MAX,
        forall|x: usize| x < d.len() ==> #[trigger] d[x as int] == pending(edges, Seq::<usize>::empty(), x, edges.len() as int),
    ensures
        zero_positions(d, m) == source_nodes(edges, m),
    decreases m,
{
    if m > 0 {
        lemma_zero_positions_are_sources(d, edges, m - 1);
        assert(d[((m - 1) as usize) as int] == pending(edges, Seq::<usize>::empty(), (m - 1) as usize, edges.len() as int));
    }
}

/// With no edges every node is ready from the start, so ready nodes, which are taken in
/// declaration order, make up the whole order: `0, 1, .., n - 1`.
pub proof fn law_no_edges_declaration_order(m: int)
    requires
        0 <= m <= usize::MAX + 1,
    ensures
        source_nodes(Seq::<(usize, usize)>::empty(), m) == Seq::new(m as nat, |i: int| i as usize),
    decreases m,
{
    if m > 0 {
        law_no_edges_declaration_order(m - 1);
        assert(source_nodes(Seq::<(usize, usize)>::empty(), m) =~= Seq::new(m as nat, |i: int| i as usize));
    }
}

/// The nodes whose count in `indeg` is zero, ascending.
fn ready_nodes(indeg: &Vec<usize>) -> (queue: Vec<usize>)
    ensures
        queue@ == zero_positions(indeg@, indeg@.len() as int),
        ascending(queue@),
        forall|i: int| 0 <= i < queue@.len() ==> #[trigger] queue@[i] < indeg@.len(),
        forall|x: usize| x < indeg@.len() ==> (#[trigger] queue@.contains(x) <==> indeg@[x as int] == 0),
{
    let n = indeg.len();
    let mut queue: Vec<usize> = Vec::new();
    let mut v: usize = 0;
    while v < n
        invariant
            v <= n,
            indeg@.len() == n,
            ascending(queue@),
            queue@ == zero_positions(indeg@, v as int),
            forall|i: int| 0 <= i < queue@.len() ==> #[trigger] queue@[i] < v,
            forall|x: usize| x < n ==> (#[trigger] queue@.contains(x) <==> (x < v && indeg@[x as int] == 0)),
        decreases n - v,
    {
        let ghost q0 = queue@;
        if indeg[v] == 0 {
            queue.push(v);
        }
        assert(queue@ == zero_positions(indeg@, v + 1));
        proof {
            assert forall|x: usize| x < n implies (#[trigger] queue@.contains(x) <==> (x < v + 1 && indeg@[x as int] == 0)) by {
                if queue@.contains(x) {
                    let i = choose|i: int| 0 <= i < queue@.len() && queue@[i] == x;
                    if i < q0.len() {
                        assert(q0[i] == x);
                        assert(q0.contains(x));
                    }
                }
                if x < v && indeg@[x as int] == 0 {
                    assert(q0.contains(x));
                    let i = choose|i: int| 0 <= i < q0.len() && q0[i] == x;
                    assert(queue@[i] == x);
                }
                if x == v && indeg@[x as int] == 0 {
                    assert(queue@[queue@.len() - 1] == x);
                }
            }
        }
        v = v + 1;
    }
    queue
}

/// The nodes that processing `u` releases, where `done` lists the processed nodes with
/// `u` last: among the first `k` edges, in order, the target of each edge from `u` that
/// is the last edge from `u` to it, when no edge from an unprocessed node enters it.
pub open spec fn released(edges: Seq<(usize, usize)>, done: Seq<usize>, u: usize, k: int) -> Seq<usize>
    decreases k,
{
    if k <= 0 {
        Seq::empty()
    } else {
        let v = edges[k - 1].1;
        released(edges, done, u, k - 1) + if edges[k - 1].0 == u && edge_count(edges, u, v, k)
            == edge_count(edges, u, v, edges.len() as int) && pending(edges, done, v, edges.len() as int)
            == 0 {
            seq![v]
        } else {
            Seq::empty()
        }
    }
}

/// The nodes released by processing, in turn, the nodes of `order` at positions `from`
/// up to `to`, each with the nodes before it processed.
pub open spec fn released_between(edges: Seq<(usize, usize)>, order: Seq<usize>, from: int, to: int) -> Seq<usize>
    decreases to - from,
{
    if to <= from {
        Seq::empty()
    } else {
        released_between(edges, order, from, to - 1) + released(
            edges,
            order.take(to),
            order[to - 1],
            edges.len() as int,
        )
    }
}

proof fn lemma_released_between_prefix(
    edges: Seq<(usize, usize)>,
    a: Seq<usize>,
    b: Seq<usize>,
    from: int,
    to: int,
)
    requires
        0 <= from,
        to <= a.len(),
        to <= b.len(),
        forall|i: int| 0 <= i < to ==> a[i] == b[i],
    ensures
        released_between(edges, a, from, to) == released_between(edges, b, from, to),
    decreases to - from,
{
    if to > from {
        lemma_released_between_prefix(edges, a, b, from, to - 1);
        assert(a.take(to) =~= b.take(to));
        assert(a[to - 1] == b[to - 1]);
    }
}

/// Edge `(u, v)` is among `edges`.
pub open spec fn fed_by(edges: Seq<(usize, usize)>, u: usize, v: usize) -> bool {
    exists|k: int| 0 <= k < edges.len() && #[trigger] edges[k] == (u, v)
}

/// Marks `u` processed: lowers the count of every edge from `u`, and appends to `out`
/// each node whose count reaches zero, in edge order.
fn relax_edges(
    n: usize,
    edges: &Vec<(usize, usize)>,
    u: usize,
    indeg: &mut Vec<usize>,
    out: &mut Vec<usize>,
    Ghost(pre): Ghost<Seq<usize>>,
    Ghost(done): Ghost<Seq<usize>>,
)
    requires
        edges_within(n, edges@),
        old(indeg)@.len() == n,
        !done.contains(u),
        forall|a: usize| #[trigger] done.push(u).contains(a) ==> (pre + old(out)@).contains(a),
        (pre + old(out)@).no_duplicates(),
        forall|i: int| 0 <= i < (pre + old(out)@).len() ==> #[trigger] (pre + old(out)@)[i] < n,
        forall|x: usize| x < n ==> ((pre + old(out)@).contains(x) <==> #[trigger] old(indeg)@[x as int] == 0),
        forall|x: usize|
            x < n ==> #[trigger] old(indeg)@[x as int] == pending(edges@, done, x, edges@.len() as int),
    ensures
        final(indeg)@.len() == n,
        old(out)@.len() <= final(out)@.len(),
        final(out)@.subrange(0, old(out)@.len() as int) == old(out)@,
        (pre + final(out)@).no_duplicates(),
        forall|i: int| 0 <= i < (pre + final(out)@).len() ==> #[trigger] (pre + final(out)@)[i] < n,
        forall|x: usize| x < n ==> ((pre + final(out)@).contains(x) <==> #[trigger] final(indeg)@[x as int] == 0),
        forall|x: usize|
            x < n ==> #[trigger] final(indeg)@[x as int] == pending(edges@, done.push(u), x, edges@.len() as int),
        forall|x: int, k: int|
            old(out)@.len() <= x < final(out)@.len() && 0 <= k < edges@.len() && #[trigger] edges@[k].1
                == #[trigger] final(out)@[x] ==> done.push(u).contains(edges@[k].0),
        forall|x: int| old(out)@.len() <= x < final(out)@.len() ==> fed_by(edges@, u, #[trigger] final(out)@[x]),
        final(out)@ == old(out)@ + released(edges@, done.push(u), u, edges@.len() as int),
{
    let ne = edges.len();
    let ghost done2 = done.push(u);
    let ghost out0 = out@;
    proof {
        assert forall|x: usize| x < n implies #[trigger] pending(edges@, done2, x, ne as int) + edge_count(edges@, u, x, ne as int)
            == pending(edges@, done, x, ne as int) by {
            lemma_pending_step(edges@, done, u, x, ne as int);
        }
        assert(out@.subrange(0, out0.len() as int) =~= out0);
    }
    let mut k: usize = 0;
    while k < ne
        invariant
            k <= ne,
            ne == edges@.len(),
            indeg@.len() == n,
            edges_within(n, edges@),
            done2 == done.push(u),
            forall|a: usize| #[trigger] done2.contains(a) ==> (pre + out0).contains(a),
            out0.len() <= out@.len(),
            out@.subrange(0, out0.len() as int) == out0,
            (pre + out@).no_duplicates(),
            forall|i: int| 0 <= i < (pre + out@).len() ==> #[trigger] (pre + out@)[i] < n,
            forall|x: usize| x < n ==> ((pre + out@).contains(x) <==> #[trigger] indeg@[x as int] == 0),
            forall|x: usize|
                x < n ==> #[trigger] pending(edges@, done2, x, ne as int) + edge_count(edges@, u, x, ne as int)
                    == pending(edges@, done, x, ne as int),
            forall|x: usize|
                x < n ==> #[trigger] indeg@[x as int] + edge_count(edges@, u, x, k as int) == pending(
                    edges@,
                    done,
                    x,
                    ne as int,
                ),
            forall|x: int, k2: int|
                out0.len() <= x < out@.len() && 0 <= k2 < edges@.len() && #[trigger] edges@[k2].1
                    == #[trigger] out@[x] ==> done2.contains(edges@[k2].0),
            forall|x: int| out0.len() <= x < out@.len() ==> fed_by(edges@, u, #[trigger] out@[x]),
            out@ == out0 + released(edges@, done2, u, k as int),
        decreases ne - k,
    {
        let (a, b) = edges[k];
        let ghost out_k = out@;
        proof {
            assert(edges@[k as int].1 < n);
        }
        if a == u {
            proof {
                lemma_count_mono(edges@, u, b, k + 1, ne as int);
                assert(edge_count(edges@, u, b, k + 1) == edge_count(edges@, u, b, k as int) + 1);
                assert(indeg@[b as int] + edge_count(edges@, u, b, k as int) == pending(edges@, done, b, ne as int));
                assert(pending(edges@, done2, b, ne as int) + edge_count(edges@, u, b, ne as int)
                    == pending(edges@, done, b, ne as int));
            }
            let d = indeg[b] - 1;
            indeg.set(b, d);
            if d == 0 {
                let ghost o1 = out@;
                proof {
                    lemma_pending_zero(edges@, done2, b, ne as int);
                    assert(!(pre + o1).contains(b));
                }
                out.push(b);
                proof {
                    let q1 = pre + o1;
                    let q2 = pre + out@;
                    assert(q2 =~= q1.push(b));
                    assert(out@.subrange(0, out0.len() as int) =~= o1.subrange(0, out0.len() as int));
                    assert forall|i: int, j: int| 0 <= i < j < q2.len() implies q2[i] != q2[j] by {
                        if j == q1.len() {
                            assert(q1.contains(q1[i]));
                        }
                    }
                    assert forall|x: usize| x < n implies (q2.contains(x) <==> #[trigger] indeg@[x as int] == 0) by {
                        if x != b && q2.contains(x) {
                            let i = choose|i: int| 0 <= i < q2.len() && q2[i] == x;
                            assert(q1[i] == x);
                        }
                        if x != b && q1.contains(x) {
                            let i = choose|i: int| 0 <= i < q1.len() && q1[i] == x;
                            assert(q2[i] == x);
                        }
                        if x == b {
                            assert(q2[q1.len() as int] == x);
                        }
                    }
                    assert forall|x: int, k2: int|
                        out0.len() <= x < out@.len() && 0 <= k2 < edges@.len() && #[trigger] edges@[k2].1
                            == #[trigger] out@[x] implies done2.contains(edges@[k2].0) by {
                        if x < o1.len() {
                            assert(out@[x] == o1[x]);
                        }
                    }
                    assert forall|x: int| out0.len() <= x < out@.len() implies fed_by(edges@, u, #[trigger] out@[x]) by {
                        if x < o1.len() {
                            assert(out@[x] == o1[x]);
                        } else {
                            assert(edges@[k as int] == (u, b));
                        }
                    }
                }
            } else {
                proof {
                    lemma_count_mono(edges@, u, b, k + 1, ne as int);
                }
            }
            proof {
                lemma_count_mono(edges@, u, b, k + 1, ne as int);
                assert(out@ =~= out0 + released(edges@, done2, u, k + 1));
            }
        } else {
            proof {
                assert(out@ =~= out0 + released(edges@, done2, u, k + 1));
            }
        }
        k = k + 1;
    }
    proof {
        assert forall|x: usize| x < n implies #[trigger] indeg@[x as int] == pending(edges@, done2, x, ne as int) by {
            assert(pending(edges@, done2, x, ne as int) + edge_count(edges@, u, x, ne as int)
                == pending(edges@, done, x, ne as int));
        }
    }
}

/// Kahn's algorithm: the nodes in the order they become free of unprocessed
/// predecessors, ready nodes in the order they became ready (initially ascending).
/// Nodes on or behind a cycle are left out.
fn kahn(n: usize, edges: &Vec<(usize, usize)>) -> (order: Vec<usize>)
    requires
        edges_within(n, edges@),
    ensures
        order@.no_duplicates(),
        forall|i: int| 0 <= i < order@.len() ==> #[trigger] order@[i] < n,
        forall|k: int|
            0 <= k < edges@.len() && order@.contains(#[trigger] edges@[k].1) ==> before_in(
                order@,
                edges@[k].0,
                edges@[k].1,
            ),
        forall|v: usize|
            v < n && !order@.contains(v) ==> #[trigger] pending(edges@, order@, v, edges@.len() as int) > 0,
        source_nodes(edges@, n as int).len() <= order@.len(),
        order@.subrange(0, source_nodes(edges@, n as int).len() as int) == source_nodes(edges@, n as int),
        order@ == source_nodes(edges@, n as int) + released_between(edges@, order@, 0, order@.len() as int),
{
    let ne = edges.len();
    let ghost empty = Seq::<usize>::empty();
    let mut indeg = in_degrees(n, edges);
    let mut queue = ready_nodes(&indeg);
    let ghost q_init = queue@;
    proof {
        lemma_zero_positions_are_sources(indeg@, edges@, n as int);
        assert(queue@.subrange(0, q_init.len() as int) =~= q_init);
    }
    proof {
        assert forall|k: int| 0 <= k < edges@.len() && queue@.contains(#[trigger] edges@[k].1) implies before_in(
            queue@,
            edges@[k].0,
            edges@[k].1,
        ) by {
            let b = edges@[k].1;
            assert(b < n);
            lemma_pending_zero(edges@, empty, b, ne as int);
        }
        assert(queue@.subrange(0, 0) =~= empty);
    }
    let mut head: usize = 0;
    while head < queue.len()
        invariant
            head <= queue@.len(),
            empty == Seq::<usize>::empty(),
            q_init == source_nodes(edges@, n as int),
            q_init.len() <= queue@.len(),
            queue@.subrange(0, q_init.len() as int) == q_init,
            ne == edges@.len(),
            indeg@.len() == n,
            edges_within(n, edges@),
            queue@.no_duplicates(),
            forall|i: int| 0 <= i < queue@.len() ==> #[trigger] queue@[i] < n,
            forall|x: usize| x < n ==> (queue@.contains(x) <==> #[trigger] indeg@[x as int] == 0),
            forall|x: usize|
                x < n ==> #[trigger] indeg@[x as int] == pending(edges@, queue@.subrange(0, head as int), x, ne as int),
            forall|k: int|
                0 <= k < edges@.len() && queue@.contains(#[trigger] edges@[k].1) ==> before_in(
                    queue@,
                    edges@[k].0,
                    edges@[k].1,
                ),
            queue@ == q_init + released_between(edges@, queue@, 0, head as int),
        decreases n - head,
    {
        let u = queue[head];
        let ghost done = queue@.subrange(0, head as int);
        let ghost q0 = queue@;
        proof {
            assert(q0.subrange(0, head + 1) =~= done.push(u));
            assert(!done.contains(u)) by {
                if done.contains(u) {
                    let i = choose|i: int| 0 <= i < done.len() && done[i] == u;
                    assert(q0[i] == q0[head as int]);
                }
            }
            assert forall|a: usize| #[trigger] done.push(u).contains(a) implies (empty + q0).contains(a) by {
                let i = choose|i: int| 0 <= i < done.len() + 1 && done.push(u)[i] == a;
                assert(q0[i] == a);
            }
            assert(empty + q0 =~= q0);
            lemma_distinct_below(q0, n);
        }
        relax_edges(n, edges, u, &mut indeg, &mut queue, Ghost(empty), Ghost(done));
        proof {
            lemma_released_between_prefix(edges@, queue@, q0, 0, head as int);
            assert(queue@.take(head + 1) =~= done.push(u));
            assert(queue@[head as int] == u);
            assert(queue@ =~= q_init + released_between(edges@, queue@, 0, head + 1));
            assert(empty + queue@ =~= queue@);
            assert(queue@.subrange(0, q_init.len() as int) =~= q0.subrange(0, q_init.len() as int));
            assert(queue@.subrange(0, head + 1) =~= done.push(u));
            assert forall|k: int|
                0 <= k < edges@.len() && queue@.contains(#[trigger] edges@[k].1) implies before_in(
                    queue@,
                    edges@[k].0,
                    edges@[k].1,
                ) by {
                let b = edges@[k].1;
                let x = choose|x: int| 0 <= x < queue@.len() && queue@[x] == b;
                if x < q0.len() {
                    assert(q0[x] == b);
                    assert(before_in(q0, edges@[k].0, b));
                    let (i, j) = choose|i: int, j: int| 0 <= i < j < q0.len() && q0[i] == edges@[k].0 && q0[j] == b;
                    assert(queue@[i] == q0[i] && queue@[j] == q0[j]);
                } else {
                    assert(done.push(u).contains(edges@[k].0));
                    let i = choose|i: int| 0 <= i < done.len() + 1 && done.push(u)[i] == edges@[k].0;
                    assert(queue@[i] == edges@[k].0);
                }
            }
            lemma_distinct_below(queue@, n);
        }
        head = head + 1;
    }
    proof {
        assert(queue@.subrange(0, head as int) =~= queue@);
        assert forall|v: usize| v < n && !queue@.contains(v) implies #[trigger] pending(edges@, queue@, v, ne as int) > 0 by {
            assert(indeg@[v as int] != 0);
        }
    }
    queue
}

/// Orders nodes `0..n` so that every edge `(from, to)` has `from` first, by Kahn's
/// algorithm; fails with `Cycle` exactly when no such order exists. The order starts with
/// the nodes that no edge enters, ascending; then come, for each node of the order in
/// turn, the nodes its processing releases, in edge order.
pub fn topo_order(n: usize, edges: &Vec<(usize, usize)>) -> (r: Result<Vec<usize>, ScheduleError>)
    requires
        edges_within(n, edges@),
    ensures
        r matches Ok(o) ==> is_topo_order(n, edges@, o@),
        r is Err ==> r == Err::<Vec<usize>, ScheduleError>(ScheduleError::Cycle) && !acyclic(n, edges@),
        acyclic(n, edges@) <==> r is Ok,
        r matches Ok(o) ==> o@.subrange(0, source_nodes(edges@, n as int).len() as int) == source_nodes(edges@, n as int),
        r matches Ok(o) ==> o@ == source_nodes(edges@, n as int) + released_between(edges@, o@, 0, o@.len() as int),
{
    let order = kahn(n, edges);
    proof {
        lemma_distinct_below(order@, n);
    }
    if order.len() == n {
        proof {
            assert forall|k: int| 0 <= k < edges@.len() implies before_in(order@, #[trigger] edges@[k].0, edges@[k].1) by {
                assert(edges@[k].1 < n);
                assert(order@.contains(edges@[k].1));
            }
            assert(is_topo_order(n, edges@, order@));
        }
        Ok(order)
    } else {
        proof {
            let v0 = choose|v: usize| v < n && !order@.contains(v);
            assert forall|v: usize| v < n && !order@.contains(v) implies #[trigger] entered_from_outside(edges@, order@, v) by {
                assert(pending(edges@, order@, v, edges@.len() as int) > 0);
                let k = lemma_pending_pos(edges@, order@, v, edges@.len() as int);
                assert(edges@[k].1 == v);
            }
            assert forall|o: Seq<usize>| !is_topo_order(n, edges@, o) by {
                lemma_stuck_means_cycle(n, edges@, order@, v0, o);
            }
        }
        Err(ScheduleError::Cycle)
    }
}

/// Orders the stages so that every `after` / `before` constraint holds (Kahn's algorithm,
/// ready stages in declaration order). Fails on the first name that resolves to no stage,
/// and with `Cycle` exactly when the constraints admit no order.
pub fn schedule_order(stages: &[StageDecl]) -> (r: Result<Vec<usize>, ScheduleError>)
    ensures
        spec_stage_edges(stages@) matches Err(e) ==> r == Err::<Vec<usize>, ScheduleError>(e),
        spec_stage_edges(stages@) matches Ok(es) ==> {
            &&& (r is Ok <==> acyclic(stages@.len() as usize, es))
            &&& (r matches Ok(o) ==> is_topo_order(stages@.len() as usize, es, o@))
            &&& (r matches Ok(o) ==> o@.subrange(0, source_nodes(es, stages@.len() as int).len() as int)
                == source_nodes(es, stages@.len() as int))
            &&& (r matches Ok(o) ==> o@ == source_nodes(es, stages@.len() as int) + released_between(
                es,
                o@,
                0,
                o@.len() as int,
            ))
            &&& (r is Err ==> r == Err::<Vec<usize>, ScheduleError>(ScheduleError::Cycle))
        },
{
    let edges = stage_edges(stages)?;
    topo_order(stages.len(), &edges)
}

// ---------------------------------------------------------------------------
// Layers of stages
// ---------------------------------------------------------------------------

/// The views of a list of index lists.
pub open spec fn seq_views(v: Seq<Vec<usize>>) -> Seq<Seq<usize>> {
    v.map_values(|g: Vec<usize>| g@)
}

/// Some group before group `g` holds `a`.
pub open spec fn in_earlier_group(gs: Seq<Seq<usize>>, g: int, a: usize) -> bool {
    exists|g2: int, y: int| 0 <= g2 < g && 0 <= y < gs[g2].len() && gs[g2][y] == a
}

/// Some node of `grp` has an edge to `v`.
pub open spec fn fed_from_group(edges: Seq<(usize, usize)>, grp: Seq<usize>, v: usize) -> bool {
    exists|y: int| 0 <= y < grp.len() && #[trigger] fed_by(edges, grp[y], v)
}

/// Some edge enters `v` from a node that no group holds.
pub open spec fn entered_from_unplaced(edges: Seq<(usize, usize)>, gs: Seq<Seq<usize>>, v: usize) -> bool {
    exists|k: int| 0 <= k < edges.len() && (#[trigger] edges[k]).1 == v && !placed(gs, edges[k].0 as int)
}

/// `gs` layers the nodes below `n` along `edges`: groups are non-empty and hold distinct
/// nodes below `n`; every edge into a grouped node leaves a node of an earlier group;
/// every node after the first group has an edge from the group just before it; and every
/// node left out has an edge from another node left out (it lies on or behind a cycle).
/// So a node's group is the length of the longest path that ends in it.
pub open spec fn is_layering(n: usize, edges: Seq<(usize, usize)>, gs: Seq<Seq<usize>>) -> bool {
    &&& forall|g: int| 0 <= g < gs.len() ==> #[trigger] gs[g].len() > 0
    &&& forall|g: int, x: int| 0 <= g < gs.len() && 0 <= x < gs[g].len() ==> #[trigger] gs[g][x] < n
    &&& forall|g1: int, x1: int, g2: int, x2: int|
        0 <= g1 < gs.len() && 0 <= x1 < gs[g1].len() && 0 <= g2 < gs.len() && 0 <= x2 < gs[g2].len()
            && #[trigger] gs[g1][x1] == #[trigger] gs[g2][x2] ==> g1 == g2 && x1 == x2
    &&& forall|k: int, g: int, x: int|
        0 <= k < edges.len() && 0 <= g < gs.len() && 0 <= x < gs[g].len() && #[trigger] edges[k].1
            == #[trigger] gs[g][x] ==> in_earlier_group(gs, g, edges[k].0)
    &&& forall|g: int, x: int|
        0 < g < gs.len() && 0 <= x < gs[g].len() ==> #[trigger] fed_from_group(edges, gs[g - 1], gs[g][x])
    &&& forall|v: usize| v < n && !placed(gs, v as int) ==> #[trigger] entered_from_unplaced(edges, gs, v)
}

/// The position at which group `g` starts among the groups' nodes.
pub open spec fn group_start(gs: Seq<Seq<usize>>, g: int) -> int {
    flatten_groups(gs, g).len() as int
}

/// Processing the groups' nodes in order, the nodes of each group release exactly the
/// next group, in order, and those of the last group release none.
pub open spec fn groups_release_next(edges: Seq<(usize, usize)>, gs: Seq<Seq<usize>>) -> bool {
    forall|g: int|
        0 <= g < gs.len() ==> #[trigger] released_between(
            edges,
            flatten_groups(gs, gs.len() as int),
            group_start(gs, g),
            group_start(gs, g + 1),
        ) == if g + 1 < gs.len() {
            gs[g + 1]
        } else {
            Seq::<usize>::empty()
        }
}

proof fn lemma_group_start_within(gs: Seq<Seq<usize>>, g: int)
    requires
        0 <= g <= gs.len(),
    ensures
        0 <= group_start(gs, g) <= flatten_groups(gs, gs.len() as int).len(),
        g < gs.len() ==> group_start(gs, g + 1) == group_start(gs, g) + gs[g].len(),
{
    lemma_flatten_len_mono(gs, g, gs.len() as int);
}

proof fn lemma_flatten_push(gs: Seq<Seq<usize>>, c: Seq<usize>, g: int)
    requires
        0 <= g <= gs.len(),
    ensures
        flatten_groups(gs.push(c), g) == flatten_groups(gs, g),
    decreases g,
{
    if g > 0 {
        lemma_flatten_push(gs, c, g - 1);
        assert(gs.push(c)[g - 1] == gs[g - 1]);
    }
}

/// `gs` is the grouping that layering by Kahn's algorithm gives: a layering whose first
/// group holds the nodes no edge enters, ascending, where the nodes of each group release
/// exactly the next group. With no cycle, every node is placed.
pub open spec fn is_kahn_grouping(n: usize, edges: Seq<(usize, usize)>, gs: Seq<Seq<usize>>) -> bool {
    &&& is_layering(n, edges, gs)
    &&& acyclic(n, edges) ==> forall|v: usize| v < n ==> #[trigger] placed(gs, v as int)
    &&& gs.len() > 0 ==> gs[0] == source_nodes(edges, n as int)
    &&& gs.len() == 0 ==> source_nodes(edges, n as int).len() == 0
    &&& groups_release_next(edges, gs)
}

proof fn lemma_release_step(
    edges: Seq<(usize, usize)>,
    gs0: Seq<Seq<usize>>,
    fl0: Seq<usize>,
    c0: Seq<usize>,
    nx: Seq<usize>,
)
    requires
        fl0 == flatten_groups(gs0, gs0.len() as int),
        forall|g: int|
            0 <= g < gs0.len() ==> #[trigger] released_between(
                edges,
                fl0 + c0,
                group_start(gs0, g),
                group_start(gs0, g + 1),
            ) == if g + 1 < gs0.len() {
                gs0[g + 1]
            } else {
                c0
            },
        nx == released_between(edges, fl0 + c0, fl0.len() as int, fl0.len() + c0.len() as int),
    ensures
        flatten_groups(gs0.push(c0), gs0.len() + 1int) == fl0 + c0,
        forall|g: int|
            0 <= g < gs0.len() + 1 ==> #[trigger] released_between(
                edges,
                fl0 + c0 + nx,
                group_start(gs0.push(c0), g),
                group_start(gs0.push(c0), g + 1),
            ) == if g + 1 < gs0.len() + 1 {
                gs0.push(c0)[g + 1]
            } else {
                nx
            },
{
    let gs1 = gs0.push(c0);
    lemma_flatten_push(gs0, c0, gs0.len() as int);
    assert(gs1[gs0.len() as int] == c0);
    assert forall|g: int| 0 <= g < gs1.len() implies #[trigger] released_between(
        edges,
        fl0 + c0 + nx,
        group_start(gs1, g),
        group_start(gs1, g + 1),
    ) == if g + 1 < gs1.len() {
        gs1[g + 1]
    } else {
        nx
    } by {
        if g < gs0.len() {
            lemma_flatten_push(gs0, c0, g);
            lemma_flatten_push(gs0, c0, g + 1);
            lemma_group_start_within(gs0, g);
            lemma_group_start_within(gs0, g + 1);
            lemma_released_between_prefix(
                edges,
                fl0 + c0 + nx,
                fl0 + c0,
                group_start(gs0, g),
                group_start(gs0, g + 1),
            );
            if g + 1 < gs0.len() {
                assert(gs1[g + 1] == gs0[g + 1]);
            }
        } else {
            lemma_released_between_prefix(
                edges,
                fl0 + c0 + nx,
                fl0 + c0,
                fl0.len() as int,
                fl0.len() + c0.len() as int,
            );
        }
    }
}

/// Groups the nodes below `n` into layers: first the nodes without incoming edges, then
/// those whose last predecessor is in the previous layer, and so on. Nodes on or behind
/// a cycle are left out, so with no cycle every node is placed.
#[verifier::loop_isolation(false)]
#[verifier::spinoff_prover]
#[verifier::rlimit(40)]
pub fn topo_groups(n: usize, edges: &Vec<(usize, usize)>) -> (r: Vec<Vec<usize>>)
    requires
        edges_within(n, edges@),
    ensures
        is_layering(n, edges@, seq_views(r@)),
        acyclic(n, edges@) ==> forall|v: usize| v < n ==> #[trigger] placed(seq_views(r@), v as int),
        r@.len() > 0 ==> r@[0]@ == source_nodes(edges@, n as int),
        r@.len() == 0 ==> source_nodes(edges@, n as int).len() == 0,
        groups_release_next(edges@, seq_views(r@)),
        is_kahn_grouping(n, edges@, seq_views(r@)),
{
    let ne = edges.len();
    let mut indeg = in_degrees(n, edges);
    let mut cur = ready_nodes(&indeg);
    let ghost src = cur@;
    proof {
        lemma_zero_positions_are_sources(indeg@, edges@, n as int);
    }
    let mut groups: Vec<Vec<usize>> = Vec::new();
    let ghost mut flat: Seq<usize> = Seq::empty();
    proof {
        assert(flat + cur@ =~= cur@);
        assert forall|k: int, x: int|
            0 <= k < edges@.len() && 0 <= x < cur@.len() && #[trigger] edges@[k].1 == #[trigger] cur@[x] implies flat.contains(
            edges@[k].0) by {
            assert(cur@.contains(cur@[x]));
            lemma_pending_zero(edges@, flat, cur@[x], ne as int);
        }
        assert(seq_views(groups@) =~= Seq::<Seq<usize>>::empty());
    }
    while cur.len() > 0
        invariant
            ne == edges@.len(),
            indeg@.len() == n,
            edges_within(n, edges@),
            (flat + cur@).no_duplicates(),
            forall|i: int| 0 <= i < (flat + cur@).len() ==> #[trigger] (flat + cur@)[i] < n,
            forall|x: usize| x < n ==> ((flat + cur@).contains(x) <==> #[trigger] indeg@[x as int] == 0),
            forall|x: usize| x < n ==> #[trigger] indeg@[x as int] == pending(edges@, flat, x, ne as int),
            forall|v: usize| flat.contains(v) <==> #[trigger] placed(seq_views(groups@), v as int),
            groups@.len() == 0 ==> flat.len() == 0,
            src == source_nodes(edges@, n as int),
            groups@.len() == 0 ==> cur@ == src,
            groups@.len() > 0 ==> groups@[0]@ == src,
            forall|k: int, x: int|
                0 <= k < edges@.len() && 0 <= x < cur@.len() && #[trigger] edges@[k].1 == #[trigger] cur@[x]
                    ==> flat.contains(edges@[k].0),
            groups@.len() > 0 ==> forall|x: int|
                0 <= x < cur@.len() ==> #[trigger] fed_from_group(edges@, groups@.last()@, cur@[x]),
            flat == flatten_groups(seq_views(groups@), groups@.len() as int),
            forall|g: int|
                0 <= g < groups@.len() ==> #[trigger] released_between(
                    edges@,
                    flat + cur@,
                    group_start(seq_views(groups@), g),
                    group_start(seq_views(groups@), g + 1),
                ) == if g + 1 < groups@.len() {
                    seq_views(groups@)[g + 1]
                } else {
                    cur@
                },
            ({
                let gs = seq_views(groups@);
                &&& forall|g: int| 0 <= g < gs.len() ==> #[trigger] gs[g].len() > 0
                &&& forall|g: int, x: int| 0 <= g < gs.len() && 0 <= x < gs[g].len() ==> #[trigger] gs[g][x] < n
                &&& forall|g1: int, x1: int, g2: int, x2: int|
                    0 <= g1 < gs.len() && 0 <= x1 < gs[g1].len() && 0 <= g2 < gs.len() && 0 <= x2 < gs[g2].len()
                        && #[trigger] gs[g1][x1] == #[trigger] gs[g2][x2] ==> g1 == g2 && x1 == x2
                &&& forall|k: int, g: int, x: int|
                    0 <= k < edges@.len() && 0 <= g < gs.len() && 0 <= x < gs[g].len() && #[trigger] edges@[k].1
                        == #[trigger] gs[g][x] ==> in_earlier_group(gs, g, edges@[k].0)
                &&& forall|g: int, x: int|
                    0 < g < gs.len() && 0 <= x < gs[g].len() ==> #[trigger] fed_from_group(edges@, gs[g - 1], gs[g][x])
            }),
        decreases n - flat.len(),
    {
        let ghost gs0 = seq_views(groups@);
        let ghost g_old = groups@;
        let mut next: Vec<usize> = Vec::new();
        let mut idx: usize = 0;
        proof {
            assert(cur@.take(0) =~= Seq::<usize>::empty());
            assert(flat + cur@.take(0) =~= flat);
            assert(flat + cur@ + next@ =~= flat + cur@);
        }
        while idx < cur.len()
            invariant
                ne == edges@.len(),
                indeg@.len() == n,
                edges_within(n, edges@),
                idx <= cur@.len(),
                (flat + cur@ + next@).no_duplicates(),
                forall|i: int| 0 <= i < (flat + cur@ + next@).len() ==> #[trigger] (flat + cur@ + next@)[i] < n,
                forall|x: usize| x < n ==> ((flat + cur@ + next@).contains(x) <==> #[trigger] indeg@[x as int] == 0),
                forall|x: usize|
                    x < n ==> #[trigger] indeg@[x as int] == pending(edges@, flat + cur@.take(idx as int), x, ne as int),
                forall|k: int, x: int|
                    0 <= k < edges@.len() && 0 <= x < next@.len() && #[trigger] edges@[k].1 == #[trigger] next@[x]
                        ==> (flat + cur@).contains(edges@[k].0),
                forall|x: int| 0 <= x < next@.len() ==> #[trigger] fed_from_group(edges@, cur@, next@[x]),
                next@ == released_between(edges@, flat + cur@, flat.len() as int, flat.len() + idx),
            decreases cur@.len() - idx,
        {
            let u = cur[idx];
            let ghost done = flat + cur@.take(idx as int);
            let ghost pre = flat + cur@;
            let ghost n0 = next@;
            proof {
                assert(done.push(u) =~= flat + cur@.take(idx + 1));
                assert(pre[flat.len() + idx] == u);
                assert(!done.contains(u)) by {
                    if done.contains(u) {
                        let i = choose|i: int| 0 <= i < done.len() && done[i] == u;
                        assert(pre[i] == done[i]);
                        assert((pre + n0)[i] == (pre + n0)[flat.len() + idx]);
                    }
                }
                assert forall|a: usize| #[trigger] done.push(u).contains(a) implies (pre + n0).contains(a) by {
                    let i = choose|i: int| 0 <= i < done.len() + 1 && done.push(u)[i] == a;
                    assert((pre + n0)[i] == a);
                }
                assert(flat + cur@ + n0 =~= pre + n0);
            }
            relax_edges(n, edges, u, &mut indeg, &mut next, Ghost(pre), Ghost(done));
            proof {
                assert(pre.take(flat.len() + idx + 1) =~= done.push(u));
                assert(next@ =~= released_between(edges@, pre, flat.len() as int, flat.len() + idx + 1));
                assert(flat + cur@ + next@ =~= pre + next@);
                assert forall|k: int, x: int|
                    0 <= k < edges@.len() && 0 <= x < next@.len() && #[trigger] edges@[k].1 == #[trigger] next@[x]
                        implies (flat + cur@).contains(edges@[k].0) by {
                    if x < n0.len() {
                        assert(next@[x] == n0[x]);
                    } else {
                        assert(done.push(u).contains(edges@[k].0));
                        let i = choose|i: int| 0 <= i < done.len() + 1 && done.push(u)[i] == edges@[k].0;
                        assert(pre[i] == edges@[k].0);
                    }
                }
                assert forall|x: int| 0 <= x < next@.len() implies #[trigger] fed_from_group(edges@, cur@, next@[x]) by {
                    if x < n0.len() {
                        assert(next@[x] == n0[x]);
                    } else {
                        assert(fed_by(edges@, u, next@[x]));
                        assert(cur@[idx as int] == u);
                    }
                }
            }
            idx = idx + 1;
        }
        let ghost c0 = cur@;
        let ghost nx = next@;
        proof {
            assert(c0.take(c0.len() as int) =~= c0);
            lemma_distinct_below(flat + c0, n);
        }
        groups.push(cur);
        let ghost gs1 = seq_views(groups@);
        proof {
            assert(gs1 =~= gs0.push(c0));
            assert(gs1[gs0.len() as int] == c0);
            let fl = flat + c0;
            assert(flat + c0 + nx =~= fl + nx);
            assert forall|v: usize| fl.contains(v) <==> #[trigger] placed(gs1, v as int) by {
                if fl.contains(v) {
                    let i = choose|i: int| 0 <= i < fl.len() && fl[i] == v;
                    if i < flat.len() {
                        assert(flat[i] == v);
                        assert(flat.contains(v));
                        assert(placed(gs0, v as int));
                        let (b, x) = choose|b: int, x: int| 0 <= b < gs0.len() && 0 <= x < gs0[b].len() && gs0[b][x] == v;
                        assert(gs1[b][x] == v);
                    } else {
                        assert(gs1[gs0.len() as int][i - flat.len()] == v);
                    }
                }
                if placed(gs1, v as int) {
                    let (b, x) = choose|b: int, x: int| 0 <= b < gs1.len() && 0 <= x < gs1[b].len() && gs1[b][x] == v;
                    if b < gs0.len() {
                        assert(gs0[b][x] == v);
                        assert(placed(gs0, v as int));
                        assert(flat.contains(v));
                        let i = choose|i: int| 0 <= i < flat.len() && flat[i] == v;
                        assert(fl[i] == v);
                    } else {
                        assert(fl[flat.len() + x] == v);
                    }
                }
            }
            // c0's nodes are not in earlier groups
            assert forall|x: int| 0 <= x < c0.len() implies !placed(gs0, #[trigger] c0[x] as int) by {
                if placed(gs0, c0[x] as int) {
                    assert(flat.contains(c0[x]));
                    let i = choose|i: int| 0 <= i < flat.len() && flat[i] == c0[x];
                    assert(fl[i] == fl[flat.len() + x]);
                }
            }
            assert forall|g: int| 0 <= g < gs1.len() implies #[trigger] gs1[g].len() > 0 by {
                if g < gs0.len() {
                    assert(gs1[g] == gs0[g]);
                }
            }
            assert forall|g: int, x: int| 0 <= g < gs1.len() && 0 <= x < gs1[g].len() implies #[trigger] gs1[g][x] < n by {
                if g < gs0.len() {
                    assert(gs1[g] == gs0[g]);
                } else {
                    assert(fl[flat.len() + x] == c0[x]);
                }
            }
            assert forall|g1: int, x1: int, g2: int, x2: int|
                0 <= g1 < gs1.len() && 0 <= x1 < gs1[g1].len() && 0 <= g2 < gs1.len() && 0 <= x2 < gs1[g2].len()
                    && #[trigger] gs1[g1][x1] == #[trigger] gs1[g2][x2] implies g1 == g2 && x1 == x2 by {
                if g1 < gs0.len() && g2 < gs0.len() {
                    assert(gs0[g1][x1] == gs0[g2][x2]);
                } else if g1 < gs0.len() {
                    assert(gs1[g2][x2] == c0[x2]);
                    assert(!placed(gs0, c0[x2] as int));
                    assert(gs0[g1][x1] == c0[x2]);
                } else if g2 < gs0.len() {
                    assert(gs1[g1][x1] == c0[x1]);
                    assert(!placed(gs0, c0[x1] as int));
                    assert(gs0[g2][x2] == c0[x1]);
                } else {
                    assert(fl[flat.len() + x1] == fl[flat.len() + x2]);
                }
            }
            assert forall|k: int, g: int, x: int|
                0 <= k < edges@.len() && 0 <= g < gs1.len() && 0 <= x < gs1[g].len() && #[trigger] edges@[k].1
                    == #[trigger] gs1[g][x] implies in_earlier_group(gs1, g, edges@[k].0) by {
                if g < gs0.len() {
                    assert(gs0[g][x] == gs1[g][x]);
                    assert(in_earlier_group(gs0, g, edges@[k].0));
                    let (g2, y) = choose|g2: int, y: int| 0 <= g2 < g && 0 <= y < gs0[g2].len() && gs0[g2][y] == edges@[k].0;
                    assert(gs1[g2][y] == edges@[k].0);
                } else {
                    assert(gs1[g][x] == c0[x]);
                    assert(flat.contains(edges@[k].0));
                    assert(placed(gs0, edges@[k].0 as int));
                    let (g2, y) = choose|g2: int, y: int| 0 <= g2 < gs0.len() && 0 <= y < gs0[g2].len() && gs0[g2][y] == edges@[k].0;
                    assert(gs1[g2][y] == edges@[k].0);
                }
            }
            assert forall|g: int, x: int|
                0 < g < gs1.len() && 0 <= x < gs1[g].len() implies #[trigger] fed_from_group(edges@, gs1[g - 1], gs1[g][x]) by {
                if g < gs0.len() {
                    assert(gs1[g] == gs0[g] && gs1[g - 1] == gs0[g - 1]);
                } else {
                    assert(gs1[g - 1] == gs0.last());
                    assert(gs0.last() == g_old.last()@);
                    assert(gs1[g][x] == c0[x]);
                    assert(fed_from_group(edges@, g_old.last()@, c0[x]));
                }
            }
            assert(groups@.last()@ == c0);
            // the new group releases the nodes of `next`, and earlier groups keep theirs
            lemma_release_step(edges@, gs0, flat, c0, nx);
            assert(gs1 == gs0.push(c0));
        }
        proof {
            flat = flat + c0;
        }
        cur = next;
    }
    proof {
        let gs = seq_views(groups@);
        assert(flat + cur@ =~= flat);
        assert forall|g: int| 0 <= g < gs.len() implies #[trigger] released_between(
            edges@,
            flatten_groups(gs, gs.len() as int),
            group_start(gs, g),
            group_start(gs, g + 1),
        ) == if g + 1 < gs.len() {
            gs[g + 1]
        } else {
            Seq::<usize>::empty()
        } by {
            assert(cur@ =~= Seq::<usize>::empty());
        }
        assert forall|v: usize| v < n && !placed(gs, v as int) implies #[trigger] entered_from_unplaced(edges@, gs, v) by {
            assert(!flat.contains(v));
            assert(indeg@[v as int] != 0);
            let k = lemma_pending_pos(edges@, flat, v, ne as int);
            assert(!placed(gs, edges@[k].0 as int));
        }
        if exists|v: usize| v < n && !placed(gs, v as int) {
            let v0 = choose|v: usize| v < n && !placed(gs, v as int);
            assert forall|v: usize| v < n && !flat.contains(v) implies #[trigger] entered_from_outside(edges@, flat, v) by {
                assert(entered_from_unplaced(edges@, gs, v));
                let k = choose|k: int| 0 <= k < edges@.len() && (#[trigger] edges@[k]).1 == v && !placed(gs, edges@[k].0 as int);
                assert(!flat.contains(edges@[k].0));
            }
            assert forall|o: Seq<usize>| !is_topo_order(n, edges@, o) by {
                lemma_stuck_means_cycle(n, edges@, flat, v0, o);
            }
        }
    }
    groups
}

/// The stage names of each group.
pub fn group_names(names: &Vec<String>, groups: &Vec<Vec<usize>>) -> (r: Vec<Vec<String>>)
    requires
        forall|g: int, x: int|
            0 <= g < groups@.len() && 0 <= x < groups@[g]@.len() ==> #[trigger] groups@[g]@[x] < names@.len(),
    ensures
        r@.len() == groups@.len(),
        forall|g: int| 0 <= g < r@.len() ==> (#[trigger] r@[g])@.len() == groups@[g]@.len(),
        forall|g: int, x: int|
            0 <= g < r@.len() && 0 <= x < r@[g]@.len() ==> (#[trigger] r@[g]@[x])@ == names@[groups@[g]@[x] as int]@,
{
    let mut r: Vec<Vec<String>> = Vec::new();
    let mut g: usize = 0;
    while g < groups.len()
        invariant
            g <= groups@.len(),
            r@.len() == g,
            forall|g: int, x: int|
                0 <= g < groups@.len() && 0 <= x < groups@[g]@.len() ==> #[trigger] groups@[g]@[x] < names@.len(),
            forall|h: int| 0 <= h < g ==> (#[trigger] r@[h])@.len() == groups@[h]@.len(),
            forall|h: int, x: int|
                0 <= h < g && 0 <= x < r@[h]@.len() ==> (#[trigger] r@[h]@[x])@ == names@[groups@[h]@[x] as int]@,
        decreases groups@.len() - g,
    {
        let grp = &groups[g];
        let mut layer: Vec<String> = Vec::new();
        let mut x: usize = 0;
        while x < grp.len()
            invariant
                x <= grp@.len(),
                grp == groups@[g as int],
                g < groups@.len(),
                layer@.len() == x,
                forall|g: int, x: int|
                    0 <= g < groups@.len() && 0 <= x < groups@[g]@.len() ==> #[trigger] groups@[g]@[x] < names@.len(),
                forall|y: int| 0 <= y < x ==> (#[trigger] layer@[y])@ == names@[grp@[y] as int]@,
            decreases grp@.len() - x,
        {
            let i = grp[x];
            assert(groups@[g as int]@[x as int] == i);
            layer.push(names[i].clone());
            x = x + 1;
        }
        r.push(layer);
        g = g + 1;
    }
    r
}

/// `gn` names the stages of the index groups `gs`, group by group.
pub open spec fn names_grouped(stages: Seq<StageDecl>, gs: Seq<Seq<usize>>, gn: Seq<Vec<String>>) -> bool {
    &&& gn.len() == gs.len()
    &&& forall|g: int| 0 <= g < gn.len() ==> (#[trigger] gn[g])@.len() == gs[g].len()
    &&& forall|g: int, x: int|
        0 <= g < gn.len() && 0 <= x < gn[g]@.len() ==> (#[trigger] gn[g]@[x])@ == stages[gs[g][x] as int].name@
}

/// The stages grouped into layers by name, as `topo_groups` places them.
pub fn stage_groups(stages: &[StageDecl]) -> (r: Result<Vec<Vec<String>>, ScheduleError>)
    ensures
        spec_stage_edges(stages@) matches Err(e) ==> r == Err::<Vec<Vec<String>>, ScheduleError>(e),
        spec_stage_edges(stages@) is Ok ==> r is Ok,
        spec_stage_edges(stages@) matches Ok(es) ==> (r matches Ok(gn) ==> exists|gs: Seq<Seq<usize>>|
            #[trigger] is_kahn_grouping(stages@.len() as usize, es, gs) && names_grouped(stages@, gs, gn@)),
{
    let edges = stage_edges(stages)?;
    let groups = topo_groups(stages.len(), &edges);
    let mut names: Vec<String> = Vec::new();
    let mut i: usize = 0;
    while i < stages.len()
        invariant
            i <= stages@.len(),
            names@.len() == i,
            forall|j: int| 0 <= j < i ==> (#[trigger] names@[j])@ == stages@[j].name@,
        decreases stages@.len() - i,
    {
        names.push(stages[i].name.clone());
        i = i + 1;
    }
    proof {
        let gs = seq_views(groups@);
        assert forall|g: int, x: int|
            0 <= g < groups@.len() && 0 <= x < groups@[g]@.len() implies #[trigger] groups@[g]@[x] < names@.len() by {
            assert(gs[g][x] == groups@[g]@[x]);
        }
    }
    let gn = group_names(&names, &groups);
    proof {
        let gs = seq_views(groups@);
        assert forall|g: int| 0 <= g < gn@.len() implies (#[trigger] gn@[g])@.len() == gs[g].len() by {}
        assert forall|g: int, x: int| 0 <= g < gn@.len() && 0 <= x < gn@[g]@.len() implies (
        #[trigger] gn@[g]@[x])@ == stages@[gs[g][x] as int].name@ by {
            assert(gs[g][x] == groups@[g]@[x]);
        }
        assert(names_grouped(stages@, gs, gn@));
        assert(spec_stage_edges(stages@)->Ok_0 == edges@);
        assert(is_kahn_grouping(stages@.len() as usize, edges@, gs));
    }
    Ok(gn)
}

// ---------------------------------------------------------------------------
// System resources
// ---------------------------------------------------------------------------

/// A resource type named by this last path segment lives on the GPU.
pub open spec fn is_gpu_resource_seq(seg: Seq<char>) -> bool {
    seg == "GpuBuffer"@ || seg == "GpuImage"@
}

/// Whether a resource type, by the last segment of its path, is a GPU resource
/// (`GpuBuffer<..>` or `GpuImage<..>`); other types are CPU resources.
pub fn is_gpu_resource(seg: &str) -> (r: bool)
    ensures
        r == is_gpu_resource_seq(seg@),
{
    str_eq(seg, "GpuBuffer") || str_eq(seg, "GpuImage")
}

/// The positions of the CPU resources and of the GPU resources among `segs`, each in
/// order.
pub fn split_resources(segs: &Vec<String>) -> (r: (Vec<usize>, Vec<usize>))
    ensures
        ascending(r.0@),
        ascending(r.1@),
        forall|x: int| 0 <= x < r.0@.len() ==> #[trigger] r.0@[x] < segs@.len(),
        forall|x: int| 0 <= x < r.1@.len() ==> #[trigger] r.1@[x] < segs@.len(),
        forall|i: usize| i < segs@.len() ==> (r.0@.contains(i) <==> !is_gpu_resource_seq(#[trigger] segs@[i as int]@)),
        forall|i: usize| i < segs@.len() ==> (r.1@.contains(i) <==> is_gpu_resource_seq(#[trigger] segs@[i as int]@)),
{
    let mut cpu: Vec<usize> = Vec::new();
    let mut gpu: Vec<usize> = Vec::new();
    let mut i: usize = 0;
    while i < segs.len()
        invariant
            i <= segs@.len(),
            ascending(cpu@),
            ascending(gpu@),
            forall|x: int| 0 <= x < cpu@.len() ==> #[trigger] cpu@[x] < i,
            forall|x: int| 0 <= x < gpu@.len() ==> #[trigger] gpu@[x] < i,
            forall|j: usize| j < segs@.len() ==> (cpu@.contains(j) <==> j < i && !is_gpu_resource_seq(#[trigger] segs@[j as int]@)),
            forall|j: usize| j < segs@.len() ==> (gpu@.contains(j) <==> j < i && is_gpu_resource_seq(#[trigger] segs@[j as int]@)),
        decreases segs@.len() - i,
    {
        let ghost c0 = cpu@;
        let ghost g0 = gpu@;
        let seg: &str = segs[i].as_str();
        if is_gpu_resource(seg) {
            gpu.push(i);
        } else {
            cpu.push(i);
        }
        proof {
            assert forall|j: usize| j < segs@.len() implies (cpu@.contains(j) <==> j < i + 1 && !is_gpu_resource_seq(#[trigger] segs@[j as int]@)) by {
                if cpu@.contains(j) {
                    let x = choose|x: int| 0 <= x < cpu@.len() && cpu@[x] == j;
                    if x < c0.len() {
                        assert(c0[x] == j);
                    }
                }
                if j < i && c0.contains(j) {
                    let x = choose|x: int| 0 <= x < c0.len() && c0[x] == j;
                    assert(cpu@[x] == j);
                }
                if j == i && !is_gpu_resource_seq(segs@[j as int]@) {
                    assert(cpu@[c0.len() as int] == j);
                }
            }
            assert forall|j: usize| j < segs@.len() implies (gpu@.contains(j) <==> j < i + 1 && is_gpu_resource_seq(#[trigger] segs@[j as int]@)) by {
                if gpu@.contains(j) {
                    let x = choose|x: int| 0 <= x < gpu@.len() && gpu@[x] == j;
                    if x < g0.len() {
                        assert(g0[x] == j);
                    }
                }
                if j < i && g0.contains(j) {
                    let x = choose|x: int| 0 <= x < g0.len() && g0[x] == j;
                    assert(gpu@[x] == j);
                }
                if j == i && is_gpu_resource_seq(segs@[j as int]@) {
                    assert(gpu@[g0.len() as int] == j);
                }
            }
        }
        i = i + 1;
    }
    (cpu, gpu)
}

/// The nodes of the first `m` groups, group after group.
pub open spec fn flatten_groups(gs: Seq<Seq<usize>>, m: int) -> Seq<usize>
    decreases m,
{
    if m <= 0 {
        Seq::empty()
    } else {
        flatten_groups(gs, m - 1) + gs[m - 1]
    }
}

proof fn lemma_flatten_len_mono(gs: Seq<Seq<usize>>, g: int, m: int)
    requires
        0 <= g <= m,
    ensures
        flatten_groups(gs, g).len() <= flatten_groups(gs, m).len(),
        g < m ==> flatten_groups(gs, g).len() + gs[g].len() <= flatten_groups(gs, m).len(),
    decreases m - g,
{
    if g < m {
        lemma_flatten_len_mono(gs, g, m - 1);
        if g == m - 1 {
        }
    }
}

/// Node `x` of group `g` stands at position (length of the earlier groups) + `x`.
proof fn lemma_flatten_at(gs: Seq<Seq<usize>>, m: int, g: int, x: int)
    requires
        0 <= g < m <= gs.len(),
        0 <= x < gs[g].len(),
    ensures
        flatten_groups(gs, g).len() + x < flatten_groups(gs, m).len(),
        flatten_groups(gs, m)[flatten_groups(gs, g).len() + x] == gs[g][x],
    decreases m,
{
    lemma_flatten_len_mono(gs, g, m);
    if g < m - 1 {
        lemma_flatten_at(gs, m - 1, g, x);
        lemma_flatten_len_mono(gs, g + 1, m - 1);
    }
}

/// Every position of the flattened groups holds node `x` of some group `g`.
proof fn lemma_flatten_from(gs: Seq<Seq<usize>>, m: int, p: int) -> (gx: (int, int))
    requires
        0 <= m <= gs.len(),
        0 <= p < flatten_groups(gs, m).len(),
    ensures
        0 <= gx.0 < m,
        0 <= gx.1 < gs[gx.0].len(),
        p == flatten_groups(gs, gx.0).len() + gx.1,
        flatten_groups(gs, m)[p] == gs[gx.0][gx.1],
    decreases m,
{
    let prev = flatten_groups(gs, m - 1);
    if p < prev.len() {
        let gx = lemma_flatten_from(gs, m - 1, p);
        lemma_flatten_at(gs, m, gx.0, gx.1);
        gx
    } else {
        (m - 1, p - prev.len())
    }
}

/// Listing the layers of a layering one after the other gives a topological order, when
/// the layers place every node.
pub proof fn law_layers_give_topo_order(n: usize, edges: Seq<(usize, usize)>, gs: Seq<Seq<usize>>)
    requires
        edges_within(n, edges),
        is_layering(n, edges, gs),
        forall|v: usize| v < n ==> #[trigger] placed(gs, v as int),
    ensures
        is_topo_order(n, edges, flatten_groups(gs, gs.len() as int)),
{
    let m = gs.len() as int;
    let o = flatten_groups(gs, m);
    assert forall|p: int, q: int| 0 <= p < o.len() && 0 <= q < o.len() && p != q implies o[p] != o[q] by {
        let a = lemma_flatten_from(gs, m, p);
        let b = lemma_flatten_from(gs, m, q);
        if o[p] == o[q] {
            assert(gs[a.0][a.1] == gs[b.0][b.1]);
        }
    }
    assert forall|p: int| 0 <= p < o.len() implies #[trigger] o[p] < n by {
        let a = lemma_flatten_from(gs, m, p);
        assert(gs[a.0][a.1] < n);
    }
    assert forall|v: usize| v < n implies #[trigger] o.contains(v) by {
        assert(placed(gs, v as int));
        let (g, x) = choose|g: int, x: int| 0 <= g < gs.len() && 0 <= x < gs[g].len() && gs[g][x] == v;
        lemma_flatten_at(gs, m, g, x);
    }
    assert forall|k: int| 0 <= k < edges.len() implies before_in(o, #[trigger] edges[k].0, edges[k].1) by {
        let b = edges[k].1;
        assert(edges[k].1 < n);
        assert(placed(gs, b as int));
        let (gb, xb) = choose|g: int, x: int| 0 <= g < gs.len() && 0 <= x < gs[g].len() && gs[g][x] == b;
        assert(in_earlier_group(gs, gb, edges[k].0));
        let (ga, ya) = choose|g2: int, y: int| 0 <= g2 < gb && 0 <= y < gs[g2].len() && gs[g2][y] == edges[k].0;
        lemma_flatten_at(gs, m, ga, ya);
        lemma_flatten_at(gs, m, gb, xb);
        lemma_flatten_len_mono(gs, ga, gb);
        lemma_flatten_len_mono(gs, ga + 1, gb);
        assert(flatten_groups(gs, ga + 1).len() == flatten_groups(gs, ga).len() + gs[ga].len());
        let i = flatten_groups(gs, ga).len() + ya;
        let j = flatten_groups(gs, gb).len() + xb;
        assert(o[i] == edges[k].0 && o[j] == edges[k].1 && i < j);
    }
}

/// For a layering, the edges have no cycle exactly when the layers place every node.
pub proof fn law_acyclic_iff_layers_cover(n: usize, edges: Seq<(usize, usize)>, gs: Seq<Seq<usize>>)
    requires
        edges_within(n, edges),
        is_layering(n, edges, gs),
    ensures
        acyclic(n, edges) <==> forall|v: usize| v < n ==> #[trigger] placed(gs, v as int),
{
    let m = gs.len() as int;
    let flat = flatten_groups(gs, m);
    if forall|v: usize| v < n ==> #[trigger] placed(gs, v as int) {
        law_layers_give_topo_order(n, edges, gs);
        assert(is_topo_order(n, edges, flat));
    } else {
        let v0 = choose|v: usize| v < n && !placed(gs, v as int);
        assert forall|v: usize| flat.contains(v) <==> #[trigger] placed(gs, v as int) by {
            if flat.contains(v) {
                let p = choose|p: int| 0 <= p < flat.len() && flat[p] == v;
                let a = lemma_flatten_from(gs, m, p);
            }
            if placed(gs, v as int) {
                let (g, x) = choose|g: int, x: int| 0 <= g < gs.len() && 0 <= x < gs[g].len() && gs[g][x] == v;
                lemma_flatten_at(gs, m, g, x);
            }
        }
        assert forall|v: usize| v < n && !flat.contains(v) implies #[trigger] entered_from_outside(edges, flat, v) by {
            assert(entered_from_unplaced(edges, gs, v));
            let k = choose|k: int| 0 <= k < edges.len() && (#[trigger] edges[k]).1 == v && !placed(gs, edges[k].0 as int);
            assert(!flat.contains(edges[k].0));
        }
        assert forall|o: Seq<usize>| !is_topo_order(n, edges, o) by {
            lemma_stuck_means_cycle(n, edges, flat, v0, o);
        }
    }
}

proof fn lemma_released_between_split(edges: Seq<(usize, usize)>, x: Seq<usize>, a: int, b: int, c: int)
    requires
        a <= b <= c,
    ensures
        released_between(edges, x, a, c) == released_between(edges, x, a, b) + released_between(edges, x, b, c),
    decreases c - b,
{
    if c > b {
        lemma_released_between_split(edges, x, a, b, c - 1);
        let r = released(edges, x.take(c), x[c - 1], edges.len() as int);
        assert(released_between(edges, x, a, c) == released_between(edges, x, a, c - 1) + r);
        assert(released_between(edges, x, b, c) == released_between(edges, x, b, c - 1) + r);
        assert(released_between(edges, x, a, c) =~= released_between(edges, x, a, b) + released_between(
            edges,
            x,
            b,
            c,
        ));
    } else {
        assert(released_between(edges, x, a, c) =~= released_between(edges, x, a, b) + Seq::<usize>::empty());
    }
}

proof fn lemma_released_fed(edges: Seq<(usize, usize)>, done: Seq<usize>, u: usize, k: int, t: int)
    requires
        k <= edges.len(),
        0 <= t < released(edges, done, u, k).len(),
    ensures
        fed_by(edges, u, released(edges, done, u, k)[t]),
    decreases k,
{
    if k > 0 {
        let prev = released(edges, done, u, k - 1);
        if t < prev.len() {
            lemma_released_fed(edges, done, u, k - 1, t);
            assert(released(edges, done, u, k)[t] == prev[t]);
        } else {
            assert(edges[k - 1] == (u, released(edges, done, u, k)[t]));
        }
    }
}

/// The node at `t` among those released by positions `a` up to `b` of `x` was released
/// by position `p`, through an edge from `x[p]`.
proof fn lemma_released_by(edges: Seq<(usize, usize)>, x: Seq<usize>, a: int, b: int, t: int) -> (p: int)
    requires
        0 <= a <= b <= x.len(),
        0 <= t < released_between(edges, x, a, b).len(),
    ensures
        a <= p < b,
        fed_by(edges, x[p], released_between(edges, x, a, b)[t]),
        released_between(edges, x, a, p).len() <= t < released_between(edges, x, a, p + 1).len(),
    decreases b - a,
{
    let prev = released_between(edges, x, a, b - 1);
    let r = released(edges, x.take(b), x[b - 1], edges.len() as int);
    assert(released_between(edges, x, a, b) == prev + r);
    if t < prev.len() {
        let p = lemma_released_by(edges, x, a, b - 1, t);
        assert(released_between(edges, x, a, b)[t] == prev[t]);
        p
    } else {
        lemma_released_fed(edges, x.take(b), x[b - 1], edges.len() as int, t - prev.len());
        assert(released_between(edges, x, a, b)[t] == r[t - prev.len()]);
        b - 1
    }
}

/// In an order that is its sources followed by what its nodes release, and that puts
/// the source of every edge first, each node after the sources is released by a node
/// before it.
proof fn lemma_released_before(n: usize, edges: Seq<(usize, usize)>, x: Seq<usize>, h: int)
    requires
        x.no_duplicates(),
        forall|k: int| 0 <= k < edges.len() ==> before_in(x, #[trigger] edges[k].0, edges[k].1),
        x == source_nodes(edges, n as int) + released_between(edges, x, 0, x.len() as int),
        source_nodes(edges, n as int).len() <= h < x.len(),
    ensures
        h < source_nodes(edges, n as int).len() + released_between(edges, x, 0, h).len(),
{
    let src = source_nodes(edges, n as int);
    let all = released_between(edges, x, 0, x.len() as int);
    let t = h - src.len();
    assert(x[h] == all[t]);
    let p = lemma_released_by(edges, x, 0, x.len() as int, t);
    let k = choose|k: int| 0 <= k < edges.len() && #[trigger] edges[k] == (x[p], all[t]);
    assert(before_in(x, edges[k].0, edges[k].1));
    let (i, j) = choose|i: int, j: int| 0 <= i < j < x.len() && x[i] == edges[k].0 && x[j] == edges[k].1;
    assert(i == p && j == h);
    lemma_released_between_split(edges, x, 0, p + 1, h);
}

proof fn lemma_release_order_prefix(n: usize, edges: Seq<(usize, usize)>, x: Seq<usize>, y: Seq<usize>, i: int)
    requires
        is_topo_order(n, edges, x),
        is_topo_order(n, edges, y),
        x == source_nodes(edges, n as int) + released_between(edges, x, 0, x.len() as int),
        y == source_nodes(edges, n as int) + released_between(edges, y, 0, y.len() as int),
        0 <= i <= x.len(),
        x.len() == y.len(),
    ensures
        forall|j: int| 0 <= j < i ==> x[j] == y[j],
    decreases i,
{
    if i > 0 {
        lemma_release_order_prefix(n, edges, x, y, i - 1);
        let h = i - 1;
        let src = source_nodes(edges, n as int);
        if h >= src.len() {
            lemma_released_before(n, edges, x, h);
            lemma_released_before(n, edges, y, h);
            lemma_released_between_split(edges, x, 0, h, x.len() as int);
            lemma_released_between_split(edges, y, 0, h, y.len() as int);
            lemma_released_between_prefix(edges, x, y, 0, h);
            let t = h - src.len();
            assert(x[h] == released_between(edges, x, 0, h)[t]);
            assert(y[h] == released_between(edges, y, 0, h)[t]);
        } else {
            assert(x[h] == src[h] && y[h] == src[h]);
        }
    }
}

/// An order that is its sources followed by what its nodes release, and that is a
/// topological order, is unique.
proof fn lemma_release_order_unique(n: usize, edges: Seq<(usize, usize)>, x: Seq<usize>, y: Seq<usize>)
    requires
        is_topo_order(n, edges, x),
        is_topo_order(n, edges, y),
        x == source_nodes(edges, n as int) + released_between(edges, x, 0, x.len() as int),
        y == source_nodes(edges, n as int) + released_between(edges, y, 0, y.len() as int),
    ensures
        x == y,
{
    lemma_distinct_below(x, n);
    lemma_distinct_below(y, n);
    lemma_release_order_prefix(n, edges, x, y, x.len() as int);
    assert(x =~= y);
}

proof fn lemma_grouping_prefix(n: usize, edges: Seq<(usize, usize)>, gs: Seq<Seq<usize>>, g: int)
    requires
        is_kahn_grouping(n, edges, gs),
        1 <= g <= gs.len(),
    ensures
        flatten_groups(gs, g) == source_nodes(edges, n as int) + released_between(
            edges,
            flatten_groups(gs, gs.len() as int),
            0,
            group_start(gs, g - 1),
        ),
    decreases g,
{
    let src = source_nodes(edges, n as int);
    let f = flatten_groups(gs, gs.len() as int);
    if g == 1 {
        assert(flatten_groups(gs, 1) =~= gs[0]);
        assert(flatten_groups(gs, 1) =~= src + released_between(edges, f, 0, 0));
    } else {
        lemma_grouping_prefix(n, edges, gs, g - 1);
        lemma_group_start_within(gs, g - 2);
        lemma_group_start_within(gs, g - 1);
        assert(released_between(edges, f, group_start(gs, g - 2), group_start(gs, g - 1)) == gs[g - 1]);
        lemma_released_between_split(edges, f, 0, group_start(gs, g - 2), group_start(gs, g - 1));
        assert(flatten_groups(gs, g) =~= src + released_between(edges, f, 0, group_start(gs, g - 1)));
    }
}

/// The grouping of Kahn's algorithm, flattened, is its sources followed by what its
/// nodes release.
proof fn lemma_grouping_releases(n: usize, edges: Seq<(usize, usize)>, gs: Seq<Seq<usize>>)
    requires
        is_kahn_grouping(n, edges, gs),
    ensures
        flatten_groups(gs, gs.len() as int) == source_nodes(edges, n as int) + released_between(
            edges,
            flatten_groups(gs, gs.len() as int),
            0,
            flatten_groups(gs, gs.len() as int).len() as int,
        ),
{
    let src = source_nodes(edges, n as int);
    let m = gs.len() as int;
    let f = flatten_groups(gs, m);
    if m == 0 {
        assert(src =~= Seq::<usize>::empty());
        assert(f =~= src + released_between(edges, f, 0, 0));
    } else {
        lemma_grouping_prefix(n, edges, gs, m);
        lemma_group_start_within(gs, m - 1);
        lemma_group_start_within(gs, m);
        assert(released_between(edges, f, group_start(gs, m - 1), group_start(gs, m)) == Seq::<usize>::empty());
        lemma_released_between_split(edges, f, 0, group_start(gs, m - 1), group_start(gs, m));
        assert(released_between(edges, f, 0, f.len() as int) =~= released_between(
            edges,
            f,
            0,
            group_start(gs, m - 1),
        ));
    }
}

proof fn lemma_flatten_eq(gs1: Seq<Seq<usize>>, gs2: Seq<Seq<usize>>, m: int)
    requires
        0 <= m <= gs1.len(),
        m <= gs2.len(),
        forall|h: int| 0 <= h < m ==> gs1[h] == gs2[h],
    ensures
        flatten_groups(gs1, m) == flatten_groups(gs2, m),
    decreases m,
{
    if m > 0 {
        lemma_flatten_eq(gs1, gs2, m - 1);
        assert(gs1[m - 1] == gs2[m - 1]);
    }
}

proof fn lemma_flatten_prefix(gs: Seq<Seq<usize>>, m: int, k: int)
    requires
        0 <= m <= k <= gs.len(),
    ensures
        flatten_groups(gs, m).len() <= flatten_groups(gs, k).len(),
        forall|p: int|
            0 <= p < flatten_groups(gs, m).len() ==> #[trigger] flatten_groups(gs, k)[p] == flatten_groups(gs, m)[p],
    decreases k - m,
{
    if k > m {
        lemma_flatten_prefix(gs, m, k - 1);
    }
}

/// Two Kahn groupings agree on the first `g` groups, when both have that many.
proof fn lemma_kahn_groups_agree(
    n: usize,
    edges: Seq<(usize, usize)>,
    gs1: Seq<Seq<usize>>,
    gs2: Seq<Seq<usize>>,
    g: int,
)
    requires
        is_kahn_grouping(n, edges, gs1),
        is_kahn_grouping(n, edges, gs2),
        0 <= g <= gs1.len(),
        g <= gs2.len(),
    ensures
        forall|h: int| 0 <= h < g ==> gs1[h] == gs2[h],
    decreases g,
{
    if g > 0 {
        lemma_kahn_groups_agree(n, edges, gs1, gs2, g - 1);
        if g >= 2 {
            lemma_releases_agree(n, edges, gs1, gs2, g - 2);
        }
    }
}

/// When two Kahn groupings agree on their first `g + 1` groups, processing group `g`
/// releases the same nodes in both.
proof fn lemma_releases_agree(
    n: usize,
    edges: Seq<(usize, usize)>,
    gs1: Seq<Seq<usize>>,
    gs2: Seq<Seq<usize>>,
    g: int,
)
    requires
        is_kahn_grouping(n, edges, gs1),
        is_kahn_grouping(n, edges, gs2),
        0 <= g < gs1.len(),
        g < gs2.len(),
        forall|h: int| 0 <= h <= g ==> gs1[h] == gs2[h],
    ensures
        released_between(edges, flatten_groups(gs1, gs1.len() as int), group_start(gs1, g), group_start(gs1, g + 1))
            == released_between(edges, flatten_groups(gs2, gs2.len() as int), group_start(gs2, g), group_start(gs2, g + 1)),
{
    let f1 = flatten_groups(gs1, gs1.len() as int);
    let f2 = flatten_groups(gs2, gs2.len() as int);
    lemma_flatten_eq(gs1, gs2, g);
    lemma_flatten_eq(gs1, gs2, g + 1);
    lemma_flatten_prefix(gs1, g + 1, gs1.len() as int);
    lemma_flatten_prefix(gs2, g + 1, gs2.len() as int);
    let to = group_start(gs1, g + 1);
    assert forall|i: int| 0 <= i < to implies f1[i] == f2[i] by {
        assert(f1[i] == flatten_groups(gs1, g + 1)[i]);
        assert(f2[i] == flatten_groups(gs2, g + 1)[i]);
    }
    lemma_group_start_within(gs1, g);
    lemma_released_between_prefix(edges, f1, f2, group_start(gs1, g), to);
}

/// A Kahn grouping is no shorter than another that agrees with it on its groups.
proof fn lemma_kahn_not_shorter(n: usize, edges: Seq<(usize, usize)>, gs1: Seq<Seq<usize>>, gs2: Seq<Seq<usize>>)
    requires
        is_kahn_grouping(n, edges, gs1),
        is_kahn_grouping(n, edges, gs2),
        0 < gs1.len() <= gs2.len(),
        forall|h: int| 0 <= h < gs1.len() ==> gs1[h] == gs2[h],
    ensures
        gs1.len() == gs2.len(),
{
    let g = gs1.len() - 1;
    if gs1.len() < gs2.len() {
        lemma_releases_agree(n, edges, gs1, gs2, g);
        assert(groups_release_next(edges, gs1));
        assert(groups_release_next(edges, gs2));
        assert(released_between(
            edges,
            flatten_groups(gs2, gs2.len() as int),
            group_start(gs2, g),
            group_start(gs2, g + 1),
        ) == gs2[g + 1]);
        assert(gs2[g + 1].len() > 0);
    }
}

/// Kahn's grouping is unique: two groupings of the same nodes and edges that both start
/// from the sources, place what the other places and release exactly the next group
/// from each group are the same groups.
pub proof fn law_kahn_grouping_unique(n: usize, edges: Seq<(usize, usize)>, gs1: Seq<Seq<usize>>, gs2: Seq<Seq<usize>>)
    requires
        is_kahn_grouping(n, edges, gs1),
        is_kahn_grouping(n, edges, gs2),
    ensures
        gs1 == gs2,
{
    if gs1.len() == 0 || gs2.len() == 0 {
        if gs1.len() > 0 {
            assert(gs1[0].len() > 0);
        }
        if gs2.len() > 0 {
            assert(gs2[0].len() > 0);
        }
    } else if gs1.len() <= gs2.len() {
        lemma_kahn_groups_agree(n, edges, gs1, gs2, gs1.len() as int);
        lemma_kahn_not_shorter(n, edges, gs1, gs2);
    } else {
        lemma_kahn_groups_agree(n, edges, gs1, gs2, gs2.len() as int);
        assert forall|h: int| 0 <= h < gs2.len() implies gs2[h] == gs1[h] by {}
        lemma_kahn_not_shorter(n, edges, gs2, gs1);
    }
    assert(gs1 =~= gs2);
}

/// The layers of stages, read in order, list the nodes in the order they are scheduled:
/// with no cycle, the grouping that `topo_groups` gives, flattened, is the order that
/// `topo_order` gives.
pub proof fn law_groups_flatten_to_order(n: usize, edges: Seq<(usize, usize)>, o: Seq<usize>, gs: Seq<Seq<usize>>)
    requires
        edges_within(n, edges),
        is_topo_order(n, edges, o),
        o == source_nodes(edges, n as int) + released_between(edges, o, 0, o.len() as int),
        is_kahn_grouping(n, edges, gs),
    ensures
        flatten_groups(gs, gs.len() as int) == o,
{
    assert(acyclic(n, edges));
    law_layers_give_topo_order(n, edges, gs);
    lemma_grouping_releases(n, edges, gs);
    lemma_release_order_unique(n, edges, flatten_groups(gs, gs.len() as int), o);
}

// ---------------------------------------------------------------------------
// Stage lists
// ---------------------------------------------------------------------------

/// The non-empty entries of `ps`, in order.
pub open spec fn nonempty_pieces(ps: Seq<Seq<char>>) -> Seq<Seq<char>>
    decreases ps.len(),
{
    if ps.len() == 0 {
        Seq::empty()
    } else if ps.last().len() == 0 {
        nonempty_pieces(ps.drop_last())
    } else {
        nonempty_pieces(ps.drop_last()).push(ps.last())
    }
}

/// The stage names that an `after = ".."` / `before = ".."` value lists: the
/// comma-separated entries, trimmed, empty ones dropped.
pub open spec fn stage_list_seq(s: Seq<char>) -> Seq<Seq<char>> {
    nonempty_pieces(split_seq(s, seq![',']).map_values(|p: Seq<char>| trim_seq(p)))
}

/// Splits a comma-separated list of stage names.
pub fn stage_list(s: &str) -> (r: Vec<String>)
    ensures
        r@.map_values(|x: String| x@) == stage_list_seq(s@),
{
    let cs = chars_of(s);
    let mut seps: Vec<char> = Vec::new();
    seps.push(',');
    assert(seps@ =~= seq![',']);
    let pieces = split(cs.as_slice(), seps.as_slice());
    let ghost trimmed = split_seq(s@, seq![',']).map_values(|p: Seq<char>| trim_seq(p));
    let mut out: Vec<String> = Vec::new();
    let mut i: usize = 0;
    while i < pieces.len()
        invariant
            i <= pieces@.len(),
            pieces@.len() == trimmed.len(),
            trimmed == split_seq(s@, seq![',']).map_values(|p: Seq<char>| trim_seq(p)),
            forall|k: int| 0 <= k < pieces@.len() ==> #[trigger] pieces@[k]@ == split_seq(s@, seq![','])[k],
            out@.map_values(|x: String| x@) == nonempty_pieces(trimmed.take(i as int)),
        decreases pieces@.len() - i,
    {
        let t = trim(pieces[i].as_slice());
        assert(trimmed.take(i + 1).drop_last() =~= trimmed.take(i as int));
        assert(t@ == trimmed[i as int]);
        if t.len() > 0 {
            let name = string_of(t.as_slice());
            let ghost before = out@;
            out.push(name);
            assert(out@.map_values(|x: String| x@) =~= before.map_values(|x: String| x@).push(t@));
        }
        i = i + 1;
    }
    assert(trimmed.take(pieces@.len() as int) =~= trimmed);
    out
}

// ---------------------------------------------------------------------------
// Conflict-aware batching of the systems of one stage
// ---------------------------------------------------------------------------

/// Two resource lists name a common resource.
pub open spec fn shares(a: Seq<u64>, b: Seq<u64>) -> bool {
    exists|x: int, y: int| 0 <= x < a.len() && 0 <= y < b.len() && a[x] == b[y]
}

/// Systems `i` and `j` may not run together: one writes what the other reads or writes.
pub open spec fn conflict(reads: Seq<Vec<u64>>, writes: Seq<Vec<u64>>, i: int, j: int) -> bool {
    ||| shares(writes[i]@, writes[j]@)
    ||| shares(writes[i]@, reads[j]@)
    ||| shares(writes[j]@, reads[i]@)
}

/// `batches` is what greedy batching gives for systems `0..n`: every system in exactly
/// one batch, batches non-empty and ascending, no two systems of a batch in conflict,
/// and every system of a later batch in conflict with a lower-numbered system of each
/// earlier batch (it was turned away from that batch).
pub open spec fn is_greedy_batching(
    reads: Seq<Vec<u64>>,
    writes: Seq<Vec<u64>>,
    n: int,
    batches: Seq<Seq<usize>>,
) -> bool {
    &&& forall|b: int| 0 <= b < batches.len() ==> #[trigger] batches[b].len() > 0
    &&& forall|b: int, x: int, y: int|
        0 <= b < batches.len() && 0 <= x < y < batches[b].len() ==> #[trigger] batches[b][x] < #[trigger] batches[b][y]
    &&& forall|b: int, x: int| 0 <= b < batches.len() && 0 <= x < batches[b].len() ==> #[trigger] batches[b][x] < n
    &&& forall|v: int| 0 <= v < n ==> #[trigger] placed(batches, v)
    &&& forall|b1: int, x1: int, b2: int, x2: int|
        0 <= b1 < batches.len() && 0 <= x1 < batches[b1].len() && 0 <= b2 < batches.len() && 0 <= x2
            < batches[b2].len() && #[trigger] batches[b1][x1] == #[trigger] batches[b2][x2] ==> b1 == b2 && x1 == x2
    &&& forall|b: int, x: int, y: int|
        0 <= b < batches.len() && 0 <= x < batches[b].len() && 0 <= y < batches[b].len() && x != y ==> !conflict(
            reads,
            writes,
            #[trigger] batches[b][x] as int,
            #[trigger] batches[b][y] as int,
        )
    &&& forall|b: int, x: int, b2: int|
        0 <= b2 < b < batches.len() && 0 <= x < batches[b].len() ==> #[trigger] turned_away(
            reads,
            writes,
            batches[b2],
            batches[b][x],
        )
}

/// System `v` appears in some batch.
pub open spec fn placed(batches: Seq<Seq<usize>>, v: int) -> bool {
    exists|b: int, x: int| 0 <= b < batches.len() && 0 <= x < batches[b].len() && batches[b][x] == v
}

/// `batch` holds a lower-numbered system that conflicts with `v`.
pub open spec fn turned_away(reads: Seq<Vec<u64>>, writes: Seq<Vec<u64>>, batch: Seq<usize>, v: usize) -> bool {
    exists|y: int| 0 <= y < batch.len() && batch[y] < v && conflict(reads, writes, v as int, batch[y] as int)
}

/// Whether two resource lists name a common resource.
fn lists_share(a: &Vec<u64>, b: &Vec<u64>) -> (r: bool)
    ensures
        r == shares(a@, b@),
{
    let mut x: usize = 0;
    while x < a.len()
        invariant
            x <= a@.len(),
            forall|x1: int, y1: int| 0 <= x1 < x && 0 <= y1 < b@.len() ==> a@[x1] != b@[y1],
        decreases a@.len() - x,
    {
        let mut y: usize = 0;
        while y < b.len()
            invariant
                x < a@.len(),
                y <= b@.len(),
                forall|x1: int, y1: int| 0 <= x1 < x && 0 <= y1 < b@.len() ==> a@[x1] != b@[y1],
                forall|y1: int| 0 <= y1 < y ==> a@[x as int] != b@[y1],
            decreases b@.len() - y,
        {
            if a[x] == b[y] {
                return true;
            }
            y = y + 1;
        }
        x = x + 1;
    }
    false
}

/// Whether systems `i` and `j` conflict.
pub fn systems_conflict(reads: &Vec<Vec<u64>>, writes: &Vec<Vec<u64>>, i: usize, j: usize) -> (r: bool)
    requires
        i < reads@.len(),
        j < reads@.len(),
        reads@.len() == writes@.len(),
    ensures
        r == conflict(reads@, writes@, i as int, j as int),
{
    lists_share(&writes[i], &writes[j]) || lists_share(&writes[i], &reads[j]) || lists_share(&writes[j], &reads[i])
}

/// `s` is strictly ascending.
pub open spec fn ascending(s: Seq<usize>) -> bool {
    forall|x: int, y: int| 0 <= x < y < s.len() ==> #[trigger] s[x] < #[trigger] s[y]
}

/// What holds between rounds of greedy batching: `bs` are the batches so far, `rem` the
/// systems still waiting.
pub open spec fn batching_inv(
    reads: Seq<Vec<u64>>,
    writes: Seq<Vec<u64>>,
    n: int,
    bs: Seq<Seq<usize>>,
    rem: Seq<usize>,
) -> bool {
    &&& ascending(rem)
    &&& forall|x: int| 0 <= x < rem.len() ==> #[trigger] rem[x] < n
    &&& forall|v: int| 0 <= v < n ==> (#[trigger] placed(bs, v) <==> !rem.contains(v as usize))
    &&& forall|b: int| 0 <= b < bs.len() ==> #[trigger] bs[b].len() > 0
    &&& forall|b: int| 0 <= b < bs.len() ==> ascending(#[trigger] bs[b])
    &&& forall|b: int, x: int| 0 <= b < bs.len() && 0 <= x < bs[b].len() ==> #[trigger] bs[b][x] < n
    &&& forall|b1: int, x1: int, b2: int, x2: int|
        0 <= b1 < bs.len() && 0 <= x1 < bs[b1].len() && 0 <= b2 < bs.len() && 0 <= x2 < bs[b2].len()
            && #[trigger] bs[b1][x1] == #[trigger] bs[b2][x2] ==> b1 == b2 && x1 == x2
    &&& forall|b: int, x: int, y: int|
        0 <= b < bs.len() && 0 <= x < bs[b].len() && 0 <= y < bs[b].len() && x != y ==> !conflict(
            reads,
            writes,
            #[trigger] bs[b][x] as int,
            #[trigger] bs[b][y] as int,
        )
    &&& forall|b: int, x: int, b2: int|
        0 <= b2 < b < bs.len() && 0 <= x < bs[b].len() ==> #[trigger] turned_away(reads, writes, bs[b2], bs[b][x])
    &&& forall|b: int, x: int|
        0 <= b < bs.len() && 0 <= x < rem.len() ==> #[trigger] turned_away(reads, writes, bs[b], rem[x])
}

/// What one round of greedy batching establishes: `rem` is split into the accepted
/// `layer` and the turned-away `rest`.
pub open spec fn round_facts(
    reads: Seq<Vec<u64>>,
    writes: Seq<Vec<u64>>,
    rem: Seq<usize>,
    layer: Seq<usize>,
    rest: Seq<usize>,
) -> bool {
    &&& layer.len() > 0
    &&& forall|v: usize| (layer.contains(v) || rest.contains(v)) <==> #[trigger] rem.contains(v)
    &&& forall|v: usize| !(#[trigger] layer.contains(v) && rest.contains(v))
    &&& ascending(layer)
    &&& ascending(rest)
    &&& forall|x: int, y: int|
        0 <= x < layer.len() && 0 <= y < layer.len() && x != y ==> !conflict(
            reads,
            writes,
            #[trigger] layer[x] as int,
            #[trigger] layer[y] as int,
        )
    &&& forall|x: int| 0 <= x < rest.len() ==> #[trigger] turned_away(reads, writes, layer, rest[x])
}

proof fn lemma_ascending_index(s: Seq<usize>, v: usize, x: int)
    requires
        ascending(s),
        0 <= x < s.len(),
        s[x] == v,
    ensures
        forall|y: int| 0 <= y < s.len() && s[y] == v ==> y == x,
{
    assert forall|y: int| 0 <= y < s.len() && s[y] == v implies y == x by {
        if y < x {
            assert(s[y] < s[x]);
        }
        if x < y {
            assert(s[x] < s[y]);
        }
    }
}

proof fn lemma_batch_step(
    reads: Seq<Vec<u64>>,
    writes: Seq<Vec<u64>>,
    n: int,
    bs: Seq<Seq<usize>>,
    rem: Seq<usize>,
    layer: Seq<usize>,
    rest: Seq<usize>,
)
    requires
        0 <= n <= usize::MAX,
        batching_inv(reads, writes, n, bs, rem),
        round_facts(reads, writes, rem, layer, rest),
    ensures
        batching_inv(reads, writes, n, bs.push(layer), rest),
{
    let nb = bs.push(layer);
    assert(nb[bs.len() as int] == layer);
    assert forall|x: int| 0 <= x < rest.len() implies #[trigger] rest[x] < n by {
        assert(rest.contains(rest[x]));
        assert(rem.contains(rest[x]));
    }
    assert forall|x: int| 0 <= x < layer.len() implies #[trigger] layer[x] < n && !placed(bs, layer[x] as int) by {
        assert(layer.contains(layer[x]));
        assert(rem.contains(layer[x]));
        let k = choose|k: int| 0 <= k < rem.len() && rem[k] == layer[x];
        assert(rem[k] < n);
    }
    assert forall|v: int| 0 <= v < n implies (#[trigger] placed(nb, v) <==> !rest.contains(v as usize)) by {
        let u = v as usize;
        if placed(nb, v) {
            let (b, x) = choose|b: int, x: int| 0 <= b < nb.len() && 0 <= x < nb[b].len() && nb[b][x] == v;
            if b < bs.len() {
                assert(bs[b][x] == v);
                assert(placed(bs, v));
                assert(!rem.contains(u));
            } else {
                assert(layer[x] == v);
                assert(layer.contains(u));
            }
        } else {
            if !rest.contains(u) {
                if rem.contains(u) {
                    assert(layer.contains(u));
                    let x = choose|x: int| 0 <= x < layer.len() && layer[x] == u;
                    assert(nb[bs.len() as int][x] == v);
                } else {
                    assert(placed(bs, v));
                    let (b, x) = choose|b: int, x: int| 0 <= b < bs.len() && 0 <= x < bs[b].len() && bs[b][x] == v;
                    assert(nb[b][x] == v);
                }
            }
        }
    }
    assert forall|b: int| 0 <= b < nb.len() implies ascending(#[trigger] nb[b]) by {
        if b < bs.len() {
            assert(nb[b] == bs[b]);
        }
    }
    assert forall|b: int| 0 <= b < nb.len() implies #[trigger] nb[b].len() > 0 by {
        if b < bs.len() {
            assert(nb[b] == bs[b]);
        }
    }
    assert forall|b: int, x: int| 0 <= b < nb.len() && 0 <= x < nb[b].len() implies #[trigger] nb[b][x] < n by {
        if b < bs.len() {
            assert(nb[b] == bs[b]);
        } else {
            assert(nb[b][x] == layer[x]);
        }
    }
    assert forall|b1: int, x1: int, b2: int, x2: int|
        0 <= b1 < nb.len() && 0 <= x1 < nb[b1].len() && 0 <= b2 < nb.len() && 0 <= x2 < nb[b2].len()
            && #[trigger] nb[b1][x1] == #[trigger] nb[b2][x2] implies b1 == b2 && x1 == x2 by {
        let v = nb[b1][x1];
        if b1 < bs.len() && b2 < bs.len() {
            assert(bs[b1][x1] == bs[b2][x2]);
        } else if b1 < bs.len() {
            assert(nb[b2][x2] == layer[x2]);
            assert(placed(bs, v as int)) by {
                assert(bs[b1][x1] == v);
            }
        } else if b2 < bs.len() {
            assert(nb[b1][x1] == layer[x1]);
            assert(placed(bs, v as int)) by {
                assert(bs[b2][x2] == v);
            }
        } else {
            assert(layer[x1] == layer[x2]);
            lemma_ascending_index(layer, v, x1);
        }
    }
    assert forall|b: int, x: int, y: int|
        0 <= b < nb.len() && 0 <= x < nb[b].len() && 0 <= y < nb[b].len() && x != y implies !conflict(
            reads,
            writes,
            #[trigger] nb[b][x] as int,
            #[trigger] nb[b][y] as int,
        ) by {
        if b < bs.len() {
            assert(nb[b] == bs[b]);
        } else {
            assert(nb[b] == layer);
        }
    }
    assert forall|b: int, x: int, b2: int|
        0 <= b2 < b < nb.len() && 0 <= x < nb[b].len() implies #[trigger] turned_away(reads, writes, nb[b2], nb[b][x]) by {
        assert(nb[b2] == bs[b2]);
        if b < bs.len() {
            assert(nb[b] == bs[b]);
        } else {
            assert(nb[b][x] == layer[x]);
            assert(layer.contains(layer[x]));
            assert(rem.contains(layer[x]));
            let k = choose|k: int| 0 <= k < rem.len() && rem[k] == layer[x];
            assert(turned_away(reads, writes, bs[b2], rem[k]));
        }
    }
    assert forall|b: int, x: int| 0 <= b < nb.len() && 0 <= x < rest.len() implies #[trigger] turned_away(
        reads,
        writes,
        nb[b],
        rest[x],
    ) by {
        if b < bs.len() {
            assert(nb[b] == bs[b]);
            assert(rest.contains(rest[x]));
            assert(rem.contains(rest[x]));
            let k = choose|k: int| 0 <= k < rem.len() && rem[k] == rest[x];
            assert(turned_away(reads, writes, bs[b], rem[k]));
        } else {
            assert(nb[b] == layer);
        }
    }
}

/// Splits the systems `0..n` of a stage into batches that may run in parallel: each
/// round takes the waiting systems in order and admits every one that conflicts with
/// none admitted so far in that round.
pub fn batch_systems(reads: &Vec<Vec<u64>>, writes: &Vec<Vec<u64>>) -> (r: Vec<Vec<usize>>)
    requires
        reads@.len() == writes@.len(),
    ensures
        is_greedy_batching(reads@, writes@, reads@.len() as int, seq_views(r@)),
{
    let n = reads.len();
    let mut remaining: Vec<usize> = Vec::new();
    let mut v: usize = 0;
    while v < n
        invariant
            v <= n,
            remaining@.len() == v,
            forall|x: int| 0 <= x < v ==> remaining@[x] == x,
        decreases n - v,
    {
        remaining.push(v);
        v = v + 1;
    }
    let mut batches: Vec<Vec<usize>> = Vec::new();
    proof {
        let bs = seq_views(batches@);
        assert(bs =~= Seq::<Seq<usize>>::empty());
        assert forall|v: int| 0 <= v < n implies (#[trigger] placed(bs, v) <==> !remaining@.contains(v as usize)) by {
            assert(remaining@[v] == v);
        }
    }
    while remaining.len() > 0
        invariant
            n == reads@.len(),
            reads@.len() == writes@.len(),
            batching_inv(reads@, writes@, n as int, seq_views(batches@), remaining@),
        decreases remaining@.len(),
    {
        let mut layer: Vec<usize> = Vec::new();
        let mut rest: Vec<usize> = Vec::new();
        let mut idx: usize = 0;
        while idx < remaining.len()
            invariant
                n == reads@.len(),
                reads@.len() == writes@.len(),
                idx <= remaining@.len(),
                remaining@.len() > 0,
                ascending(remaining@),
                forall|x: int| 0 <= x < remaining@.len() ==> #[trigger] remaining@[x] < n,
                idx > 0 ==> layer@.len() > 0,
                layer@.len() + rest@.len() == idx,
                forall|v: usize| (layer@.contains(v) || rest@.contains(v)) <==> #[trigger] remaining@.take(idx as int).contains(v),
                forall|v: usize| !(#[trigger] layer@.contains(v) && rest@.contains(v)),
                ascending(layer@),
                ascending(rest@),
                idx < remaining@.len() ==> forall|x: int| 0 <= x < layer@.len() ==> #[trigger] layer@[x] < remaining@[idx as int],
                idx < remaining@.len() ==> forall|x: int| 0 <= x < rest@.len() ==> #[trigger] rest@[x] < remaining@[idx as int],
                forall|x: int, y: int|
                    0 <= x < layer@.len() && 0 <= y < layer@.len() && x != y ==> !conflict(
                        reads@,
                        writes@,
                        #[trigger] layer@[x] as int,
                        #[trigger] layer@[y] as int,
                    ),
                forall|x: int| 0 <= x < rest@.len() ==> #[trigger] turned_away(reads@, writes@, layer@, rest@[x]),
            decreases remaining@.len() - idx,
        {
            let i = remaining[idx];
            let mut ok = true;
            let mut jx: usize = 0;
            while jx < layer.len()
                invariant
                    n == reads@.len(),
                    reads@.len() == writes@.len(),
                    i < n,
                    jx <= layer@.len(),
                    forall|x: int| 0 <= x < layer@.len() ==> #[trigger] layer@[x] < i,
                    ok ==> forall|y: int| 0 <= y < jx ==> !conflict(reads@, writes@, i as int, #[trigger] layer@[y] as int),
                    !ok ==> turned_away(reads@, writes@, layer@, i),
                decreases layer@.len() - jx,
            {
                if ok && systems_conflict(reads, writes, i, layer[jx]) {
                    ok = false;
                }
                jx = jx + 1;
            }
            let ghost l0 = layer@;
            let ghost r0 = rest@;
            assert(remaining@.take(idx + 1) =~= remaining@.take(idx as int).push(i));
            if ok {
                layer.push(i);
                proof {
                    assert forall|x: int| 0 <= x < rest@.len() implies #[trigger] turned_away(reads@, writes@, layer@, rest@[x]) by {
                        assert(turned_away(reads@, writes@, l0, rest@[x]));
                        let y = choose|y: int| 0 <= y < l0.len() && l0[y] < rest@[x] && conflict(reads@, writes@, rest@[x] as int, l0[y] as int);
                        assert(layer@[y] == l0[y]);
                    }
                    assert forall|x: int, y: int|
                        0 <= x < layer@.len() && 0 <= y < layer@.len() && x != y implies !conflict(
                            reads@,
                            writes@,
                            #[trigger] layer@[x] as int,
                            #[trigger] layer@[y] as int,
                        ) by {
                        if x < l0.len() && y < l0.len() {
                            assert(layer@[x] == l0[x] && layer@[y] == l0[y]);
                        } else if x < l0.len() {
                            assert(!conflict(reads@, writes@, i as int, l0[x] as int));
                        } else {
                            assert(!conflict(reads@, writes@, i as int, l0[y] as int));
                        }
                    }
                }
            } else {
                rest.push(i);
            }
            proof {
                assert forall|v: usize| (layer@.contains(v) || rest@.contains(v)) <==> #[trigger] remaining@.take(idx + 1).contains(v) by {
                    let t0 = remaining@.take(idx as int);
                    let t1 = remaining@.take(idx + 1);
                    if v == i {
                        assert(t1[idx as int] == v);
                        if ok {
                            assert(layer@[l0.len() as int] == v);
                        } else {
                            assert(rest@[r0.len() as int] == v);
                        }
                    } else {
                        if layer@.contains(v) {
                            let x = choose|x: int| 0 <= x < layer@.len() && layer@[x] == v;
                            assert(l0[x] == v);
                            assert(l0.contains(v));
                        }
                        if rest@.contains(v) {
                            let x = choose|x: int| 0 <= x < rest@.len() && rest@[x] == v;
                            assert(r0[x] == v);
                            assert(r0.contains(v));
                        }
                        if l0.contains(v) {
                            let x = choose|x: int| 0 <= x < l0.len() && l0[x] == v;
                            assert(layer@[x] == v);
                        }
                        if r0.contains(v) {
                            let x = choose|x: int| 0 <= x < r0.len() && r0[x] == v;
                            assert(rest@[x] == v);
                        }
                        if t1.contains(v) {
                            let x = choose|x: int| 0 <= x < t1.len() && t1[x] == v;
                            assert(t0[x] == v);
                            assert(t0.contains(v));
                        }
                        if t0.contains(v) {
                            let x = choose|x: int| 0 <= x < t0.len() && t0[x] == v;
                            assert(t1[x] == v);
                        }
                    }
                }
                assert forall|v: usize| !(#[trigger] layer@.contains(v) && rest@.contains(v)) by {
                    if layer@.contains(v) && rest@.contains(v) {
                        if v == i {
                            if ok {
                                let x = choose|x: int| 0 <= x < rest@.len() && rest@[x] == v;
                                assert(r0[x] == v);
                            } else {
                                let x = choose|x: int| 0 <= x < layer@.len() && layer@[x] == v;
                                assert(l0[x] == v);
                            }
                        } else {
                            let x = choose|x: int| 0 <= x < layer@.len() && layer@[x] == v;
                            let y = choose|y: int| 0 <= y < rest@.len() && rest@[y] == v;
                            assert(l0.contains(v) && r0.contains(v)) by {
                                if ok {
                                    assert(l0[x] == v);
                                    assert(rest@[y] == r0[y]);
                                } else {
                                    assert(r0[y] == v);
                                    assert(layer@[x] == l0[x]);
                                }
                            }
                        }
                    }
                }
                if idx + 1 < remaining@.len() {
                    assert(remaining@[idx as int] < remaining@[idx + 1]);
                }
            }
            idx = idx + 1;
        }
        proof {
            assert(remaining@.take(remaining@.len() as int) =~= remaining@);
            lemma_batch_step(
                reads@,
                writes@,
                n as int,
                seq_views(batches@),
                remaining@,
                layer@,
                rest@,
            );
        }
        let ghost bs0 = seq_views(batches@);
        batches.push(layer);
        assert(seq_views(batches@) =~= bs0.push(layer@));
        remaining = rest;
    }
    proof {
        let bs = seq_views(batches@);
        assert forall|v: int| 0 <= v < n implies #[trigger] placed(bs, v) by {
            assert(!remaining@.contains(v as usize));
        }
    }
    batches
}

// ---------------------------------------------------------------------------
// Stage and job attributes
// ---------------------------------------------------------------------------

/// The error for a key that a `#[stage(..)]` attribute does not know.
pub open spec fn unknown_stage_key() -> Seq<char> {
    "unknown key in #[stage(...)]"@
}

/// The name, `after` list and `before` list that the first `m` `key = "value"` entries
/// of a stage's attributes give: a later `name` replaces an earlier one, lists add up;
/// an unknown key is an error.
pub open spec fn stage_entries(entries: Seq<(Seq<char>, Seq<char>)>, m: int) -> Result<
    (Option<Seq<char>>, Seq<Seq<char>>, Seq<Seq<char>>),
    Seq<char>,
>
    decreases m,
{
    if m <= 0 {
        Ok((None, Seq::empty(), Seq::empty()))
    } else {
        match stage_entries(entries, m - 1) {
            Err(e) => Err(e),
            Ok((name, after, before)) => {
                let key = entries[m - 1].0;
                let value = entries[m - 1].1;
                if key == "name"@ {
                    Ok((Some(value), after, before))
                } else if key == "after"@ {
                    Ok((name, after + stage_list_seq(value), before))
                } else if key == "before"@ {
                    Ok((name, after, before + stage_list_seq(value)))
                } else {
                    Err(unknown_stage_key())
                }
            },
        }
    }
}

/// The name of a stage with no `name = ..`: its field's name, or `stage{index}` for a
/// tuple field.
pub open spec fn default_stage_name(field: Option<Seq<char>>, idx: usize) -> Seq<char> {
    match field {
        Some(f) => f,
        None => "stage"@ + decimal_text(idx as nat),
    }
}

proof fn lemma_stage_entries_err_stays(entries: Seq<(Seq<char>, Seq<char>)>, k: int, m: int)
    requires
        0 <= k <= m,
        stage_entries(entries, k) is Err,
    ensures
        stage_entries(entries, m) == stage_entries(entries, k),
    decreases m - k,
{
    if m > k {
        lemma_stage_entries_err_stays(entries, k, m - 1);
    }
}

/// `d` declares the stage with the given name (or the default for its field), `after`
/// list and `before` list.
pub open spec fn stage_decl_is(
    d: StageDecl,
    name: Option<Seq<char>>,
    after: Seq<Seq<char>>,
    before: Seq<Seq<char>>,
    field: Option<Seq<char>>,
    idx: usize,
) -> bool {
    &&& d.name@ == (match name {
        Some(n) => n,
        None => default_stage_name(field, idx),
    })
    &&& d.after@.map_values(|x: String| x@) == after
    &&& d.before@.map_values(|x: String| x@) == before
}

/// Builds the declaration of the stage held by field `idx` (named `field`, if it has a
/// name) from the `key = "value"` entries of its `#[stage(..)]` attributes.
pub fn stage_decl_from_entries(entries: &Vec<(String, String)>, field: Option<&str>, idx: usize) -> (r: Result<
    StageDecl,
    String,
>)
    ensures
        match stage_entries(entry_views(entries@), entries@.len() as int) {
            Err(e) => r is Err && r->Err_0@ == e,
            Ok((name, after, before)) => r is Ok && stage_decl_is(
                r->Ok_0,
                name,
                after,
                before,
                match field {
                    Some(f) => Some(f@),
                    None => None,
                },
                idx,
            ),
        },
{
    let mut name: Option<String> = None;
    let mut after: Vec<String> = Vec::new();
    let mut before: Vec<String> = Vec::new();
    let mut i: usize = 0;
    assert(after@.map_values(|x: String| x@) =~= Seq::<Seq<char>>::empty());
    assert(before@.map_values(|x: String| x@) =~= Seq::<Seq<char>>::empty());
    while i < entries.len()
        invariant
            i <= entries@.len(),
            stage_entries(entry_views(entries@), i as int) == Ok::<(Option<Seq<char>>, Seq<Seq<char>>, Seq<Seq<char>>), Seq<char>>(
                (
                    match name {
                        Some(n) => Some(n@),
                        None => None,
                    },
                    after@.map_values(|x: String| x@),
                    before@.map_values(|x: String| x@),
                ),
            ),
        decreases entries@.len() - i,
    {
        let key: &str = entries[i].0.as_str();
        let value: &str = entries[i].1.as_str();
        if str_eq(key, "name") {
            name = Some(entries[i].1.clone());
        } else if str_eq(key, "after") {
            let more = stage_list(value);
            let ghost a0 = after@;
            let mut k: usize = 0;
            while k < more.len()
                invariant
                    k <= more@.len(),
                    after@.map_values(|x: String| x@) == a0.map_values(|x: String| x@) + more@.map_values(
                        |x: String| x@,
                    ).take(k as int),
                decreases more@.len() - k,
            {
                let ghost pv = after@;
                after.push(more[k].clone());
                assert(after@.map_values(|x: String| x@) =~= pv.map_values(|x: String| x@).push(more@[k as int]@));
                assert(more@.map_values(|x: String| x@).take(k + 1) =~= more@.map_values(|x: String| x@).take(
                    k as int,
                ).push(more@[k as int]@));
                assert(after@.map_values(|x: String| x@) =~= a0.map_values(|x: String| x@) + more@.map_values(
                    |x: String| x@,
                ).take(k + 1));
                k = k + 1;
            }
            assert(more@.map_values(|x: String| x@).take(more@.len() as int) =~= more@.map_values(|x: String| x@));
        } else if str_eq(key, "before") {
            let more = stage_list(value);
            let ghost b0 = before@;
            let mut k: usize = 0;
            while k < more.len()
                invariant
                    k <= more@.len(),
                    before@.map_values(|x: String| x@) == b0.map_values(|x: String| x@) + more@.map_values(
                        |x: String| x@,
                    ).take(k as int),
                decreases more@.len() - k,
            {
                let ghost pv = before@;
                before.push(more[k].clone());
                assert(before@.map_values(|x: String| x@) =~= pv.map_values(|x: String| x@).push(more@[k as int]@));
                assert(more@.map_values(|x: String| x@).take(k + 1) =~= more@.map_values(|x: String| x@).take(
                    k as int,
                ).push(more@[k as int]@));
                assert(before@.map_values(|x: String| x@) =~= b0.map_values(|x: String| x@) + more@.map_values(
                    |x: String| x@,
                ).take(k + 1));
                k = k + 1;
            }
            assert(more@.map_values(|x: String| x@).take(more@.len() as int) =~= more@.map_values(|x: String| x@));
        } else {
            proof {
                lemma_stage_entries_err_stays(entry_views(entries@), i + 1, entries@.len() as int);
            }
            return Err(string_of(chars_of("unknown key in #[stage(...)]").as_slice()));
        }
        i = i + 1;
    }
    let nm = match name {
        Some(n) => n,
        None => match field {
            Some(f) => string_of(chars_of(f).as_slice()),
            None => {
                let d = decimal_chars(idx);
                text_between("stage", d.as_slice(), "")
            },
        },
    };
    proof {
        reveal_strlit("");
    }
    Ok(StageDecl { name: nm, after, before })
}

/// The method a `#[job(method = "..")]` attribute names (`run` by default); an unknown
/// key is an error.
pub open spec fn spec_job_method(entries: Seq<(Seq<char>, Seq<char>)>, m: int) -> Result<Seq<char>, Seq<char>>
    decreases m,
{
    if m <= 0 {
        Ok("run"@)
    } else {
        match spec_job_method(entries, m - 1) {
            Err(e) => Err(e),
            Ok(cur) => if entries[m - 1].0 == "method"@ {
                Ok(entries[m - 1].1)
            } else {
                Err("unknown key in #[job(...)]"@)
            },
        }
    }
}

proof fn lemma_job_err_stays(entries: Seq<(Seq<char>, Seq<char>)>, k: int, m: int)
    requires
        0 <= k <= m,
        spec_job_method(entries, k) is Err,
    ensures
        spec_job_method(entries, m) == spec_job_method(entries, k),
    decreases m - k,
{
    if m > k {
        lemma_job_err_stays(entries, k, m - 1);
    }
}

/// The method a job's `run` calls, from the `key = "value"` entries of its `#[job(..)]`
/// attributes.
pub fn job_method(entries: &Vec<(String, String)>) -> (r: Result<String, String>)
    ensures
        match spec_job_method(entry_views(entries@), entries@.len() as int) {
            Ok(m) => r is Ok && r->Ok_0@ == m,
            Err(e) => r is Err && r->Err_0@ == e,
        },
{
    let mut method = string_of(chars_of("run").as_slice());
    let mut i: usize = 0;
    while i < entries.len()
        invariant
            i <= entries@.len(),
            spec_job_method(entry_views(entries@), i as int) == Ok::<Seq<char>, Seq<char>>(method@),
        decreases entries@.len() - i,
    {
        if str_eq(entries[i].0.as_str(), "method") {
            method = entries[i].1.clone();
        } else {
            proof {
                lemma_job_err_stays(entry_views(entries@), i + 1, entries@.len() as int);
            }
            return Err(string_of(chars_of("unknown key in #[job(...)]").as_slice()));
        }
        i = i + 1;
    }
    Ok(method)
}

/// The entries of the `key = "value"` lists of the first `k` attributes, list after
/// list, up to and including the first list that stops early, and where it stopped.
pub open spec fn attr_lists(attrs: Seq<Vec<Tok>>, k: int) -> (
    Seq<(Seq<char>, Seq<char>)>,
    Option<(Option<Seq<char>>, Seq<char>)>,
)
    decreases k,
{
    if k <= 0 {
        (Seq::empty(), None)
    } else {
        let prev = attr_lists(attrs, k - 1);
        if prev.1 is Some {
            prev
        } else {
            let cur = entries_from(attrs[k - 1]@, 0);
            (prev.0 + cur.0, cur.1)
        }
    }
}

/// Reads the lists of `attrs` in order into one list of entries, stopping at the first
/// list that stops early.
fn read_attr_lists(attrs: &Vec<Vec<Tok>>) -> (r: (Vec<(String, String)>, Option<EntryStop>))
    ensures
        (entry_views(r.0@), stop_view(r.1)) == attr_lists(attrs@, attrs@.len() as int),
{
    let mut all: Vec<(String, String)> = Vec::new();
    let mut k: usize = 0;
    while k < attrs.len()
        invariant
            k <= attrs@.len(),
            entry_views(all@) == attr_lists(attrs@, k as int).0,
            attr_lists(attrs@, k as int).1 is None,
        decreases attrs@.len() - k,
    {
        let read = parse_string_entries(&attrs[k]);
        let ghost before = entry_views(all@);
        let mut i: usize = 0;
        while i < read.entries.len()
            invariant
                i <= read.entries@.len(),
                entry_views(all@) == before + entry_views(read.entries@).take(i as int),
            decreases read.entries@.len() - i,
        {
            let key = read.entries[i].0.clone();
            let value = read.entries[i].1.clone();
            let ghost all0 = all@;
            all.push((key, value));
            assert(all@ =~= all0.push((key, value)));
            assert(entry_views(read.entries@)[i as int] == (key@, value@));
            assert(entry_views(all@) =~= entry_views(all0).push((key@, value@)));
            assert(entry_views(all@) =~= before + entry_views(read.entries@).take(i + 1));
            i = i + 1;
        }
        assert(entry_views(read.entries@).take(read.entries@.len() as int) =~= entry_views(read.entries@));
        if read.stop.is_some() {
            proof {
                assert(attr_lists(attrs@, k + 1) == (before + entries_from(attrs@[k as int]@, 0).0, entries_from(
                    attrs@[k as int]@,
                    0,
                ).1));
                lemma_attr_lists_stay(attrs@, k + 1, attrs@.len() as int);
            }
            return (all, read.stop);
        }
        k = k + 1;
    }
    (all, None)
}

proof fn lemma_attr_lists_stay(attrs: Seq<Vec<Tok>>, k: int, m: int)
    requires
        0 <= k <= m,
        attr_lists(attrs, k).1 is Some,
    ensures
        attr_lists(attrs, m) == attr_lists(attrs, k),
    decreases m - k,
{
    if m > k {
        lemma_attr_lists_stay(attrs, k, m - 1);
    }
}

/// Declares the stage held by field `idx` (named `field`, if it has a name) from the
/// tokens of its `#[stage(..)]` attributes. An unknown key among the entries read comes
/// first; then a list that stops early gives its message; otherwise the entries build
/// the declaration.
pub fn stage_decl_from_tokens(attrs: &Vec<Vec<Tok>>, field: Option<&str>, idx: usize) -> (r: Result<
    StageDecl,
    String,
>)
    ensures
        ({
            let (es, stop) = attr_lists(attrs@, attrs@.len() as int);
            match stage_entries(es, es.len() as int) {
                Err(e) => r is Err && r->Err_0@ == e,
                Ok((name, after, before)) => match stop {
                    Some((_, msg)) => r is Err && r->Err_0@ == msg,
                    None => r is Ok && stage_decl_is(
                        r->Ok_0,
                        name,
                        after,
                        before,
                        match field {
                            Some(f) => Some(f@),
                            None => None,
                        },
                        idx,
                    ),
                },
            }
        }),
{
    let (all, stop) = read_attr_lists(attrs);
    let decl = stage_decl_from_entries(&all, field, idx);
    match stop {
        Some(st) => match decl {
            Err(e) => Err(e),
            Ok(_) => Err(st.message),
        },
        None => decl,
    }
}

/// The method a job runs, from the tokens of its `#[job(..)]` attributes. An unknown key
/// among the entries read comes first, then the key of a list that stopped early at its
/// value when that key is unknown, then that list's message; otherwise the last
/// `method` given, or `run`.
pub fn job_method_from_tokens(attrs: &Vec<Vec<Tok>>) -> (r: Result<String, String>)
    ensures
        ({
            let (es, stop) = attr_lists(attrs@, attrs@.len() as int);
            match spec_job_method(es, es.len() as int) {
                Err(e) => r is Err && r->Err_0@ == e,
                Ok(m) => match stop {
                    Some((key, msg)) => r is Err && r->Err_0@ == (if key matches Some(k) && k != "method"@ {
                        "unknown key in #[job(...)]"@
                    } else {
                        msg
                    }),
                    None => r is Ok && r->Ok_0@ == m,
                },
            }
        }),
{
    let (all, stop) = read_attr_lists(attrs);
    let method = job_method(&all);
    match stop {
        Some(st) => match method {
            Err(e) => Err(e),
            Ok(_) => {
                let unknown = match &st.key {
                    Some(k) => !str_eq(k.as_str(), "method"),
                    None => false,
                };
                if unknown {
                    Err(string_of(chars_of("unknown key in #[job(...)]").as_slice()))
                } else {
                    Err(st.message)
                }
            },
        },
        None => method,
    }
}

} // verus!
