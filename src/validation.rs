use vstd::prelude::*;
use vstd::string::*;
use crate::id::is_ws;
use crate::graph::{node_slot, touches};
use crate::types::{
    Connection, DialogueGraph, Node, NodeData, ValidationError, ValidationReport,
    ValidationSeverity,
};

verus! {

// ---------------------------------------------------------------------------
// Issues as values
// ---------------------------------------------------------------------------

/// The contents of a validation issue.
pub struct IssueView {
    pub node_id: Option<Seq<char>>,
    pub connection_id: Option<Seq<char>>,
    pub severity: ValidationSeverity,
    pub message: Seq<char>,
    pub code: Seq<char>,
}

pub open spec fn view_issue(e: ValidationError) -> IssueView {
    IssueView {
        node_id: crate::graph::opt_text(e.node_id),
        connection_id: crate::graph::opt_text(e.connection_id),
        severity: e.severity,
        message: e.message@,
        code: e.code@,
    }
}

pub open spec fn view_issues(s: Seq<ValidationError>) -> Seq<IssueView> {
    s.map_values(|e: ValidationError| view_issue(e))
}

/// An issue about node `n`, whose message names the node's technical name.
pub open spec fn node_issue(
    n: Node,
    severity: ValidationSeverity,
    before: Seq<char>,
    after: Seq<char>,
    code: Seq<char>,
) -> IssueView {
    IssueView {
        node_id: Some(n.id@),
        connection_id: None,
        severity,
        message: before + n.technical_name@ + after,
        code,
    }
}

/// An issue about connection `c`, whose message names the node id `id`.
pub open spec fn connection_issue(c: Connection, id: Seq<char>, before: Seq<char>, code: Seq<char>) -> IssueView {
    IssueView {
        node_id: None,
        connection_id: Some(c.id@),
        severity: ValidationSeverity::Error,
        message: before + id + "'"@,
        code,
    }
}

pub open spec fn opt_issue(o: Option<ValidationError>) -> Seq<IssueView> {
    match o {
        Some(x) => seq![view_issue(x)],
        None => Seq::empty(),
    }
}

pub open spec fn has_node(g: DialogueGraph, id: Seq<char>) -> bool {
    node_slot(g, id) >= 0
}

pub open spec fn is_blank(s: Seq<char>) -> bool {
    forall|i: int| 0 <= i < s.len() ==> is_ws(#[trigger] s[i])
}

// ---------------------------------------------------------------------------
// The passes
// ---------------------------------------------------------------------------

/// A node that no connection starts or ends at.
pub open spec fn is_orphan(g: DialogueGraph, n: Node) -> bool {
    forall|k: int| 0 <= k < g.connections@.len() ==> !touches(#[trigger] g.connections@[k], n.id@)
}

pub open spec fn orphan_issue(n: Node) -> IssueView {
    node_issue(
        n,
        ValidationSeverity::Warning,
        "Node '"@,
        "' is not connected to any other nodes"@,
        "ORPHANED_NODE"@,
    )
}

/// Orphan warnings for the nodes `ns`, in order.
pub open spec fn orphan_issues(g: DialogueGraph, ns: Seq<Node>) -> Seq<IssueView>
    decreases ns.len(),
{
    if ns.len() == 0 {
        Seq::empty()
    } else {
        orphan_issues(g, ns.drop_last()) + if is_orphan(g, ns.last()) {
            seq![orphan_issue(ns.last())]
        } else {
            Seq::empty()
        }
    }
}

/// The warning the per-type checks raise for a node, if any.
pub open spec fn node_warning(n: Node) -> Seq<IssueView> {
    match n.data {
        NodeData::Dialogue(d) | NodeData::DialogueFragment(d) => if d.speaker is None
            && d.text@.len() == 0 {
            seq![
                node_issue(
                    n,
                    ValidationSeverity::Warning,
                    "Dialogue node '"@,
                    "' has no speaker or text"@,
                    "EMPTY_DIALOGUE"@,
                ),
            ]
        } else {
            Seq::empty()
        },
        NodeData::Jump(j) => if j.target_node_id is None {
            seq![
                node_issue(
                    n,
                    ValidationSeverity::Warning,
                    "Jump node '"@,
                    "' has no target set"@,
                    "MISSING_JUMP_TARGET"@,
                ),
            ]
        } else {
            Seq::empty()
        },
        NodeData::Condition { script } => if is_blank(script.expression@) {
            seq![
                node_issue(
                    n,
                    ValidationSeverity::Warning,
                    "Condition node '"@,
                    "' has empty expression"@,
                    "EMPTY_CONDITION"@,
                ),
            ]
        } else {
            Seq::empty()
        },
        NodeData::Instruction { script } => if is_blank(script.expression@) {
            seq![
                node_issue(
                    n,
                    ValidationSeverity::Warning,
                    "Instruction node '"@,
                    "' has empty script"@,
                    "EMPTY_INSTRUCTION"@,
                ),
            ]
        } else {
            Seq::empty()
        },
        _ => Seq::empty(),
    }
}

/// The error the per-type checks raise for a node, if any: a jump to an
/// id that no node has.
pub open spec fn node_error(g: DialogueGraph, n: Node) -> Seq<IssueView> {
    match n.data {
        NodeData::Jump(j) => if j.target_node_id is Some && !has_node(
            g,
            j.target_node_id->0@,
        ) {
            seq![
                node_issue(
                    n,
                    ValidationSeverity::Error,
                    "Jump node '"@,
                    "' references non-existent target"@,
                    "INVALID_JUMP_TARGET"@,
                ),
            ]
        } else {
            Seq::empty()
        },
        _ => Seq::empty(),
    }
}

pub open spec fn node_warnings(ns: Seq<Node>) -> Seq<IssueView>
    decreases ns.len(),
{
    if ns.len() == 0 {
        Seq::empty()
    } else {
        node_warnings(ns.drop_last()) + node_warning(ns.last())
    }
}

pub open spec fn node_errors(g: DialogueGraph, ns: Seq<Node>) -> Seq<IssueView>
    decreases ns.len(),
{
    if ns.len() == 0 {
        Seq::empty()
    } else {
        node_errors(g, ns.drop_last()) + node_error(g, ns.last())
    }
}

pub open spec fn cycle_issue(n: Node) -> IssueView {
    node_issue(
        n,
        ValidationSeverity::Warning,
        "Node '"@,
        "' is part of a cycle - may cause infinite loops"@,
        "CYCLE_DETECTED"@,
    )
}

/// Cycle warnings for the first `i` nodes, given which nodes are flagged.
pub open spec fn cycle_issues(g: DialogueGraph, flags: Seq<bool>, i: int) -> Seq<IssueView>
    decreases i,
{
    if i <= 0 {
        Seq::empty()
    } else {
        cycle_issues(g, flags, i - 1) + if flags[i - 1] {
            seq![cycle_issue(g.nodes@[i - 1])]
        } else {
            Seq::empty()
        }
    }
}

/// Errors for connections whose ends name no node.
pub open spec fn connection_errors(g: DialogueGraph, cs: Seq<Connection>) -> Seq<IssueView>
    decreases cs.len(),
{
    if cs.len() == 0 {
        Seq::empty()
    } else {
        let c = cs.last();
        connection_errors(g, cs.drop_last()) + (if !has_node(g, c.from_node_id@) {
            seq![
                connection_issue(
                    c,
                    c.from_node_id@,
                    "Connection references non-existent source node '"@,
                    "INVALID_CONNECTION_SOURCE"@,
                ),
            ]
        } else {
            Seq::empty()
        }) + (if !has_node(g, c.to_node_id@) {
            seq![
                connection_issue(
                    c,
                    c.to_node_id@,
                    "Connection references non-existent target node '"@,
                    "INVALID_CONNECTION_TARGET"@,
                ),
            ]
        } else {
            Seq::empty()
        })
    }
}

/// The warnings a validation reports, given the nodes flagged as lying on
/// a cycle: orphans (only when there are two nodes or more), per-type
/// checks, then cycles.
pub open spec fn expected_warnings(g: DialogueGraph, flags: Seq<bool>) -> Seq<IssueView> {
    (if g.nodes@.len() > 1 {
        orphan_issues(g, g.nodes@)
    } else {
        Seq::empty()
    }) + node_warnings(g.nodes@) + cycle_issues(g, flags, g.nodes@.len() as int)
}

/// The errors a validation reports: per-type checks, then connections.
pub open spec fn expected_errors(g: DialogueGraph) -> Seq<IssueView> {
    node_errors(g, g.nodes@) + connection_errors(g, g.connections@)
}

// ---------------------------------------------------------------------------
// Cycles
// ---------------------------------------------------------------------------

/// A connection leads from node `u` to node `v` (the first node with the
/// connection's target id).
pub open spec fn edge(g: DialogueGraph, u: int, v: int) -> bool {
    &&& 0 <= u < g.nodes@.len()
    &&& 0 <= v < g.nodes@.len()
    &&& exists|k: int|
        0 <= k < g.connections@.len() && (#[trigger] g.connections@[k]).from_node_id@
            == g.nodes@[u].id@ && node_slot(g, g.connections@[k].to_node_id@) == v
}

pub open spec fn is_path(g: DialogueGraph, p: Seq<int>) -> bool {
    forall|i: int| 0 <= i < p.len() - 1 ==> #[trigger] edge(g, p[i], p[i + 1])
}

/// Some walk along connections leaves a node and comes back to it.
pub open spec fn has_cycle(g: DialogueGraph) -> bool {
    exists|p: Seq<int>| p.len() >= 2 && p[0] == p.last() && #[trigger] is_path(g, p)
}

pub open spec fn adjacency_ok(g: DialogueGraph, adj: Seq<Vec<usize>>) -> bool {
    &&& adj.len() == g.nodes@.len()
    &&& forall|u: int, k: int|
        0 <= u < adj.len() && 0 <= k < adj[u]@.len() ==> #[trigger] edge(g, u, adj[u]@[k] as int)
}

/// Every connection between two nodes appears in the adjacency lists.
pub open spec fn adjacency_complete(g: DialogueGraph, adj: Seq<Vec<usize>>) -> bool {
    forall|u: int, k: int|
        0 <= u < adj.len() && 0 <= k < g.connections@.len() && (#[trigger] g.connections@[k]).from_node_id@
            == (#[trigger] g.nodes@[u]).id@ && node_slot(g, g.connections@[k].to_node_id@) >= 0
            ==> exists|j: int|
            0 <= j < adj[u]@.len() && adj[u]@[j] as int == node_slot(
                g,
                g.connections@[k].to_node_id@,
            )
}

/// A node whose search has finished.
pub open spec fn is_done(visited: Seq<bool>, on_stack: Seq<bool>, v: int) -> bool {
    visited[v] && !on_stack[v]
}

/// Finished nodes carry ranks below `clock`, and each one's successors are
/// finished with lower ranks.
pub open spec fn ranked(
    adj: Seq<Vec<usize>>,
    visited: Seq<bool>,
    on_stack: Seq<bool>,
    rank: Seq<int>,
    clock: int,
) -> bool {
    forall|v: int|
        0 <= v < visited.len() && #[trigger] is_done(visited, on_stack, v) ==> 0 <= rank[v] < clock
            && forall|k: int|
            0 <= k < adj[v]@.len() ==> is_done(visited, on_stack, #[trigger] adj[v]@[k] as int)
                && rank[adj[v]@[k] as int] < rank[v]
}

/// Node `v` lies on a closed walk.
pub open spec fn on_cycle(g: DialogueGraph, v: int) -> bool {
    exists|p: Seq<int>| p.len() >= 2 && p[0] == v && p.last() == v && #[trigger] is_path(g, p)
}

/// A walk from node `v` leads to a node that lies on a closed walk.
pub open spec fn reaches_cycle(g: DialogueGraph, v: int) -> bool {
    exists|p: Seq<int>| p.len() >= 1 && p[0] == v && on_cycle(g, p.last()) && #[trigger] is_path(g, p)
}

/// Every flagged node leads to a cycle.
pub open spec fn flags_sound(g: DialogueGraph, flags: Seq<bool>) -> bool {
    forall|v: int| 0 <= v < flags.len() && #[trigger] flags[v] ==> reaches_cycle(g, v)
}

/// Cycle flags as the search leaves them: each flagged node leads to a
/// cycle, and every node on a cycle is flagged.
pub open spec fn cycle_flags_ok(g: DialogueGraph, flags: Seq<bool>) -> bool {
    &&& flags.len() == g.nodes@.len()
    &&& flags_sound(g, flags)
    &&& forall|v: int| 0 <= v < flags.len() && on_cycle(g, v) ==> #[trigger] flags[v]
}

proof fn lemma_on_cycle_reaches(g: DialogueGraph, v: int)
    requires
        on_cycle(g, v),
    ensures
        reaches_cycle(g, v),
{
    let p = seq![v];
    assert(is_path(g, p));
    assert(p.last() == v);
}

proof fn lemma_reaches_back(g: DialogueGraph, u: int, w: int)
    requires
        edge(g, u, w),
        reaches_cycle(g, w),
    ensures
        reaches_cycle(g, u),
{
    let q = choose|q: Seq<int>| q.len() >= 1 && q[0] == w && on_cycle(g, q.last()) && #[trigger] is_path(g, q);
    let p = seq![u] + q;
    assert forall|i: int| 0 <= i < p.len() - 1 implies #[trigger] edge(g, p[i], p[i + 1]) by {
        if i > 0 {
            assert(p[i] == q[i - 1] && p[i + 1] == q[i]);
            assert(edge(g, q[i - 1], q[i - 1 + 1]));
        }
    }
    assert(is_path(g, p));
    assert(p.last() == q.last());
}

proof fn lemma_reaches_has_cycle(g: DialogueGraph, v: int)
    requires
        reaches_cycle(g, v),
    ensures
        has_cycle(g),
{
    let q = choose|q: Seq<int>| q.len() >= 1 && q[0] == v && on_cycle(g, q.last()) && #[trigger] is_path(g, q);
    let c = q.last();
    let p = choose|p: Seq<int>| p.len() >= 2 && p[0] == c && p.last() == c && #[trigger] is_path(g, p);
    assert(p[0] == p.last());
}

/// Along a walk that starts at a finished node, every node is finished and
/// ranks fall.
proof fn lemma_done_walk(
    g: DialogueGraph,
    adj: Seq<Vec<usize>>,
    visited: Seq<bool>,
    on_stack: Seq<bool>,
    rank: Seq<int>,
    clock: int,
    p: Seq<int>,
    i: int,
)
    requires
        adjacency_ok(g, adj),
        adjacency_complete(g, adj),
        visited.len() == g.nodes@.len(),
        ranked(adj, visited, on_stack, rank, clock),
        is_path(g, p),
        0 <= i < p.len(),
        0 <= p[0] < g.nodes@.len(),
        is_done(visited, on_stack, p[0]),
    ensures
        is_done(visited, on_stack, p[i]),
        i > 0 ==> rank[p[i]] < rank[p[0]],
    decreases i,
{
    if i > 0 {
        lemma_done_walk(g, adj, visited, on_stack, rank, clock, p, i - 1);
        let a = p[i - 1];
        let b = p[i];
        assert(edge(g, p[i - 1], p[i - 1 + 1]));
        let k = choose|k: int|
            0 <= k < g.connections@.len() && (#[trigger] g.connections@[k]).from_node_id@
                == g.nodes@[a].id@ && node_slot(g, g.connections@[k].to_node_id@) == b;
        assert(g.connections@[k].from_node_id@ == g.nodes@[a].id@);
        let j = choose|j: int| 0 <= j < adj[a]@.len() && adj[a]@[j] as int == b;
        assert(is_done(visited, on_stack, a));
        assert(is_done(visited, on_stack, adj[a]@[j] as int) && rank[adj[a]@[j] as int] < rank[a]);
    }
}


pub open spec fn count_unset(s: Seq<bool>) -> nat
    decreases s.len(),
{
    if s.len() == 0 {
        0
    } else {
        count_unset(s.drop_last()) + if s.last() { 0nat } else { 1nat }
    }
}

proof fn lemma_count_unset_shrinks(a: Seq<bool>, b: Seq<bool>, u: int)
    requires
        a.len() == b.len(),
        forall|i: int| 0 <= i < a.len() && #[trigger] a[i] ==> b[i],
    ensures
        count_unset(b) <= count_unset(a),
        0 <= u < a.len() && !a[u] && b[u] ==> count_unset(b) < count_unset(a),
    decreases a.len(),
{
    if a.len() > 0 {
        let a2 = a.drop_last();
        let b2 = b.drop_last();
        assert forall|i: int| 0 <= i < a2.len() && #[trigger] a2[i] implies b2[i] by {
            assert(a[i]);
        }
        lemma_count_unset_shrinks(a2, b2, u);
    }
}

/// For each node, the nodes its outgoing connections lead to.
fn successors(graph: &DialogueGraph) -> (adj: Vec<Vec<usize>>)
    ensures
        adjacency_ok(*graph, adj@),
        adjacency_complete(*graph, adj@),
{
    let n = graph.nodes.len();
    let mut adj: Vec<Vec<usize>> = Vec::new();
    let mut u: usize = 0;
    while u < n
        invariant
            n == graph.nodes@.len(),
            u <= n,
            adj@.len() == u,
            forall|a: int, k: int|
                0 <= a < adj@.len() && 0 <= k < adj@[a]@.len() ==> #[trigger] edge(
                    *graph,
                    a,
                    adj@[a]@[k] as int,
                ),
            forall|a: int, j: int|
                0 <= a < adj@.len() && 0 <= j < graph.connections@.len()
                    && (#[trigger] graph.connections@[j]).from_node_id@ == (#[trigger] graph.nodes@[a]).id@
                    && node_slot(*graph, graph.connections@[j].to_node_id@) >= 0
                    ==> exists|i: int| 0 <= i < adj@[a]@.len() && adj@[a]@[i] as int == node_slot(*graph, graph.connections@[j].to_node_id@),
        decreases n - u,
    {
        let mut row: Vec<usize> = Vec::new();
        let mut k: usize = 0;
        while k < graph.connections.len()
            invariant
                n == graph.nodes@.len(),
                u < n,
                k <= graph.connections@.len(),
                forall|j: int| 0 <= j < row@.len() ==> #[trigger] edge(*graph, u as int, row@[j] as int),
                forall|j: int|
                    0 <= j < k && (#[trigger] graph.connections@[j]).from_node_id@ == graph.nodes@[u as int].id@
                        && node_slot(*graph, graph.connections@[j].to_node_id@) >= 0
                        ==> exists|i: int| 0 <= i < row@.len() && row@[i] as int == node_slot(*graph, graph.connections@[j].to_node_id@),
            decreases graph.connections@.len() - k,
        {
            let c = &graph.connections[k];
            let ghost before = row@;
            if c.from_node_id == graph.nodes[u].id {
                match graph.node_index(c.to_node_id.as_str()) {
                    Some(v) => {
                        assert(edge(*graph, u as int, v as int));
                        row.push(v);
                        assert(row@[row@.len() - 1] == v);
                    },
                    None => {},
                }
            }
            proof {
                assert forall|j: int|
                    0 <= j < k + 1 && (#[trigger] graph.connections@[j]).from_node_id@ == graph.nodes@[u as int].id@
                        && node_slot(*graph, graph.connections@[j].to_node_id@) >= 0
                        implies exists|i: int| 0 <= i < row@.len() && row@[i] as int == node_slot(*graph, graph.connections@[j].to_node_id@) by {
                    let x = node_slot(*graph, graph.connections@[j].to_node_id@);
                    if j < k {
                        let i = choose|i: int| 0 <= i < before.len() && before[i] as int == x;
                        assert(row@[i] == before[i]);
                    } else {
                        assert(row@[row@.len() - 1] as int == x);
                    }
                }
            }
            k = k + 1;
        }
        let ghost adj_before = adj@;
        adj.push(row);
        proof {
            assert forall|a: int, j: int|
                0 <= a < adj@.len() && 0 <= j < graph.connections@.len()
                    && (#[trigger] graph.connections@[j]).from_node_id@ == (#[trigger] graph.nodes@[a]).id@
                    && node_slot(*graph, graph.connections@[j].to_node_id@) >= 0
                    implies exists|i: int| 0 <= i < adj@[a]@.len() && adj@[a]@[i] as int == node_slot(*graph, graph.connections@[j].to_node_id@) by {
                if a < u {
                    assert(adj@[a] == adj_before[a]);
                } else {
                    assert(adj@[a]@ == row@);
                    assert(graph.connections@[j].from_node_id@ == graph.nodes@[u as int].id@);
                    let x = node_slot(*graph, graph.connections@[j].to_node_id@);
                    let i = choose|i: int| 0 <= i < row@.len() && row@[i] as int == x;
                    assert(adj@[a]@[i] as int == x);
                }
            }
            assert forall|a: int, k: int|
                0 <= a < adj@.len() && 0 <= k < adj@[a]@.len() implies #[trigger] edge(
                *graph,
                a,
                adj@[a]@[k] as int,
            ) by {}
        }
        u = u + 1;
    }
    adj
}

/// Depth-first search from `u`. `stack` is the path of nodes whose search
/// is under way. Returns true, after flagging nodes, once a connection to a
/// node still marked as on the stack has been found; the nodes of a search
/// that returns true stay marked.
fn dfs(
    graph: &DialogueGraph,
    adj: &Vec<Vec<usize>>,
    u: usize,
    visited: &mut Vec<bool>,
    on_stack: &mut Vec<bool>,
    flags: &mut Vec<bool>,
    Ghost(stack): Ghost<Seq<int>>,
    rank: &mut Ghost<Seq<int>>,
    clock: &mut Ghost<int>,
) -> (r: bool)
    requires
        adjacency_ok(*graph, adj@),
        adjacency_complete(*graph, adj@),
        old(visited)@.len() == graph.nodes@.len(),
        old(on_stack)@.len() == graph.nodes@.len(),
        old(flags)@.len() == graph.nodes@.len(),
        old(rank)@.len() == graph.nodes@.len(),
        old(clock)@ >= 0,
        u < graph.nodes@.len(),
        !old(visited)@[u as int],
        forall|v: int| 0 <= v < old(on_stack)@.len() && #[trigger] old(on_stack)@[v] ==> old(visited)@[v],
        is_path(*graph, stack.push(u as int)),
        forall|j: int| 0 <= j < stack.len() ==> old(on_stack)@[#[trigger] stack[j]],
        forall|v: int|
            0 <= v < old(on_stack)@.len() && #[trigger] old(on_stack)@[v] ==> old(flags)@[v]
                || stack.contains(v),
        flags_sound(*graph, old(flags)@),
        ranked(adj@, old(visited)@, old(on_stack)@, old(rank)@, old(clock)@),
    ensures
        final(visited)@.len() == graph.nodes@.len(),
        final(on_stack)@.len() == graph.nodes@.len(),
        final(flags)@.len() == graph.nodes@.len(),
        final(rank)@.len() == graph.nodes@.len(),
        final(clock)@ >= old(clock)@,
        forall|v: int| 0 <= v < final(visited)@.len() && #[trigger] old(visited)@[v] ==> final(visited)@[v],
        final(visited)@[u as int],
        forall|v: int| 0 <= v < final(on_stack)@.len() && #[trigger] final(on_stack)@[v] ==> final(visited)@[v],
        !r ==> final(on_stack)@ == old(on_stack)@,
        !r ==> is_done(final(visited)@, final(on_stack)@, u as int),
        r ==> final(flags)@[u as int],
        forall|v: int|
            0 <= v < final(on_stack)@.len() && #[trigger] final(on_stack)@[v] ==> old(on_stack)@[v]
                || final(flags)@[v],
        forall|i: int| 0 <= i < final(flags)@.len() && #[trigger] old(flags)@[i] ==> final(flags)@[i],
        flags_sound(*graph, final(flags)@),
        ranked(adj@, final(visited)@, final(on_stack)@, final(rank)@, final(clock)@),
        forall|v: int|
            0 <= v < graph.nodes@.len() && #[trigger] is_done(old(visited)@, old(on_stack)@, v)
                ==> is_done(final(visited)@, final(on_stack)@, v),
    decreases count_unset(old(visited)@),
{
    let n = graph.nodes.len();
    visited.set(u, true);
    on_stack.set(u, true);
    let ghost path = stack.push(u as int);
    let ghost entry_visited = old(visited)@;
    let ghost entry_stack = old(on_stack)@;
    let ghost entry_flags = old(flags)@;
    let ghost entry_clock = old(clock)@;
    proof {
        lemma_count_unset_shrinks(entry_visited, visited@, u as int);
        assert forall|v: int| 0 <= v < n && #[trigger] is_done(visited@, on_stack@, v) implies 0 <= rank@[v] < clock@
            && forall|j: int| 0 <= j < adj@[v]@.len() ==> is_done(visited@, on_stack@, #[trigger] adj@[v]@[j] as int)
            && rank@[adj@[v]@[j] as int] < rank@[v] by {
            assert(v != u);
            assert(is_done(entry_visited, entry_stack, v));
            assert forall|j: int| 0 <= j < adj@[v]@.len() implies is_done(visited@, on_stack@, #[trigger] adj@[v]@[j] as int)
                && rank@[adj@[v]@[j] as int] < rank@[v] by {
                let w = adj@[v]@[j] as int;
                assert(edge(*graph, v, w));
                assert(is_done(entry_visited, entry_stack, w) && rank@[w] < rank@[v]);
                assert(w != u);
                assert(visited@[w] == entry_visited[w]);
                assert(on_stack@[w] == entry_stack[w]);
            }
        }
    }
    let mut k: usize = 0;
    while k < adj[u].len()
        invariant
            adjacency_ok(*graph, adj@),
            adjacency_complete(*graph, adj@),
            n == graph.nodes@.len(),
            u < n,
            k <= adj@[u as int]@.len(),
            visited@.len() == n,
            on_stack@.len() == n,
            flags@.len() == n,
            rank@.len() == n,
            visited@[u as int],
            entry_visited.len() == n,
            entry_visited == old(visited)@,
            entry_stack.len() == n,
            entry_stack == old(on_stack)@,
            entry_flags == old(flags)@,
            entry_clock == old(clock)@,
            entry_clock >= 0,
            clock@ >= entry_clock,
            !entry_visited[u as int],
            forall|v: int| 0 <= v < n && #[trigger] entry_visited[v] ==> visited@[v],
            count_unset(visited@) < count_unset(entry_visited),
            on_stack@ == entry_stack.update(u as int, true),
            forall|v: int| 0 <= v < n && #[trigger] on_stack@[v] ==> visited@[v],
            forall|i: int| 0 <= i < n && #[trigger] entry_flags[i] ==> flags@[i],
            flags_sound(*graph, flags@),
            path == stack.push(u as int),
            is_path(*graph, path),
            forall|j: int| 0 <= j < stack.len() ==> entry_stack[#[trigger] stack[j]],
            forall|v: int|
                0 <= v < n && #[trigger] entry_stack[v] ==> entry_flags[v] || stack.contains(v),
            ranked(adj@, visited@, on_stack@, rank@, clock@),
            forall|j: int| 0 <= j < k ==> #[trigger] is_done(visited@, on_stack@, adj@[u as int]@[j] as int),
            forall|v: int| 0 <= v < n && #[trigger] is_done(entry_visited, entry_stack, v) ==> is_done(visited@, on_stack@, v),
        decreases adj@[u as int]@.len() - k,
    {
        let w = adj[u][k];
        assert(edge(*graph, u as int, w as int));
        if !visited[w] {
            let ghost before = visited@;
            let ghost before_stack = on_stack@;
            let ghost before_flags = flags@;
            proof {
                let p2 = path.push(w as int);
                assert forall|i: int| 0 <= i < p2.len() - 1 implies #[trigger] edge(*graph, p2[i], p2[i + 1]) by {
                    if i < path.len() - 1 {
                        assert(p2[i] == path[i] && p2[i + 1] == path[i + 1]);
                    }
                }
                assert(is_path(*graph, p2));
                assert forall|j: int| 0 <= j < path.len() implies on_stack@[#[trigger] path[j]] by {
                    if j < stack.len() {
                        assert(edge(*graph, path[j], path[j + 1]));
                        assert(path[j] == stack[j]);
                        assert(entry_stack[stack[j]]);
                        if path[j] != u {
                            assert(on_stack@[path[j]] == entry_stack[path[j]]);
                        }
                    } else {
                        assert(path[j] == u);
                    }
                }
                assert forall|v: int| 0 <= v < n && #[trigger] on_stack@[v] implies flags@[v] || path.contains(v) by {
                    if v == u {
                        assert(path[path.len() - 1] == v);
                    } else {
                        assert(entry_stack[v]);
                        if !entry_flags[v] {
                            let j = choose|j: int| 0 <= j < stack.len() && stack[j] == v;
                            assert(path[j] == v);
                        }
                    }
                }
                lemma_count_unset_shrinks(entry_visited, visited@, u as int);
            }
            let found = dfs(graph, adj, w, visited, on_stack, flags, Ghost(path), rank, clock);
            proof {
                assert forall|v: int| 0 <= v < n && #[trigger] entry_visited[v] implies visited@[v] by {
                    assert(before[v]);
                }
                assert forall|i: int| 0 <= i < n && #[trigger] entry_flags[i] implies flags@[i] by {
                    assert(before_flags[i]);
                }
            }
            if found {
                flags.set(u, true);
                proof {
                    lemma_reaches_back(*graph, u as int, w as int);
                    assert forall|v: int| 0 <= v < n && #[trigger] flags@[v] implies reaches_cycle(*graph, v) by {
                        if v != u {
                            assert(flags@[v] == old(flags)@[v] || true);
                        }
                    }
                    assert forall|v: int| 0 <= v < n && #[trigger] on_stack@[v] implies entry_stack[v] || flags@[v] by {
                        if !flags@[v] {
                            assert(before_stack[v]);
                        }
                    }
                    assert forall|i: int| 0 <= i < n && #[trigger] entry_flags[i] implies flags@[i] by {
                        assert(before_flags[i]);
                    }
                    assert forall|v: int| 0 <= v < n && #[trigger] is_done(entry_visited, entry_stack, v) implies is_done(visited@, on_stack@, v) by {
                        assert(is_done(before, before_stack, v));
                    }
                }
                return true;
            }
            proof {
                lemma_count_unset_shrinks(before, visited@, w as int);
                assert(is_done(visited@, on_stack@, w as int));
                assert forall|j: int| 0 <= j < k + 1 implies #[trigger] is_done(visited@, on_stack@, adj@[u as int]@[j] as int) by {
                    if j < k {
                        assert(edge(*graph, u as int, adj@[u as int]@[j] as int));
                        assert(is_done(before, before_stack, adj@[u as int]@[j] as int));
                    } else {
                        assert(adj@[u as int]@[j] == w);
                    }
                }
                assert forall|v: int| 0 <= v < n && #[trigger] is_done(entry_visited, entry_stack, v) implies is_done(visited@, on_stack@, v) by {
                    assert(is_done(before, before_stack, v));
                }
            }
        } else if on_stack[w] {
            proof {
                if w == u || !entry_flags[w as int] {
                    let j: int = if w == u {
                        path.len() - 1
                    } else {
                        assert(entry_stack[w as int]);
                        assert(stack.contains(w as int));
                        choose|j: int| 0 <= j < stack.len() && stack[j] == w
                    };
                    assert(path[j] == w);
                    let cyc = path.subrange(j, path.len() as int).push(w as int);
                    assert forall|i: int| 0 <= i < cyc.len() - 1 implies #[trigger] edge(*graph, cyc[i], cyc[i + 1]) by {
                        if i < cyc.len() - 2 {
                            assert(cyc[i] == path[j + i] && cyc[i + 1] == path[j + i + 1]);
                        } else {
                            assert(cyc[i] == u && cyc[i + 1] == w);
                        }
                    }
                    assert(is_path(*graph, cyc));
                    assert(cyc[0] == w && cyc.last() == w);
                    assert(on_cycle(*graph, w as int));
                    lemma_on_cycle_reaches(*graph, w as int);
                } else {
                    assert(flags@[w as int]);
                }
                assert(reaches_cycle(*graph, w as int));
                lemma_reaches_back(*graph, u as int, w as int);
            }
            flags.set(w, true);
            flags.set(u, true);
            proof {
                assert forall|v: int| 0 <= v < n && #[trigger] on_stack@[v] implies entry_stack[v] || flags@[v] by {}
            }
            return true;
        } else {
            proof {
                assert(is_done(visited@, on_stack@, w as int));
                assert forall|j: int| 0 <= j < k + 1 implies #[trigger] is_done(visited@, on_stack@, adj@[u as int]@[j] as int) by {
                    if j == k {
                        assert(adj@[u as int]@[j] == w);
                    }
                }
            }
        }
        k = k + 1;
    }
    let ghost stack_before = on_stack@;
    on_stack.set(u, false);
    assert(on_stack@ =~= entry_stack);
    proof {
        let r0 = rank@;
        let c0 = clock@;
        rank@ = r0.update(u as int, c0);
        clock@ = c0 + 1;
        assert forall|v: int| 0 <= v < n && #[trigger] is_done(visited@, on_stack@, v) implies 0 <= rank@[v] < clock@
            && forall|j: int| 0 <= j < adj@[v]@.len() ==> is_done(visited@, on_stack@, #[trigger] adj@[v]@[j] as int)
            && rank@[adj@[v]@[j] as int] < rank@[v] by {
            if v != u {
                assert(is_done(visited@, stack_before, v));
            }
            assert forall|j: int| 0 <= j < adj@[v]@.len() implies is_done(visited@, on_stack@, #[trigger] adj@[v]@[j] as int)
                && rank@[adj@[v]@[j] as int] < rank@[v] by {
                let w = adj@[v]@[j] as int;
                assert(edge(*graph, v, w));
                assert(stack_before[u as int]);
                if v == u {
                    assert(is_done(visited@, stack_before, w));
                    assert(is_done(visited@, stack_before, w) ==> 0 <= r0[w] < c0);
                } else {
                    assert(is_done(visited@, stack_before, v));
                    assert(is_done(visited@, stack_before, w) && r0[w] < r0[v]);
                }
                assert(w != u);
                assert(rank@[w] == r0[w]);
                assert(on_stack@[w] == stack_before[w]);
            }
        }
        assert forall|v: int| 0 <= v < n && #[trigger] is_done(entry_visited, entry_stack, v) implies is_done(visited@, on_stack@, v) by {
            assert(is_done(visited@, stack_before, v));
        }
    }
    false
}

/// Flags the nodes that the depth-first search finds on or leading into a
/// cycle, searching from every node not yet visited, in order. Every node
/// that lies on a cycle is flagged, and every flagged node leads to one.
pub fn detect_cycles(graph: &DialogueGraph) -> (flags: Vec<bool>)
    ensures
        cycle_flags_ok(*graph, flags@),
        !has_cycle(*graph) ==> forall|i: int| 0 <= i < flags@.len() ==> !#[trigger] flags@[i],
        has_cycle(*graph) ==> exists|i: int| 0 <= i < flags@.len() && #[trigger] flags@[i],
{
    let n = graph.nodes.len();
    let adj = successors(graph);
    let mut visited: Vec<bool> = Vec::new();
    let mut on_stack: Vec<bool> = Vec::new();
    let mut flags: Vec<bool> = Vec::new();
    let mut i: usize = 0;
    while i < n
        invariant
            i <= n,
            visited@.len() == i,
            on_stack@.len() == i,
            flags@.len() == i,
            forall|v: int| 0 <= v < i ==> !#[trigger] visited@[v],
            forall|v: int| 0 <= v < i ==> !#[trigger] on_stack@[v],
            forall|v: int| 0 <= v < i ==> !#[trigger] flags@[v],
        decreases n - i,
    {
        visited.push(false);
        on_stack.push(false);
        flags.push(false);
        i = i + 1;
    }
    let mut rank: Ghost<Seq<int>> = Ghost(Seq::new(n as nat, |v: int| 0int));
    let mut clock: Ghost<int> = Ghost(0);
    let mut s: usize = 0;
    while s < n
        invariant
            adjacency_ok(*graph, adj@),
            adjacency_complete(*graph, adj@),
            n == graph.nodes@.len(),
            s <= n,
            visited@.len() == n,
            on_stack@.len() == n,
            flags@.len() == n,
            rank@.len() == n,
            clock@ >= 0,
            forall|v: int| 0 <= v < n && #[trigger] on_stack@[v] ==> visited@[v],
            forall|v: int| 0 <= v < n && #[trigger] on_stack@[v] ==> flags@[v],
            forall|v: int| 0 <= v < s ==> #[trigger] visited@[v],
            flags_sound(*graph, flags@),
            ranked(adj@, visited@, on_stack@, rank@, clock@),
        decreases n - s,
    {
        if !visited[s] {
            let ghost before = visited@;
            let ghost before_stack = on_stack@;
            let ghost before_flags = flags@;
            proof {
                let p = Seq::<int>::empty().push(s as int);
                assert(is_path(*graph, p));
            }
            let _ = dfs(
                graph,
                &adj,
                s,
                &mut visited,
                &mut on_stack,
                &mut flags,
                Ghost(Seq::empty()),
                &mut rank,
                &mut clock,
            );
            proof {
                assert forall|v: int| 0 <= v < s + 1 implies #[trigger] visited@[v] by {
                    if v < s {
                        assert(before[v]);
                    }
                }
                assert forall|v: int| 0 <= v < n && #[trigger] on_stack@[v] implies flags@[v] by {
                    if before_stack[v] {
                        assert(before_flags[v]);
                    }
                }
            }
        }
        s = s + 1;
    }
    proof {
        assert forall|v: int| 0 <= v < flags@.len() && on_cycle(*graph, v) implies #[trigger] flags@[v] by {
            if !flags@[v] {
                assert(visited@[v]);
                assert(!on_stack@[v]);
                let p = choose|p: Seq<int>| p.len() >= 2 && p[0] == v && p.last() == v && #[trigger] is_path(*graph, p);
                lemma_done_walk(*graph, adj@, visited@, on_stack@, rank@, clock@, p, p.len() - 1);
            }
        }
        if has_cycle(*graph) {
            let p = choose|p: Seq<int>| p.len() >= 2 && p[0] == p.last() && #[trigger] is_path(*graph, p);
            assert(edge(*graph, p[0int], p[0int + 1]));
            assert(on_cycle(*graph, p[0]));
            assert(flags@[p[0]]);
        } else {
            assert forall|i: int| 0 <= i < flags@.len() implies !#[trigger] flags@[i] by {
                if flags@[i] {
                    lemma_reaches_has_cycle(*graph, i);
                }
            }
        }
    }
    flags
}

// ---------------------------------------------------------------------------
// The validator
// ---------------------------------------------------------------------------

/// Whether every character of `s` is whitespace.
fn is_blank_text(s: &String) -> (r: bool)
    ensures
        r == is_blank(s@),
{
    let n = s.as_str().unicode_len();
    let mut i: usize = 0;
    while i < n
        invariant
            i <= n,
            n == s@.len(),
            forall|k: int| 0 <= k < i ==> is_ws(#[trigger] s@[k]),
        decreases n - i,
    {
        if !s.as_str().get_char(i).is_whitespace() {
            return false;
        }
        i = i + 1;
    }
    true
}

fn make_node_issue(n: &Node, severity: ValidationSeverity, before: &str, after: &str, code: &str) -> (r: ValidationError)
    ensures
        view_issue(r) == node_issue(*n, severity, before@, after@, code@),
{
    let mut message = String::from_str(before);
    message.append(n.technical_name.as_str());
    message.append(after);
    ValidationError {
        node_id: Some(n.id.clone()),
        connection_id: None,
        severity,
        message,
        code: String::from_str(code),
    }
}

fn make_connection_issue(c: &Connection, id: &String, before: &str, code: &str) -> (r: ValidationError)
    ensures
        view_issue(r) == connection_issue(*c, id@, before@, code@),
{
    let mut message = String::from_str(before);
    message.append(id.as_str());
    message.append("'");
    ValidationError {
        node_id: None,
        connection_id: Some(c.id.clone()),
        severity: ValidationSeverity::Error,
        message,
        code: String::from_str(code),
    }
}

fn node_exists(graph: &DialogueGraph, id: &String) -> (r: bool)
    ensures
        r == has_node(*graph, id@),
{
    graph.node_index(id.as_str()).is_some()
}

fn orphan_pass(graph: &DialogueGraph, warnings: &mut Vec<ValidationError>)
    ensures
        view_issues(final(warnings)@) == view_issues(old(warnings)@) + orphan_issues(*graph, graph.nodes@),
{
    let n = graph.nodes.len();
    let mut i: usize = 0;
    let ghost start = view_issues(warnings@);
    while i < n
        invariant
            n == graph.nodes@.len(),
            i <= n,
            view_issues(warnings@) == start + orphan_issues(*graph, graph.nodes@.subrange(0, i as int)),
        decreases n - i,
    {
        let node = &graph.nodes[i];
        let mut touched = false;
        let mut k: usize = 0;
        while k < graph.connections.len()
            invariant
                k <= graph.connections@.len(),
                i < graph.nodes@.len(),
                *node == graph.nodes@[i as int],
                touched == exists|j: int| 0 <= j < k && touches(#[trigger] graph.connections@[j], node.id@),
            decreases graph.connections@.len() - k,
        {
            let c = &graph.connections[k];
            if c.from_node_id == node.id || c.to_node_id == node.id {
                touched = true;
            }
            k = k + 1;
        }
        proof {
            assert(graph.nodes@.subrange(0, i + 1).drop_last() =~= graph.nodes@.subrange(0, i as int));
        }
        let ghost old_w = warnings@;
        if !touched {
            let issue = make_node_issue(
                node,
                ValidationSeverity::Warning,
                "Node '",
                "' is not connected to any other nodes",
                "ORPHANED_NODE",
            );
            warnings.push(issue);
            assert(view_issues(warnings@) =~= view_issues(old_w) + seq![view_issue(issue)]);
        }
        i = i + 1;
        assert(view_issues(warnings@) =~= start + orphan_issues(*graph, graph.nodes@.subrange(0, i as int)));
    }
    assert(graph.nodes@.subrange(0, n as int) =~= graph.nodes@);
}

fn node_pass(graph: &DialogueGraph, errors: &mut Vec<ValidationError>, warnings: &mut Vec<ValidationError>)
    ensures
        view_issues(final(warnings)@) == view_issues(old(warnings)@) + node_warnings(graph.nodes@),
        view_issues(final(errors)@) == view_issues(old(errors)@) + node_errors(*graph, graph.nodes@),
{
    let n = graph.nodes.len();
    let mut i: usize = 0;
    let ghost start_w = view_issues(warnings@);
    let ghost start_e = view_issues(errors@);
    while i < n
        invariant
            n == graph.nodes@.len(),
            i <= n,
            view_issues(warnings@) == start_w + node_warnings(graph.nodes@.subrange(0, i as int)),
            view_issues(errors@) == start_e + node_errors(*graph, graph.nodes@.subrange(0, i as int)),
        decreases n - i,
    {
        let node = &graph.nodes[i];
        proof {
            assert(graph.nodes@.subrange(0, i + 1).drop_last() =~= graph.nodes@.subrange(0, i as int));
            assert(graph.nodes@.subrange(0, i + 1).last() == *node);
        }
        let ghost old_w = warnings@;
        let ghost old_e = errors@;
        let mut warning: Option<ValidationError> = None;
        let mut error: Option<ValidationError> = None;
        match &node.data {
            NodeData::Dialogue(d) | NodeData::DialogueFragment(d) => {
                if d.speaker.is_none() && d.text.as_str().unicode_len() == 0 {
                    warning = Some(make_node_issue(
                        node,
                        ValidationSeverity::Warning,
                        "Dialogue node '",
                        "' has no speaker or text",
                        "EMPTY_DIALOGUE",
                    ));
                }
            },
            NodeData::Jump(j) => {
                match &j.target_node_id {
                    Some(target) => {
                        if !node_exists(graph, target) {
                            error = Some(make_node_issue(
                                node,
                                ValidationSeverity::Error,
                                "Jump node '",
                                "' references non-existent target",
                                "INVALID_JUMP_TARGET",
                            ));
                        }
                    },
                    None => {
                        warning = Some(make_node_issue(
                            node,
                            ValidationSeverity::Warning,
                            "Jump node '",
                            "' has no target set",
                            "MISSING_JUMP_TARGET",
                        ));
                    },
                }
            },
            NodeData::Condition { script } => {
                if is_blank_text(&script.expression) {
                    warning = Some(make_node_issue(
                        node,
                        ValidationSeverity::Warning,
                        "Condition node '",
                        "' has empty expression",
                        "EMPTY_CONDITION",
                    ));
                }
            },
            NodeData::Instruction { script } => {
                if is_blank_text(&script.expression) {
                    warning = Some(make_node_issue(
                        node,
                        ValidationSeverity::Warning,
                        "Instruction node '",
                        "' has empty script",
                        "EMPTY_INSTRUCTION",
                    ));
                }
            },
            _ => {},
        }
        let ghost w_view = opt_issue(warning);
        let ghost e_view = opt_issue(error);
        assert(w_view =~= node_warning(*node));
        assert(e_view =~= node_error(*graph, *node));
        match warning {
            Some(x) => {
                warnings.push(x);
            },
            None => {},
        }
        match error {
            Some(x) => {
                errors.push(x);
            },
            None => {},
        }
        assert(view_issues(warnings@) =~= view_issues(old_w) + w_view);
        assert(view_issues(errors@) =~= view_issues(old_e) + e_view);
        i = i + 1;
        assert(view_issues(warnings@) =~= start_w + node_warnings(graph.nodes@.subrange(0, i as int)));
        assert(view_issues(errors@) =~= start_e + node_errors(*graph, graph.nodes@.subrange(0, i as int)));
    }
    assert(graph.nodes@.subrange(0, n as int) =~= graph.nodes@);
}

fn cycle_pass(graph: &DialogueGraph, flags: &Vec<bool>, warnings: &mut Vec<ValidationError>)
    requires
        flags@.len() == graph.nodes@.len(),
    ensures
        view_issues(final(warnings)@) == view_issues(old(warnings)@) + cycle_issues(*graph, flags@, graph.nodes@.len() as int),
{
    let n = graph.nodes.len();
    let mut i: usize = 0;
    let ghost start = view_issues(warnings@);
    while i < n
        invariant
            n == graph.nodes@.len(),
            flags@.len() == n,
            i <= n,
            view_issues(warnings@) == start + cycle_issues(*graph, flags@, i as int),
        decreases n - i,
    {
        let ghost old_w = warnings@;
        if flags[i] {
            let issue = make_node_issue(
                &graph.nodes[i],
                ValidationSeverity::Warning,
                "Node '",
                "' is part of a cycle - may cause infinite loops",
                "CYCLE_DETECTED",
            );
            warnings.push(issue);
            assert(view_issues(warnings@) =~= view_issues(old_w) + seq![view_issue(issue)]);
        }
        i = i + 1;
        assert(view_issues(warnings@) =~= start + cycle_issues(*graph, flags@, i as int));
    }
}

fn connection_pass(graph: &DialogueGraph, errors: &mut Vec<ValidationError>)
    ensures
        view_issues(final(errors)@) == view_issues(old(errors)@) + connection_errors(*graph, graph.connections@),
{
    let n = graph.connections.len();
    let mut i: usize = 0;
    let ghost start = view_issues(errors@);
    while i < n
        invariant
            n == graph.connections@.len(),
            i <= n,
            view_issues(errors@) == start + connection_errors(*graph, graph.connections@.subrange(0, i as int)),
        decreases n - i,
    {
        let c = &graph.connections[i];
        proof {
            assert(graph.connections@.subrange(0, i + 1).drop_last() =~= graph.connections@.subrange(0, i as int));
            assert(graph.connections@.subrange(0, i + 1).last() == *c);
        }
        let ghost old_e = errors@;
        let ghost mut added: Seq<IssueView> = Seq::empty();
        if !node_exists(graph, &c.from_node_id) {
            let issue = make_connection_issue(
                c,
                &c.from_node_id,
                "Connection references non-existent source node '",
                "INVALID_CONNECTION_SOURCE",
            );
            errors.push(issue);
            proof {
                added = added.push(view_issue(issue));
            }
        }
        let ghost mid = added;
        if !node_exists(graph, &c.to_node_id) {
            let issue = make_connection_issue(
                c,
                &c.to_node_id,
                "Connection references non-existent target node '",
                "INVALID_CONNECTION_TARGET",
            );
            errors.push(issue);
            proof {
                added = added.push(view_issue(issue));
            }
        }
        assert(view_issues(errors@) =~= view_issues(old_e) + added);
        i = i + 1;
        assert(view_issues(errors@) =~= start + connection_errors(*graph, graph.connections@.subrange(0, i as int)));
    }
    assert(graph.connections@.subrange(0, n as int) =~= graph.connections@);
}

/// Checks a graph: orphans (when it has two nodes or more), the per-type
/// rules, cycles and the ends of connections. Only errors make a graph
/// invalid; the graph is left as it is.
pub fn validate(graph: &DialogueGraph) -> (r: ValidationReport)
    ensures
        r.is_valid == (r.errors@.len() == 0),
        view_issues(r.errors@) == expected_errors(*graph),
        exists|flags: Seq<bool>|
            cycle_flags_ok(*graph, flags) && view_issues(r.warnings@) == #[trigger] expected_warnings(
                *graph,
                flags,
            ),
{
    let mut errors: Vec<ValidationError> = Vec::new();
    let mut warnings: Vec<ValidationError> = Vec::new();
    if graph.nodes.len() > 1 {
        orphan_pass(graph, &mut warnings);
    }
    node_pass(graph, &mut errors, &mut warnings);
    let flags = detect_cycles(graph);
    cycle_pass(graph, &flags, &mut warnings);
    connection_pass(graph, &mut errors);
    assert(view_issues(Seq::<ValidationError>::empty()) =~= Seq::<IssueView>::empty());
    assert(view_issues(warnings@) =~= expected_warnings(*graph, flags@));
    assert(view_issues(errors@) =~= expected_errors(*graph));
    ValidationReport { is_valid: errors.len() == 0, errors, warnings }
}

// ---------------------------------------------------------------------------
// Laws of validation
// ---------------------------------------------------------------------------

proof fn lemma_no_flags_no_issues(g: DialogueGraph, flags: Seq<bool>, i: int)
    requires
        0 <= i <= flags.len(),
        forall|k: int| 0 <= k < flags.len() ==> !#[trigger] flags[k],
    ensures
        cycle_issues(g, flags, i) == Seq::<IssueView>::empty(),
    decreases i,
{
    if i > 0 {
        lemma_no_flags_no_issues(g, flags, i - 1);
        assert(!flags[i - 1]);
        assert(cycle_issues(g, flags, i) =~= Seq::<IssueView>::empty());
    }
}

proof fn lemma_flag_gives_issue(g: DialogueGraph, flags: Seq<bool>, i: int, m: int)
    requires
        0 <= i < m <= flags.len(),
        flags[i],
    ensures
        cycle_issues(g, flags, m).len() > 0,
    decreases m,
{
    if i < m - 1 {
        lemma_flag_gives_issue(g, flags, i, m - 1);
    }
}

proof fn lemma_flag_listed(g: DialogueGraph, flags: Seq<bool>, i: int, m: int)
    requires
        0 <= i < m <= flags.len(),
        m <= g.nodes@.len(),
        flags[i],
    ensures
        cycle_issues(g, flags, m).contains(cycle_issue(g.nodes@[i])),
    decreases m,
{
    let rest = cycle_issues(g, flags, m - 1);
    if i == m - 1 {
        assert(cycle_issues(g, flags, m)[rest.len() as int] == cycle_issue(g.nodes@[i]));
    } else {
        lemma_flag_listed(g, flags, i, m - 1);
        let j = choose|j: int| 0 <= j < rest.len() && rest[j] == cycle_issue(g.nodes@[i]);
        assert(cycle_issues(g, flags, m)[j] == rest[j]);
    }
}

/// Every node that lies on a cycle, each node of a ring for one, gets a
/// cycle warning.
pub proof fn lemma_cycle_node_warned(g: DialogueGraph, flags: Seq<bool>, v: int)
    requires
        cycle_flags_ok(g, flags),
        0 <= v < g.nodes@.len(),
        on_cycle(g, v),
    ensures
        cycle_issues(g, flags, g.nodes@.len() as int).contains(cycle_issue(g.nodes@[v])),
{
    assert(flags[v]);
    lemma_flag_listed(g, flags, v, flags.len() as int);
}

/// A node with a connection to itself lies on a cycle.
pub proof fn lemma_self_edge_on_cycle(g: DialogueGraph, v: int)
    requires
        edge(g, v, v),
    ensures
        on_cycle(g, v),
{
    let p = seq![v, v];
    assert(edge(g, p[0int], p[0int + 1]));
    assert(is_path(g, p));
}

/// A graph with a cycle, a ring for one, gets at least one cycle warning.
pub proof fn lemma_cycle_warned(g: DialogueGraph, flags: Seq<bool>)
    requires
        cycle_flags_ok(g, flags),
        has_cycle(g),
    ensures
        cycle_issues(g, flags, g.nodes@.len() as int).len() > 0,
{
    let p = choose|p: Seq<int>| p.len() >= 2 && p[0] == p.last() && #[trigger] is_path(g, p);
    assert(edge(g, p[0int], p[0int + 1]));
    assert(on_cycle(g, p[0]));
    lemma_flag_gives_issue(g, flags, p[0], flags.len() as int);
}

/// A graph without cycles, a linear chain for one, gets no cycle warning.
pub proof fn lemma_acyclic_no_cycle_warnings(g: DialogueGraph, flags: Seq<bool>)
    requires
        cycle_flags_ok(g, flags),
        !has_cycle(g),
    ensures
        cycle_issues(g, flags, g.nodes@.len() as int) == Seq::<IssueView>::empty(),
{
    assert forall|k: int| 0 <= k < flags.len() implies !#[trigger] flags[k] by {
        if flags[k] {
            lemma_reaches_has_cycle(g, k);
        }
    }
    lemma_no_flags_no_issues(g, flags, flags.len() as int);
}

proof fn lemma_orphan_listed(g: DialogueGraph, ns: Seq<Node>, i: int)
    requires
        0 <= i < ns.len(),
        is_orphan(g, ns[i]),
    ensures
        orphan_issues(g, ns).contains(orphan_issue(ns[i])),
    decreases ns.len(),
{
    let rest = orphan_issues(g, ns.drop_last());
    if i == ns.len() - 1 {
        assert(orphan_issues(g, ns)[rest.len() as int] == orphan_issue(ns[i]));
    } else {
        lemma_orphan_listed(g, ns.drop_last(), i);
        assert(ns.drop_last()[i] == ns[i]);
        let j = choose|j: int| 0 <= j < rest.len() && rest[j] == orphan_issue(ns[i]);
        assert(orphan_issues(g, ns)[j] == rest[j]);
    }
}

proof fn lemma_node_warning_listed(ns: Seq<Node>, i: int)
    requires
        0 <= i < ns.len(),
        node_warning(ns[i]).len() == 1,
    ensures
        node_warnings(ns).contains(node_warning(ns[i])[0]),
    decreases ns.len(),
{
    let rest = node_warnings(ns.drop_last());
    if i == ns.len() - 1 {
        assert(node_warnings(ns)[rest.len() as int] == node_warning(ns[i])[0]);
    } else {
        lemma_node_warning_listed(ns.drop_last(), i);
        assert(ns.drop_last()[i] == ns[i]);
        let j = choose|j: int| 0 <= j < rest.len() && rest[j] == node_warning(ns[i])[0];
        assert(node_warnings(ns)[j] == rest[j]);
    }
}

/// In a graph of two nodes or more, a dialogue node without speaker or text
/// that no connection touches is warned about twice: as an orphan and as an
/// empty dialogue.
pub proof fn lemma_empty_orphan_dialogue_warned(g: DialogueGraph, flags: Seq<bool>, i: int)
    requires
        g.nodes@.len() > 1,
        0 <= i < g.nodes@.len(),
        g.nodes@[i].data is Dialogue,
        g.nodes@[i].data->Dialogue_0.speaker is None,
        g.nodes@[i].data->Dialogue_0.text@.len() == 0,
        is_orphan(g, g.nodes@[i]),
    ensures
        expected_warnings(g, flags).contains(orphan_issue(g.nodes@[i])),
        expected_warnings(g, flags).contains(
            node_issue(
                g.nodes@[i],
                ValidationSeverity::Warning,
                "Dialogue node '"@,
                "' has no speaker or text"@,
                "EMPTY_DIALOGUE"@,
            ),
        ),
{
    let n = g.nodes@[i];
    let a = orphan_issues(g, g.nodes@);
    let b = node_warnings(g.nodes@);
    let c = cycle_issues(g, flags, g.nodes@.len() as int);
    let w = expected_warnings(g, flags);
    assert(w == a + b + c);
    lemma_orphan_listed(g, g.nodes@, i);
    let j = choose|j: int| 0 <= j < a.len() && a[j] == orphan_issue(n);
    assert(w[j] == a[j]);
    assert(node_warning(n).len() == 1);
    lemma_node_warning_listed(g.nodes@, i);
    let k = choose|k: int| 0 <= k < b.len() && b[k] == node_warning(n)[0];
    assert(w[a.len() + k] == b[k]);
}

proof fn lemma_node_errors_name(g: DialogueGraph, ns: Seq<Node>, id: Seq<char>, k: int)
    requires
        0 <= k < node_errors(g, ns).len(),
        node_errors(g, ns)[k].node_id == Some(id),
    ensures
        exists|j: int| 0 <= j < ns.len() && (#[trigger] ns[j]).id@ == id && ns[j].data is Jump,
    decreases ns.len(),
{
    let rest = node_errors(g, ns.drop_last());
    if k < rest.len() {
        assert(node_errors(g, ns)[k] == rest[k]);
        lemma_node_errors_name(g, ns.drop_last(), id, k);
        let j = choose|j: int| 0 <= j < ns.drop_last().len() && (#[trigger] ns.drop_last()[j]).id@ == id
            && ns.drop_last()[j].data is Jump;
        assert(ns[j] == ns.drop_last()[j]);
    } else {
        let n = ns.last();
        assert(node_errors(g, ns)[k] == node_error(g, n)[k - rest.len()]);
        assert(ns[ns.len() - 1] == n);
    }
}

proof fn lemma_connection_errors_name_no_node(g: DialogueGraph, cs: Seq<Connection>, k: int)
    requires
        0 <= k < connection_errors(g, cs).len(),
    ensures
        connection_errors(g, cs)[k].node_id is None,
    decreases cs.len(),
{
    let rest = connection_errors(g, cs.drop_last());
    if k < rest.len() {
        lemma_connection_errors_name_no_node(g, cs.drop_last(), k);
    }
}

/// An error that names a node's id comes from a jump node with that id: a
/// dialogue node, disconnected or not, is never named by an error unless a
/// jump node shares its id.
pub proof fn lemma_errors_name_only_jumps(g: DialogueGraph, id: Seq<char>, k: int)
    requires
        0 <= k < expected_errors(g).len(),
        expected_errors(g)[k].node_id == Some(id),
    ensures
        exists|j: int| 0 <= j < g.nodes@.len() && (#[trigger] g.nodes@[j]).id@ == id && g.nodes@[j].data is Jump,
{
    let a = node_errors(g, g.nodes@);
    let b = connection_errors(g, g.connections@);
    if k < a.len() {
        assert(expected_errors(g)[k] == a[k]);
        lemma_node_errors_name(g, g.nodes@, id, k);
    } else {
        assert(expected_errors(g)[k] == b[k - a.len()]);
        lemma_connection_errors_name_no_node(g, g.connections@, k - a.len());
    }
}

} // verus!
