//! Workflows: nodes and the edges between them.
//!
//! A workflow is walked from its entry along the edges. Nodes may have the same id
//! only by mistake; the first one counts.

use crate::json;
use crate::json::Json;
use crate::keyed::TextSet;
use crate::text;
use vstd::prelude::*;
use vstd::string::*;

verus! {

/// How a join settles its branches.
#[derive(Clone, Copy, Debug, PartialEq, Eq, Structural)]
pub enum JoinStrategy {
    /// The first branch that failed fails the whole.
    AllOrFail,
    /// A branch that failed gives null.
    AllSettled,
}

/// How a loop repeats its body.
#[derive(Clone, Copy, Debug, PartialEq, Eq, Structural)]
pub enum LoopMode {
    DoWhile,
    DoUntil,
    ForEach { concurrency: usize },
}

/// A condition as it is written. It is evaluated outside the library.
#[derive(Debug, PartialEq)]
pub struct Condition {
    pub source: Json,
}

/// The fields of a reshaped value, each with the pointer to what it holds.
#[derive(Clone, Debug, PartialEq, Eq)]
pub struct MapSpec {
    pub fields: Vec<(String, String)>,
}

/// What a node does.
#[derive(Debug, PartialEq)]
pub enum NodeKind {
    Step { step_id: String, config: Json },
    Reshape { mapping: MapSpec },
    Parallel,
    Join { strategy: JoinStrategy },
    Branch,
    Loop { mode: LoopMode, body: String, condition: Option<Condition> },
}

/// A node.
#[derive(Debug, PartialEq)]
pub struct WorkflowNode {
    pub id: String,
    pub kind: NodeKind,
}

/// How an edge is followed.
#[derive(Debug, PartialEq)]
pub enum EdgeKind {
    Then,
    Fork,
    Merge,
    When { condition: Condition },
    LoopBack,
}

/// An edge.
#[derive(Debug, PartialEq)]
pub struct WorkflowEdge {
    pub from: String,
    pub to: String,
    pub kind: EdgeKind,
}

/// A workflow.
#[derive(Debug, PartialEq)]
pub struct WorkflowDef {
    pub id: String,
    pub input_schema: Json,
    pub output_schema: Json,
    pub nodes: Vec<WorkflowNode>,
    pub edges: Vec<WorkflowEdge>,
    pub entry: String,
}

// ─── Views ───────────────────────────────────────────────────────────────────

#[verifier::ext_equal]
pub ghost enum KindView {
    Step { step_id: Seq<char>, config: json::JsonView },
    Reshape { fields: Seq<(Seq<char>, Seq<char>)> },
    Parallel,
    Join { strategy: JoinStrategy },
    Branch,
    Loop { mode: LoopMode, body: Seq<char>, condition: Option<json::JsonView> },
}

#[verifier::ext_equal]
pub ghost struct NodeView {
    pub id: Seq<char>,
    pub kind: KindView,
}

#[verifier::ext_equal]
pub ghost enum LinkView {
    Then,
    Fork,
    Merge,
    When(json::JsonView),
    LoopBack,
}

#[verifier::ext_equal]
pub ghost struct EdgeView {
    pub from: Seq<char>,
    pub to: Seq<char>,
    pub kind: LinkView,
}

#[verifier::ext_equal]
pub ghost struct DefView {
    pub id: Seq<char>,
    pub input_schema: json::JsonView,
    pub output_schema: json::JsonView,
    pub nodes: Seq<NodeView>,
    pub edges: Seq<EdgeView>,
    pub entry: Seq<char>,
}

impl View for Condition {
    type V = json::JsonView;

    open spec fn view(&self) -> json::JsonView {
        self.source@
    }
}

/// The view of a condition that may be missing.
pub open spec fn condition_opt(c: Option<Condition>) -> Option<json::JsonView> {
    match c {
        Some(c) => Some(c@),
        None => None,
    }
}

/// The fields with their pointers, by their texts.
pub open spec fn fields_view(s: Seq<(String, String)>) -> Seq<(Seq<char>, Seq<char>)> {
    Seq::new(s.len(), |i: int| (s[i].0@, s[i].1@))
}

impl View for NodeKind {
    type V = KindView;

    open spec fn view(&self) -> KindView {
        match self {
            NodeKind::Step { step_id, config } => KindView::Step {
                step_id: step_id@,
                config: config@,
            },
            NodeKind::Reshape { mapping } => KindView::Reshape { fields: fields_view(mapping.fields@) },
            NodeKind::Parallel => KindView::Parallel,
            NodeKind::Join { strategy } => KindView::Join { strategy: *strategy },
            NodeKind::Branch => KindView::Branch,
            NodeKind::Loop { mode, body, condition } => KindView::Loop {
                mode: *mode,
                body: body@,
                condition: condition_opt(*condition),
            },
        }
    }
}

impl View for WorkflowNode {
    type V = NodeView;

    open spec fn view(&self) -> NodeView {
        NodeView { id: self.id@, kind: self.kind@ }
    }
}

impl View for EdgeKind {
    type V = LinkView;

    open spec fn view(&self) -> LinkView {
        match self {
            EdgeKind::Then => LinkView::Then,
            EdgeKind::Fork => LinkView::Fork,
            EdgeKind::Merge => LinkView::Merge,
            EdgeKind::When { condition } => LinkView::When(condition@),
            EdgeKind::LoopBack => LinkView::LoopBack,
        }
    }
}

impl View for WorkflowEdge {
    type V = EdgeView;

    open spec fn view(&self) -> EdgeView {
        EdgeView { from: self.from@, to: self.to@, kind: self.kind@ }
    }
}

/// The views of a list of nodes.
pub open spec fn nodes_view(s: Seq<WorkflowNode>) -> Seq<NodeView> {
    Seq::new(s.len(), |i: int| s[i]@)
}

/// The views of a list of edges.
pub open spec fn edges_view(s: Seq<WorkflowEdge>) -> Seq<EdgeView> {
    Seq::new(s.len(), |i: int| s[i]@)
}

impl View for WorkflowDef {
    type V = DefView;

    open spec fn view(&self) -> DefView {
        DefView {
            id: self.id@,
            input_schema: self.input_schema@,
            output_schema: self.output_schema@,
            nodes: nodes_view(self.nodes@),
            edges: edges_view(self.edges@),
            entry: self.entry@,
        }
    }
}

impl WorkflowNode {
    pub fn new(id: String, kind: NodeKind) -> (r: WorkflowNode)
        ensures
            r@ == (NodeView { id: id@, kind: kind@ }),
    {
        WorkflowNode { id, kind }
    }
}

impl WorkflowEdge {
    pub fn new(from: String, to: String, kind: EdgeKind) -> (r: WorkflowEdge)
        ensures
            r@ == (EdgeView { from: from@, to: to@, kind: kind@ }),
    {
        WorkflowEdge { from, to, kind }
    }
}

/// A copy of a condition.
pub fn copy_condition(c: &Condition) -> (r: Condition)
    ensures
        r@ == c@,
{
    Condition { source: c.source.copy() }
}

/// A copy of a condition that may be missing.
pub fn copy_condition_opt(c: &Option<Condition>) -> (r: Option<Condition>)
    ensures
        condition_opt(r) == condition_opt(*c),
{
    match c {
        Some(c) => Some(copy_condition(c)),
        None => None,
    }
}

// ─── The graph ───────────────────────────────────────────────────────────────

/// The position of the first node with an id, or the length where there is none.
pub open spec fn node_position(nodes: Seq<NodeView>, id: Seq<char>) -> int
    decreases nodes.len(),
{
    if nodes.len() == 0 || nodes[0].id == id {
        0
    } else {
        1 + node_position(nodes.skip(1), id)
    }
}

/// The position of the first edge from a node that is taken as given, from `i` on,
/// or the length where there is none.
pub open spec fn then_position(edges: Seq<EdgeView>, id: Seq<char>, i: int) -> int
    decreases edges.len() - i,
{
    if i >= edges.len() || (edges[i].from == id && edges[i].kind is Then) {
        i
    } else {
        then_position(edges, id, i + 1)
    }
}

/// The position of the first conditional edge from a node, from `i` on, or the length
/// where there is none.
pub open spec fn arm_position(edges: Seq<EdgeView>, id: Seq<char>, i: int) -> int
    decreases edges.len() - i,
{
    if i >= edges.len() || (edges[i].from == id && edges[i].kind is When) {
        i
    } else {
        arm_position(edges, id, i + 1)
    }
}

/// The nodes that a node forks to.
pub open spec fn fork_targets(edges: Seq<EdgeView>, id: Seq<char>) -> Seq<Seq<char>>
    decreases edges.len(),
{
    if edges.len() == 0 {
        Seq::empty()
    } else {
        let before = fork_targets(edges.drop_last(), id);
        let e = edges.last();
        if e.from == id && e.kind is Fork {
            before.push(e.to)
        } else {
            before
        }
    }
}

/// An edge leads from `a` to `b`, and not back to a loop.
pub open spec fn linked(edges: Seq<EdgeView>, a: Seq<char>, b: Seq<char>) -> bool {
    exists|i: int|
        0 <= i < edges.len() && (#[trigger] edges[i]).from == a && edges[i].to == b
            && !(edges[i].kind is LoopBack)
}

/// A way along the edges that stays clear of `stop`.
pub open spec fn is_way(edges: Seq<EdgeView>, way: Seq<Seq<char>>, stop: Seq<char>) -> bool {
    &&& way.len() > 0
    &&& forall|i: int| 0 <= i < way.len() ==> way[i] != stop
    &&& forall|i: int| 0 <= i < way.len() - 1 ==> linked(edges, #[trigger] way[i], way[i + 1])
}

/// There is a way from `start` to `n` that stays clear of `stop`.
pub open spec fn reaches(
    edges: Seq<EdgeView>,
    start: Seq<char>,
    stop: Seq<char>,
    n: Seq<char>,
) -> bool {
    exists|way: Seq<Seq<char>>|
        #[trigger] is_way(edges, way, stop) && way[0] == start && way.last() == n
}

proof fn lemma_start_is_reached(edges: Seq<EdgeView>, start: Seq<char>, stop: Seq<char>)
    requires
        start != stop,
    ensures
        reaches(edges, start, stop, start),
{
    let way = seq![start];
    assert(is_way(edges, way, stop));
    assert(way[0] == start && way.last() == start);
}

/// What follows a node that is reached is reached too, unless it is where to stop.
pub proof fn successors_are_reached(
    edges: Seq<EdgeView>,
    start: Seq<char>,
    stop: Seq<char>,
    a: Seq<char>,
    b: Seq<char>,
)
    requires
        reaches(edges, start, stop, a),
        linked(edges, a, b),
        b != stop,
    ensures
        reaches(edges, start, stop, b),
{
    let way = choose|way: Seq<Seq<char>>|
        #[trigger] is_way(edges, way, stop) && way[0] == start && way.last() == a;
    let on = way.push(b);
    assert forall|i: int| 0 <= i < on.len() - 1 implies linked(
        edges,
        #[trigger] on[i],
        on[i + 1],
    ) by {
        if i < way.len() - 1 {
            assert(linked(edges, way[i], way[i + 1]));
            assert(on[i] == way[i] && on[i + 1] == way[i + 1]);
        } else {
            assert(on[i] == a && on[i + 1] == b);
        }
    }
    assert(is_way(edges, on, stop));
    assert(on[0] == start && on.last() == b);
}

proof fn lemma_closed_holds_the_way(
    edges: Seq<EdgeView>,
    stop: Seq<char>,
    way: Seq<Seq<char>>,
    seen: Set<Seq<char>>,
    n: int,
)
    requires
        is_way(edges, way, stop),
        seen.contains(way[0]),
        forall|a: Seq<char>, b: Seq<char>|
            seen.contains(a) && #[trigger] linked(edges, a, b) && b != stop ==> seen.contains(b),
        0 <= n < way.len(),
    ensures
        seen.contains(way[n]),
    decreases n,
{
    if n > 0 {
        lemma_closed_holds_the_way(edges, stop, way, seen, n - 1);
        assert(linked(edges, way[n - 1], way[n - 1 + 1]));
    }
}

/// Where edges lead to.
pub open spec fn targets(edges: Seq<EdgeView>) -> Seq<Seq<char>> {
    Seq::new(edges.len(), |i: int| edges[i].to)
}

/// A node can be reached from one of these.
pub open spec fn fed_by(edges: Seq<EdgeView>, starts: Seq<Seq<char>>, n: Seq<char>) -> bool {
    exists|k: int|
        0 <= k < starts.len() && reaches(edges, #[trigger] starts[k], Seq::<char>::empty(), n)
}

/// The position of the first edge, from `i` on, that merges a branch from one of these,
/// or the length where there is none.
pub open spec fn merge_position(edges: Seq<EdgeView>, starts: Seq<Seq<char>>, i: int) -> int
    decreases edges.len() - i,
{
    if i >= edges.len() || (edges[i].kind is Merge && fed_by(edges, starts, edges[i].from)) {
        i
    } else {
        merge_position(edges, starts, i + 1)
    }
}

/// A workflow that can be run, with the ids of the steps that are known.
#[derive(Debug, PartialEq)]
pub struct Workflow {
    pub def: WorkflowDef,
    pub steps: Vec<String>,
}

impl Workflow {
    /// The node with an id.
    pub open spec fn kind_of(&self, id: Seq<char>) -> Option<KindView> {
        let nodes = self.def@.nodes;
        let i = node_position(nodes, id);
        if i < nodes.len() {
            Some(nodes[i].kind)
        } else {
            None
        }
    }

    /// Where a node leads on to.
    pub open spec fn next_of(&self, id: Seq<char>) -> Option<Seq<char>> {
        let edges = self.def@.edges;
        let i = then_position(edges, id, 0);
        if i < edges.len() {
            Some(edges[i].to)
        } else {
            None
        }
    }

    /// Whether there is a step with this id.
    pub open spec fn knows(&self, step_id: Seq<char>) -> bool {
        text::views(self.steps@).contains(step_id)
    }

    /// The node with an id.
    pub fn node(&self, id: &str) -> (r: Option<&WorkflowNode>)
        ensures
            match r {
                Some(n) => self.kind_of(id@) == Some(n.kind@) && n.id@ == id@,
                None => self.kind_of(id@) is None,
            },
    {
        let ghost nodes = self.def@.nodes;
        let mut i: usize = 0;
        assert(nodes.skip(0) =~= nodes);
        while i < self.def.nodes.len()
            invariant
                i <= self.def.nodes@.len(),
                nodes == self.def@.nodes,
                node_position(nodes, id@) == i + node_position(nodes.skip(i as int), id@),
            decreases self.def.nodes@.len() - i,
        {
            assert(nodes.skip(i as int)[0] == self.def.nodes@[i as int]@);
            assert(nodes.skip(i as int).skip(1) =~= nodes.skip(i + 1));
            if text::same(self.def.nodes[i].id.as_str(), id) {
                return Some(&self.def.nodes[i]);
            }
            i = i + 1;
        }
        None
    }

    /// Where a node leads on to.
    pub fn next_node(&self, id: &str) -> (r: Option<String>)
        ensures
            match r {
                Some(n) => self.next_of(id@) == Some(n@),
                None => self.next_of(id@) is None,
            },
    {
        let ghost edges = self.def@.edges;
        let mut i: usize = 0;
        while i < self.def.edges.len()
            invariant
                i <= self.def.edges@.len(),
                edges == self.def@.edges,
                then_position(edges, id@, 0) == then_position(edges, id@, i as int),
            decreases self.def.edges@.len() - i,
        {
            let e = &self.def.edges[i];
            assert(edges[i as int] == e@);
            if text::same(e.from.as_str(), id) {
                if let EdgeKind::Then = e.kind {
                    return Some(e.to.clone());
                }
            }
            i = i + 1;
        }
        None
    }

    /// The position of the first conditional edge from a node, from `from` on.
    pub fn next_arm(&self, id: &str, from: usize) -> (r: usize)
        requires
            from <= self.def.edges@.len(),
        ensures
            r == arm_position(self.def@.edges, id@, from as int),
            from <= r <= self.def.edges@.len(),
            r < self.def.edges@.len() ==> self.def@.edges[r as int].from == id@
                && self.def@.edges[r as int].kind is When,
    {
        let ghost edges = self.def@.edges;
        let mut i: usize = from;
        while i < self.def.edges.len()
            invariant
                from <= i <= self.def.edges@.len(),
                edges == self.def@.edges,
                arm_position(edges, id@, from as int) == arm_position(edges, id@, i as int),
            decreases self.def.edges@.len() - i,
        {
            let e = &self.def.edges[i];
            assert(edges[i as int] == e@);
            if text::same(e.from.as_str(), id) {
                if let EdgeKind::When { .. } = e.kind {
                    return i;
                }
            }
            i = i + 1;
        }
        i
    }

    /// The nodes that a node forks to.
    pub fn forks(&self, id: &str) -> (r: Vec<String>)
        ensures
            text::views(r@) == fork_targets(self.def@.edges, id@),
    {
        let ghost edges = self.def@.edges;
        let mut out: Vec<String> = Vec::new();
        let mut i: usize = 0;
        assert(text::views(out@) =~= fork_targets(edges.take(0), id@));
        while i < self.def.edges.len()
            invariant
                i <= self.def.edges@.len(),
                edges == self.def@.edges,
                text::views(out@) == fork_targets(edges.take(i as int), id@),
            decreases self.def.edges@.len() - i,
        {
            let e = &self.def.edges[i];
            assert(edges[i as int] == e@);
            assert(edges.take(i + 1).drop_last() =~= edges.take(i as int));
            assert(edges.take(i + 1).last() == e@);
            let ghost before = out@;
            if text::same(e.from.as_str(), id) {
                if let EdgeKind::Fork = e.kind {
                    out.push(e.to.clone());
                    assert(text::views(out@) =~= text::views(before).push(e.to@));
                }
            }
            i = i + 1;
        }
        assert(edges.take(i as int) =~= edges);
        out
    }

    /// Whether there is a step with this id.
    pub fn has_step(&self, step_id: &str) -> (r: bool)
        ensures
            r == self.knows(step_id@),
    {
        let ghost all = text::views(self.steps@);
        let mut i: usize = 0;
        while i < self.steps.len()
            invariant
                i <= self.steps@.len(),
                all == text::views(self.steps@),
                forall|j: int| 0 <= j < i ==> all[j] != step_id@,
            decreases self.steps@.len() - i,
        {
            if text::same(self.steps[i].as_str(), step_id) {
                assert(all[i as int] == step_id@);
                return true;
            }
            i = i + 1;
        }
        false
    }

    /// The nodes that can be reached from `start` without going back to a loop and
    /// without crossing `stop`.
    pub fn reachable(&self, start: &str, stop: &str) -> (r: TextSet)
        ensures
            forall|n: Seq<char>| #[trigger]
                r@.contains(n) <==> reaches(self.def@.edges, start@, stop@, n),
    {
        let ghost edges = self.def@.edges;
        let ghost universe = targets(edges).to_set().insert(start@);
        let mut seen = TextSet::new();
        let mut stack: Vec<String> = Vec::new();
        stack.push(start.to_string());
        proof {
            vstd::seq_lib::seq_to_set_is_finite(targets(edges));
            assert(text::views(stack@)[0] == start@);
            if start@ != stop@ {
                lemma_start_is_reached(edges, start@, stop@);
            }
            assert(seen@.subset_of(universe));
        }
        while stack.len() > 0
            invariant
                edges == self.def@.edges,
                universe == targets(edges).to_set().insert(start@),
                universe.finite(),
                seen@.subset_of(universe),
                forall|i: int|
                    0 <= i < stack@.len() ==> (#[trigger] stack@[i])@ == stop@ || reaches(
                        edges,
                        start@,
                        stop@,
                        stack@[i]@,
                    ),
                forall|i: int|
                    0 <= i < stack@.len() ==> universe.contains((#[trigger] stack@[i])@),
                forall|n: Seq<char>| #[trigger]
                    seen@.contains(n) ==> reaches(edges, start@, stop@, n),
                start@ == stop@ || seen@.contains(start@) || text::views(stack@).contains(start@),
                forall|a: Seq<char>, b: Seq<char>|
                    seen@.contains(a) && #[trigger] linked(edges, a, b) && b != stop@
                        ==> seen@.contains(b) || text::views(stack@).contains(b),
            decreases universe.len() - seen@.len(), stack@.len(),
        {
            let ghost before_stack = text::views(stack@);
            let ghost before_seen = seen@;
            proof {
                vstd::set_lib::lemma_len_subset(seen@, universe);
            }
            let n = stack.pop().unwrap();
            assert(text::views(stack@) =~= before_stack.drop_last());
            assert(before_stack.last() == n@);
            assert forall|m: Seq<char>|
                before_stack.contains(m) implies #[trigger] text::views(stack@).contains(m) || m
                == n@ by {
                let j = choose|j: int| 0 <= j < before_stack.len() && before_stack[j] == m;
                if j < before_stack.len() - 1 {
                    assert(text::views(stack@)[j] == m);
                }
            }
            if text::same(n.as_str(), stop) || seen.contains(n.as_str()) {
                continue ;
            }
            seen.insert(n.clone());
            proof {
                assert(seen@ == before_seen.insert(n@));
                vstd::set_lib::lemma_len_subset(seen@, universe);
            }
            let ghost popped = text::views(stack@);
            let mut i: usize = 0;
            while i < self.def.edges.len()
                invariant
                    i <= self.def.edges@.len(),
                    edges == self.def@.edges,
                    universe == targets(edges).to_set().insert(start@),
                    reaches(edges, start@, stop@, n@),
                    popped.len() <= stack@.len(),
                    text::views(stack@).take(popped.len() as int) == popped,
                    forall|k: int|
                        0 <= k < stack@.len() ==> (#[trigger] stack@[k])@ == stop@ || reaches(
                            edges,
                            start@,
                            stop@,
                            stack@[k]@,
                        ),
                    forall|k: int|
                        0 <= k < stack@.len() ==> universe.contains((#[trigger] stack@[k])@),
                    forall|j: int|
                        0 <= j < i && (#[trigger] edges[j]).from == n@ && !(edges[j].kind
                            is LoopBack) && edges[j].to != stop@ ==> text::views(stack@).contains(
                            edges[j].to,
                        ),
                decreases self.def.edges@.len() - i,
            {
                let e = &self.def.edges[i];
                assert(edges[i as int] == e@);
                let back = match e.kind {
                    EdgeKind::LoopBack => true,
                    _ => false,
                };
                let ghost mid = text::views(stack@);
                if text::same(e.from.as_str(), n.as_str()) && !back && !text::same(
                    e.to.as_str(),
                    stop,
                ) {
                    stack.push(e.to.clone());
                    proof {
                        assert(linked(edges, n@, e.to@)) by {
                            assert(edges[i as int].from == n@ && edges[i as int].to == e.to@);
                        }
                        successors_are_reached(edges, start@, stop@, n@, e.to@);
                        assert(targets(edges)[i as int] == e.to@);
                        assert(targets(edges).to_set().contains(e.to@));
                        let after = text::views(stack@);
                        assert(after =~= mid.push(e.to@));
                        assert(after[mid.len() as int] == e.to@);
                        assert(after.take(popped.len() as int) =~= mid.take(popped.len() as int));
                        assert forall|m: Seq<char>|
                            mid.contains(m) implies #[trigger] after.contains(m) by {
                            let k = choose|k: int| 0 <= k < mid.len() && mid[k] == m;
                            assert(after[k] == m);
                        }
                    }
                }
                i = i + 1;
            }
            proof {
                let now = text::views(stack@);
                assert forall|m: Seq<char>| popped.contains(m) implies #[trigger] now.contains(
                    m,
                ) by {
                    let k = choose|k: int| 0 <= k < popped.len() && popped[k] == m;
                    assert(now.take(popped.len() as int)[k] == m);
                    assert(now[k] == m);
                }
                assert forall|a: Seq<char>, b: Seq<char>|
                    seen@.contains(a) && #[trigger] linked(edges, a, b) && b != stop@ implies
                    seen@.contains(b) || now.contains(b) by {
                    if a == n@ {
                        let k = choose|k: int|
                            0 <= k < edges.len() && (#[trigger] edges[k]).from == a && edges[k].to
                                == b && !(edges[k].kind is LoopBack);
                        assert(edges[k].from == n@);
                    } else {
                        assert(before_seen.contains(a));
                        assert(before_seen.contains(b) || before_stack.contains(b));
                        if before_stack.contains(b) && b != n@ {
                            assert(popped.contains(b));
                        }
                    }
                }
                if before_stack.contains(start@) && start@ != n@ {
                    assert(popped.contains(start@));
                }
            }
        }
        proof {
            assert(text::views(stack@).len() == 0);
            assert forall|n: Seq<char>| reaches(edges, start@, stop@, n) implies #[trigger] seen@.contains(n) by {
                let way = choose|way: Seq<Seq<char>>|
                    #[trigger] is_way(edges, way, stop@) && way[0] == start@ && way.last() == n;
                assert(way[0] != stop@);
                lemma_closed_holds_the_way(edges, stop@, way, seen@, way.len() - 1);
            }
        }
        seen
    }

    /// The node where branches from these meet again: the target of the first edge that
    /// merges one of them.
    pub open spec fn join_of(&self, starts: Seq<Seq<char>>) -> Option<Seq<char>> {
        let edges = self.def@.edges;
        let i = merge_position(edges, starts, 0);
        if i < edges.len() {
            Some(edges[i].to)
        } else {
            None
        }
    }

    /// The node where branches from these meet again.
    pub fn find_join(&self, fork_targets: &Vec<String>) -> (r: Option<String>)
        ensures
            match r {
                Some(j) => self.join_of(text::views(fork_targets@)) == Some(j@),
                None => self.join_of(text::views(fork_targets@)) is None,
            },
    {
        let ghost edges = self.def@.edges;
        let ghost starts = text::views(fork_targets@);
        let mut sets: Vec<TextSet> = Vec::new();
        let mut k: usize = 0;
        proof {
            reveal_strlit("");
            assert(""@ =~= Seq::<char>::empty());
        }
        while k < fork_targets.len()
            invariant
                k <= fork_targets@.len(),
                k == sets@.len(),
                edges == self.def@.edges,
                starts == text::views(fork_targets@),
                ""@ == Seq::<char>::empty(),
                forall|j: int, n: Seq<char>|
                    0 <= j < k ==> (#[trigger] sets@[j]@.contains(n) <==> reaches(
                        edges,
                        starts[j],
                        Seq::<char>::empty(),
                        n,
                    )),
            decreases fork_targets@.len() - k,
        {
            let set = self.reachable(fork_targets[k].as_str(), "");
            sets.push(set);
            k = k + 1;
        }
        let mut i: usize = 0;
        while i < self.def.edges.len()
            invariant
                i <= self.def.edges@.len(),
                k == sets@.len(),
                k == fork_targets@.len(),
                edges == self.def@.edges,
                starts == text::views(fork_targets@),
                forall|j: int, n: Seq<char>|
                    0 <= j < k ==> (#[trigger] sets@[j]@.contains(n) <==> reaches(
                        edges,
                        starts[j],
                        Seq::<char>::empty(),
                        n,
                    )),
                merge_position(edges, starts, 0) == merge_position(edges, starts, i as int),
            decreases self.def.edges@.len() - i,
        {
            let e = &self.def.edges[i];
            assert(edges[i as int] == e@);
            if let EdgeKind::Merge = e.kind {
                let mut j: usize = 0;
                let mut fed = false;
                while j < sets.len()
                    invariant
                        j <= sets@.len(),
                        k == sets@.len(),
                        k == starts.len(),
                        forall|m: int, n: Seq<char>|
                            0 <= m < k ==> (#[trigger] sets@[m]@.contains(n) <==> reaches(
                                edges,
                                starts[m],
                                Seq::<char>::empty(),
                                n,
                            )),
                        fed ==> fed_by(edges, starts, e.from@),
                        !fed ==> forall|m: int|
                            0 <= m < j ==> !reaches(
                                edges,
                                #[trigger] starts[m],
                                Seq::<char>::empty(),
                                e.from@,
                            ),
                    decreases sets@.len() - j,
                {
                    if sets[j].contains(e.from.as_str()) {
                        assert(sets@[j as int]@.contains(e.from@));
                        assert(reaches(edges, starts[j as int], Seq::<char>::empty(), e.from@));
                        fed = true;
                    } else {
                        assert(!sets@[j as int]@.contains(e.from@));
                    }
                    j = j + 1;
                }
                if fed {
                    return Some(e.to.clone());
                }
            }
            i = i + 1;
        }
        None
    }
}

// ─── Laws ────────────────────────────────────────────────────────────────────

proof fn lemma_node_position(nodes: Seq<NodeView>, id: Seq<char>)
    ensures
        0 <= node_position(nodes, id) <= nodes.len(),
        node_position(nodes, id) < nodes.len() ==> nodes[node_position(nodes, id)].id == id,
        forall|j: int|
            0 <= j < node_position(nodes, id) ==> (#[trigger] nodes[j]).id != id,
    decreases nodes.len(),
{
    if nodes.len() > 0 && nodes[0].id != id {
        let rest = nodes.skip(1);
        lemma_node_position(rest, id);
        assert forall|j: int| 0 <= j < node_position(nodes, id) implies (
        #[trigger] nodes[j]).id != id by {
            if j > 0 {
                assert(rest[j - 1] == nodes[j]);
            }
        }
    }
}

/// An id finds the first node that has it, and nothing where no node has it.
pub proof fn ids_find_their_nodes(wf: Workflow, id: Seq<char>, i: int)
    requires
        0 <= i <= wf.def@.nodes.len(),
        forall|j: int| 0 <= j < i ==> (#[trigger] wf.def@.nodes[j]).id != id,
        i < wf.def@.nodes.len() ==> wf.def@.nodes[i].id == id,
    ensures
        i < wf.def@.nodes.len() ==> wf.kind_of(id) == Some(wf.def@.nodes[i].kind),
        i == wf.def@.nodes.len() ==> wf.kind_of(id) is None,
{
    let nodes = wf.def@.nodes;
    lemma_node_position(nodes, id);
    let p = node_position(nodes, id);
    if p < i {
        assert(nodes[p].id != id);
    }
    if i < p {
        assert(nodes[i].id != id);
    }
}

proof fn lemma_then_position(edges: Seq<EdgeView>, id: Seq<char>, from: int, i: int)
    requires
        0 <= from <= i <= edges.len(),
        forall|j: int|
            from <= j < i ==> !((#[trigger] edges[j]).from == id && edges[j].kind is Then),
        i < edges.len() ==> edges[i].from == id && edges[i].kind is Then,
    ensures
        then_position(edges, id, from) == i,
    decreases i - from,
{
    if from < i {
        assert(!(edges[from].from == id && edges[from].kind is Then));
        lemma_then_position(edges, id, from + 1, i);
    }
}

/// A node leads on by the first plain edge from it, and nowhere where there is none:
/// forks, merges, arms and ways back to a loop do not count.
pub proof fn nodes_lead_on_by_their_first_plain_edge(wf: Workflow, id: Seq<char>, i: int)
    requires
        0 <= i <= wf.def@.edges.len(),
        forall|j: int|
            0 <= j < i ==> !((#[trigger] wf.def@.edges[j]).from == id && wf.def@.edges[j].kind
                == LinkView::Then),
        i < wf.def@.edges.len() ==> wf.def@.edges[i].from == id && wf.def@.edges[i].kind
            == LinkView::Then,
    ensures
        i < wf.def@.edges.len() ==> wf.next_of(id) == Some(wf.def@.edges[i].to),
        i == wf.def@.edges.len() ==> wf.next_of(id) is None,
{
    lemma_then_position(wf.def@.edges, id, 0, i);
}

/// A fork leads to where each of its fork edges leads, in the order of the edges.
pub proof fn forks_lead_to_all_their_targets(edges: Seq<EdgeView>, id: Seq<char>)
    ensures
        fork_targets(edges, id) == targets(
            edges.filter(|e: EdgeView| e.from == id && e.kind == LinkView::Fork),
        ),
    decreases edges.len(),
{
    reveal(Seq::filter);
    let chosen = |e: EdgeView| e.from == id && e.kind == LinkView::Fork;
    if edges.len() > 0 {
        forks_lead_to_all_their_targets(edges.drop_last(), id);
        let before = edges.drop_last().filter(chosen);
        if chosen(edges.last()) {
            assert(edges.filter(chosen) == before.push(edges.last()));
            assert(targets(before.push(edges.last())) =~= targets(before).push(edges.last().to));
        } else {
            assert(edges.filter(chosen) == before);
        }
    }
}

proof fn lemma_first_merge(edges: Seq<EdgeView>, starts: Seq<Seq<char>>, from: int, i: int)
    requires
        0 <= from <= i <= edges.len(),
        forall|j: int|
            from <= j < i ==> !((#[trigger] edges[j]).kind is Merge && fed_by(
                edges,
                starts,
                edges[j].from,
            )),
        i < edges.len() ==> edges[i].kind is Merge && fed_by(edges, starts, edges[i].from),
    ensures
        merge_position(edges, starts, from) == i,
    decreases i - from,
{
    if from < i {
        assert(!(edges[from].kind is Merge && fed_by(edges, starts, edges[from].from)));
        lemma_first_merge(edges, starts, from + 1, i);
    }
}

/// Branches meet where the first edge leads that merges one of them, and nowhere where no
/// edge merges one.
pub proof fn branches_meet_where_they_are_merged(wf: Workflow, starts: Seq<Seq<char>>, i: int)
    requires
        0 <= i <= wf.def@.edges.len(),
        forall|j: int|
            0 <= j < i ==> !((#[trigger] wf.def@.edges[j]).kind == LinkView::Merge && fed_by(
                wf.def@.edges,
                starts,
                wf.def@.edges[j].from,
            )),
        i < wf.def@.edges.len() ==> wf.def@.edges[i].kind == LinkView::Merge && fed_by(
            wf.def@.edges,
            starts,
            wf.def@.edges[i].from,
        ),
    ensures
        i < wf.def@.edges.len() ==> wf.join_of(starts) == Some(wf.def@.edges[i].to),
        i == wf.def@.edges.len() ==> wf.join_of(starts) is None,
{
    lemma_first_merge(wf.def@.edges, starts, 0, i);
}

/// A way follows the edges, but none that leads back to a loop.
pub proof fn ways_do_not_lead_back(edges: Seq<EdgeView>, i: int, stop: Seq<char>)
    requires
        0 <= i < edges.len(),
        edges[i].from != stop,
        edges[i].to != stop,
    ensures
        reaches(edges, edges[i].from, stop, edges[i].from),
        !(edges[i].kind is LoopBack) ==> reaches(edges, edges[i].from, stop, edges[i].to),
        (forall|j: int|
            0 <= j < edges.len() && (#[trigger] edges[j]).from == edges[i].from ==> edges[j].kind
                is LoopBack) && edges[i].to != edges[i].from ==> !reaches(
            edges,
            edges[i].from,
            stop,
            edges[i].to,
        ),
{
    let a = edges[i].from;
    let b = edges[i].to;
    lemma_start_is_reached(edges, a, stop);
    if !(edges[i].kind is LoopBack) {
        assert(linked(edges, a, b));
        successors_are_reached(edges, a, stop, a, b);
    }
    if (forall|j: int|
        0 <= j < edges.len() && (#[trigger] edges[j]).from == edges[i].from ==> edges[j].kind
            is LoopBack) && b != a && reaches(edges, a, stop, b) {
        only_what_follows_is_reached(edges, a, stop, b, set![a]);
    }
}

/// Only what follows is reached: whatever holds the start, and with a node all that an edge
/// leads to from it which does not lead back to a loop, holds all that is reached; and
/// where to stop is never reached.
pub proof fn only_what_follows_is_reached(
    edges: Seq<EdgeView>,
    start: Seq<char>,
    stop: Seq<char>,
    n: Seq<char>,
    closed: Set<Seq<char>>,
)
    requires
        reaches(edges, start, stop, n),
        closed.contains(start),
        forall|i: int|
            0 <= i < edges.len() && closed.contains((#[trigger] edges[i]).from) && edges[i].kind
                != LinkView::LoopBack && edges[i].to != stop ==> closed.contains(edges[i].to),
    ensures
        closed.contains(n),
        n != stop,
{
    let way = choose|way: Seq<Seq<char>>|
        #[trigger] is_way(edges, way, stop) && way[0] == start && way.last() == n;
    assert forall|a: Seq<char>, b: Seq<char>|
        closed.contains(a) && #[trigger] linked(edges, a, b) && b != stop implies closed.contains(
        b,
    ) by {
        let i = choose|i: int|
            0 <= i < edges.len() && (#[trigger] edges[i]).from == a && edges[i].to == b && !(
            edges[i].kind is LoopBack);
        assert(closed.contains(edges[i].from));
    }
    lemma_closed_holds_the_way(edges, stop, way, closed, way.len() - 1);
}

} // verus!
