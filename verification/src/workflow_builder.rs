//! Building workflows by calls.
//!
//! Ids are made out of what a node does and a running number, so no two nodes have
//! the same one. Parallel steps and branches get the marker nodes that a drawn
//! workflow has.

use crate::json;
use crate::json::Json;
use crate::text;
use crate::workflow;
use crate::workflow::{
    Condition, EdgeKind, JoinStrategy, LoopMode, MapSpec, NodeKind, WorkflowDef, WorkflowEdge,
    WorkflowNode,
};
use vstd::prelude::*;
use vstd::string::*;

verus! {

/// The id of the node with a number.
pub open spec fn numbered(hint: Seq<char>, n: nat) -> Seq<char> {
    hint + "_"@ + text::decimal(n)
}

/// Ids with different numbers are different, whatever stands before the numbers.
pub proof fn numbers_tell_ids_apart(a: Seq<char>, m: nat, b: Seq<char>, n: nat)
    ensures
        numbered(a, m) == numbered(b, n) ==> m == n && a == b,
{
    let p = numbered(a, m);
    let q = numbered(b, n);
    let c = text::decimal(m);
    let d = text::decimal(n);
    if p == q {
        reveal_strlit("_");
        text::decimals_read_back(m);
        text::decimals_read_back(n);
        assert("_"@.len() == 1 && "_"@[0] == '_');
        assert(p.len() == a.len() + 1 + c.len());
        assert(q.len() == b.len() + 1 + d.len());
        assert(p[a.len() as int] == '_');
        assert(q[b.len() as int] == '_');
        if a.len() < b.len() {
            let i = b.len() - a.len() - 1;
            assert(p[b.len() as int] == c[i]);
        } else if b.len() < a.len() {
            let i = a.len() - b.len() - 1;
            assert(q[a.len() as int] == d[i]);
        }
        assert(p.take(a.len() as int) =~= a);
        assert(q.take(b.len() as int) =~= b);
        assert(p.skip(a.len() as int + 1) =~= c);
        assert(q.skip(b.len() as int + 1) =~= d);
    }
}

/// A builder by its parts.
#[verifier::ext_equal]
pub ghost struct BuilderView {
    pub id: Seq<char>,
    pub input_schema: json::JsonView,
    pub output_schema: json::JsonView,
    pub nodes: Seq<workflow::NodeView>,
    pub edges: Seq<workflow::EdgeView>,
    pub entry: Option<Seq<char>>,
    pub cursor: Option<Seq<char>>,
    pub counter: nat,
}

/// A step with a configuration.
pub open spec fn step_kind(step_id: Seq<char>, config: json::JsonView) -> workflow::KindView {
    workflow::KindView::Step { step_id, config }
}

/// One of these nodes has an id.
pub open spec fn has_node(nodes: Seq<workflow::NodeView>, id: Seq<char>) -> bool {
    exists|i: int| 0 <= i < nodes.len() && (#[trigger] nodes[i]).id == id
}

/// An id has a number of at most `most`.
pub open spec fn numbered_within(id: Seq<char>, most: nat) -> bool {
    exists|hint: Seq<char>, n: nat| n <= most && id == #[trigger] numbered(hint, n)
}

impl BuilderView {
    /// The id of the next node.
    pub open spec fn next(self, hint: Seq<char>) -> Seq<char> {
        numbered(hint, self.counter + 1)
    }

    /// With the next number used up.
    pub open spec fn counted(self) -> BuilderView {
        BuilderView { counter: self.counter + 1, ..self }
    }

    /// With one more node; the first node is the entry.
    pub open spec fn pushed(self, id: Seq<char>, kind: workflow::KindView) -> BuilderView {
        BuilderView {
            nodes: self.nodes.push(workflow::NodeView { id, kind }),
            entry: match self.entry {
                Some(e) => Some(e),
                None => Some(id),
            },
            ..self
        }
    }

    /// With one more edge.
    pub open spec fn linked(
        self,
        from: Seq<char>,
        to: Seq<char>,
        kind: workflow::LinkView,
    ) -> BuilderView {
        BuilderView {
            edges: self.edges.push(workflow::EdgeView { from, to, kind }),
            ..self
        }
    }

    /// With the next node to follow `id`.
    pub open spec fn at(self, id: Seq<char>) -> BuilderView {
        BuilderView { cursor: Some(id), ..self }
    }

    /// With one more node that follows the last one.
    pub open spec fn appended(self, id: Seq<char>, kind: workflow::KindView) -> BuilderView {
        let with_node = self.pushed(id, kind);
        match self.cursor {
            Some(from) => with_node.linked(from, id, workflow::LinkView::Then).at(id),
            None => with_node.at(id),
        }
    }

    /// With one more node that has the next number and follows the last one.
    pub open spec fn extended(self, hint: Seq<char>, kind: workflow::KindView) -> BuilderView {
        self.counted().appended(self.next(hint), kind)
    }

    /// With branches from `fork` to `join`, one for each step.
    pub open spec fn forked(
        self,
        fork: Seq<char>,
        join: Seq<char>,
        steps: Seq<Seq<char>>,
    ) -> BuilderView
        decreases steps.len(),
    {
        if steps.len() == 0 {
            self
        } else {
            let before = self.forked(fork, join, steps.drop_last());
            let id = before.next(steps.last());
            before.counted().pushed(id, step_kind(steps.last(), json::JsonView::Null)).linked(
                fork,
                id,
                workflow::LinkView::Fork,
            ).linked(id, join, workflow::LinkView::Merge)
        }
    }

    /// With parallel steps.
    pub open spec fn with_parallel(
        self,
        steps: Seq<Seq<char>>,
        strategy: JoinStrategy,
    ) -> BuilderView {
        let fork = self.next("parallel"@);
        let begun = self.extended("parallel"@, workflow::KindView::Parallel);
        let join = begun.next("join"@);
        begun.counted().pushed(join, workflow::KindView::Join { strategy }).forked(
            fork,
            join,
            steps,
        ).at(join)
    }

    /// With arms from `branch` to `join`, one for each condition and its step.
    pub open spec fn armed(
        self,
        branch: Seq<char>,
        join: Seq<char>,
        arms: Seq<(json::JsonView, Seq<char>)>,
    ) -> BuilderView
        decreases arms.len(),
    {
        if arms.len() == 0 {
            self
        } else {
            let before = self.armed(branch, join, arms.drop_last());
            let (condition, step_id) = arms.last();
            let id = before.next(step_id);
            before.counted().pushed(id, step_kind(step_id, json::JsonView::Null)).linked(
                branch,
                id,
                workflow::LinkView::When(condition),
            ).linked(id, join, workflow::LinkView::Then)
        }
    }

    /// With a branch.
    pub open spec fn with_branch(self, arms: Seq<(json::JsonView, Seq<char>)>) -> BuilderView {
        let branch = self.next("branch"@);
        let begun = self.extended("branch"@, workflow::KindView::Branch);
        let join = begun.next("branch_join"@);
        begun.counted().pushed(
            join,
            workflow::KindView::Join { strategy: JoinStrategy::AllSettled },
        ).armed(branch, join, arms).at(join)
    }

    /// With a step that is repeated.
    pub open spec fn with_loop(
        self,
        step_id: Seq<char>,
        mode: LoopMode,
        condition: json::JsonView,
    ) -> BuilderView {
        let body = self.next(step_id);
        let begun = self.counted().pushed(body, step_kind(step_id, json::JsonView::Null));
        let turn = begun.next("loop"@);
        begun.extended(
            "loop"@,
            workflow::KindView::Loop { mode, body, condition: Some(condition) },
        ).linked(body, turn, workflow::LinkView::LoopBack)
    }

    /// With a step that is run on each item. The loop comes before its body, so that
    /// it is the entry where it is the first.
    pub open spec fn with_each(self, step_id: Seq<char>, concurrency: usize) -> BuilderView {
        let body = self.next(step_id);
        let begun = self.counted();
        let turn = begun.next("loop"@);
        begun.extended(
            "loop"@,
            workflow::KindView::Loop {
                mode: LoopMode::ForEach { concurrency },
                body,
                condition: None,
            },
        ).pushed(body, step_kind(step_id, json::JsonView::Null)).linked(
            body,
            turn,
            workflow::LinkView::LoopBack,
        )
    }

    /// The nodes have ids of their own, each with a number that was used.
    pub open spec fn ids_differ(self) -> bool {
        &&& forall|i: int|
            0 <= i < self.nodes.len() ==> numbered_within((#[trigger] self.nodes[i]).id, self.counter)
        &&& forall|i: int, j: int|
            #![trigger self.nodes[i], self.nodes[j]]
            0 <= i < j < self.nodes.len() ==> self.nodes[i].id != self.nodes[j].id
    }

    /// Edges run between nodes, loops have their bodies, and the first node is the
    /// entry.
    pub open spec fn settled(self) -> bool {
        &&& self.ids_differ()
        &&& forall|i: int|
            0 <= i < self.edges.len() ==> has_node(self.nodes, (#[trigger] self.edges[i]).from)
                && has_node(self.nodes, self.edges[i].to)
        &&& forall|i: int|
            0 <= i < self.nodes.len() && (#[trigger] self.nodes[i]).kind is Loop ==> has_node(
                self.nodes,
                self.nodes[i].kind->body,
            )
        &&& self.entry == (if self.nodes.len() == 0 {
            None
        } else {
            Some(self.nodes[0].id)
        })
    }

    /// What is built so far is sound: no two nodes have the same id, edges run between
    /// nodes, loops have their bodies, the first node is the entry, and the next node
    /// follows one of them.
    pub open spec fn sound(self) -> bool {
        &&& self.settled()
        &&& self.cursor matches Some(c) ==> has_node(self.nodes, c)
        &&& self.cursor is None ==> self.nodes.len() == 0
    }
}

/// No id has this number.
spec fn unused(nodes: Seq<workflow::NodeView>, n: nat) -> bool {
    forall|i: int, hint: Seq<char>|
        #![trigger nodes[i], numbered(hint, n)]
        0 <= i < nodes.len() ==> nodes[i].id != numbered(hint, n)
}

proof fn lemma_unused(b: BuilderView, n: nat)
    requires
        b.ids_differ(),
        n > b.counter,
    ensures
        unused(b.nodes, n),
{
    assert forall|i: int, hint: Seq<char>|
        #![trigger b.nodes[i], numbered(hint, n)]
        0 <= i < b.nodes.len() implies b.nodes[i].id != numbered(hint, n) by {
        assert(numbered_within(b.nodes[i].id, b.counter));
        let (h, m) = choose|h: Seq<char>, m: nat|
            m <= b.counter && b.nodes[i].id == #[trigger] numbered(h, m);
        numbers_tell_ids_apart(h, m, hint, n);
    }
}

proof fn lemma_counted(b: BuilderView)
    requires
        b.ids_differ(),
    ensures
        b.counted().ids_differ(),
{
    let c = b.counted();
    assert forall|i: int| 0 <= i < c.nodes.len() implies numbered_within(
        (#[trigger] c.nodes[i]).id,
        c.counter,
    ) by {
        assert(numbered_within(b.nodes[i].id, b.counter));
        let (h, m) = choose|h: Seq<char>, m: nat|
            m <= b.counter && b.nodes[i].id == #[trigger] numbered(h, m);
        assert(c.nodes[i].id == numbered(h, m));
    }
}

proof fn lemma_pushed(b: BuilderView, hint: Seq<char>, n: nat, kind: workflow::KindView)
    requires
        b.ids_differ(),
        unused(b.nodes, n),
        n <= b.counter,
    ensures
        b.pushed(numbered(hint, n), kind).ids_differ(),
        forall|m: nat|
            m != n && unused(b.nodes, m) ==> #[trigger] unused(
                b.pushed(numbered(hint, n), kind).nodes,
                m,
            ),
{
    let c = b.pushed(numbered(hint, n), kind);
    assert forall|i: int| 0 <= i < c.nodes.len() implies numbered_within(
        (#[trigger] c.nodes[i]).id,
        c.counter,
    ) by {
        if i < b.nodes.len() {
            assert(c.nodes[i] == b.nodes[i]);
            assert(numbered_within(b.nodes[i].id, b.counter));
        }
    }
    assert forall|i: int, j: int|
        #![trigger c.nodes[i], c.nodes[j]]
        0 <= i < j < c.nodes.len() implies c.nodes[i].id != c.nodes[j].id by {
        assert(c.nodes[i] == b.nodes[i]);
        if j < b.nodes.len() {
            assert(c.nodes[j] == b.nodes[j]);
        }
    }
    assert forall|m: nat| m != n && unused(b.nodes, m) implies #[trigger] unused(c.nodes, m) by {
        assert forall|i: int, h: Seq<char>|
            #![trigger c.nodes[i], numbered(h, m)]
            0 <= i < c.nodes.len() implies c.nodes[i].id != numbered(h, m) by {
            if i < b.nodes.len() {
                assert(c.nodes[i] == b.nodes[i]);
            } else {
                numbers_tell_ids_apart(hint, n, h, m);
            }
        }
    }
}

proof fn lemma_has_node(nodes: Seq<workflow::NodeView>, node: workflow::NodeView, id: Seq<char>)
    ensures
        has_node(nodes, id) ==> has_node(nodes.push(node), id),
        has_node(nodes.push(node), node.id),
{
    let more = nodes.push(node);
    assert(more[nodes.len() as int] == node);
    if has_node(nodes, id) {
        let i = choose|i: int| 0 <= i < nodes.len() && (#[trigger] nodes[i]).id == id;
        assert(more[i].id == id);
    }
}

proof fn lemma_settled_push(b: BuilderView, hint: Seq<char>, kind: workflow::KindView)
    requires
        b.settled(),
        kind is Loop ==> has_node(b.nodes, kind->body),
    ensures
        b.counted().pushed(b.next(hint), kind).settled(),
        has_node(b.counted().pushed(b.next(hint), kind).nodes, b.next(hint)),
        forall|id: Seq<char>| #[trigger]
            has_node(b.nodes, id) ==> has_node(
                b.counted().pushed(b.next(hint), kind).nodes,
                id,
            ),
{
    let n = b.counter + 1;
    let id = b.next(hint);
    let node = workflow::NodeView { id, kind };
    let c = b.counted().pushed(id, kind);
    lemma_unused(b, n);
    lemma_counted(b);
    lemma_pushed(b.counted(), hint, n, kind);
    assert forall|x: Seq<char>| #[trigger] has_node(b.nodes, x) implies has_node(c.nodes, x) by {
        lemma_has_node(b.nodes, node, x);
    }
    lemma_has_node(b.nodes, node, id);
    assert forall|i: int| 0 <= i < c.edges.len() implies has_node(
        c.nodes,
        (#[trigger] c.edges[i]).from,
    ) && has_node(c.nodes, c.edges[i].to) by {
        assert(c.edges[i] == b.edges[i]);
    }
    assert forall|i: int| 0 <= i < c.nodes.len() && (#[trigger] c.nodes[i]).kind
        is Loop implies has_node(c.nodes, c.nodes[i].kind->body) by {
        if i < b.nodes.len() {
            assert(c.nodes[i] == b.nodes[i]);
        }
    }
}

proof fn lemma_settled_link(
    b: BuilderView,
    from: Seq<char>,
    to: Seq<char>,
    kind: workflow::LinkView,
)
    requires
        b.settled(),
        has_node(b.nodes, from),
        has_node(b.nodes, to),
    ensures
        b.linked(from, to, kind).settled(),
{
    let c = b.linked(from, to, kind);
    assert forall|i: int| 0 <= i < c.edges.len() implies has_node(
        c.nodes,
        (#[trigger] c.edges[i]).from,
    ) && has_node(c.nodes, c.edges[i].to) by {
        if i < b.edges.len() {
            assert(c.edges[i] == b.edges[i]);
        }
    }
}

proof fn lemma_sound_extended(b: BuilderView, hint: Seq<char>, kind: workflow::KindView)
    requires
        b.settled(),
        b.cursor matches Some(c) ==> has_node(b.nodes, c),
        kind is Loop ==> has_node(b.nodes, kind->body),
    ensures
        b.extended(hint, kind).sound(),
        has_node(b.extended(hint, kind).nodes, b.next(hint)),
        forall|id: Seq<char>| #[trigger]
            has_node(b.nodes, id) ==> has_node(b.extended(hint, kind).nodes, id),
{
    lemma_settled_push(b, hint, kind);
    let c = b.counted().pushed(b.next(hint), kind);
    if let Some(from) = b.cursor {
        lemma_settled_link(c, from, b.next(hint), workflow::LinkView::Then);
    }
}

proof fn lemma_settled_forked(
    b: BuilderView,
    fork: Seq<char>,
    join: Seq<char>,
    steps: Seq<Seq<char>>,
)
    requires
        b.settled(),
        has_node(b.nodes, fork),
        has_node(b.nodes, join),
    ensures
        b.forked(fork, join, steps).settled(),
        has_node(b.forked(fork, join, steps).nodes, fork),
        has_node(b.forked(fork, join, steps).nodes, join),
    decreases steps.len(),
{
    if steps.len() > 0 {
        let before = b.forked(fork, join, steps.drop_last());
        lemma_settled_forked(b, fork, join, steps.drop_last());
        let kind = step_kind(steps.last(), json::JsonView::Null);
        let id = before.next(steps.last());
        lemma_settled_push(before, steps.last(), kind);
        let c = before.counted().pushed(id, kind);
        lemma_settled_link(c, fork, id, workflow::LinkView::Fork);
        lemma_settled_link(
            c.linked(fork, id, workflow::LinkView::Fork),
            id,
            join,
            workflow::LinkView::Merge,
        );
    }
}

proof fn lemma_settled_armed(
    b: BuilderView,
    branch: Seq<char>,
    join: Seq<char>,
    arms: Seq<(json::JsonView, Seq<char>)>,
)
    requires
        b.settled(),
        has_node(b.nodes, branch),
        has_node(b.nodes, join),
    ensures
        b.armed(branch, join, arms).settled(),
        has_node(b.armed(branch, join, arms).nodes, branch),
        has_node(b.armed(branch, join, arms).nodes, join),
    decreases arms.len(),
{
    if arms.len() > 0 {
        let before = b.armed(branch, join, arms.drop_last());
        lemma_settled_armed(b, branch, join, arms.drop_last());
        let (condition, step_id) = arms.last();
        let kind = step_kind(step_id, json::JsonView::Null);
        let id = before.next(step_id);
        lemma_settled_push(before, step_id, kind);
        let c = before.counted().pushed(id, kind);
        lemma_settled_link(c, branch, id, workflow::LinkView::When(condition));
        lemma_settled_link(
            c.linked(branch, id, workflow::LinkView::When(condition)),
            id,
            join,
            workflow::LinkView::Then,
        );
    }
}

/// A new builder is sound.
pub proof fn beginnings_are_sound(b: BuilderView)
    requires
        b.nodes.len() == 0,
        b.edges.len() == 0,
        b.entry is None,
        b.cursor is None,
    ensures
        b.sound(),
{
}

/// A step keeps what is built sound.
pub proof fn steps_keep_it_sound(b: BuilderView, hint: Seq<char>, kind: workflow::KindView)
    requires
        b.sound(),
        !(kind is Loop),
    ensures
        b.extended(hint, kind).sound(),
{
    lemma_sound_extended(b, hint, kind);
}

/// Parallel steps keep what is built sound.
pub proof fn parallels_keep_it_sound(b: BuilderView, steps: Seq<Seq<char>>, strategy: JoinStrategy)
    requires
        b.sound(),
    ensures
        b.with_parallel(steps, strategy).sound(),
{
    let fork = b.next("parallel"@);
    let begun = b.extended("parallel"@, workflow::KindView::Parallel);
    lemma_sound_extended(b, "parallel"@, workflow::KindView::Parallel);
    let join = begun.next("join"@);
    let kind = workflow::KindView::Join { strategy };
    lemma_settled_push(begun, "join"@, kind);
    let c = begun.counted().pushed(join, kind);
    lemma_settled_forked(c, fork, join, steps);
}

/// A branch keeps what is built sound.
pub proof fn branches_keep_it_sound(b: BuilderView, arms: Seq<(json::JsonView, Seq<char>)>)
    requires
        b.sound(),
    ensures
        b.with_branch(arms).sound(),
{
    let branch = b.next("branch"@);
    let begun = b.extended("branch"@, workflow::KindView::Branch);
    lemma_sound_extended(b, "branch"@, workflow::KindView::Branch);
    let join = begun.next("branch_join"@);
    let kind = workflow::KindView::Join { strategy: JoinStrategy::AllSettled };
    lemma_settled_push(begun, "branch_join"@, kind);
    let c = begun.counted().pushed(join, kind);
    lemma_settled_armed(c, branch, join, arms);
}

/// A step that is repeated keeps what is built sound.
pub proof fn loops_keep_it_sound(
    b: BuilderView,
    step_id: Seq<char>,
    mode: LoopMode,
    condition: json::JsonView,
)
    requires
        b.sound(),
    ensures
        b.with_loop(step_id, mode, condition).sound(),
{
    let body = b.next(step_id);
    let kind = step_kind(step_id, json::JsonView::Null);
    lemma_settled_push(b, step_id, kind);
    let begun = b.counted().pushed(body, kind);
    let turn = begun.next("loop"@);
    let turn_kind = workflow::KindView::Loop { mode, body, condition: Some(condition) };
    lemma_sound_extended(begun, "loop"@, turn_kind);
    lemma_settled_link(
        begun.extended("loop"@, turn_kind),
        body,
        turn,
        workflow::LinkView::LoopBack,
    );
}

/// A step that is run on each item keeps what is built sound.
pub proof fn each_keeps_it_sound(b: BuilderView, step_id: Seq<char>, concurrency: usize)
    requires
        b.sound(),
    ensures
        b.with_each(step_id, concurrency).sound(),
{
    let n = b.counter + 1;
    let body = b.next(step_id);
    let begun = b.counted();
    let turn = begun.next("loop"@);
    let turn_kind = workflow::KindView::Loop {
        mode: LoopMode::ForEach { concurrency },
        body,
        condition: None,
    };
    let body_kind = step_kind(step_id, json::JsonView::Null);
    let extended = begun.extended("loop"@, turn_kind);
    let last = b.with_each(step_id, concurrency);
    lemma_unused(b, n);
    lemma_unused(b, n + 1);
    lemma_counted(b);
    lemma_counted(begun);
    lemma_pushed(begun.counted(), "loop"@, n + 1, turn_kind);
    let one = begun.counted().pushed(turn, turn_kind);
    assert(one.nodes == extended.nodes && one.counter == extended.counter);
    assert(extended.ids_differ());
    assert(unused(extended.nodes, n));
    lemma_pushed(extended, step_id, n, body_kind);
    let turn_node = workflow::NodeView { id: turn, kind: turn_kind };
    let body_node = workflow::NodeView { id: body, kind: body_kind };
    assert(last.nodes == b.nodes.push(turn_node).push(body_node));
    assert forall|x: Seq<char>| #[trigger] has_node(b.nodes, x) implies has_node(
        last.nodes,
        x,
    ) by {
        lemma_has_node(b.nodes, turn_node, x);
        lemma_has_node(b.nodes.push(turn_node), body_node, x);
    }
    assert(has_node(last.nodes, turn)) by {
        lemma_has_node(b.nodes, turn_node, turn);
        lemma_has_node(b.nodes.push(turn_node), body_node, turn);
    }
    lemma_has_node(b.nodes.push(turn_node), body_node, body);
    assert forall|i: int| 0 <= i < last.edges.len() implies has_node(
        last.nodes,
        (#[trigger] last.edges[i]).from,
    ) && has_node(last.nodes, last.edges[i].to) by {
        if i < b.edges.len() {
            assert(last.edges[i] == b.edges[i]);
        }
    }
    assert forall|i: int| 0 <= i < last.nodes.len() && (#[trigger] last.nodes[i]).kind
        is Loop implies has_node(last.nodes, last.nodes[i].kind->body) by {
        if i < b.nodes.len() {
            assert(last.nodes[i] == b.nodes[i]);
        }
    }
    assert(last.nodes[0] == b.nodes.push(turn_node)[0]);
}

/// The id of the step of a branch.
spec fn branch_id(b: BuilderView, steps: Seq<Seq<char>>, k: int) -> Seq<char> {
    numbered(steps[k], (b.counter + 1 + k) as nat)
}

proof fn lemma_forked_edges(
    b: BuilderView,
    fork: Seq<char>,
    join: Seq<char>,
    steps: Seq<Seq<char>>,
)
    ensures
        ({
            let e = b.forked(fork, join, steps).edges;
            let n = b.edges.len();
            &&& b.forked(fork, join, steps).counter == b.counter + steps.len()
            &&& e.len() == n + 2 * steps.len()
            &&& e.take(n as int) == b.edges
            &&& forall|k: int|
                0 <= k < steps.len() ==> e[n + 2 * k] == (workflow::EdgeView {
                    from: fork,
                    to: #[trigger] branch_id(b, steps, k),
                    kind: workflow::LinkView::Fork,
                }) && e[n + 2 * k + 1] == (workflow::EdgeView {
                    from: branch_id(b, steps, k),
                    to: join,
                    kind: workflow::LinkView::Merge,
                })
        }),
    decreases steps.len(),
{
    let e = b.forked(fork, join, steps).edges;
    let n = b.edges.len();
    if steps.len() == 0 {
        assert(e.take(n as int) =~= b.edges);
    } else {
        let fewer = steps.drop_last();
        lemma_forked_edges(b, fork, join, fewer);
        let before = b.forked(fork, join, fewer);
        let last = steps.len() - 1;
        assert(before.next(steps.last()) == branch_id(b, steps, last));
        assert(e.take(n as int) =~= before.edges.take(n as int));
        assert forall|k: int| 0 <= k < steps.len() implies e[n + 2 * k] == (workflow::EdgeView {
            from: fork,
            to: #[trigger] branch_id(b, steps, k),
            kind: workflow::LinkView::Fork,
        }) && e[n + 2 * k + 1] == (workflow::EdgeView {
            from: branch_id(b, steps, k),
            to: join,
            kind: workflow::LinkView::Merge,
        }) by {
            if k < last {
                assert(branch_id(b, fewer, k) == branch_id(b, steps, k));
                assert(e[n + 2 * k] == before.edges[n + 2 * k]);
                assert(e[n + 2 * k + 1] == before.edges[n + 2 * k + 1]);
            }
        }
    }
}

proof fn lemma_fork_targets_prefix(edges: Seq<workflow::EdgeView>, id: Seq<char>)
    requires
        forall|i: int| 0 <= i < edges.len() ==> (#[trigger] edges[i]).from != id,
    ensures
        workflow::fork_targets(edges, id).len() == 0,
    decreases edges.len(),
{
    if edges.len() > 0 {
        assert(edges[edges.len() - 1].from != id);
        assert forall|i: int| 0 <= i < edges.drop_last().len() implies (
        #[trigger] edges.drop_last()[i]).from != id by {
            assert(edges.drop_last()[i] == edges[i]);
        }
        lemma_fork_targets_prefix(edges.drop_last(), id);
    }
}

proof fn lemma_fork_targets(
    b: BuilderView,
    fork: Seq<char>,
    join: Seq<char>,
    steps: Seq<Seq<char>>,
)
    requires
        forall|i: int| 0 <= i < b.edges.len() ==> (#[trigger] b.edges[i]).from != fork,
        forall|k: int| 0 <= k < steps.len() ==> #[trigger] branch_id(b, steps, k) != fork,
    ensures
        ({
            let t = workflow::fork_targets(b.forked(fork, join, steps).edges, fork);
            t.len() == steps.len() && forall|k: int|
                0 <= k < steps.len() ==> #[trigger] t[k] == branch_id(b, steps, k)
        }),
    decreases steps.len(),
{
    if steps.len() == 0 {
        lemma_fork_targets_prefix(b.edges, fork);
    } else {
        let fewer = steps.drop_last();
        let last = steps.len() - 1;
        assert forall|k: int| 0 <= k < fewer.len() implies #[trigger] branch_id(b, fewer, k)
            != fork by {
            assert(branch_id(b, fewer, k) == branch_id(b, steps, k));
        }
        lemma_fork_targets(b, fork, join, fewer);
        lemma_forked_edges(b, fork, join, fewer);
        let before = b.forked(fork, join, fewer);
        let id = branch_id(b, steps, last);
        assert(before.next(steps.last()) == id);
        let one = before.edges.push(
            workflow::EdgeView { from: fork, to: id, kind: workflow::LinkView::Fork },
        );
        let e = b.forked(fork, join, steps).edges;
        assert(e.drop_last() =~= one);
        assert(e.last().kind is Merge);
        assert(one.drop_last() =~= before.edges);
        let t = workflow::fork_targets(before.edges, fork);
        assert(workflow::fork_targets(one, fork) == t.push(id));
        assert forall|k: int| 0 <= k < steps.len() implies #[trigger] t.push(id)[k] == branch_id(
            b,
            steps,
            k,
        ) by {
            if k < last {
                assert(branch_id(b, fewer, k) == branch_id(b, steps, k));
            }
        }
    }
}

/// From a branch, only the branch itself and the join are reached: a way from it that
/// is longer would need an edge from one of them to somewhere else.
proof fn lemma_branch_ways(
    edges: Seq<workflow::EdgeView>,
    way: Seq<Seq<char>>,
    start: Seq<char>,
    join: Seq<char>,
    n: int,
)
    requires
        workflow::is_way(edges, way, Seq::empty()),
        way[0] == start,
        forall|i: int|
            0 <= i < edges.len() && (#[trigger] edges[i]).from == start ==> edges[i].to == join,
        forall|i: int| 0 <= i < edges.len() ==> (#[trigger] edges[i]).from != join,
        0 <= n < way.len(),
    ensures
        way[n] == start || way[n] == join,
    decreases n,
{
    if n > 0 {
        lemma_branch_ways(edges, way, start, join, n - 1);
        assert(workflow::linked(edges, way[n - 1], way[n - 1 + 1]));
    }
}

proof fn lemma_merge_position(
    edges: Seq<workflow::EdgeView>,
    starts: Seq<Seq<char>>,
    i: int,
    at: int,
)
    requires
        0 <= i <= at < edges.len(),
        forall|k: int|
            i <= k < at ==> !((#[trigger] edges[k]).kind is Merge && workflow::fed_by(
                edges,
                starts,
                edges[k].from,
            )),
        edges[at].kind is Merge,
        workflow::fed_by(edges, starts, edges[at].from),
    ensures
        workflow::merge_position(edges, starts, i) == at,
    decreases at - i,
{
    if i < at {
        assert(!(edges[i].kind is Merge && workflow::fed_by(edges, starts, edges[i].from)));
        lemma_merge_position(edges, starts, i + 1, at);
    }
}

/// Parallel steps meet at the join that was made for them: the search for the join of the
/// fork finds it.
pub proof fn parallel_steps_meet_at_their_join(
    b: BuilderView,
    steps: Seq<Seq<char>>,
    strategy: JoinStrategy,
    wf: workflow::Workflow,
)
    requires
        b.sound(),
        steps.len() > 0,
        wf.def@.edges == b.with_parallel(steps, strategy).edges,
    ensures
        wf.join_of(workflow::fork_targets(wf.def@.edges, b.next("parallel"@)))
            == b.with_parallel(steps, strategy).cursor,
{
    let fork = b.next("parallel"@);
    let begun = b.extended("parallel"@, workflow::KindView::Parallel);
    let join = begun.next("join"@);
    let c = begun.counted().pushed(join, workflow::KindView::Join { strategy });
    let edges = wf.def@.edges;
    let n = c.edges.len() as int;
    let targets = workflow::fork_targets(edges, fork);
    assert(edges == c.forked(fork, join, steps).edges);
    lemma_forked_edges(c, fork, join, steps);
    // The ids of the fork, the join and the branches are new.
    assert forall|k: int| 0 <= k < steps.len() implies #[trigger] branch_id(c, steps, k) != fork
        && branch_id(c, steps, k) != join by {
        numbers_tell_ids_apart(steps[k], (c.counter + 1 + k) as nat, "parallel"@, b.counter + 1);
        numbers_tell_ids_apart(steps[k], (c.counter + 1 + k) as nat, "join"@, b.counter + 2);
    }
    numbers_tell_ids_apart("parallel"@, b.counter + 1, "join"@, b.counter + 2);
    lemma_unused(b, b.counter + 1);
    lemma_unused(b, b.counter + 2);
    assert forall|i: int| 0 <= i < n implies (#[trigger] c.edges[i]).from != fork && c.edges[i].from
        != join && (forall|k: int|
        0 <= k < steps.len() ==> c.edges[i].from != #[trigger] branch_id(c, steps, k)) by {
        let from = c.edges[i].from;
        assert(has_node(b.nodes, from)) by {
            if i < b.edges.len() {
                assert(c.edges[i] == b.edges[i]);
            }
        }
        let x = choose|x: int| 0 <= x < b.nodes.len() && (#[trigger] b.nodes[x]).id == from;
        assert(b.nodes[x].id != numbered("parallel"@, b.counter + 1));
        assert(b.nodes[x].id != numbered("join"@, b.counter + 2));
        assert forall|k: int| 0 <= k < steps.len() implies from != #[trigger] branch_id(
            c,
            steps,
            k,
        ) by {
            lemma_unused(b, (c.counter + 1 + k) as nat);
            assert(b.nodes[x].id != numbered(steps[k], (c.counter + 1 + k) as nat));
        }
    }
    lemma_fork_targets(c, fork, join, steps);
    // No edge leaves the join, and those that leave a branch lead to the join.
    assert forall|i: int| 0 <= i < edges.len() implies (#[trigger] edges[i]).from != join by {
        if i < n {
            assert(edges[i] == edges.take(n)[i]);
            assert(edges[i] == c.edges[i]);
        } else {
            let k = (i - n) / 2;
            let id = branch_id(c, steps, k);
            assert(i == n + 2 * k || i == n + 2 * k + 1);
        }
    }
    assert forall|k: int, i: int|
        0 <= k < steps.len() && 0 <= i < edges.len() && (#[trigger] edges[i]).from
            == #[trigger] branch_id(c, steps, k) implies edges[i].to == join by {
        if i < n {
            assert(edges[i] == edges.take(n)[i]);
            assert(edges[i] == c.edges[i]);
        } else {
            let m = (i - n) / 2;
            let id = branch_id(c, steps, m);
            assert(i == n + 2 * m || i == n + 2 * m + 1);
        }
    }
    let first = branch_id(c, steps, 0);
    assert(targets[0] == first);
    assert(first.len() > 0) by {
        text::decimals_read_back((c.counter + 1) as nat);
    }
    assert(workflow::fed_by(edges, targets, first)) by {
        let way = seq![first];
        assert(workflow::is_way(edges, way, Seq::empty()));
        assert(way[0] == first && way.last() == first);
        assert(workflow::reaches(edges, targets[0], Seq::empty(), first));
    }
    let at = n + 1;
    assert(edges[n + 2 * 0 + 1].from == first && edges[n + 2 * 0 + 1].kind is Merge);
    assert forall|i: int| 0 <= i < at implies !((#[trigger] edges[i]).kind is Merge
        && workflow::fed_by(edges, targets, edges[i].from)) by {
        if i < n {
            assert(edges[i] == edges.take(n)[i]);
            assert(edges[i] == c.edges[i]);
            let from = edges[i].from;
            if workflow::fed_by(edges, targets, from) {
                let k = choose|k: int|
                    0 <= k < targets.len() && workflow::reaches(
                        edges,
                        #[trigger] targets[k],
                        Seq::<char>::empty(),
                        from,
                    );
                let start = branch_id(c, steps, k);
                assert(targets[k] == start);
                let way = choose|way: Seq<Seq<char>>|
                    #[trigger] workflow::is_way(edges, way, Seq::empty()) && way[0] == start
                        && way.last() == from;
                lemma_branch_ways(edges, way, start, join, way.len() - 1);
            }
        } else {
            assert(edges[n + 2 * 0].kind is Fork);
        }
    }
    lemma_merge_position(edges, targets, 0, at);
}

/// The edges of one arm are there.
proof fn lemma_armed_edges(
    b: BuilderView,
    branch: Seq<char>,
    join: Seq<char>,
    arms: Seq<(json::JsonView, Seq<char>)>,
    k: int,
)
    requires
        0 <= k < arms.len(),
    ensures
        ({
            let e = b.armed(branch, join, arms).edges;
            let id = numbered(arms[k].1, (b.counter + 1 + k) as nat);
            &&& b.armed(branch, join, arms).counter == b.counter + arms.len()
            &&& e.contains(
                workflow::EdgeView {
                    from: branch,
                    to: id,
                    kind: workflow::LinkView::When(arms[k].0),
                },
            )
            &&& e.contains(
                workflow::EdgeView { from: id, to: join, kind: workflow::LinkView::Then },
            )
        }),
    decreases arms.len(),
{
    let e = b.armed(branch, join, arms).edges;
    let fewer = arms.drop_last();
    let before = b.armed(branch, join, fewer);
    let last = arms.len() - 1;
    if last > 0 {
        lemma_armed_edges(b, branch, join, fewer, if k < last {
            k
        } else {
            0
        });
    }
    assert(before.counter == b.counter + last);
    let id = numbered(arms[k].1, (b.counter + 1 + k) as nat);
    let there = workflow::EdgeView {
        from: branch,
        to: id,
        kind: workflow::LinkView::When(arms[k].0),
    };
    let on = workflow::EdgeView { from: id, to: join, kind: workflow::LinkView::Then };
    let n = before.edges.len() as int;
    if k < last {
        assert(arms[k] == fewer[k]);
        let i = choose|i: int| 0 <= i < n && before.edges[i] == there;
        let j = choose|j: int| 0 <= j < n && before.edges[j] == on;
        assert(e[i] == there);
        assert(e[j] == on);
    } else {
        assert(arms.last() == arms[k]);
        assert(before.next(arms[k].1) == id);
        assert(e[n] == there);
        assert(e[n + 1] == on);
    }
}

/// The arms of a branch meet again: each is reached under its condition and leads to the
/// one node that what comes next will follow.
pub proof fn arms_meet_again(b: BuilderView, arms: Seq<(json::JsonView, Seq<char>)>, k: int)
    requires
        0 <= k < arms.len(),
    ensures
        ({
            let r = b.with_branch(arms);
            let id = numbered(arms[k].1, (b.counter + 3 + k) as nat);
            &&& r.edges.contains(
                workflow::EdgeView {
                    from: b.next("branch"@),
                    to: id,
                    kind: workflow::LinkView::When(arms[k].0),
                },
            )
            &&& r.cursor matches Some(join) && r.edges.contains(
                workflow::EdgeView { from: id, to: join, kind: workflow::LinkView::Then },
            )
        }),
{
    let branch = b.next("branch"@);
    let begun = b.extended("branch"@, workflow::KindView::Branch);
    let join = begun.next("branch_join"@);
    let start = begun.counted().pushed(
        join,
        workflow::KindView::Join { strategy: JoinStrategy::AllSettled },
    );
    lemma_armed_edges(start, branch, join, arms, k);
}

/// A step that is run on each item begins at its loop, not at its body, also where it is
/// the first thing in the workflow.
pub proof fn a_first_loop_over_items_is_the_entry(
    b: BuilderView,
    step_id: Seq<char>,
    concurrency: usize,
)
    requires
        b.sound(),
        b.nodes.len() == 0,
    ensures
        ({
            let r = b.with_each(step_id, concurrency);
            &&& r.entry == r.cursor
            &&& r.entry == Some(r.nodes[0].id)
            &&& r.nodes[0].kind == (workflow::KindView::Loop {
                mode: LoopMode::ForEach { concurrency },
                body: b.next(step_id),
                condition: None,
            })
        }),
{
}

// ─── The builder ─────────────────────────────────────────────────────────────

/// A builder of workflows.
#[derive(Debug, PartialEq)]
pub struct WorkflowBuilder {
    pub id: String,
    pub input_schema: Json,
    pub output_schema: Json,
    pub nodes: Vec<WorkflowNode>,
    pub edges: Vec<WorkflowEdge>,
    pub entry: Option<String>,
    /// The node that the next one follows.
    pub cursor: Option<String>,
    pub counter: usize,
}

impl View for WorkflowBuilder {
    type V = BuilderView;

    open spec fn view(&self) -> BuilderView {
        BuilderView {
            id: self.id@,
            input_schema: self.input_schema@,
            output_schema: self.output_schema@,
            nodes: workflow::nodes_view(self.nodes@),
            edges: workflow::edges_view(self.edges@),
            entry: match self.entry {
                Some(e) => Some(e@),
                None => None,
            },
            cursor: match self.cursor {
                Some(c) => Some(c@),
                None => None,
            },
            counter: self.counter as nat,
        }
    }
}

/// Texts by their characters.
pub open spec fn strs_view(s: Seq<&str>) -> Seq<Seq<char>> {
    Seq::new(s.len(), |i: int| s[i]@)
}

/// Conditions with their steps, by their views.
pub open spec fn arms_view(s: Seq<(Condition, &str)>) -> Seq<(json::JsonView, Seq<char>)> {
    Seq::new(s.len(), |i: int| (s[i].0@, s[i].1@))
}

impl WorkflowBuilder {
    /// A builder of an empty workflow.
    pub fn new(id: &str) -> (r: WorkflowBuilder)
        ensures
            r@ == (BuilderView {
                id: id@,
                input_schema: json::JsonView::Null,
                output_schema: json::JsonView::Null,
                nodes: Seq::empty(),
                edges: Seq::empty(),
                entry: None,
                cursor: None,
                counter: 0,
            }),
            r@.sound(),
    {
        let r = WorkflowBuilder {
            id: id.to_string(),
            input_schema: Json::Null,
            output_schema: Json::Null,
            nodes: Vec::new(),
            edges: Vec::new(),
            entry: None,
            cursor: None,
            counter: 0,
        };
        proof {
            assert(r@.nodes =~= Seq::empty());
            assert(r@.edges =~= Seq::empty());
            beginnings_are_sound(r@);
        }
        r
    }

    pub fn input_schema(self, s: Json) -> (r: WorkflowBuilder)
        ensures
            r@ == (BuilderView { input_schema: s@, ..self@ }),
    {
        WorkflowBuilder { input_schema: s, ..self }
    }

    pub fn output_schema(self, s: Json) -> (r: WorkflowBuilder)
        ensures
            r@ == (BuilderView { output_schema: s@, ..self@ }),
    {
        WorkflowBuilder { output_schema: s, ..self }
    }

    fn next_id(&mut self, hint: &str) -> (r: String)
        requires
            old(self).counter < usize::MAX,
        ensures
            r@ == old(self)@.next(hint@),
            final(self)@ == old(self)@.counted(),
    {
        self.counter = self.counter + 1;
        let mut s = text::cat(hint, "_");
        text::push_decimal(&mut s, self.counter as u64);
        s
    }

    fn push_node(&mut self, id: String, kind: NodeKind)
        ensures
            final(self)@ == old(self)@.pushed(id@, kind@),
    {
        let ghost before = self@;
        let copy = id.clone();
        self.nodes.push(WorkflowNode::new(id, kind));
        if self.entry.is_none() {
            self.entry = Some(copy);
        }
        assert(self@.nodes =~= before.pushed(id@, kind@).nodes);
    }

    fn push_edge(&mut self, from: &String, to: &String, kind: EdgeKind)
        ensures
            final(self)@ == old(self)@.linked(from@, to@, kind@),
    {
        let ghost before = self@;
        self.edges.push(WorkflowEdge::new(from.clone(), to.clone(), kind));
        assert(self@.edges =~= before.linked(from@, to@, kind@).edges);
    }

    /// Puts a node after the last one.
    fn append(&mut self, id: String, kind: NodeKind)
        ensures
            final(self)@ == old(self)@.appended(id@, kind@),
    {
        let from = match &self.cursor {
            Some(c) => Some(c.clone()),
            None => None,
        };
        self.push_node(id.clone(), kind);
        if let Some(f) = from {
            self.push_edge(&f, &id, EdgeKind::Then);
        }
        self.cursor = Some(id);
    }

    /// Adds a step.
    pub fn then_step(self, step_id: &str) -> (r: WorkflowBuilder)
        requires
            self.counter < usize::MAX,
        ensures
            r@ == self@.extended(step_id@, step_kind(step_id@, json::JsonView::Null)),
            self@.sound() ==> r@.sound(),
    {
        self.then_with(step_id, Json::Null)
    }

    /// Adds a step with a configuration.
    pub fn then_with(self, step_id: &str, config: Json) -> (r: WorkflowBuilder)
        requires
            self.counter < usize::MAX,
        ensures
            r@ == self@.extended(step_id@, step_kind(step_id@, config@)),
            self@.sound() ==> r@.sound(),
    {
        proof {
            if self@.sound() {
                steps_keep_it_sound(self@, step_id@, step_kind(step_id@, config@));
            }
        }
        let mut b = self;
        let id = b.next_id(step_id);
        b.append(id, NodeKind::Step { step_id: step_id.to_string(), config });
        b
    }

    /// Adds a node that reshapes its input.
    pub fn map(self, mapping: MapSpec) -> (r: WorkflowBuilder)
        requires
            self.counter < usize::MAX,
        ensures
            r@ == self@.extended(
                "map"@,
                workflow::KindView::Reshape { fields: workflow::fields_view(mapping.fields@) },
            ),
            self@.sound() ==> r@.sound(),
    {
        let ghost kind = workflow::KindView::Reshape {
            fields: workflow::fields_view(mapping.fields@),
        };
        proof {
            if self@.sound() {
                steps_keep_it_sound(self@, "map"@, kind);
            }
        }
        let mut b = self;
        let id = b.next_id("map");
        b.append(id, NodeKind::Reshape { mapping });
        b
    }

    fn push_step(&mut self, id: String, step_id: &str)
        ensures
            final(self)@ == old(self)@.pushed(id@, step_kind(step_id@, json::JsonView::Null)),
    {
        self.push_node(id, NodeKind::Step { step_id: step_id.to_string(), config: Json::Null });
    }

    /// Adds steps that run side by side, and the node where they meet again.
    pub fn parallel(self, step_ids: &[&str], strategy: JoinStrategy) -> (r: WorkflowBuilder)
        requires
            self.counter + 2 + step_ids@.len() <= usize::MAX,
        ensures
            r@ == self@.with_parallel(strs_view(step_ids@), strategy),
            self@.sound() ==> r@.sound(),
    {
        let ghost steps = strs_view(step_ids@);
        proof {
            if self@.sound() {
                parallels_keep_it_sound(self@, steps, strategy);
            }
        }
        let mut b = self;
        let par_id = b.next_id("parallel");
        b.append(par_id.clone(), NodeKind::Parallel);
        let join_id = b.next_id("join");
        b.push_node(join_id.clone(), NodeKind::Join { strategy });
        let ghost start = b@;
        let mut i: usize = 0;
        assert(start.forked(par_id@, join_id@, steps.take(0)) == start);
        while i < step_ids.len()
            invariant
                i <= step_ids@.len(),
                steps == strs_view(step_ids@),
                start.counter + step_ids@.len() <= usize::MAX,
                b.counter == start.counter + i,
                b@ == start.forked(par_id@, join_id@, steps.take(i as int)),
            decreases step_ids@.len() - i,
        {
            assert(steps.take(i + 1).drop_last() =~= steps.take(i as int));
            let step_id: &str = step_ids[i];
            assert(steps.take(i + 1).last() == step_id@);
            let node = b.next_id(step_id);
            b.push_step(node.clone(), step_id);
            b.push_edge(&par_id, &node, EdgeKind::Fork);
            b.push_edge(&node, &join_id, EdgeKind::Merge);
            i = i + 1;
        }
        assert(steps.take(i as int) =~= steps);
        b.cursor = Some(join_id);
        b
    }

    /// Adds a branch: the step of the first condition that holds is run. The arms meet
    /// again, so that what comes next follows all of them.
    pub fn branch(self, arms: Vec<(Condition, &str)>) -> (r: WorkflowBuilder)
        requires
            self.counter + 2 + arms@.len() <= usize::MAX,
        ensures
            r@ == self@.with_branch(arms_view(arms@)),
            self@.sound() ==> r@.sound(),
    {
        let ghost all = arms_view(arms@);
        proof {
            if self@.sound() {
                branches_keep_it_sound(self@, all);
            }
        }
        let mut b = self;
        let branch_id = b.next_id("branch");
        b.append(branch_id.clone(), NodeKind::Branch);
        let join_id = b.next_id("branch_join");
        b.push_node(join_id.clone(), NodeKind::Join { strategy: JoinStrategy::AllSettled });
        let ghost start = b@;
        let mut i: usize = 0;
        assert(start.armed(branch_id@, join_id@, all.take(0)) == start);
        while i < arms.len()
            invariant
                i <= arms@.len(),
                all == arms_view(arms@),
                start.counter + arms@.len() <= usize::MAX,
                b.counter == start.counter + i,
                b@ == start.armed(branch_id@, join_id@, all.take(i as int)),
            decreases arms@.len() - i,
        {
            assert(all.take(i + 1).drop_last() =~= all.take(i as int));
            let arm = &arms[i];
            assert(all.take(i + 1).last() == (arm.0@, arm.1@));
            let condition = workflow::copy_condition(&arm.0);
            let step_id: &str = arm.1;
            let node = b.next_id(step_id);
            b.push_step(node.clone(), step_id);
            b.push_edge(&branch_id, &node, EdgeKind::When { condition });
            b.push_edge(&node, &join_id, EdgeKind::Then);
            i = i + 1;
        }
        assert(all.take(i as int) =~= all);
        b.cursor = Some(join_id);
        b
    }

    /// Adds a step that is repeated.
    fn loop_step(self, step_id: &str, mode: LoopMode, condition: Condition) -> (r: WorkflowBuilder)
        requires
            self.counter + 2 <= usize::MAX,
        ensures
            r@ == self@.with_loop(step_id@, mode, condition@),
            self@.sound() ==> r@.sound(),
    {
        proof {
            if self@.sound() {
                loops_keep_it_sound(self@, step_id@, mode, condition@);
            }
        }
        let mut b = self;
        let body_id = b.next_id(step_id);
        b.push_step(body_id.clone(), step_id);
        let loop_id = b.next_id("loop");
        b.append(
            loop_id.clone(),
            NodeKind::Loop { mode, body: body_id.clone(), condition: Some(condition) },
        );
        b.push_edge(&body_id, &loop_id, EdgeKind::LoopBack);
        b.cursor = Some(loop_id);
        b
    }

    /// Adds a step that is repeated as long as a condition holds after it.
    pub fn dowhile(self, step_id: &str, condition: Condition) -> (r: WorkflowBuilder)
        requires
            self.counter + 2 <= usize::MAX,
        ensures
            r@ == self@.with_loop(step_id@, LoopMode::DoWhile, condition@),
            self@.sound() ==> r@.sound(),
    {
        self.loop_step(step_id, LoopMode::DoWhile, condition)
    }

    /// Adds a step that is repeated until a condition holds after it.
    pub fn dountil(self, step_id: &str, condition: Condition) -> (r: WorkflowBuilder)
        requires
            self.counter + 2 <= usize::MAX,
        ensures
            r@ == self@.with_loop(step_id@, LoopMode::DoUntil, condition@),
            self@.sound() ==> r@.sound(),
    {
        self.loop_step(step_id, LoopMode::DoUntil, condition)
    }

    /// Adds a step that is run on each item of its input, on at most `concurrency` of
    /// them at a time.
    pub fn foreach(self, step_id: &str, concurrency: usize) -> (r: WorkflowBuilder)
        requires
            self.counter + 2 <= usize::MAX,
        ensures
            r@ == self@.with_each(step_id@, concurrency),
            self@.sound() ==> r@.sound(),
    {
        proof {
            if self@.sound() {
                each_keeps_it_sound(self@, step_id@, concurrency);
            }
        }
        let mut b = self;
        let body_id = b.next_id(step_id);
        let loop_id = b.next_id("loop");
        b.append(
            loop_id.clone(),
            NodeKind::Loop {
                mode: LoopMode::ForEach { concurrency },
                body: body_id.clone(),
                condition: None,
            },
        );
        b.push_step(body_id.clone(), step_id);
        b.push_edge(&body_id, &loop_id, EdgeKind::LoopBack);
        b.cursor = Some(loop_id);
        b
    }

    /// The workflow.
    pub fn commit(self) -> (r: WorkflowDef)
        ensures
            r@ == (workflow::DefView {
                id: self@.id,
                input_schema: self@.input_schema,
                output_schema: self@.output_schema,
                nodes: self@.nodes,
                edges: self@.edges,
                entry: match self@.entry {
                    Some(e) => e,
                    None => Seq::empty(),
                },
            }),
    {
        WorkflowDef {
            id: self.id,
            input_schema: self.input_schema,
            output_schema: self.output_schema,
            nodes: self.nodes,
            edges: self.edges,
            entry: match self.entry {
                Some(e) => e,
                None => String::new(),
            },
        }
    }
}

// ─── Laws ────────────────────────────────────────────────────────────────────

/// A node that is added follows the last one and is the next to be followed; the first is
/// the entry. Its id is made of its name and the next number. What was built stays.
pub proof fn nodes_follow_each_other(b: BuilderView, hint: Seq<char>, kind: workflow::KindView)
    ensures
        ({
            let r = b.extended(hint, kind);
            let id = hint + "_"@ + text::decimal(b.counter + 1);
            &&& r.cursor == Some(id)
            &&& r.nodes == b.nodes.push(workflow::NodeView { id, kind })
            &&& b.cursor matches Some(last) ==> r.edges == b.edges.push(
                workflow::EdgeView { from: last, to: id, kind: workflow::LinkView::Then },
            )
            &&& b.cursor is None ==> r.edges == b.edges
            &&& b.entry is Some ==> r.entry == b.entry
            &&& b.entry is None ==> r.entry == Some(id)
            &&& r.counter == b.counter + 1
            &&& r.id == b.id && r.input_schema == b.input_schema && r.output_schema
                == b.output_schema
        }),
{
}

proof fn lemma_forked_nodes(
    b: BuilderView,
    fork: Seq<char>,
    join: Seq<char>,
    steps: Seq<Seq<char>>,
)
    ensures
        ({
            let r = b.forked(fork, join, steps);
            let n = b.nodes.len();
            &&& r.counter == b.counter + steps.len()
            &&& r.nodes.len() == n + steps.len()
            &&& r.nodes.take(n as int) == b.nodes
            &&& forall|k: int|
                0 <= k < steps.len() ==> r.nodes[n + k] == (workflow::NodeView {
                    id: #[trigger] branch_id(b, steps, k),
                    kind: step_kind(steps[k], json::JsonView::Null),
                })
            &&& b.entry is Some ==> r.entry == b.entry
        }),
    decreases steps.len(),
{
    let r = b.forked(fork, join, steps);
    let n = b.nodes.len();
    if steps.len() == 0 {
        assert(r.nodes.take(n as int) =~= b.nodes);
    } else {
        let fewer = steps.drop_last();
        lemma_forked_nodes(b, fork, join, fewer);
        let before = b.forked(fork, join, fewer);
        let last = steps.len() - 1;
        assert(before.next(steps.last()) == branch_id(b, steps, last));
        assert(r.nodes.take(n as int) =~= before.nodes.take(n as int));
        assert forall|k: int| 0 <= k < steps.len() implies r.nodes[n + k] == (workflow::NodeView {
            id: #[trigger] branch_id(b, steps, k),
            kind: step_kind(steps[k], json::JsonView::Null),
        }) by {
            if k < last {
                assert(branch_id(b, fewer, k) == branch_id(b, steps, k));
                assert(r.nodes[n + k] == before.nodes[n + k]);
            }
        }
    }
}

/// Parallel steps are one fork that follows the last node, one step for each id, in their
/// order, and one join with the way to settle. The fork leads to each of them, each is
/// merged at the join, and the join is what the next node follows.
pub proof fn parallel_steps_are_forked_and_merged(
    b: BuilderView,
    steps: Seq<Seq<char>>,
    strategy: JoinStrategy,
    k: int,
)
    requires
        0 <= k < steps.len(),
    ensures
        ({
            let r = b.with_parallel(steps, strategy);
            let n = b.nodes.len() as int;
            let e = b.edges.len() as int + if b.cursor is Some {
                1int
            } else {
                0
            };
            let fork = "parallel"@ + "_"@ + text::decimal(b.counter + 1);
            let join = "join"@ + "_"@ + text::decimal(b.counter + 2);
            let id = steps[k] + "_"@ + text::decimal((b.counter + 3 + k) as nat);
            &&& r.nodes.len() == n + 2 + steps.len()
            &&& r.nodes[n] == (workflow::NodeView { id: fork, kind: workflow::KindView::Parallel })
            &&& r.nodes[n + 1] == (workflow::NodeView {
                id: join,
                kind: workflow::KindView::Join { strategy },
            })
            &&& r.nodes[n + 2 + k] == (workflow::NodeView {
                id,
                kind: workflow::KindView::Step {
                    step_id: steps[k],
                    config: json::JsonView::Null,
                },
            })
            &&& r.edges.len() == e + 2 * steps.len()
            &&& b.cursor matches Some(last) ==> r.edges[e - 1] == (workflow::EdgeView {
                from: last,
                to: fork,
                kind: workflow::LinkView::Then,
            })
            &&& r.edges[e + 2 * k] == (workflow::EdgeView {
                from: fork,
                to: id,
                kind: workflow::LinkView::Fork,
            })
            &&& r.edges[e + 2 * k + 1] == (workflow::EdgeView {
                from: id,
                to: join,
                kind: workflow::LinkView::Merge,
            })
            &&& r.cursor == Some(join)
            &&& r.nodes.take(n) == b.nodes
            &&& r.edges.take(b.edges.len() as int) == b.edges
            &&& r.entry == (if b.entry is Some {
                b.entry
            } else {
                Some(fork)
            })
        }),
{
    let fork = b.next("parallel"@);
    let begun = b.extended("parallel"@, workflow::KindView::Parallel);
    let join = begun.next("join"@);
    let c = begun.counted().pushed(join, workflow::KindView::Join { strategy });
    lemma_forked_nodes(c, fork, join, steps);
    lemma_forked_edges(c, fork, join, steps);
    let r = b.with_parallel(steps, strategy);
    let id = branch_id(c, steps, k);
    let n = b.nodes.len() as int;
    assert(r.nodes.take(c.nodes.len() as int)[n] == c.nodes[n]);
    assert(r.nodes.take(c.nodes.len() as int)[n + 1] == c.nodes[n + 1]);
    assert(r.nodes.take(n) =~= b.nodes) by {
        assert forall|i: int| 0 <= i < n implies r.nodes[i] == b.nodes[i] by {
            assert(r.nodes.take(c.nodes.len() as int)[i] == c.nodes[i]);
        }
    }
    assert forall|i: int| 0 <= i < c.edges.len() implies r.edges[i] == c.edges[i] by {
        assert(r.edges.take(c.edges.len() as int)[i] == c.edges[i]);
    }
    assert(r.edges.take(b.edges.len() as int) =~= b.edges);
}

proof fn lemma_armed_nodes(
    b: BuilderView,
    branch: Seq<char>,
    join: Seq<char>,
    arms: Seq<(json::JsonView, Seq<char>)>,
)
    ensures
        ({
            let r = b.armed(branch, join, arms);
            let n = b.nodes.len() as int;
            let e = b.edges.len() as int;
            &&& r.counter == b.counter + arms.len()
            &&& r.nodes.len() == n + arms.len()
            &&& r.edges.len() == e + 2 * arms.len()
            &&& r.nodes.take(n) == b.nodes
            &&& r.edges.take(e) == b.edges
            &&& forall|k: int|
                0 <= k < arms.len() ==> r.nodes[n + k] == (workflow::NodeView {
                    id: #[trigger] arm_id(b, arms, k),
                    kind: step_kind(arms[k].1, json::JsonView::Null),
                }) && r.edges[e + 2 * k] == (workflow::EdgeView {
                    from: branch,
                    to: arm_id(b, arms, k),
                    kind: workflow::LinkView::When(arms[k].0),
                }) && r.edges[e + 2 * k + 1] == (workflow::EdgeView {
                    from: arm_id(b, arms, k),
                    to: join,
                    kind: workflow::LinkView::Then,
                })
            &&& b.entry is Some ==> r.entry == b.entry
        }),
    decreases arms.len(),
{
    let r = b.armed(branch, join, arms);
    let n = b.nodes.len() as int;
    let e = b.edges.len() as int;
    if arms.len() == 0 {
        assert(r.nodes.take(n) =~= b.nodes);
        assert(r.edges.take(e) =~= b.edges);
    } else {
        let fewer = arms.drop_last();
        lemma_armed_nodes(b, branch, join, fewer);
        let before = b.armed(branch, join, fewer);
        let last = arms.len() - 1;
        assert(before.next(arms.last().1) == arm_id(b, arms, last));
        assert(r.nodes.take(n) =~= before.nodes.take(n));
        assert(r.edges.take(e) =~= before.edges.take(e));
        assert forall|k: int| 0 <= k < arms.len() implies r.nodes[n + k] == (workflow::NodeView {
            id: #[trigger] arm_id(b, arms, k),
            kind: step_kind(arms[k].1, json::JsonView::Null),
        }) && r.edges[e + 2 * k] == (workflow::EdgeView {
            from: branch,
            to: arm_id(b, arms, k),
            kind: workflow::LinkView::When(arms[k].0),
        }) && r.edges[e + 2 * k + 1] == (workflow::EdgeView {
            from: arm_id(b, arms, k),
            to: join,
            kind: workflow::LinkView::Then,
        }) by {
            if k < last {
                assert(arm_id(b, fewer, k) == arm_id(b, arms, k));
                assert(r.nodes[n + k] == before.nodes[n + k]);
                assert(r.edges[e + 2 * k] == before.edges[e + 2 * k]);
                assert(r.edges[e + 2 * k + 1] == before.edges[e + 2 * k + 1]);
            }
        }
    }
}

/// The id of the step of an arm.
spec fn arm_id(b: BuilderView, arms: Seq<(json::JsonView, Seq<char>)>, k: int) -> Seq<char> {
    numbered(arms[k].1, (b.counter + 1 + k) as nat)
}

/// A branch follows the last node and leads to one step for each arm, under its condition
/// and in the order of the arms. Every step leads on to the one node that the next follows.
pub proof fn arms_are_built_in_their_order(
    b: BuilderView,
    arms: Seq<(json::JsonView, Seq<char>)>,
    k: int,
)
    requires
        0 <= k < arms.len(),
    ensures
        ({
            let r = b.with_branch(arms);
            let n = b.nodes.len() as int;
            let e = b.edges.len() as int + if b.cursor is Some {
                1int
            } else {
                0
            };
            let branch = "branch"@ + "_"@ + text::decimal(b.counter + 1);
            let join = "branch_join"@ + "_"@ + text::decimal(b.counter + 2);
            let id = arms[k].1 + "_"@ + text::decimal((b.counter + 3 + k) as nat);
            &&& r.nodes.len() == n + 2 + arms.len()
            &&& r.nodes[n] == (workflow::NodeView { id: branch, kind: workflow::KindView::Branch })
            &&& r.nodes[n + 1].id == join && r.nodes[n + 1].kind is Join
            &&& r.nodes[n + 2 + k] == (workflow::NodeView {
                id,
                kind: workflow::KindView::Step {
                    step_id: arms[k].1,
                    config: json::JsonView::Null,
                },
            })
            &&& r.edges.len() == e + 2 * arms.len()
            &&& b.cursor matches Some(last) ==> r.edges[e - 1] == (workflow::EdgeView {
                from: last,
                to: branch,
                kind: workflow::LinkView::Then,
            })
            &&& r.edges[e + 2 * k] == (workflow::EdgeView {
                from: branch,
                to: id,
                kind: workflow::LinkView::When(arms[k].0),
            })
            &&& r.edges[e + 2 * k + 1] == (workflow::EdgeView {
                from: id,
                to: join,
                kind: workflow::LinkView::Then,
            })
            &&& r.cursor == Some(join)
            &&& r.nodes.take(n) == b.nodes
            &&& r.edges.take(b.edges.len() as int) == b.edges
            &&& r.entry == (if b.entry is Some {
                b.entry
            } else {
                Some(branch)
            })
        }),
{
    let branch = b.next("branch"@);
    let begun = b.extended("branch"@, workflow::KindView::Branch);
    let join = begun.next("branch_join"@);
    let c = begun.counted().pushed(
        join,
        workflow::KindView::Join { strategy: JoinStrategy::AllSettled },
    );
    lemma_armed_nodes(c, branch, join, arms);
    let r = b.with_branch(arms);
    let id = arm_id(c, arms, k);
    let n = b.nodes.len() as int;
    assert(r.nodes.take(c.nodes.len() as int)[n] == c.nodes[n]);
    assert(r.nodes.take(c.nodes.len() as int)[n + 1] == c.nodes[n + 1]);
    assert(r.nodes.take(n) =~= b.nodes) by {
        assert forall|i: int| 0 <= i < n implies r.nodes[i] == b.nodes[i] by {
            assert(r.nodes.take(c.nodes.len() as int)[i] == c.nodes[i]);
        }
    }
    assert forall|i: int| 0 <= i < c.edges.len() implies r.edges[i] == c.edges[i] by {
        assert(r.edges.take(c.edges.len() as int)[i] == c.edges[i]);
    }
    assert(r.edges.take(b.edges.len() as int) =~= b.edges);
}

/// A step that is repeated is the body of a loop of the kind, with the condition. The loop
/// follows the last node and is what the next follows, and the body leads back to it.
pub proof fn repeated_steps_are_bodies_of_loops(
    b: BuilderView,
    step_id: Seq<char>,
    mode: LoopMode,
    condition: json::JsonView,
    concurrency: usize,
)
    ensures
        ({
            let r = b.with_loop(step_id, mode, condition);
            let each = b.with_each(step_id, concurrency);
            let body = step_id + "_"@ + text::decimal(b.counter + 1);
            let turn = "loop"@ + "_"@ + text::decimal(b.counter + 2);
            let step = workflow::NodeView {
                id: body,
                kind: workflow::KindView::Step { step_id, config: json::JsonView::Null },
            };
            let before = match b.cursor {
                Some(last) => b.edges.push(
                    workflow::EdgeView { from: last, to: turn, kind: workflow::LinkView::Then },
                ),
                None => b.edges,
            };
            let back = workflow::EdgeView {
                from: body,
                to: turn,
                kind: workflow::LinkView::LoopBack,
            };
            &&& r.nodes == b.nodes.push(step).push(
                workflow::NodeView {
                    id: turn,
                    kind: workflow::KindView::Loop { mode, body, condition: Some(condition) },
                },
            )
            &&& each.nodes == b.nodes.push(
                workflow::NodeView {
                    id: turn,
                    kind: workflow::KindView::Loop {
                        mode: LoopMode::ForEach { concurrency },
                        body,
                        condition: None,
                    },
                },
            ).push(step)
            &&& r.edges == before.push(back)
            &&& each.edges == before.push(back)
            &&& r.cursor == Some(turn)
            &&& each.cursor == Some(turn)
        }),
{
}

/// A step that is built to run while a condition holds is repeated as long as it does, and
/// one that is built to run until it holds is repeated as long as it does not.
pub proof fn loops_are_built_in_their_mode(
    b: WorkflowBuilder,
    step_id: &str,
    condition: Condition,
    r: WorkflowBuilder,
)
    ensures
        call_ensures(WorkflowBuilder::dowhile, (b, step_id, condition), r) ==> r@.nodes.last().kind
            == (workflow::KindView::Loop {
            mode: LoopMode::DoWhile,
            body: step_id@ + "_"@ + text::decimal(b@.counter + 1),
            condition: Some(condition@),
        }),
        call_ensures(WorkflowBuilder::dountil, (b, step_id, condition), r) ==> r@.nodes.last().kind
            == (workflow::KindView::Loop {
            mode: LoopMode::DoUntil,
            body: step_id@ + "_"@ + text::decimal(b@.counter + 1),
            condition: Some(condition@),
        }),
{
}

/// A step is built with its configuration, or with none, and a mapping with its fields;
/// each follows the last node.
pub proof fn steps_are_built_as_they_are_asked_for(
    b: WorkflowBuilder,
    step_id: &str,
    config: Json,
    mapping: MapSpec,
    r: WorkflowBuilder,
)
    ensures
        call_ensures(WorkflowBuilder::then_step, (b, step_id), r) ==> r@.nodes.last().kind == (
        workflow::KindView::Step { step_id: step_id@, config: json::JsonView::Null }) && r@.cursor
            == Some(r@.nodes.last().id) && r@.nodes.drop_last() == b@.nodes,
        call_ensures(WorkflowBuilder::then_with, (b, step_id, config), r) ==> r@.nodes.last().kind
            == (workflow::KindView::Step { step_id: step_id@, config: config@ }) && r@.cursor
            == Some(r@.nodes.last().id) && r@.nodes.drop_last() == b@.nodes,
        call_ensures(WorkflowBuilder::map, (b, mapping), r) ==> r@.nodes.last().kind == (
        workflow::KindView::Reshape { fields: workflow::fields_view(mapping.fields@) })
            && r@.cursor == Some(r@.nodes.last().id) && r@.nodes.drop_last() == b@.nodes,
{
    if call_ensures(WorkflowBuilder::then_step, (b, step_id), r) || call_ensures(
        WorkflowBuilder::then_with,
        (b, step_id, config),
        r,
    ) || call_ensures(WorkflowBuilder::map, (b, mapping), r) {
        assert(r@.nodes.drop_last() =~= b@.nodes);
    }
}

/// The workflow that is committed is the one that was built.
pub proof fn what_was_built_is_committed(
    b: WorkflowBuilder,
    input_schema: Json,
    r: workflow::WorkflowDef,
    changed: WorkflowBuilder,
)
    ensures
        call_ensures(WorkflowBuilder::commit, (b,), r) ==> r@.id == b@.id && r@.nodes == b@.nodes
            && r@.edges == b@.edges && r@.input_schema == b@.input_schema && r@.output_schema
            == b@.output_schema && (b@.entry is Some ==> r@.entry == b@.entry->0),
        call_ensures(WorkflowBuilder::input_schema, (b, input_schema), changed)
            ==> changed@.input_schema == input_schema@ && changed@.output_schema
            == b@.output_schema && changed@.nodes == b@.nodes,
        call_ensures(WorkflowBuilder::output_schema, (b, input_schema), changed)
            ==> changed@.output_schema == input_schema@ && changed@.input_schema
            == b@.input_schema && changed@.nodes == b@.nodes,
{
}

} // verus!
