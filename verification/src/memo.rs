//! What a workflow run remembers of its nodes: the outputs, by which a node runs
//! once, the results that are reported, and how far the loops had come that it was
//! suspended in.
//!
//! Outputs and results are kept in a `dashmap::DashMap`. The items below that speak of
//! it are believed, not proved; each says what is claimed of the map's method.

use crate::json;
use crate::json::Json;
use crate::keyed::TextSet;
use crate::text;
use crate::types;
use dashmap::DashMap;
use vstd::prelude::*;
use vstd::string::*;

verus! {

/// `dashmap::DashMap`, opaque.
#[verifier::external_type_specification]
#[verifier::external_body]
#[verifier::reject_recursive_types(K)]
#[verifier::reject_recursive_types(V)]
#[verifier::reject_recursive_types(S)]
pub struct ExDashMap<K, V, S>(dashmap::DashMap<K, V, S>);

/// How a run, or a step of it, stands.
#[derive(Clone, Copy, Debug, PartialEq, Eq, Structural)]
pub enum RunStatus {
    Success,
    Failed,
    Suspended,
}

/// What became of a step. Times are in milliseconds.
#[derive(Debug, PartialEq)]
pub struct StepResult {
    pub status: RunStatus,
    pub output: Option<Json>,
    pub error: Option<String>,
    pub started_at: i64,
    pub ended_at: Option<i64>,
}

#[verifier::ext_equal]
pub ghost struct StepView {
    pub status: RunStatus,
    pub output: Option<json::JsonView>,
    pub error: Option<Seq<char>>,
    pub started_at: i64,
    pub ended_at: Option<i64>,
}

/// The view of a value that may be missing.
pub open spec fn json_opt(v: Option<Json>) -> Option<json::JsonView> {
    match v {
        Some(j) => Some(j@),
        None => None,
    }
}

/// A copy of a value that may be missing.
pub fn copy_json_opt(v: &Option<Json>) -> (r: Option<Json>)
    ensures
        json_opt(r) == json_opt(*v),
{
    match v {
        Some(j) => Some(j.copy()),
        None => None,
    }
}

impl View for StepResult {
    type V = StepView;

    open spec fn view(&self) -> StepView {
        StepView {
            status: self.status,
            output: json_opt(self.output),
            error: types::opt_view(self.error),
            started_at: self.started_at,
            ended_at: self.ended_at,
        }
    }
}

impl Clone for StepResult {
    fn clone(&self) -> (r: StepResult)
        ensures
            r@ == self@,
    {
        StepResult {
            status: self.status,
            output: copy_json_opt(&self.output),
            error: types::copy_opt(&self.error),
            started_at: self.started_at,
            ended_at: self.ended_at,
        }
    }
}

/// The results that a list gives; a later one of a node counts.
pub open spec fn results_view(s: Seq<(String, StepResult)>) -> Map<Seq<char>, StepView>
    decreases s.len(),
{
    if s.len() == 0 {
        Map::empty()
    } else {
        results_view(s.drop_last()).insert(s.last().0@, s.last().1@)
    }
}

/// How far a loop had come when its run was suspended.
#[derive(Debug, PartialEq)]
pub enum LoopProgress {
    /// A loop over items: the values of the items before the one that it stopped at.
    Each { values: Vec<Json> },
    /// A loop with a condition: the turns that were made, and what the turn that it
    /// stopped in began with.
    Turns { turns: u32, acc: Json },
}

#[verifier::ext_equal]
pub ghost enum ProgressView {
    Each { values: Seq<json::JsonView> },
    Turns { turns: u32, acc: json::JsonView },
}

impl View for LoopProgress {
    type V = ProgressView;

    open spec fn view(&self) -> ProgressView {
        match self {
            LoopProgress::Each { values } => ProgressView::Each {
                values: json::items_view(values@),
            },
            LoopProgress::Turns { turns, acc } => ProgressView::Turns { turns: *turns, acc: acc@ },
        }
    }
}

impl Clone for LoopProgress {
    fn clone(&self) -> (r: LoopProgress)
        ensures
            r@ == self@,
    {
        match self {
            LoopProgress::Each { values } => {
                let mut copy: Vec<Json> = Vec::new();
                let mut i: usize = 0;
                let ghost all = values@;
                assert(json::items_view(copy@) =~= json::items_view(all.take(0)));
                while i < values.len()
                    invariant
                        i <= values@.len(),
                        all == values@,
                        json::items_view(copy@) == json::items_view(all.take(i as int)),
                    decreases values@.len() - i,
                {
                    let ghost before = copy@;
                    assert(all.take(i + 1).drop_last() =~= all.take(i as int));
                    assert(all.take(i + 1).last() == all[i as int]);
                    let item = values[i].copy();
                    copy.push(item);
                    assert(copy@.drop_last() =~= before);
                    i = i + 1;
                }
                assert(all.take(i as int) =~= all);
                LoopProgress::Each { values: copy }
            },
            LoopProgress::Turns { turns, acc } => LoopProgress::Turns {
                turns: *turns,
                acc: acc.copy(),
            },
        }
    }
}

/// How far loops had come, by a list; a later entry of a loop counts.
pub open spec fn progress_view(s: Seq<(String, LoopProgress)>) -> Map<Seq<char>, ProgressView>
    decreases s.len(),
{
    if s.len() == 0 {
        Map::empty()
    } else {
        progress_view(s.drop_last()).insert(s.last().0@, s.last().1@)
    }
}

/// How far a loop had come.
pub(crate) fn progress_of(list: &Vec<(String, LoopProgress)>, key: &str) -> (r: Option<LoopProgress>)
    ensures
        match r {
            Some(p) => progress_view(list@).contains_key(key@) && progress_view(list@)[key@] == p@,
            None => !progress_view(list@).contains_key(key@),
        },
{
    let ghost all = list@;
    let mut i: usize = list.len();
    assert(all.take(i as int) =~= all);
    while i > 0
        invariant
            i <= list@.len(),
            all == list@,
            progress_view(all).contains_key(key@) <==> progress_view(
                all.take(i as int),
            ).contains_key(key@),
            progress_view(all).contains_key(key@) ==> progress_view(all)[key@] == progress_view(
                all.take(i as int),
            )[key@],
        decreases i,
    {
        assert(all.take(i as int).drop_last() =~= all.take(i - 1));
        i = i - 1;
        if text::same(list[i].0.as_str(), key) {
            return Some(list[i].1.clone());
        }
    }
    None
}

/// Takes loops out of a list.
pub(crate) fn progress_without(list: &Vec<(String, LoopProgress)>, nodes: &TextSet) -> (r: Vec<
    (String, LoopProgress),
>)
    ensures
        progress_view(r@) == progress_view(list@).remove_keys(nodes@),
{
    let mut kept: Vec<(String, LoopProgress)> = Vec::new();
    let mut i: usize = 0;
    let ghost all = list@;
    assert(progress_view(kept@) =~= progress_view(all.take(0)).remove_keys(nodes@));
    while i < list.len()
        invariant
            i <= list@.len(),
            all == list@,
            progress_view(kept@) == progress_view(all.take(i as int)).remove_keys(nodes@),
        decreases list@.len() - i,
    {
        assert(all.take(i + 1).drop_last() =~= all.take(i as int));
        assert(all.take(i + 1).last() == all[i as int]);
        let entry = &list[i];
        if !nodes.contains(entry.0.as_str()) {
            let ghost before = kept@;
            kept.push((entry.0.clone(), entry.1.clone()));
            assert(kept@.drop_last() =~= before);
        }
        assert(progress_view(kept@) =~= progress_view(all.take(i + 1)).remove_keys(nodes@));
        i = i + 1;
    }
    assert(all.take(i as int) =~= all);
    kept
}

/// Takes one loop out of a list.
pub(crate) fn progress_past(list: &Vec<(String, LoopProgress)>, key: &str) -> (r: Vec<
    (String, LoopProgress),
>)
    ensures
        progress_view(r@) == progress_view(list@).remove(key@),
{
    let mut one = TextSet::new();
    one.insert(key.to_string());
    let r = progress_without(list, &one);
    assert(progress_view(r@) =~= progress_view(list@).remove(key@));
    r
}

/// Notes in a list how far a loop has come.
pub(crate) fn progress_note(list: &mut Vec<(String, LoopProgress)>, key: String, progress: LoopProgress)
    ensures
        progress_view(final(list)@) == progress_view(old(list)@).insert(key@, progress@),
{
    let mut others = progress_past(list, key.as_str());
    let ghost before = others@;
    others.push((key, progress));
    assert(others@.drop_last() =~= before);
    *list = others;
    assert(progress_view(list@) =~= progress_view(old(list)@).insert(key@, progress@));
}

/// The outputs that a map of them holds.
pub uninterp spec fn outputs_held(m: DashMap<String, Json>) -> Map<Seq<char>, json::JsonView>;

/// `DashMap::new`: the map holds nothing.
#[verifier::external_body]
pub(crate) fn outputs_new() -> (r: DashMap<String, Json>)
    ensures
        outputs_held(r).dom() == Set::<Seq<char>>::empty(),
{
    DashMap::new()
}

/// `DashMap::insert`: the key has this value from now on, and no other key changes.
#[verifier::external_body]
pub(crate) fn outputs_insert(m: &mut DashMap<String, Json>, key: String, value: Json)
    ensures
        outputs_held(*final(m)) == outputs_held(*old(m)).insert(key@, value@),
{
    m.insert(key, value);
}

/// `DashMap::get`: a copy of the value of the key, or nothing where it has none.
#[verifier::external_body]
pub(crate) fn outputs_get(m: &DashMap<String, Json>, key: &str) -> (r: Option<Json>)
    ensures
        match r {
            Some(v) => outputs_held(*m).contains_key(key@) && outputs_held(*m)[key@] == v@,
            None => !outputs_held(*m).contains_key(key@),
        },
{
    m.get(key).map(|entry| entry.value().clone())
}

/// `DashMap::remove`: the key has no value any more, and no other key changes.
#[verifier::external_body]
pub(crate) fn outputs_remove(m: &mut DashMap<String, Json>, key: &str)
    ensures
        outputs_held(*final(m)) == outputs_held(*old(m)).remove(key@),
{
    m.remove(key);
}

/// `DashMap::iter`: copies of all keys with their values, in an order that nothing
/// is said of.
#[verifier::external_body]
pub(crate) fn outputs_list(m: &DashMap<String, Json>) -> (r: Vec<(String, Json)>)
    ensures
        json::entries_view(r@) == outputs_held(*m),
{
    m.iter().map(|entry| (entry.key().clone(), entry.value().clone())).collect()
}

/// The results that a map of them holds.
pub uninterp spec fn results_held(m: DashMap<String, StepResult>) -> Map<Seq<char>, StepView>;

/// `DashMap::new`: the map holds nothing.
#[verifier::external_body]
pub(crate) fn results_new() -> (r: DashMap<String, StepResult>)
    ensures
        results_held(r).dom() == Set::<Seq<char>>::empty(),
{
    DashMap::new()
}

/// `DashMap::insert`: the key has this value from now on, and no other key changes.
#[verifier::external_body]
pub(crate) fn results_insert(m: &mut DashMap<String, StepResult>, key: String, value: StepResult)
    ensures
        results_held(*final(m)) == results_held(*old(m)).insert(key@, value@),
{
    m.insert(key, value);
}

/// `DashMap::contains_key`: whether the key has a value.
#[verifier::external_body]
pub(crate) fn results_has(m: &DashMap<String, StepResult>, key: &str) -> (r: bool)
    ensures
        r == results_held(*m).contains_key(key@),
{
    m.contains_key(key)
}

/// `DashMap::iter`: copies of all keys with their values, in an order that nothing
/// is said of.
#[verifier::external_body]
pub(crate) fn results_list(m: &DashMap<String, StepResult>) -> (r: Vec<(String, StepResult)>)
    ensures
        results_view(r@) == results_held(*m),
{
    m.iter().map(|entry| (entry.key().clone(), entry.value().clone())).collect()
}

} // verus!
