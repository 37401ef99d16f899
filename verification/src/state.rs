//! The warm derivation graph of an evaluation: recording, comparing and querying it.

use vstd::prelude::*;

use crate::keyed_map::{
    distinct_keys, inserted, lemma_inserted, lemma_map_of_has, lemma_map_of_key, map_of, Duplicate,
    Key, KeyedMap,
};
use crate::text::{chars_of, contains_text};
use crate::types::{
    no_filter, Derivation, DerivationView, Diff, DiffView, EvalError, EvalErrorView, Event,
    EventView, Filter, FilterView,
};

verus! {

/// The derivations of an evaluation by their attribute paths.
pub type EvalGraph = KeyedMap<Vec<String>, Derivation>;

/// What a session keeps of its evaluations.
pub struct WarmState {
    pub graph: EvalGraph,
    pub errors: Vec<EvalError>,
    /// Whether an evaluation has completed.
    pub completed: bool,
    /// Why the initial evaluation failed.
    pub error: Option<String>,
}

pub struct WarmStateView {
    pub graph: Seq<(Seq<Seq<char>>, DerivationView)>,
    pub errors: Seq<EvalErrorView>,
    pub completed: bool,
    pub error: Option<Seq<char>>,
}

impl View for WarmState {
    type V = WarmStateView;

    open spec fn view(&self) -> WarmStateView {
        WarmStateView {
            graph: self.graph.items(),
            errors: self.errors.deep_view(),
            completed: self.completed,
            error: self.error.deep_view(),
        }
    }
}

/// The state of a session before its initial evaluation.
pub open spec fn cold() -> WarmStateView {
    WarmStateView { graph: Seq::empty(), errors: Seq::empty(), completed: false, error: None }
}

impl Default for WarmState {
    fn default() -> (state: Self)
        ensures
            state@ == cold(),
    {
        let state = WarmState {
            graph: KeyedMap::new(),
            errors: Vec::new(),
            completed: false,
            error: None,
        };
        assert(state@.errors =~= Seq::empty());
        state
    }
}

/// Collects the derivations and errors of an evaluation.
pub struct EvalAccumulator {
    pub graph: EvalGraph,
    pub errors: Vec<EvalError>,
}

pub struct EvalAccumulatorView {
    pub graph: Seq<(Seq<Seq<char>>, DerivationView)>,
    pub errors: Seq<EvalErrorView>,
}

impl View for EvalAccumulator {
    type V = EvalAccumulatorView;

    open spec fn view(&self) -> EvalAccumulatorView {
        EvalAccumulatorView { graph: self.graph.items(), errors: self.errors.deep_view() }
    }
}

/// Nothing collected.
pub open spec fn nothing_recorded() -> EvalAccumulatorView {
    EvalAccumulatorView { graph: Seq::empty(), errors: Seq::empty() }
}

impl Default for EvalAccumulator {
    fn default() -> (accumulator: Self)
        ensures
            accumulator@ == nothing_recorded(),
    {
        let accumulator = EvalAccumulator { graph: KeyedMap::new(), errors: Vec::new() };
        assert(accumulator@.errors =~= Seq::empty());
        accumulator
    }
}

/// What is collected after one more event: a derivation takes the place of an earlier one at its
/// path, an error comes last.
pub open spec fn recorded(acc: EvalAccumulatorView, event: EventView) -> EvalAccumulatorView {
    match event {
        EventView::Derivation(drv) => EvalAccumulatorView {
            graph: inserted(acc.graph, drv.attr_path, drv),
            ..acc
        },
        EventView::Error(error) => EvalAccumulatorView { errors: acc.errors.push(error), ..acc },
        EventView::AttrSet { .. } => acc,
    }
}

/// What is collected from a list of events.
pub open spec fn recorded_all(events: Seq<EventView>) -> EvalAccumulatorView
    decreases events.len(),
{
    if events.len() == 0 {
        nothing_recorded()
    } else {
        recorded(recorded_all(events.drop_last()), events.last())
    }
}

impl EvalAccumulator {
    /// Takes in an event.
    pub fn record(&mut self, event: &Event)
        ensures
            final(self)@ == recorded(old(self)@, event@),
    {
        match event {
            Event::Derivation(drv) => {
                self.graph.insert(drv.attr_path.duplicate(), drv.duplicate());
            },
            Event::Error(error) => {
                let ghost before = self.errors.deep_view();
                self.errors.push(error.duplicate());
                assert(self.errors.deep_view() =~= before.push(error@));
            },
            Event::AttrSet { .. } => {},
        }
    }
}

/// Whether a graph has the derivation of a path under the same `.drv` path.
pub open spec fn unchanged(
    graph: Map<Seq<Seq<char>>, DerivationView>,
    path: Seq<Seq<char>>,
    drv: DerivationView,
) -> bool {
    graph.contains_key(path) && graph[path].drv_path == drv.drv_path
}

/// The derivations of a graph that another graph lacks or has under another `.drv` path.
pub open spec fn missing_from(
    other: Map<Seq<Seq<char>>, DerivationView>,
    items: Seq<(Seq<Seq<char>>, DerivationView)>,
) -> Seq<DerivationView>
    decreases items.len(),
{
    if items.len() == 0 {
        Seq::empty()
    } else {
        let before = missing_from(other, items.drop_last());
        let (path, drv) = items.last();
        if unchanged(other, path, drv) {
            before
        } else {
            before.push(drv)
        }
    }
}

/// The change from one graph to another, with the errors of the later evaluation.
pub open spec fn diff_of(
    previous: Seq<(Seq<Seq<char>>, DerivationView)>,
    current: Seq<(Seq<Seq<char>>, DerivationView)>,
    errors: Seq<EvalErrorView>,
) -> DiffView {
    DiffView {
        added: missing_from(map_of(previous), current),
        removed: missing_from(map_of(current), previous),
        errors,
    }
}

fn missing(other: &EvalGraph, graph: &EvalGraph) -> (drvs: Vec<Derivation>)
    ensures
        drvs.deep_view() == missing_from(other@, graph.items()),
{
    let mut drvs: Vec<Derivation> = Vec::new();
    let ghost items = graph.items();
    let mut i: usize = 0;
    assert(drvs.deep_view() =~= Seq::empty());
    while i < graph.len()
        invariant
            items == graph.items(),
            i <= items.len(),
            drvs.deep_view() == missing_from(other@, items.take(i as int)),
        decreases items.len() - i,
    {
        assert(items.take(i + 1).drop_last() =~= items.take(i as int));
        let drv = graph.value_at(i);
        let same = match other.get(graph.key_at(i)) {
            Some(found) => found.drv_path == drv.drv_path,
            None => false,
        };
        if !same {
            let ghost before = drvs.deep_view();
            drvs.push(drv.duplicate());
            assert(drvs.deep_view() =~= before.push(drv@));
        }
        i += 1;
    }
    assert(items.take(items.len() as int) =~= items);
    drvs
}

/// Compares two graphs: a derivation whose `.drv` path changed is removed and added.
pub fn diff_graphs(previous: &EvalGraph, current: &EvalGraph, errors: Vec<EvalError>) -> (diff:
    Diff)
    ensures
        diff@ == diff_of(previous.items(), current.items(), errors.deep_view()),
        diff@.errors == errors.deep_view(),
{
    let removed = missing(current, previous);
    let added = missing(previous, current);
    Diff { added, removed, errors }
}

/// Whether a wildcard pattern matches a text: `*` stands for any characters, `?` for one, and
/// every other character for itself.
pub open spec fn glob(pattern: Seq<char>, value: Seq<char>) -> bool
    decreases pattern.len(),
{
    if pattern.len() == 0 {
        value.len() == 0
    } else if pattern.last() == '*' {
        exists|k: int| 0 <= k <= value.len() && glob(pattern.drop_last(), #[trigger] value.take(k))
    } else {
        value.len() > 0 && (pattern.last() == '?' || pattern.last() == value.last()) && glob(
            pattern.drop_last(),
            value.drop_last(),
        )
    }
}

/// Whether one of several patterns matches.
pub open spec fn any_glob(patterns: Seq<Seq<char>>, value: Seq<char>) -> bool {
    exists|i: int| 0 <= i < patterns.len() && glob(#[trigger] patterns[i], value)
}

/// Whether a path begins with one of several others.
pub open spec fn any_prefix(prefixes: Seq<Seq<Seq<char>>>, path: Seq<Seq<char>>) -> bool {
    exists|i: int| 0 <= i < prefixes.len() && (#[trigger] prefixes[i]).is_prefix_of(path)
}

/// Whether a derivation passes a filter: every part that is present accepts it.
pub open spec fn passes(drv: DerivationView, filter: FilterView) -> bool {
    &&& filter.systems matches Some(systems) ==> systems.contains(drv.system)
    &&& filter.attr_prefix matches Some(prefix) ==> prefix.is_prefix_of(drv.attr_path)
    &&& filter.attr_prefixes matches Some(prefixes) ==> any_prefix(prefixes, drv.attr_path)
    &&& filter.attrs matches Some(attrs) ==> attrs.contains(drv.attr_path)
    &&& filter.names matches Some(names) ==> names.contains(drv.name)
    &&& filter.drv_paths matches Some(paths) ==> paths.contains(drv.drv_path)
    &&& filter.include_patterns matches Some(patterns) ==> any_glob(patterns, drv.attr)
    &&& filter.exclude_patterns matches Some(patterns) ==> !any_glob(patterns, drv.attr)
}

proof fn lemma_star(pattern: Seq<char>, value: Seq<char>)
    requires
        pattern.len() > 0,
        pattern.last() == '*',
    ensures
        glob(pattern, value) <==> (glob(pattern.drop_last(), value) || (value.len() > 0 && glob(
            pattern,
            value.drop_last(),
        ))),
{
    let shorter = pattern.drop_last();
    assert(value.take(value.len() as int) =~= value);
    if glob(pattern, value) && !glob(shorter, value) {
        let k = choose|k: int|
            0 <= k <= value.len() && glob(shorter, #[trigger] value.take(k));
        assert(value.drop_last().take(k) =~= value.take(k));
        assert(glob(shorter, value.drop_last().take(k)));
    }
    if value.len() > 0 && glob(pattern, value.drop_last()) {
        let k = choose|k: int|
            0 <= k <= value.drop_last().len() && glob(shorter, #[trigger] value.drop_last().take(k));
        assert(value.drop_last().take(k) =~= value.take(k));
        assert(glob(shorter, value.take(k)));
    }
    if glob(shorter, value) {
        assert(glob(shorter, value.take(value.len() as int)));
    }
}

/// Whether a wildcard pattern matches a text.
///
/// Row by row: after the first `i` characters of the pattern, place `j` of the row tells whether
/// they match the first `j` characters of the text.
pub fn wildcard_matches(pattern: &str, value: &str) -> (yes: bool)
    ensures
        yes == glob(pattern@, value@),
{
    let p = chars_of(pattern);
    let v = chars_of(value);
    let mut row: Vec<bool> = Vec::new();
    row.push(true);
    while row.len() <= v.len()
        invariant
            v@ == value@,
            1 <= row@.len() <= v@.len() + 1,
            forall|j: int| 0 <= j < row@.len() ==> row@[j] == (j == 0),
        decreases v@.len() + 1 - row@.len(),
    {
        row.push(false);
    }
    let mut i: usize = 0;
    assert(p@.take(0) =~= Seq::empty());
    while i < p.len()
        invariant
            p@ == pattern@,
            v@ == value@,
            i <= p@.len(),
            row@.len() == v@.len() + 1,
            forall|j: int|
                0 <= j < row@.len() ==> #[trigger] row@[j] == glob(p@.take(i as int), v@.take(j)),
        decreases p@.len() - i,
    {
        let c = p[i];
        let ghost upper = p@.take(i + 1);
        assert(upper.drop_last() =~= p@.take(i as int));
        let mut next: Vec<bool> = Vec::new();
        proof {
            if c == '*' {
                lemma_star(upper, v@.take(0));
            }
        }
        next.push(c == '*' && row[0]);
        let mut j: usize = 1;
        while j < row.len()
            invariant
                i < p@.len(),
                c == p@[i as int],
                upper == p@.take(i + 1),
                upper.drop_last() == p@.take(i as int),
                1 <= j <= row@.len(),
                row@.len() == v@.len() + 1,
                next@.len() == j,
                forall|k: int|
                    0 <= k < row@.len() ==> #[trigger] row@[k] == glob(
                        p@.take(i as int),
                        v@.take(k),
                    ),
                forall|k: int| 0 <= k < j ==> #[trigger] next@[k] == glob(upper, v@.take(k)),
            decreases row@.len() - j,
        {
            assert(v@.take(j as int).drop_last() =~= v@.take(j - 1));
            let hit = if c == '*' {
                proof {
                    lemma_star(upper, v@.take(j as int));
                }
                row[j] || next[j - 1]
            } else {
                (c == '?' || c == v[j - 1]) && row[j - 1]
            };
            next.push(hit);
            j += 1;
        }
        row = next;
        i += 1;
    }
    assert(p@.take(p@.len() as int) =~= p@);
    assert(v@.take(v@.len() as int) =~= v@);
    row[v.len()]
}

/// Whether an attribute path begins with another.
pub fn attr_path_starts_with(attr_path: &Vec<String>, prefix: &Vec<String>) -> (yes: bool)
    ensures
        yes == prefix.deep_view().is_prefix_of(attr_path.deep_view()),
{
    if attr_path.len() < prefix.len() {
        return false;
    }
    let ghost path_view = attr_path.deep_view();
    let ghost prefix_view = prefix.deep_view();
    let mut i: usize = 0;
    while i < prefix.len()
        invariant
            path_view == attr_path.deep_view(),
            prefix_view == prefix.deep_view(),
            i <= prefix@.len() <= attr_path@.len(),
            forall|j: int| 0 <= j < i ==> path_view[j] == #[trigger] prefix_view[j],
        decreases prefix@.len() - i,
    {
        if attr_path[i] != prefix[i] {
            assert(path_view.subrange(0, prefix_view.len() as int)[i as int]
                != prefix_view[i as int]);
            return false;
        }
        i += 1;
    }
    assert(prefix_view =~= path_view.subrange(0, prefix_view.len() as int));
    true
}

fn any_pattern_matches(patterns: &Vec<String>, value: &str) -> (yes: bool)
    ensures
        yes == any_glob(patterns.deep_view(), value@),
{
    let mut i: usize = 0;
    while i < patterns.len()
        invariant
            i <= patterns@.len(),
            forall|j: int| 0 <= j < i ==> !glob(#[trigger] patterns.deep_view()[j], value@),
        decreases patterns@.len() - i,
    {
        if wildcard_matches(patterns[i].as_str(), value) {
            assert(glob(patterns.deep_view()[i as int], value@));
            return true;
        }
        i += 1;
    }
    false
}

fn any_prefix_matches(prefixes: &Vec<Vec<String>>, path: &Vec<String>) -> (yes: bool)
    ensures
        yes == any_prefix(prefixes.deep_view(), path.deep_view()),
{
    let mut i: usize = 0;
    while i < prefixes.len()
        invariant
            i <= prefixes@.len(),
            forall|j: int|
                0 <= j < i ==> !(#[trigger] prefixes.deep_view()[j]).is_prefix_of(path.deep_view()),
        decreases prefixes@.len() - i,
    {
        if attr_path_starts_with(path, &prefixes[i]) {
            assert(prefixes.deep_view()[i as int].is_prefix_of(path.deep_view()));
            return true;
        }
        i += 1;
    }
    false
}

fn contains_path(paths: &Vec<Vec<String>>, path: &Vec<String>) -> (yes: bool)
    ensures
        yes == paths.deep_view().contains(path.deep_view()),
{
    let mut i: usize = 0;
    while i < paths.len()
        invariant
            i <= paths@.len(),
            forall|j: int| 0 <= j < i ==> (#[trigger] paths.deep_view()[j]) != path.deep_view(),
        decreases paths@.len() - i,
    {
        if paths[i].same_as(path) {
            assert(paths.deep_view()[i as int] == path.deep_view());
            return true;
        }
        i += 1;
    }
    false
}

/// Whether a derivation passes a filter.
pub fn matches_filter(drv: &Derivation, filter: &Filter) -> (yes: bool)
    ensures
        yes == passes(drv@, filter@),
{
    let system_matches = match &filter.systems {
        Some(systems) => contains_text(systems, &drv.system),
        None => true,
    };
    let attr_prefix_matches = match &filter.attr_prefix {
        Some(prefix) => attr_path_starts_with(&drv.attr_path, prefix),
        None => true,
    };
    let attr_prefixes_match = match &filter.attr_prefixes {
        Some(prefixes) => any_prefix_matches(prefixes, &drv.attr_path),
        None => true,
    };
    let attrs_match = match &filter.attrs {
        Some(attrs) => contains_path(attrs, &drv.attr_path),
        None => true,
    };
    let names_match = match &filter.names {
        Some(names) => contains_text(names, &drv.name),
        None => true,
    };
    let drv_paths_match = match &filter.drv_paths {
        Some(paths) => contains_text(paths, &drv.drv_path),
        None => true,
    };
    let include_patterns_match = match &filter.include_patterns {
        Some(patterns) => any_pattern_matches(patterns, drv.attr.as_str()),
        None => true,
    };
    let exclude_patterns_match = match &filter.exclude_patterns {
        Some(patterns) => !any_pattern_matches(patterns, drv.attr.as_str()),
        None => true,
    };
    system_matches && attr_prefix_matches && attr_prefixes_match && attrs_match && names_match
        && drv_paths_match && include_patterns_match && exclude_patterns_match
}

proof fn lemma_missing_has(
    other: Map<Seq<Seq<char>>, DerivationView>,
    items: Seq<(Seq<Seq<char>>, DerivationView)>,
    drv: DerivationView,
)
    ensures
        missing_from(other, items).contains(drv) <==> exists|i: int|
            0 <= i < items.len() && (#[trigger] items[i]).1 == drv && !unchanged(
                other,
                items[i].0,
                drv,
            ),
    decreases items.len(),
{
    let all = missing_from(other, items);
    if items.len() > 0 {
        let shorter = items.drop_last();
        let before = missing_from(other, shorter);
        lemma_missing_has(other, shorter, drv);
        if before.contains(drv) {
            let k = choose|k: int| 0 <= k < before.len() && before[k] == drv;
            assert(all[k] == drv);
            let i = choose|i: int|
                0 <= i < shorter.len() && (#[trigger] shorter[i]).1 == drv && !unchanged(
                    other,
                    shorter[i].0,
                    drv,
                );
            assert(items[i].1 == drv);
        }
        if all.contains(drv) && !before.contains(drv) {
            let k = choose|k: int| 0 <= k < all.len() && all[k] == drv;
            if k < before.len() {
                assert(before[k] == drv);
            }
            assert(items[items.len() - 1].1 == drv);
        }
        if exists|i: int|
            0 <= i < items.len() && (#[trigger] items[i]).1 == drv && !unchanged(
                other,
                items[i].0,
                drv,
            ) {
            let i = choose|i: int|
                0 <= i < items.len() && (#[trigger] items[i]).1 == drv && !unchanged(
                    other,
                    items[i].0,
                    drv,
                );
            if i < shorter.len() {
                assert(shorter[i].1 == drv);
            } else {
                assert(all[all.len() - 1] == drv);
            }
        }
    }
}

proof fn lemma_missing_none(
    other: Map<Seq<Seq<char>>, DerivationView>,
    items: Seq<(Seq<Seq<char>>, DerivationView)>,
)
    ensures
        missing_from(other, items).len() == 0 <==> forall|i: int|
            0 <= i < items.len() ==> unchanged(other, (#[trigger] items[i]).0, items[i].1),
    decreases items.len(),
{
    if items.len() > 0 {
        let shorter = items.drop_last();
        lemma_missing_none(other, shorter);
        if missing_from(other, items).len() == 0 {
            assert forall|i: int| 0 <= i < items.len() implies unchanged(
                other,
                (#[trigger] items[i]).0,
                items[i].1,
            ) by {
                if i < shorter.len() {
                    assert(shorter[i] == items[i]);
                }
            }
        }
        if forall|i: int|
            0 <= i < items.len() ==> unchanged(other, (#[trigger] items[i]).0, items[i].1) {
            assert forall|i: int| 0 <= i < shorter.len() implies unchanged(
                other,
                (#[trigger] shorter[i]).0,
                shorter[i].1,
            ) by {
                assert(shorter[i] == items[i]);
            }
            assert(items[items.len() - 1] == items.last());
        }
    }
}

/// A derivation is added exactly when the later graph has it at some path where the earlier graph
/// has nothing or another `.drv` path; and removed the other way round.
pub proof fn law_diff_is_exact(
    previous: Seq<(Seq<Seq<char>>, DerivationView)>,
    current: Seq<(Seq<Seq<char>>, DerivationView)>,
    errors: Seq<EvalErrorView>,
    drv: DerivationView,
)
    requires
        distinct_keys(previous),
        distinct_keys(current),
    ensures
        diff_of(previous, current, errors).added.contains(drv) <==> exists|path: Seq<Seq<char>>|
            #[trigger]
            map_of(current).contains_pair(path, drv) && !unchanged(map_of(previous), path, drv),
        diff_of(previous, current, errors).removed.contains(drv) <==> exists|path: Seq<Seq<char>>|
            #[trigger]
            map_of(previous).contains_pair(path, drv) && !unchanged(map_of(current), path, drv),
{
    lemma_missing_exact(map_of(previous), current, drv);
    lemma_missing_exact(map_of(current), previous, drv);
}

proof fn lemma_missing_exact(
    other: Map<Seq<Seq<char>>, DerivationView>,
    items: Seq<(Seq<Seq<char>>, DerivationView)>,
    drv: DerivationView,
)
    requires
        distinct_keys(items),
    ensures
        missing_from(other, items).contains(drv) <==> exists|path: Seq<Seq<char>>|
            #[trigger]
            map_of(items).contains_pair(path, drv) && !unchanged(other, path, drv),
{
    lemma_missing_has(other, items, drv);
    if missing_from(other, items).contains(drv) {
        let i = choose|i: int|
            0 <= i < items.len() && (#[trigger] items[i]).1 == drv && !unchanged(
                other,
                items[i].0,
                drv,
            );
        lemma_map_of_has(items, i);
        assert(map_of(items).contains_pair(items[i].0, drv));
    }
    if exists|path: Seq<Seq<char>>|
        #[trigger]
        map_of(items).contains_pair(path, drv) && !unchanged(other, path, drv) {
        let path = choose|path: Seq<Seq<char>>|
            #[trigger]
            map_of(items).contains_pair(path, drv) && !unchanged(other, path, drv);
        let i = lemma_map_of_key(items, path);
        assert(items[i].1 == drv);
    }
}

/// A diff is the reverse of the diff the other way: what one adds the other removes.
pub proof fn law_diff_reversed(
    one: Seq<(Seq<Seq<char>>, DerivationView)>,
    two: Seq<(Seq<Seq<char>>, DerivationView)>,
    errors: Seq<EvalErrorView>,
)
    ensures
        diff_of(one, two, errors).added == diff_of(two, one, errors).removed,
        diff_of(one, two, errors).removed == diff_of(two, one, errors).added,
{
}

/// Nothing is added or removed exactly when both graphs have the same paths with the same `.drv`
/// paths.
pub proof fn law_empty_diff(
    previous: Seq<(Seq<Seq<char>>, DerivationView)>,
    current: Seq<(Seq<Seq<char>>, DerivationView)>,
    errors: Seq<EvalErrorView>,
)
    requires
        distinct_keys(previous),
        distinct_keys(current),
    ensures
        ({
            let diff = diff_of(previous, current, errors);
            (diff.added.len() == 0 && diff.removed.len() == 0) <==> (map_of(previous).dom()
                == map_of(current).dom() && forall|path: Seq<Seq<char>>| #[trigger]
                map_of(previous).contains_key(path) ==> map_of(previous)[path].drv_path == map_of(
                    current,
                )[path].drv_path)
        }),
{
    let diff = diff_of(previous, current, errors);
    let old_map = map_of(previous);
    let new_map = map_of(current);
    lemma_missing_none(old_map, current);
    lemma_missing_none(new_map, previous);
    if diff.added.len() == 0 && diff.removed.len() == 0 {
        assert forall|path: Seq<Seq<char>>| #[trigger] old_map.contains_key(path) implies
            new_map.contains_key(path) && old_map[path].drv_path == new_map[path].drv_path by {
            let i = lemma_map_of_key(previous, path);
            assert(unchanged(new_map, previous[i].0, previous[i].1));
        }
        assert forall|path: Seq<Seq<char>>| #[trigger] new_map.contains_key(path) implies
            old_map.contains_key(path) by {
            let i = lemma_map_of_key(current, path);
            assert(unchanged(old_map, current[i].0, current[i].1));
        }
        assert(old_map.dom() =~= new_map.dom());
    }
    if old_map.dom() == new_map.dom() && forall|path: Seq<Seq<char>>| #[trigger]
        old_map.contains_key(path) ==> old_map[path].drv_path == new_map[path].drv_path {
        assert forall|i: int| 0 <= i < previous.len() implies unchanged(
            new_map,
            (#[trigger] previous[i]).0,
            previous[i].1,
        ) by {
            lemma_map_of_has(previous, i);
            assert(old_map.contains_key(previous[i].0));
            assert(new_map.dom().contains(previous[i].0));
        }
        assert forall|i: int| 0 <= i < current.len() implies unchanged(
            old_map,
            (#[trigger] current[i]).0,
            current[i].1,
        ) by {
            lemma_map_of_has(current, i);
            assert(new_map.contains_key(current[i].0));
            assert(old_map.dom().contains(current[i].0));
            assert(old_map.contains_key(current[i].0));
        }
    }
}

/// A derivation whose `.drv` path changed is both removed and added.
pub proof fn law_changed_drv_path_is_removed_and_added(
    previous: Seq<(Seq<Seq<char>>, DerivationView)>,
    current: Seq<(Seq<Seq<char>>, DerivationView)>,
    errors: Seq<EvalErrorView>,
    path: Seq<Seq<char>>,
)
    requires
        distinct_keys(previous),
        distinct_keys(current),
        map_of(previous).contains_key(path),
        map_of(current).contains_key(path),
        map_of(previous)[path].drv_path != map_of(current)[path].drv_path,
    ensures
        diff_of(previous, current, errors).removed.contains(map_of(previous)[path]),
        diff_of(previous, current, errors).added.contains(map_of(current)[path]),
{
    law_diff_is_exact(previous, current, errors, map_of(previous)[path]);
    law_diff_is_exact(previous, current, errors, map_of(current)[path]);
    assert(map_of(previous).contains_pair(path, map_of(previous)[path]));
    assert(map_of(current).contains_pair(path, map_of(current)[path]));
}

/// The last derivation that came for a path.
pub open spec fn last_derivation(events: Seq<EventView>, path: Seq<Seq<char>>) -> Option<
    DerivationView,
>
    decreases events.len(),
{
    if events.len() == 0 {
        None
    } else {
        match events.last() {
            EventView::Derivation(drv) => if drv.attr_path == path {
                Some(drv)
            } else {
                last_derivation(events.drop_last(), path)
            },
            _ => last_derivation(events.drop_last(), path),
        }
    }
}

/// The errors among events, in order.
pub open spec fn errors_among(events: Seq<EventView>) -> Seq<EvalErrorView>
    decreases events.len(),
{
    if events.len() == 0 {
        Seq::empty()
    } else {
        match events.last() {
            EventView::Error(error) => errors_among(events.drop_last()).push(error),
            _ => errors_among(events.drop_last()),
        }
    }
}

/// Recording the events of an evaluation one by one collects, for each path, the last derivation
/// that came for it, and all errors in order.
pub proof fn law_recorded(events: Seq<EventView>)
    ensures
        distinct_keys(recorded_all(events).graph),
        recorded_all(events).errors == errors_among(events),
        forall|path: Seq<Seq<char>>|
            #![trigger map_of(recorded_all(events).graph).contains_key(path)]
            match last_derivation(events, path) {
                Some(drv) => map_of(recorded_all(events).graph).contains_pair(path, drv),
                None => !map_of(recorded_all(events).graph).contains_key(path),
            },
    decreases events.len(),
{
    if events.len() > 0 {
        let before = recorded_all(events.drop_last());
        law_recorded(events.drop_last());
        if let EventView::Derivation(drv) = events.last() {
            lemma_inserted(before.graph, drv.attr_path, drv);
            assert forall|path: Seq<Seq<char>>|
                #![trigger map_of(recorded_all(events).graph).contains_key(path)]
                match last_derivation(events, path) {
                    Some(d) => map_of(recorded_all(events).graph).contains_pair(path, d),
                    None => !map_of(recorded_all(events).graph).contains_key(path),
                } by {
                assert(map_of(before.graph).contains_key(path) || !map_of(
                    before.graph,
                ).contains_key(path));
            }
        }
    }
}

/// The filter without any part accepts every derivation.
pub proof fn law_no_filter_accepts_all(drv: DerivationView)
    ensures
        passes(drv, no_filter()),
{
}

/// Whether a filter has every part of another.
pub open spec fn has_parts_of(narrow: FilterView, wide: FilterView) -> bool {
    &&& wide.systems is Some ==> narrow.systems == wide.systems
    &&& wide.attr_prefix is Some ==> narrow.attr_prefix == wide.attr_prefix
    &&& wide.attr_prefixes is Some ==> narrow.attr_prefixes == wide.attr_prefixes
    &&& wide.attrs is Some ==> narrow.attrs == wide.attrs
    &&& wide.names is Some ==> narrow.names == wide.names
    &&& wide.drv_paths is Some ==> narrow.drv_paths == wide.drv_paths
    &&& wide.include_patterns is Some ==> narrow.include_patterns == wide.include_patterns
    &&& wide.exclude_patterns is Some ==> narrow.exclude_patterns == wide.exclude_patterns
}

/// More parts narrow a filter: what passes them all passes some of them.
pub proof fn law_more_parts_narrow(drv: DerivationView, narrow: FilterView, wide: FilterView)
    requires
        has_parts_of(narrow, wide),
    ensures
        passes(drv, narrow) ==> passes(drv, wide),
{
}

/// The pattern `*` matches every text.
pub proof fn law_star_matches_everything(value: Seq<char>)
    ensures
        glob(seq!['*'], value),
{
    let pattern = seq!['*'];
    assert(pattern.drop_last() =~= Seq::empty());
    assert(glob(pattern.drop_last(), value.take(0)));
}

/// A pattern without `*` and `?` matches itself and nothing else.
pub proof fn law_plain_pattern_matches_itself(pattern: Seq<char>, value: Seq<char>)
    requires
        !pattern.contains('*'),
        !pattern.contains('?'),
    ensures
        glob(pattern, value) <==> pattern == value,
    decreases pattern.len(),
{
    if pattern.len() == 0 {
        assert(value.len() == 0 ==> value =~= pattern);
    } else {
        assert(pattern.contains(pattern[pattern.len() - 1]));
        let shorter = pattern.drop_last();
        assert forall|c: char| shorter.contains(c) implies pattern.contains(c) by {
            let k = choose|k: int| 0 <= k < shorter.len() && shorter[k] == c;
            assert(pattern[k] == c);
        }
        if value.len() > 0 {
            law_plain_pattern_matches_itself(shorter, value.drop_last());
            assert(pattern =~= shorter.push(pattern.last()));
            assert(value =~= value.drop_last().push(value.last()));
        }
    }
}

/// A filter with a list of systems alone accepts the derivations whose system is somewhere in the
/// list; and likewise for names, `.drv` paths and attribute paths.
pub proof fn law_listed_values_pass(
    drv: DerivationView,
    texts: Seq<Seq<char>>,
    paths: Seq<Seq<Seq<char>>>,
)
    ensures
        passes(drv, FilterView { systems: Some(texts), ..no_filter() }) <==> exists|i: int|
            0 <= i < texts.len() && #[trigger] texts[i] == drv.system,
        passes(drv, FilterView { names: Some(texts), ..no_filter() }) <==> exists|i: int|
            0 <= i < texts.len() && #[trigger] texts[i] == drv.name,
        passes(drv, FilterView { drv_paths: Some(texts), ..no_filter() }) <==> exists|i: int|
            0 <= i < texts.len() && #[trigger] texts[i] == drv.drv_path,
        passes(drv, FilterView { attrs: Some(paths), ..no_filter() }) <==> exists|i: int|
            0 <= i < paths.len() && #[trigger] paths[i] == drv.attr_path,
{
}

/// A filter with a prefix alone accepts the derivations whose attribute path begins with it, name by
/// name; one with a list of prefixes, those whose path begins with some of them.
pub proof fn law_prefixes_pass(
    drv: DerivationView,
    prefix: Seq<Seq<char>>,
    prefixes: Seq<Seq<Seq<char>>>,
)
    ensures
        passes(drv, FilterView { attr_prefix: Some(prefix), ..no_filter() }) <==> (prefix.len()
            <= drv.attr_path.len() && forall|k: int|
            0 <= k < prefix.len() ==> #[trigger] prefix[k] == drv.attr_path[k]),
        passes(drv, FilterView { attr_prefixes: Some(prefixes), ..no_filter() }) <==> exists|i: int|
            0 <= i < prefixes.len() && passes(
                drv,
                FilterView { attr_prefix: Some(#[trigger] prefixes[i]), ..no_filter() },
            ),
{
    let path = drv.attr_path;
    if prefix.is_prefix_of(path) {
        assert forall|k: int| 0 <= k < prefix.len() implies #[trigger] prefix[k] == path[k] by {
            assert(prefix[k] == path.subrange(0, prefix.len() as int)[k]);
        }
    }
    if prefix.len() <= path.len() && forall|k: int|
        0 <= k < prefix.len() ==> #[trigger] prefix[k] == path[k] {
        assert(prefix =~= path.subrange(0, prefix.len() as int));
    }
    if any_prefix(prefixes, path) {
        let i = choose|i: int|
            0 <= i < prefixes.len() && (#[trigger] prefixes[i]).is_prefix_of(path);
        assert(passes(drv, FilterView { attr_prefix: Some(prefixes[i]), ..no_filter() }));
    }
}

/// A filter with patterns to keep accepts the derivations whose dotted attribute some pattern
/// matches; one with patterns to drop, those that no pattern matches.
pub proof fn law_patterns_pass(drv: DerivationView, patterns: Seq<Seq<char>>)
    ensures
        passes(drv, FilterView { include_patterns: Some(patterns), ..no_filter() }) <==> exists|
            i: int,
        |
            0 <= i < patterns.len() && glob(#[trigger] patterns[i], drv.attr),
        passes(drv, FilterView { exclude_patterns: Some(patterns), ..no_filter() }) <==> forall|
            i: int,
        |
            0 <= i < patterns.len() ==> !glob(#[trigger] patterns[i], drv.attr),
{
}

/// A filter accepts what each of its parts accepts when it stands alone.
pub proof fn law_parts_pass_together(drv: DerivationView, filter: FilterView)
    ensures
        passes(drv, filter) <==> {
            &&& passes(drv, FilterView { systems: filter.systems, ..no_filter() })
            &&& passes(drv, FilterView { attr_prefix: filter.attr_prefix, ..no_filter() })
            &&& passes(drv, FilterView { attr_prefixes: filter.attr_prefixes, ..no_filter() })
            &&& passes(drv, FilterView { attrs: filter.attrs, ..no_filter() })
            &&& passes(drv, FilterView { names: filter.names, ..no_filter() })
            &&& passes(drv, FilterView { drv_paths: filter.drv_paths, ..no_filter() })
            &&& passes(
                drv,
                FilterView { include_patterns: filter.include_patterns, ..no_filter() },
            )
            &&& passes(
                drv,
                FilterView { exclude_patterns: filter.exclude_patterns, ..no_filter() },
            )
        },
{
}

/// Two patterns one after the other match what can be cut in two so that each matches its part.
pub proof fn law_patterns_concatenate(one: Seq<char>, two: Seq<char>, value: Seq<char>)
    ensures
        glob(one + two, value) <==> exists|k: int|
            0 <= k <= value.len() && glob(one, #[trigger] value.take(k)) && glob(
                two,
                value.skip(k),
            ),
    decreases two.len(),
{
    let n = value.len() as int;
    assert(value.take(n) =~= value);
    if two.len() == 0 {
        assert(one + two =~= one);
        if glob(one, value) {
            assert(glob(one, value.take(n)) && glob(two, value.skip(n)));
        }
        if exists|k: int|
            0 <= k <= value.len() && glob(one, #[trigger] value.take(k)) && glob(
                two,
                value.skip(k),
            ) {
            let k = choose|k: int|
                0 <= k <= value.len() && glob(one, #[trigger] value.take(k)) && glob(
                    two,
                    value.skip(k),
                );
            assert(k == n);
        }
    } else {
        let rest = two.drop_last();
        let whole = one + two;
        assert(whole.drop_last() =~= one + rest);
        assert(whole.last() == two.last());
        if two.last() == '*' {
            if glob(whole, value) {
                let m = choose|m: int|
                    0 <= m <= n && glob(whole.drop_last(), #[trigger] value.take(m));
                law_patterns_concatenate(one, rest, value.take(m));
                let k = choose|k: int|
                    0 <= k <= m && glob(one, #[trigger] value.take(m).take(k)) && glob(
                        rest,
                        value.take(m).skip(k),
                    );
                assert(value.take(m).take(k) =~= value.take(k));
                assert(value.take(m).skip(k) =~= value.skip(k).take(m - k));
                assert(glob(rest, value.skip(k).take(m - k)));
                assert(glob(one, value.take(k)) && glob(two, value.skip(k)));
            }
            if exists|k: int|
                0 <= k <= value.len() && glob(one, #[trigger] value.take(k)) && glob(
                    two,
                    value.skip(k),
                ) {
                let k = choose|k: int|
                    0 <= k <= value.len() && glob(one, #[trigger] value.take(k)) && glob(
                        two,
                        value.skip(k),
                    );
                let tail = value.skip(k);
                let j = choose|j: int| 0 <= j <= tail.len() && glob(rest, #[trigger] tail.take(j));
                law_patterns_concatenate(one, rest, value.take(k + j));
                assert(value.take(k + j).take(k) =~= value.take(k));
                assert(value.take(k + j).skip(k) =~= tail.take(j));
                assert(glob(one, value.take(k + j).take(k)));
                assert(glob(whole.drop_last(), value.take(k + j)));
            }
        } else {
            if glob(whole, value) {
                let shorter = value.drop_last();
                law_patterns_concatenate(one, rest, shorter);
                let k = choose|k: int|
                    0 <= k <= shorter.len() && glob(one, #[trigger] shorter.take(k)) && glob(
                        rest,
                        shorter.skip(k),
                    );
                assert(shorter.take(k) =~= value.take(k));
                assert(shorter.skip(k) =~= value.skip(k).drop_last());
                assert(glob(one, value.take(k)) && glob(two, value.skip(k)));
            }
            if exists|k: int|
                0 <= k <= value.len() && glob(one, #[trigger] value.take(k)) && glob(
                    two,
                    value.skip(k),
                ) {
                let k = choose|k: int|
                    0 <= k <= value.len() && glob(one, #[trigger] value.take(k)) && glob(
                        two,
                        value.skip(k),
                    );
                let shorter = value.drop_last();
                assert(value.skip(k).len() > 0);
                law_patterns_concatenate(one, rest, shorter);
                assert(shorter.take(k) =~= value.take(k));
                assert(shorter.skip(k) =~= value.skip(k).drop_last());
                assert(glob(one, shorter.take(k)));
            }
        }
    }
}

/// The pattern `?` matches each single character and nothing else; the empty pattern matches the
/// empty text and nothing else.
pub proof fn law_question_mark_matches_one(value: Seq<char>)
    ensures
        glob(seq!['?'], value) <==> value.len() == 1,
        glob(Seq::empty(), value) <==> value.len() == 0,
{
    assert(seq!['?'].drop_last() =~= Seq::empty());
    if value.len() > 0 {
        assert(glob(seq!['?'].drop_last(), value.drop_last()) <==> value.drop_last().len() == 0);
    }
}

/// A derivation is added exactly when the later graph has it at a path where the earlier graph has
/// no derivation, or one with another `.drv` path; removed the other way round. The errors are those
/// of the later evaluation.
pub proof fn law_diff_compares_drv_paths(
    previous: Seq<(Seq<Seq<char>>, DerivationView)>,
    current: Seq<(Seq<Seq<char>>, DerivationView)>,
    errors: Seq<EvalErrorView>,
    drv: DerivationView,
)
    requires
        distinct_keys(previous),
        distinct_keys(current),
    ensures
        diff_of(previous, current, errors).errors == errors,
        diff_of(previous, current, errors).added.contains(drv) <==> exists|path: Seq<Seq<char>>|
            #[trigger]
            map_of(current).contains_pair(path, drv) && (map_of(previous).contains_key(path)
                ==> map_of(previous)[path].drv_path != drv.drv_path),
        diff_of(previous, current, errors).removed.contains(drv) <==> exists|path: Seq<Seq<char>>|
            #[trigger]
            map_of(previous).contains_pair(path, drv) && (map_of(current).contains_key(path)
                ==> map_of(current)[path].drv_path != drv.drv_path),
{
    law_diff_is_exact(previous, current, errors, drv);
    let diff = diff_of(previous, current, errors);
    if diff.added.contains(drv) {
        let path = choose|path: Seq<Seq<char>>| #[trigger]
            map_of(current).contains_pair(path, drv) && !unchanged(map_of(previous), path, drv);
        assert(map_of(current).contains_pair(path, drv));
    }
    if exists|path: Seq<Seq<char>>| #[trigger]
        map_of(current).contains_pair(path, drv) && (map_of(previous).contains_key(path)
            ==> map_of(previous)[path].drv_path != drv.drv_path) {
        let path = choose|path: Seq<Seq<char>>| #[trigger]
            map_of(current).contains_pair(path, drv) && (map_of(previous).contains_key(path)
                ==> map_of(previous)[path].drv_path != drv.drv_path);
        assert(map_of(current).contains_pair(path, drv) && !unchanged(
            map_of(previous),
            path,
            drv,
        ));
    }
    if diff.removed.contains(drv) {
        let path = choose|path: Seq<Seq<char>>| #[trigger]
            map_of(previous).contains_pair(path, drv) && !unchanged(map_of(current), path, drv);
        assert(map_of(previous).contains_pair(path, drv));
    }
    if exists|path: Seq<Seq<char>>| #[trigger]
        map_of(previous).contains_pair(path, drv) && (map_of(current).contains_key(path)
            ==> map_of(current)[path].drv_path != drv.drv_path) {
        let path = choose|path: Seq<Seq<char>>| #[trigger]
            map_of(previous).contains_pair(path, drv) && (map_of(current).contains_key(path)
                ==> map_of(current)[path].drv_path != drv.drv_path);
        assert(map_of(previous).contains_pair(path, drv) && !unchanged(
            map_of(current),
            path,
            drv,
        ));
    }
}

/// What a graph misses of two lists is what it misses of the one and then what it misses of the
/// other; a single derivation is missing once, unless the graph has its `.drv` path at its path.
pub proof fn law_missing_derivations_keep_their_order(
    other: Map<Seq<Seq<char>>, DerivationView>,
    one: Seq<(Seq<Seq<char>>, DerivationView)>,
    two: Seq<(Seq<Seq<char>>, DerivationView)>,
    path: Seq<Seq<char>>,
    drv: DerivationView,
)
    ensures
        missing_from(other, one + two) == missing_from(other, one) + missing_from(other, two),
        missing_from(other, seq![(path, drv)]) == (if other.contains_key(path)
            && other[path].drv_path == drv.drv_path {
            Seq::empty()
        } else {
            seq![drv]
        }),
        missing_from(other, Seq::empty()) == Seq::<DerivationView>::empty(),
    decreases two.len(),
{
    let single = seq![(path, drv)];
    assert(single.drop_last() =~= Seq::empty());
    assert(missing_from(other, single.drop_last()) =~= Seq::empty());
    assert(Seq::<DerivationView>::empty().push(drv) =~= seq![drv]);
    if two.len() == 0 {
        assert(one + two =~= one);
        assert(missing_from(other, one) + missing_from(other, two) =~= missing_from(other, one));
    } else {
        law_missing_derivations_keep_their_order(other, one, two.drop_last(), path, drv);
        assert((one + two).drop_last() =~= one + two.drop_last());
        assert(missing_from(other, one + two) =~= missing_from(other, one) + missing_from(
            other,
            two,
        ));
    }
}

/// A diff lists the added derivations in the order of the later graph and the removed ones in that
/// of the earlier graph.
pub proof fn law_diff_lists_both_sides(
    previous: Seq<(Seq<Seq<char>>, DerivationView)>,
    current: Seq<(Seq<Seq<char>>, DerivationView)>,
    errors: Seq<EvalErrorView>,
)
    ensures
        diff_of(previous, current, errors).added == missing_from(map_of(previous), current),
        diff_of(previous, current, errors).removed == missing_from(map_of(current), previous),
{
}

/// A recorded derivation stands at its path in the graph and leaves every other path as it was; a
/// recorded error comes behind the others; an expanded attrset changes nothing.
pub proof fn law_recording(acc: EvalAccumulatorView, event: EventView, path: Seq<Seq<char>>)
    requires
        distinct_keys(acc.graph),
    ensures
        ({
            let after = recorded(acc, event);
            match event {
                EventView::Derivation(drv) => {
                    &&& after.errors == acc.errors
                    &&& distinct_keys(after.graph)
                    &&& map_of(after.graph).contains_pair(drv.attr_path, drv)
                    &&& path != drv.attr_path ==> map_of(after.graph).contains_key(path) == map_of(
                        acc.graph,
                    ).contains_key(path)
                    &&& path != drv.attr_path && map_of(acc.graph).contains_key(path) ==> map_of(
                        after.graph,
                    )[path] == map_of(acc.graph)[path]
                },
                EventView::Error(error) => {
                    &&& after.graph == acc.graph
                    &&& after.errors.len() == acc.errors.len() + 1
                    &&& after.errors.last() == error
                    &&& after.errors.drop_last() == acc.errors
                },
                EventView::AttrSet { .. } => after == acc,
            }
        }),
{
    match event {
        EventView::Derivation(drv) => {
            lemma_inserted(acc.graph, drv.attr_path, drv);
        },
        EventView::Error(error) => {
            assert(acc.errors.push(error).drop_last() =~= acc.errors);
        },
        _ => {},
    }
}

/// Recording more events starts from what was recorded before.
pub proof fn law_recording_goes_on(events: Seq<EventView>, event: EventView)
    ensures
        recorded_all(events.push(event)) == recorded(recorded_all(events), event),
        recorded_all(Seq::empty()).graph.len() == 0,
        recorded_all(Seq::empty()).errors.len() == 0,
{
    assert(events.push(event).drop_last() =~= events);
}

/// The last derivation of a path is one of the events, and none after it is of that path; where
/// there is none, no event is a derivation of the path.
pub proof fn law_last_derivation(events: Seq<EventView>, path: Seq<Seq<char>>, i: int)
    ensures
        0 <= i < events.len() && events[i] is Derivation && events[i]->Derivation_0.attr_path == path
            && (forall|j: int|
            i < j < events.len() && (#[trigger] events[j]) is Derivation
                ==> events[j]->Derivation_0.attr_path != path) ==> last_derivation(events, path)
            == Some(events[i]->Derivation_0),
        (forall|j: int|
            0 <= j < events.len() && (#[trigger] events[j]) is Derivation
                ==> events[j]->Derivation_0.attr_path != path) ==> last_derivation(
            events,
            path,
        ) is None,
    decreases events.len(),
{
    if events.len() > 0 {
        let shorter = events.drop_last();
        law_last_derivation(shorter, path, i);
        assert(events[events.len() - 1] == events.last());
        assert forall|j: int| 0 <= j < shorter.len() implies (#[trigger] shorter[j])
            == events[j] by {}
        if 0 <= i < events.len() && events[i] is Derivation && events[i]->Derivation_0.attr_path
            == path && (forall|j: int|
            i < j < events.len() && (#[trigger] events[j]) is Derivation
                ==> events[j]->Derivation_0.attr_path != path) {
            if i < shorter.len() {
                assert forall|j: int|
                    i < j < shorter.len() && (#[trigger] shorter[j]) is Derivation implies
                    shorter[j]->Derivation_0.attr_path != path by {
                    assert(events[j] is Derivation);
                }
                assert(shorter[i] == events[i]);
            }
        }
        if forall|j: int|
            0 <= j < events.len() && (#[trigger] events[j]) is Derivation
                ==> events[j]->Derivation_0.attr_path != path {
            assert forall|j: int|
                0 <= j < shorter.len() && (#[trigger] shorter[j]) is Derivation implies
                shorter[j]->Derivation_0.attr_path != path by {
                assert(events[j] is Derivation);
            }
        }
    }
}

/// The errors among events come in order: those of two lists are those of the one and then those of
/// the other.
pub proof fn law_errors_keep_their_order(
    one: Seq<EventView>,
    two: Seq<EventView>,
    event: EventView,
)
    ensures
        errors_among(one + two) == errors_among(one) + errors_among(two),
        event is Error ==> errors_among(seq![event]) == seq![event->Error_0],
        event !is Error ==> errors_among(seq![event]).len() == 0,
    decreases two.len(),
{
    let single = seq![event];
    assert(single.drop_last() =~= Seq::empty());
    assert(errors_among(single.drop_last()) =~= Seq::empty());
    if event is Error {
        assert(Seq::<EvalErrorView>::empty().push(event->Error_0) =~= seq![event->Error_0]);
    }
    if two.len() == 0 {
        assert(one + two =~= one);
        assert(errors_among(one) + errors_among(two) =~= errors_among(one));
    } else {
        law_errors_keep_their_order(one, two.drop_last(), event);
        assert((one + two).drop_last() =~= one + two.drop_last());
        assert(errors_among(one + two) =~= errors_among(one) + errors_among(two));
    }
}

/// A session starts without a graph, without errors and not completed.
pub proof fn law_cold_state_is_empty()
    ensures
        cold().graph.len() == 0,
        cold().errors.len() == 0,
        !cold().completed,
        cold().error is None,
        nothing_recorded().graph.len() == 0,
        nothing_recorded().errors.len() == 0,
{
}

} // verus!
