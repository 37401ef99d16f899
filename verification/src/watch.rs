//! Watching the inputs of an evaluation: which paths there are to watch, and what follows from a
//! change.
//!
//! Subscribing to paths and reading the lock file is the caller's part.

use vstd::prelude::*;
use vstd::string::*;

use crate::json::{field, field_of, text_of};
use crate::json_value::{json_read, read_json, Json, JsonView};
use crate::key_order::{at_places, in_key_order, is_listing, lemma_listing, listing};
use crate::paths::{join_path, joined_path, sort_and_dedup, sorted_paths};
use crate::text::{chars_of, halves, law_halves, same, split_once, starts_with, text_between};
use crate::types::{Config, Input, InputView};

verus! {

broadcast use vstd::string::group_string_axioms;

/// A flake reference without the fragment that selects one of its outputs, and without the scheme
/// of local paths.
pub open spec fn flake_path(reference: Seq<char>) -> Seq<char> {
    let without_fragment = match halves(reference, '#') {
        Some((before, _)) => before,
        None => reference,
    };
    if "path:"@.is_prefix_of(without_fragment) {
        without_fragment.skip(5)
    } else {
        without_fragment
    }
}

/// The directory of a local flake: a reference that begins with neither a dot nor a slash is not
/// local.
pub open spec fn flake_root(reference: Seq<char>) -> Option<Seq<char>> {
    let path = flake_path(reference);
    if path.len() == 0 {
        Some("."@)
    } else if path == "."@ || path == ".."@ || "/"@.is_prefix_of(path) || "./"@.is_prefix_of(path) {
        Some(path)
    } else {
        None
    }
}

/// The directory of a local flake.
pub fn local_flake_root(reference: &str) -> (root: Option<String>)
    ensures
        root.deep_view() == flake_root(reference@),
{
    let without_fragment = match split_once(reference, '#') {
        Some((before, _)) => before,
        None => reference.to_owned(),
    };
    let chars = chars_of(without_fragment.as_str());
    let path = if starts_with(without_fragment.as_str(), "path:") {
        proof {
            reveal_strlit("path:");
            assert(chars@.subrange(5, chars@.len() as int) =~= chars@.skip(5));
        }
        text_between(&chars, 5, chars.len())
    } else {
        without_fragment
    };
    proof {
        reveal_strlit("");
        assert(path@.len() == 0 ==> path@ =~= ""@);
    }
    if same(path.as_str(), "") {
        return Some(".".to_owned());
    }
    if same(path.as_str(), ".") || same(path.as_str(), "..") || starts_with(path.as_str(), "/")
        || starts_with(path.as_str(), "./") {
        return Some(path);
    }
    None
}

/// Why the paths to watch are not known.
#[derive(Debug)]
pub enum WatchError {
    /// A flake reference does not name a local directory.
    NotLocal(String),
    /// The lock file is not JSON; why.
    BadLock(String),
}

pub enum WatchErrorView {
    NotLocal(Seq<char>),
    BadLock(Seq<char>),
}

impl View for WatchError {
    type V = WatchErrorView;

    open spec fn view(&self) -> WatchErrorView {
        match self {
            WatchError::NotLocal(reference) => WatchErrorView::NotLocal(reference@),
            WatchError::BadLock(cause) => WatchErrorView::BadLock(cause@),
        }
    }
}

impl WatchErrorView {
    /// The error in words.
    pub open spec fn message(self) -> Seq<char> {
        match self {
            WatchErrorView::NotLocal(reference) => "flake reference is not a local path: "@
                + reference,
            WatchErrorView::BadLock(_) => "parsing flake.lock"@,
        }
    }

    /// What is behind the error, where it is not the first cause itself.
    pub open spec fn cause(self) -> Option<Seq<char>> {
        match self {
            WatchErrorView::NotLocal(_) => None,
            WatchErrorView::BadLock(cause) => Some(cause),
        }
    }
}

impl WatchError {
    /// The error in words.
    pub fn message(&self) -> (text: String)
        ensures
            text@ == self@.message(),
    {
        match self {
            WatchError::NotLocal(reference) => {
                "flake reference is not a local path: ".to_owned().concat(reference.as_str())
            },
            WatchError::BadLock(_) => "parsing flake.lock".to_owned(),
        }
    }

    /// What is behind the error, where it is not the first cause itself.
    pub fn cause(&self) -> (cause: Option<String>)
        ensures
            cause.deep_view() == self@.cause(),
    {
        match self {
            WatchError::NotLocal(_) => None,
            WatchError::BadLock(cause) => Some(cause.clone()),
        }
    }
}

/// The path of a flake's lock file.
pub fn lock_path(root: &str) -> (path: String)
    ensures
        path@ == joined_path(root@, "flake.lock"@),
{
    join_path(root, "flake.lock")
}

/// The path that a node of a lock file is locked to, where it is a local path.
pub open spec fn locked_path(node: JsonView) -> Option<Seq<char>> {
    match field_of(node, "locked"@) {
        None => None,
        Some(locked) => if field_of(locked, "type"@) == Some(JsonView::Text("path"@)) {
            match field_of(locked, "path"@) {
                Some(path) => text_of(path),
                None => None,
            }
        } else {
            None
        },
    }
}

/// The nodes of a lock file.
pub open spec fn lock_nodes(lock: JsonView) -> Map<Seq<char>, JsonView> {
    match field_of(lock, "nodes"@) {
        Some(JsonView::Object(nodes)) => nodes,
        _ => Map::empty(),
    }
}

/// The local paths that nodes are locked to, one after another, resolved against the flake's
/// directory.
pub open spec fn inputs_of(root: Seq<char>, nodes: Seq<(Seq<char>, JsonView)>) -> Seq<Seq<char>>
    decreases nodes.len(),
{
    if nodes.len() == 0 {
        Seq::empty()
    } else {
        let before = inputs_of(root, nodes.drop_last());
        match locked_path(nodes.last().1) {
            Some(path) => before.push(joined_path(root, path)),
            None => before,
        }
    }
}

/// The local inputs of a flake, in the order of their nodes' names; a flake without a lock file has
/// none.
pub open spec fn local_inputs(root: Seq<char>, contents: Option<Seq<char>>) -> Result<
    Seq<Seq<char>>,
    WatchErrorView,
> {
    match contents {
        None => Ok(Seq::empty()),
        Some(text) => match json_read(text) {
            Ok(lock) => Ok(inputs_of(root, listing(lock_nodes(lock)))),
            Err(cause) => Err(WatchErrorView::BadLock(cause)),
        },
    }
}

fn find_locked_path(node: &Json) -> (path: Option<String>)
    ensures
        path.deep_view() == locked_path(node@),
{
    let locked = match field(node, "locked") {
        Some(locked) => locked,
        None => return None,
    };
    let is_path = match field(locked, "type") {
        Some(Json::Text(kind)) => same(kind.as_str(), "path"),
        _ => false,
    };
    if !is_path {
        return None;
    }
    match field(locked, "path") {
        Some(Json::Text(path)) => Some(path.clone()),
        _ => None,
    }
}

/// The local inputs of a lock file, in the order of their nodes' names, resolved against the
/// flake's directory.
pub fn lock_inputs(root: &str, lock: &Json) -> (paths: Vec<String>)
    ensures
        paths.deep_view() == inputs_of(root@, listing(lock_nodes(lock@))),
{
    let mut paths: Vec<String> = Vec::new();
    assert(paths.deep_view() =~= Seq::<Seq<char>>::empty());
    let entries = match field(lock, "nodes") {
        Some(Json::Object(entries)) => entries,
        _ => {
            proof {
                lemma_listing(Seq::<(Seq<char>, JsonView)>::empty(), Map::empty());
            }
            return paths;
        },
    };
    let ghost all = entries.deep_view();
    proof {
        Json::lemma_object(*entries);
    }
    let places = in_key_order(entries);
    let ghost listed = at_places(all, places@);
    let mut k: usize = 0;
    while k < places.len()
        invariant
            all == entries.deep_view(),
            listed == at_places(all, places@),
            forall|j: int| 0 <= j < places@.len() ==> (#[trigger] places@[j]) < entries@.len(),
            k <= places@.len(),
            paths.deep_view() == inputs_of(root@, listed.take(k as int)),
        decreases places@.len() - k,
    {
        let entry = &entries[places[k]];
        proof {
            assert(listed[k as int] == all[places@[k as int] as int]);
            assert(all[places@[k as int] as int] == entry.deep_view());
            assert(listed.take(k + 1).drop_last() =~= listed.take(k as int));
        }
        if let Some(path) = find_locked_path(&entry.1) {
            let ghost before = paths.deep_view();
            let joined = join_path(root, path.as_str());
            paths.push(joined);
            assert(paths.deep_view() =~= before.push(joined@));
        }
        k += 1;
    }
    assert(listed.take(listed.len() as int) =~= listed);
    paths
}

/// The local inputs of a flake, where it has a lock file.
pub fn local_path_inputs(root: &str, contents: &Option<String>) -> (result: Result<
    Vec<String>,
    WatchError,
>)
    ensures
        match result {
            Ok(paths) => local_inputs(root@, contents.deep_view()) == Ok::<_, WatchErrorView>(
                paths.deep_view(),
            ),
            Err(error) => local_inputs(root@, contents.deep_view()) == Err::<Seq<Seq<char>>, _>(
                error@,
            ),
        },
{
    match contents {
        None => {
            let paths: Vec<String> = Vec::new();
            assert(paths.deep_view() =~= Seq::<Seq<char>>::empty());
            Ok(paths)
        },
        Some(text) => match read_json(text.as_str()) {
            Ok(lock) => Ok(lock_inputs(root, &lock)),
            Err(cause) => Err(WatchError::BadLock(cause)),
        },
    }
}

/// A flake's directory and after it the flake's local inputs.
pub open spec fn flake_paths(reference: Seq<char>, contents: Option<Seq<char>>) -> Result<
    Seq<Seq<char>>,
    WatchErrorView,
> {
    match flake_root(reference) {
        None => Err(WatchErrorView::NotLocal(reference)),
        Some(root) => match local_inputs(root, contents) {
            Ok(inputs) => Ok(seq![root] + inputs),
            Err(error) => Err(error),
        },
    }
}

/// The paths to watch for a flake: its directory and its local inputs, in order, none of them twice,
/// and each as it was spelled first, the directory before the inputs.
pub fn watched_flake_paths(reference: &str, contents: &Option<String>) -> (result: Result<
    Vec<String>,
    WatchError,
>)
    ensures
        match (flake_paths(reference@, contents.deep_view()), result) {
            (Ok(all), Ok(paths)) => sorted_paths(paths.deep_view(), all),
            (Err(expected), Err(error)) => error@ == expected,
            _ => false,
        },
{
    let root = match local_flake_root(reference) {
        Some(root) => root,
        None => return Err(WatchError::NotLocal(reference.to_owned())),
    };
    let mut paths: Vec<String> = Vec::new();
    paths.push(root.clone());
    let mut inputs = match local_path_inputs(root.as_str(), contents) {
        Ok(inputs) => inputs,
        Err(error) => return Err(error),
    };
    let ghost listed = inputs.deep_view();
    paths.append(&mut inputs);
    assert(paths.deep_view() =~= seq![root@] + listed);
    Ok(sort_and_dedup(&paths))
}

/// The paths to watch for an input. `contents` is the lock file of a local flake, where it has
/// one.
pub fn watched_paths(config: &Config, contents: &Option<String>) -> (result: Result<
    Vec<String>,
    WatchError,
>)
    ensures
        match config@.input {
            InputView::File(path) => result is Ok && result->Ok_0.deep_view() == seq![path],
            InputView::Expr(_) => result is Ok && result->Ok_0@.len() == 0,
            InputView::Flake(reference) => match (
                flake_paths(reference, contents.deep_view()),
                result,
            ) {
                (Ok(all), Ok(paths)) => sorted_paths(paths.deep_view(), all),
                (Err(expected), Err(error)) => error@ == expected,
                _ => false,
            },
        },
{
    match &config.input {
        Input::File(path) => {
            let mut paths: Vec<String> = Vec::new();
            paths.push(path.clone());
            assert(paths.deep_view() =~= seq![path@]);
            Ok(paths)
        },
        Input::Expr(_) => Ok(Vec::new()),
        Input::Flake(reference) => watched_flake_paths(reference.as_str(), contents),
    }
}

/// What came of waiting for a change.
pub enum WatchSignal {
    /// Some path changed.
    Changed,
    /// Watching a path failed.
    Failed(String),
    /// Nobody watches any more.
    Disconnected,
    /// Nothing happened.
    Quiet,
}

/// What there is to do while watching.
pub enum WatchStep {
    /// Evaluate again and report what changed.
    Reevaluate,
    /// Report an error and go on.
    Report(String),
    /// End with an error.
    Fail(String),
    /// Go on.
    Wait,
}

/// What there is to do after waiting for a change.
pub fn watch_step(signal: WatchSignal) -> (step: WatchStep)
    ensures
        match (signal, step) {
            (WatchSignal::Changed, WatchStep::Reevaluate) => true,
            (WatchSignal::Failed(error), WatchStep::Report(message)) => message@
                == "filesystem watch error: "@ + error@,
            (WatchSignal::Disconnected, WatchStep::Fail(message)) => message@
                == "filesystem watcher disconnected"@,
            (WatchSignal::Quiet, WatchStep::Wait) => true,
            _ => false,
        },
{
    match signal {
        WatchSignal::Changed => WatchStep::Reevaluate,
        WatchSignal::Failed(error) => WatchStep::Report(
            "filesystem watch error: ".to_owned().concat(error.as_str()),
        ),
        WatchSignal::Disconnected => WatchStep::Fail("filesystem watcher disconnected".to_owned()),
        WatchSignal::Quiet => WatchStep::Wait,
    }
}

/// A flake that is not local has no paths to watch: its reference is refused.
pub proof fn law_remote_flakes_are_not_watched(scheme: Seq<char>, rest: Seq<char>)
    requires
        scheme.len() > 0,
        !scheme.contains('#'),
        scheme[0] != '.',
        scheme[0] != '/',
        !("path:"@.is_prefix_of(scheme + rest)),
    ensures
        flake_root(scheme + rest) is None,
{
    let reference = scheme + rest;
    let before = match halves(reference, '#') {
        Some((before, _)) => before,
        None => reference,
    };
    reference.index_of_first_ensures('#');
    assert(before.len() > 0 && before[0] == scheme[0]) by {
        if let Some(i) = reference.index_of_first('#') {
            if i < scheme.len() {
                assert(scheme[i] == '#');
            }
        }
    }
    reveal_strlit("path:");
    reveal_strlit(".");
    reveal_strlit("..");
    reveal_strlit("/");
    reveal_strlit("./");
    if "path:"@.is_prefix_of(before) {
        assert("path:"@ =~= reference.subrange(0, 5)) by {
            assert forall|i: int| 0 <= i < 5 implies "path:"@[i] == reference[i] by {
                assert("path:"@[i] == before.subrange(0, 5)[i]);
            }
        }
    }
    assert(flake_path(reference) == before);
    if "/"@.is_prefix_of(before) {
        assert("/"@[0] == before.subrange(0, 1)[0]);
    }
    if "./"@.is_prefix_of(before) {
        assert("./"@[0] == before.subrange(0, 2)[0]);
    }
}

/// The directory of a local flake is what its reference holds, without a fragment and without the
/// scheme of local paths; where that is empty, the current directory. References that begin with
/// neither a slash nor a dot are not local, nor are relative ones above the current directory.
pub proof fn law_flake_roots(path: Seq<char>, fragment: Seq<char>)
    requires
        !path.contains('#'),
        !("path:"@.is_prefix_of(path)),
    ensures
        flake_root(path.push('#') + fragment) == flake_root(path),
        flake_root("path:"@ + path) == flake_root(path),
        path.len() == 0 ==> flake_root(path) == Some("."@),
        path.len() > 0 && path[0] == '/' ==> flake_root(path) == Some(path),
        path.len() > 1 && path[0] == '.' && path[1] == '/' ==> flake_root(path) == Some(path),
        path == "."@ || path == ".."@ ==> flake_root(path) == Some(path),
        path.len() > 0 && path[0] != '/' && path[0] != '.' ==> flake_root(path) is None,
        path.len() > 1 && path[0] == '.' && path[1] != '/' && path != ".."@ ==> flake_root(
            path,
        ) is None,
{
    reveal_strlit("path:");
    reveal_strlit(".");
    reveal_strlit("..");
    reveal_strlit("/");
    reveal_strlit("./");
    law_halves(path, '#', fragment);
    let schemed = "path:"@ + path;
    assert(!schemed.contains('#')) by {
        if schemed.contains('#') {
            let k = choose|k: int| 0 <= k < schemed.len() && schemed[k] == '#';
            if k >= 5 {
                assert(path[k - 5] == '#');
            }
        }
    }
    law_halves(schemed, '#', fragment);
    assert("path:"@ =~= schemed.subrange(0, 5));
    assert(schemed.skip(5) =~= path);
    assert(flake_path(path) == path);
    assert(flake_path(schemed) == path);
    if path.len() > 0 && path[0] == '/' {
        assert("/"@ =~= path.subrange(0, 1));
    }
    if path.len() > 1 && path[0] == '.' && path[1] == '/' {
        assert("./"@ =~= path.subrange(0, 2));
    }
    if "/"@.is_prefix_of(path) {
        assert("/"@[0] == path.subrange(0, 1)[0]);
    }
    if "./"@.is_prefix_of(path) {
        assert("./"@[0] == path.subrange(0, 2)[0]);
        assert("./"@[1] == path.subrange(0, 2)[1]);
    }
}

/// A node of a lock file is a local input where it is locked to a path, and then to that path.
pub proof fn law_locked_paths(node: JsonView, locked: JsonView, path: Seq<char>)
    requires
        field_of(node, "locked"@) == Some(locked),
    ensures
        locked_path(node) == Some(path) <==> field_of(locked, "type"@) == Some(
            JsonView::Text("path"@),
        ) && field_of(locked, "path"@) == Some(JsonView::Text(path)),
{
}

/// A node that is not locked is no local input.
pub proof fn law_unlocked_nodes(node: JsonView)
    requires
        field_of(node, "locked"@) is None,
    ensures
        locked_path(node) is None,
{
}

/// A lock file has the nodes that its `nodes` names; where that is missing, or no object, it has none.
pub proof fn law_lock_nodes(lock: JsonView, name: Seq<char>)
    ensures
        lock_nodes(lock).contains_key(name) <==> {
            let nodes = field_of(lock, "nodes"@);
            nodes is Some && field_of(nodes->0, name) is Some
        },
        lock_nodes(lock).contains_key(name) ==> field_of(
            field_of(lock, "nodes"@)->0,
            name,
        ) == Some(lock_nodes(lock)[name]),
{
}

/// The local inputs come in the order of the nodes: those of two lists are those of the one and then
/// those of the other. A node that is locked to a path gives that path, seen from the flake's
/// directory; any other gives none.
pub proof fn law_inputs_keep_their_order(
    root: Seq<char>,
    one: Seq<(Seq<char>, JsonView)>,
    two: Seq<(Seq<char>, JsonView)>,
    name: Seq<char>,
    node: JsonView,
)
    ensures
        inputs_of(root, one + two) == inputs_of(root, one) + inputs_of(root, two),
        inputs_of(root, Seq::empty()).len() == 0,
        locked_path(node) is None ==> inputs_of(root, seq![(name, node)]).len() == 0,
        locked_path(node) is Some ==> inputs_of(root, seq![(name, node)]) == seq![
            joined_path(root, locked_path(node)->0),
        ],
    decreases two.len(),
{
    let single = seq![(name, node)];
    assert(single.drop_last() =~= Seq::empty());
    assert(inputs_of(root, single.drop_last()) =~= Seq::empty());
    if locked_path(node) is Some {
        let path = joined_path(root, locked_path(node)->0);
        assert(Seq::<Seq<char>>::empty().push(path) =~= seq![path]);
    }
    if two.len() == 0 {
        assert(one + two =~= one);
        assert(inputs_of(root, one) + inputs_of(root, two) =~= inputs_of(root, one));
    } else {
        law_inputs_keep_their_order(root, one, two.drop_last(), name, node);
        assert((one + two).drop_last() =~= one + two.drop_last());
        assert(inputs_of(root, one + two) =~= inputs_of(root, one) + inputs_of(root, two));
    }
}

proof fn lemma_input_of_node(root: Seq<char>, nodes: Seq<(Seq<char>, JsonView)>, i: int)
    requires
        0 <= i < nodes.len(),
        locked_path(nodes[i].1) is Some,
    ensures
        inputs_of(root, nodes).contains(joined_path(root, locked_path(nodes[i].1)->0)),
    decreases nodes.len(),
{
    let wanted = joined_path(root, locked_path(nodes[i].1)->0);
    let all = inputs_of(root, nodes);
    if i == nodes.len() - 1 {
        assert(all[all.len() - 1] == wanted);
    } else {
        lemma_input_of_node(root, nodes.drop_last(), i);
        let before = inputs_of(root, nodes.drop_last());
        let k = choose|k: int| 0 <= k < before.len() && before[k] == wanted;
        assert(all[k] == wanted);
    }
}

/// Every node of a lock file that is locked to a path is watched with its flake, and so is the
/// flake's own directory.
pub proof fn law_local_inputs_are_watched(
    reference: Seq<char>,
    text: Seq<char>,
    nodes: Map<Seq<char>, JsonView>,
    entries: Seq<(Seq<char>, JsonView)>,
    i: int,
)
    requires
        flake_root(reference) is Some,
        json_read(text) is Ok,
        field_of(json_read(text)->Ok_0, "nodes"@) == Some(JsonView::Object(nodes)),
        is_listing(entries, nodes),
        0 <= i < entries.len(),
        locked_path(entries[i].1) is Some,
    ensures
        flake_paths(reference, Some(text)) is Ok,
        flake_paths(reference, Some(text))->Ok_0[0] == flake_root(reference)->0,
        flake_paths(reference, Some(text))->Ok_0.contains(
            joined_path(flake_root(reference)->0, locked_path(entries[i].1)->0),
        ),
{
    let root = flake_root(reference)->0;
    let wanted = joined_path(root, locked_path(entries[i].1)->0);
    lemma_listing(entries, nodes);
    lemma_input_of_node(root, entries, i);
    let inputs = inputs_of(root, entries);
    let k = choose|k: int| 0 <= k < inputs.len() && inputs[k] == wanted;
    assert(flake_paths(reference, Some(text))->Ok_0[k + 1] == wanted);
}

/// Without a lock file only the flake's directory is watched; with one that is no JSON the paths are
/// not known, and why is told; a flake that is not local has none.
pub proof fn law_flakes_without_inputs(reference: Seq<char>, text: Seq<char>)
    ensures
        flake_root(reference) is Some ==> flake_paths(reference, None) == Ok::<_, WatchErrorView>(
            seq![flake_root(reference)->0],
        ),
        flake_root(reference) is Some && json_read(text) is Err ==> flake_paths(
            reference,
            Some(text),
        ) == Err::<Seq<Seq<char>>, _>(WatchErrorView::BadLock(json_read(text)->Err_0)),
        flake_root(reference) is None ==> flake_paths(reference, Some(text)) == Err::<
            Seq<Seq<char>>,
            _,
        >(WatchErrorView::NotLocal(reference)),
        flake_root(reference) is None ==> flake_paths(reference, None) == Err::<
            Seq<Seq<char>>,
            _,
        >(WatchErrorView::NotLocal(reference)),
{
    if let Some(root) = flake_root(reference) {
        assert(seq![root] + Seq::<Seq<char>>::empty() =~= seq![root]);
    }
}

/// Why nothing can be watched is told in words, with what is behind it.
pub proof fn law_watch_errors_are_told(text: Seq<char>)
    ensures
        WatchErrorView::NotLocal(text).message() == "flake reference is not a local path: "@ + text,
        WatchErrorView::NotLocal(text).cause() is None,
        WatchErrorView::BadLock(text).message() == "parsing flake.lock"@,
        WatchErrorView::BadLock(text).cause() == Some(text),
{
}

} // verus!
