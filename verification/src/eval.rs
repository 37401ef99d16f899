//! The event of an attribute path, from what the Nix evaluator tells about its value.
//!
//! Asking the evaluator is the caller's part.

use vstd::prelude::*;
use vstd::string::*;

use crate::json::{field, field_of};
use crate::json_value::{json_read, read_json, take_texts, taken_texts, Json, JsonView};
use crate::key_order::{at_places, in_key_order, is_listing, law_listings_are_complete, listing};
use crate::keyed_map::{
    has_later, law_keys_of_entries, law_last_entry_counts, map_of, Duplicate, KeyedMap, TextMap,
};
use crate::paths::{components, components_of, join_path, joined_path, Component, ComponentView};
use crate::text::{join, joined, law_pieces_join_up, pieces, same, split};
use crate::types::{
    AutoArg, AutoArgView, Derivation, DerivationView, EvalError, EvalErrorView, Event, EventView,
};
use crate::worker_config::{EvalOptions, EvalOptionsView};

verus! {

/// What the evaluator tells about a derivation.
pub struct Job {
    pub drv_path: String,
    pub name: String,
    /// The `system` attribute, where it is a string.
    pub system: Option<String>,
    /// The names of the outputs, each with its path where it has one, in the order in which the
    /// derivation lists them.
    pub outputs: Vec<(String, Option<String>)>,
    /// The `meta` attribute, where it could be forced.
    pub meta: Option<Json>,
    /// The input derivations with the names of the outputs that are used.
    pub input_drvs: Vec<(String, Vec<String>)>,
    pub constituents: Option<Vec<String>>,
    /// Why no GC root was registered, where one was to be.
    pub gc_root_error: Option<String>,
}

/// What the evaluator tells about the value of an attribute path.
pub enum Finding {
    /// The path leads nowhere, or the value does not evaluate, or it is a derivation that cannot
    /// be read.
    Failed(String),
    /// The value is no attrset.
    Plain,
    /// The value is a derivation.
    Derivation(Job),
    /// The value is another attrset: its names, where they can be listed, and whether its
    /// `recurseForDerivations` is true.
    AttrSet { keys: Option<Vec<String>>, recurse: bool },
}

pub struct JobView {
    pub drv_path: Seq<char>,
    pub name: Seq<char>,
    pub system: Option<Seq<char>>,
    pub outputs: Seq<(Seq<char>, Option<Seq<char>>)>,
    pub meta: Option<JsonView>,
    pub input_drvs: Seq<(Seq<char>, Seq<Seq<char>>)>,
    pub constituents: Option<Seq<Seq<char>>>,
    pub gc_root_error: Option<Seq<char>>,
}

impl View for Job {
    type V = JobView;

    open spec fn view(&self) -> JobView {
        JobView {
            drv_path: self.drv_path@,
            name: self.name@,
            system: self.system.deep_view(),
            outputs: self.outputs.deep_view(),
            meta: self.meta.deep_view(),
            input_drvs: self.input_drvs.deep_view(),
            constituents: self.constituents.deep_view(),
            gc_root_error: self.gc_root_error.deep_view(),
        }
    }
}

pub enum FindingView {
    Failed(Seq<char>),
    Plain,
    Derivation(JobView),
    AttrSet { keys: Option<Seq<Seq<char>>>, recurse: bool },
}

impl View for Finding {
    type V = FindingView;

    open spec fn view(&self) -> FindingView {
        match self {
            Finding::Failed(error) => FindingView::Failed(error@),
            Finding::Plain => FindingView::Plain,
            Finding::Derivation(job) => FindingView::Derivation(job@),
            Finding::AttrSet { keys, recurse } => FindingView::AttrSet {
                keys: keys.deep_view(),
                recurse: *recurse,
            },
        }
    }
}

/// The names other than `recurseForDerivations`.
pub open spec fn child_keys(keys: Seq<Seq<char>>) -> Seq<Seq<char>>
    decreases keys.len(),
{
    if keys.len() == 0 {
        Seq::empty()
    } else {
        let before = child_keys(keys.drop_last());
        if keys.last() == "recurseForDerivations"@ {
            before
        } else {
            before.push(keys.last())
        }
    }
}

/// The names of an attrset to go on with: none below the root, unless the attrset or the options
/// ask for it.
pub open spec fn recursed(
    keys: Option<Seq<Seq<char>>>,
    recurse: bool,
    path: Seq<Seq<char>>,
    force_recurse: bool,
) -> Seq<Seq<char>> {
    if keys is Some && (force_recurse || path.len() == 0 || recurse) {
        child_keys(keys->0)
    } else {
        Seq::empty()
    }
}

/// The names of an attrset to go on with.
pub fn collect_recurse(
    keys: &Option<Vec<String>>,
    recurse: bool,
    path: &Vec<String>,
    force_recurse: bool,
) -> (names: Vec<String>)
    ensures
        names.deep_view() == recursed(keys.deep_view(), recurse, path.deep_view(), force_recurse),
{
    let mut names: Vec<String> = Vec::new();
    assert(names.deep_view() =~= Seq::empty());
    let keys = match keys {
        Some(keys) => keys,
        None => return names,
    };
    if !(force_recurse || path.len() == 0 || recurse) {
        return names;
    }
    let ghost all = keys.deep_view();
    let mut i: usize = 0;
    while i < keys.len()
        invariant
            all == keys.deep_view(),
            i <= keys@.len(),
            names.deep_view() == child_keys(all.take(i as int)),
        decreases keys@.len() - i,
    {
        assert(all.take(i + 1).drop_last() =~= all.take(i as int));
        assert(all[i as int] == keys@[i as int]@);
        if !same(keys[i].as_str(), "recurseForDerivations") {
            let ghost before = names.deep_view();
            names.push(keys[i].clone());
            assert(names.deep_view() =~= before.push(all[i as int]));
        }
        i += 1;
    }
    assert(all.take(all.len() as int) =~= all);
    names
}

/// The output paths by output name: of two outputs with one name, the later counts.
pub fn output_paths(outputs: &Vec<(String, Option<String>)>) -> (paths: TextMap<Option<String>>)
    ensures
        paths@ == map_of(outputs.deep_view()),
{
    let ghost all = outputs.deep_view();
    let mut paths: TextMap<Option<String>> = KeyedMap::new();
    let mut i: usize = 0;
    while i < outputs.len()
        invariant
            all == outputs.deep_view(),
            i <= outputs@.len(),
            paths@ == map_of(all.take(i as int)),
        decreases outputs@.len() - i,
    {
        assert(all.take(i + 1).drop_last() =~= all.take(i as int));
        assert(all[i as int] == outputs@[i as int].deep_view());
        paths.insert(outputs[i].0.clone(), outputs[i].1.duplicate());
        i += 1;
    }
    assert(all.take(all.len() as int) =~= all);
    paths
}

/// Why the input derivations of a derivation are not known.
#[derive(Debug)]
pub enum InputDrvsError {
    /// The derivation's text is not JSON; why.
    NotJson(String),
    /// The output names of some input are not a list of strings; why, for the first such one in the
    /// order of their paths.
    BadNames(String),
}

pub enum InputDrvsErrorView {
    NotJson(Seq<char>),
    BadNames(Seq<char>),
}

impl View for InputDrvsError {
    type V = InputDrvsErrorView;

    open spec fn view(&self) -> InputDrvsErrorView {
        match self {
            InputDrvsError::NotJson(cause) => InputDrvsErrorView::NotJson(cause@),
            InputDrvsError::BadNames(cause) => InputDrvsErrorView::BadNames(cause@),
        }
    }
}

impl InputDrvsErrorView {
    /// The error in words.
    pub open spec fn message(self) -> Seq<char> {
        match self {
            InputDrvsErrorView::NotJson(_) => "parsing derivation"@,
            InputDrvsErrorView::BadNames(cause) => cause,
        }
    }

    /// What is behind the error, where it is not the first cause itself.
    pub open spec fn cause(self) -> Option<Seq<char>> {
        match self {
            InputDrvsErrorView::NotJson(cause) => Some(cause),
            InputDrvsErrorView::BadNames(_) => None,
        }
    }
}

impl InputDrvsError {
    /// The error in words.
    pub fn message(&self) -> (text: String)
        ensures
            text@ == self@.message(),
    {
        match self {
            InputDrvsError::NotJson(_) => "parsing derivation".to_owned(),
            InputDrvsError::BadNames(cause) => cause.clone(),
        }
    }

    /// What is behind the error, where it is not the first cause itself.
    pub fn cause(&self) -> (cause: Option<String>)
        ensures
            cause.deep_view() == self@.cause(),
    {
        match self {
            InputDrvsError::NotJson(cause) => Some(cause.clone()),
            InputDrvsError::BadNames(_) => None,
        }
    }
}

/// Where the output names of an input derivation stand: in its field of that name, or in its place.
pub open spec fn output_names(input: JsonView) -> JsonView {
    match field_of(input, "outputs"@) {
        Some(names) => names,
        None => input,
    }
}

/// Input derivations, one after another, with the names of the outputs that are used.
pub open spec fn named_inputs(inputs: Seq<(Seq<char>, JsonView)>) -> Result<
    Seq<(Seq<char>, Seq<Seq<char>>)>,
    InputDrvsErrorView,
>
    decreases inputs.len(),
{
    if inputs.len() == 0 {
        Ok(Seq::empty())
    } else {
        match named_inputs(inputs.drop_last()) {
            Err(error) => Err(error),
            Ok(before) => match taken_texts(output_names(inputs.last().1)) {
                Ok(names) => Ok(before.push((inputs.last().0, names))),
                Err(cause) => Err(InputDrvsErrorView::BadNames(cause)),
            },
        }
    }
}

/// The input derivations of a derivation, from its JSON text, in the order of their paths.
pub open spec fn inputs_of_drv(text: Seq<char>) -> Result<
    Seq<(Seq<char>, Seq<Seq<char>>)>,
    InputDrvsErrorView,
> {
    match json_read(text) {
        Err(cause) => Err(InputDrvsErrorView::NotJson(cause)),
        Ok(drv) => match field_of(drv, "inputDrvs"@) {
            Some(JsonView::Object(inputs)) => named_inputs(listing(inputs)),
            _ => Ok(Seq::empty()),
        },
    }
}

proof fn lemma_first_error_stays(inputs: Seq<(Seq<char>, JsonView)>, n: int)
    requires
        0 <= n <= inputs.len(),
        named_inputs(inputs.take(n)) is Err,
    ensures
        named_inputs(inputs) == named_inputs(inputs.take(n)),
    decreases inputs.len() - n,
{
    if n == inputs.len() {
        assert(inputs.take(n) =~= inputs);
    } else {
        assert(inputs.take(n + 1).drop_last() =~= inputs.take(n));
        lemma_first_error_stays(inputs, n + 1);
    }
}

/// Reads the input derivations of a derivation from its JSON text.
pub fn input_drvs(text: &str) -> (result: Result<Vec<(String, Vec<String>)>, InputDrvsError>)
    ensures
        match result {
            Ok(drvs) => inputs_of_drv(text@) == Ok::<_, InputDrvsErrorView>(drvs.deep_view()),
            Err(error) => inputs_of_drv(text@) == Err::<
                Seq<(Seq<char>, Seq<Seq<char>>)>,
                _,
            >(error@),
        },
{
    let drv = match read_json(text) {
        Ok(drv) => drv,
        Err(cause) => return Err(InputDrvsError::NotJson(cause)),
    };
    let mut drvs: Vec<(String, Vec<String>)> = Vec::new();
    assert(drvs.deep_view() =~= Seq::<(Seq<char>, Seq<Seq<char>>)>::empty());
    let entries = match field(&drv, "inputDrvs") {
        Some(Json::Object(entries)) => entries,
        _ => return Ok(drvs),
    };
    let ghost all = entries.deep_view();
    proof {
        Json::lemma_object(*entries);
    }
    let places = in_key_order(entries);
    let ghost listed = at_places(all, places@);
    let mut k: usize = 0;
    while k < places.len()
        invariant
            all == entries.deep_view(),
            listed == at_places(all, places@),
            inputs_of_drv(text@) == named_inputs(listed),
            forall|j: int| 0 <= j < places@.len() ==> (#[trigger] places@[j]) < entries@.len(),
            k <= places@.len(),
            named_inputs(listed.take(k as int)) == Ok::<_, InputDrvsErrorView>(drvs.deep_view()),
        decreases places@.len() - k,
    {
        let entry = &entries[places[k]];
        proof {
            assert(listed[k as int] == all[places@[k as int] as int]);
            assert(all[places@[k as int] as int] == entry.deep_view());
            assert(listed.take(k + 1).drop_last() =~= listed.take(k as int));
        }
        let named = match field(&entry.1, "outputs") {
            Some(names) => names,
            None => &entry.1,
        };
        match take_texts(named) {
            Ok(names) => {
                let ghost before = drvs.deep_view();
                drvs.push((entry.0.clone(), names));
                assert(drvs.deep_view() =~= before.push((entry.0@, names.deep_view())));
            },
            Err(cause) => {
                proof {
                    lemma_first_error_stays(listed, k + 1);
                }
                return Err(InputDrvsError::BadNames(cause));
            },
        }
        k += 1;
    }
    assert(listed.take(listed.len() as int) =~= listed);
    Ok(drvs)
}

fn input_drv_map(drvs: &Vec<(String, Vec<String>)>) -> (map: TextMap<Vec<String>>)
    ensures
        map@ == map_of(drvs.deep_view()),
{
    let ghost all = drvs.deep_view();
    let mut map: TextMap<Vec<String>> = KeyedMap::new();
    let mut i: usize = 0;
    while i < drvs.len()
        invariant
            all == drvs.deep_view(),
            i <= drvs@.len(),
            map@ == map_of(all.take(i as int)),
        decreases drvs@.len() - i,
    {
        assert(all.take(i + 1).drop_last() =~= all.take(i as int));
        assert(all[i as int] == drvs@[i as int].deep_view());
        map.insert(drvs[i].0.clone(), drvs[i].1.duplicate());
        i += 1;
    }
    assert(all.take(all.len() as int) =~= all);
    map
}

/// The derivation of a job: `meta` and input derivations are there where the options ask for them.
pub open spec fn job_derivation(
    path: Seq<Seq<char>>,
    job: JobView,
    options: EvalOptionsView,
) -> DerivationView {
    DerivationView {
        attr: joined(path, "."@),
        attr_path: path,
        name: job.name,
        system: match job.system {
            Some(system) => system,
            None => Seq::empty(),
        },
        drv_path: job.drv_path,
        outputs: map_of(job.outputs),
        meta: if options.meta {
            job.meta
        } else {
            None
        },
        input_drvs: if options.show_input_drvs {
            map_of(job.input_drvs)
        } else {
            Map::empty()
        },
        constituents: job.constituents,
        gc_root_error: if options.gc_roots_dir is Some {
            job.gc_root_error
        } else {
            None
        },
    }
}

/// The derivation event of a job.
pub fn make_job(path: &Vec<String>, job: Job, options: &EvalOptions) -> (event: Event)
    ensures
        event@ == EventView::Derivation(job_derivation(path.deep_view(), job@, options@)),
        event@ matches EventView::Derivation(drv) && ({
            let job = job@;
            &&& drv.name == job.name
            &&& drv.drv_path == job.drv_path
            &&& drv.constituents == job.constituents
            &&& drv.system == (if job.system is Some {
                job.system->0
            } else {
                Seq::empty()
            })
            &&& drv.attr_path == path.deep_view()
            &&& drv.meta == (if options@.meta {
                job.meta
            } else {
                None
            })
            &&& drv.gc_root_error == (if options@.gc_roots_dir is Some {
                job.gc_root_error
            } else {
                None
            })
            &&& forall|i: int|
                0 <= i < job.outputs.len() && !has_later(job.outputs, i) ==> drv.outputs.contains_pair(
                    (#[trigger] job.outputs[i]).0,
                    job.outputs[i].1,
                )
            &&& forall|i: int|
                0 <= i < job.input_drvs.len() && !has_later(job.input_drvs, i)
                    && options@.show_input_drvs ==> drv.input_drvs.contains_pair(
                    (#[trigger] job.input_drvs[i]).0,
                    job.input_drvs[i].1,
                )
        }),
{
    proof {
        law_jobs_are_told_as_they_are(path.deep_view(), job@, options@);
    }
    let outputs = output_paths(&job.outputs);
    let system = match job.system {
        Some(system) => system,
        None => {
            let none = String::new();
            assert(none@ =~= Seq::empty());
            none
        },
    };
    let meta = if options.meta {
        job.meta
    } else {
        None
    };
    let input_drvs = if options.show_input_drvs {
        input_drv_map(&job.input_drvs)
    } else {
        KeyedMap::new()
    };
    let gc_root_error = if options.gc_roots_dir.is_some() {
        job.gc_root_error
    } else {
        None
    };
    Event::Derivation(
        Derivation {
            attr: join(path, "."),
            attr_path: path.duplicate(),
            name: job.name,
            system,
            drv_path: job.drv_path,
            outputs,
            meta,
            input_drvs,
            constituents: job.constituents,
            gc_root_error,
        },
    )
}

/// The event of an attribute path.
pub open spec fn event_of(
    path: Seq<Seq<char>>,
    finding: FindingView,
    options: EvalOptionsView,
) -> EventView {
    let attr = joined(path, "."@);
    match finding {
        FindingView::Failed(error) => EventView::Error(
            EvalErrorView { attr, attr_path: path, error, fatal: false },
        ),
        FindingView::Plain => EventView::AttrSet { attr, attr_path: path, attrs: Seq::empty() },
        FindingView::Derivation(job) => EventView::Derivation(job_derivation(path, job, options)),
        FindingView::AttrSet { keys, recurse } => EventView::AttrSet {
            attr,
            attr_path: path,
            attrs: recursed(keys, recurse, path, options.force_recurse),
        },
    }
}

/// The event of an attribute path.
pub fn process_attr(path: &Vec<String>, finding: Finding, options: &EvalOptions) -> (event: Event)
    ensures
        event@ == event_of(path.deep_view(), finding@, options@),
        finding@ matches FindingView::Derivation(job) ==> {
            event@ matches EventView::Derivation(drv) && ({
                &&& drv.name == job.name
                &&& drv.drv_path == job.drv_path
                &&& drv.constituents == job.constituents
                &&& drv.system == (if job.system is Some {
                    job.system->0
                } else {
                    Seq::empty()
                })
                &&& drv.attr_path == path.deep_view()
                &&& drv.meta == (if options@.meta {
                    job.meta
                } else {
                    None
                })
                &&& drv.gc_root_error == (if options@.gc_roots_dir is Some {
                    job.gc_root_error
                } else {
                    None
                })
            })
        },
        finding@ matches FindingView::Failed(error) ==> {
            event@ matches EventView::Error(told) && told.error == error && !told.fatal
                && told.attr_path == path.deep_view()
        },
        finding@ is Plain || finding@ is AttrSet ==> event@ is AttrSet
            && event@->AttrSet_attr_path == path.deep_view(),
{
    match finding {
        Finding::Failed(error) => Event::Error(
            EvalError {
                attr: join(path, "."),
                attr_path: path.duplicate(),
                error,
                fatal: false,
            },
        ),
        Finding::Plain => {
            let attrs: Vec<String> = Vec::new();
            assert(attrs.deep_view() =~= Seq::empty());
            Event::AttrSet { attr: join(path, "."), attr_path: path.duplicate(), attrs }
        },
        Finding::Derivation(job) => make_job(path, job, options),
        Finding::AttrSet { keys, recurse } => Event::AttrSet {
            attr: join(path, "."),
            attr_path: path.duplicate(),
            attrs: collect_recurse(&keys, recurse, path, options.force_recurse),
        },
    }
}

/// The last name of a path, where it ends in one.
pub open spec fn file_name_of(path: Seq<char>) -> Option<Seq<char>> {
    let parts = components_of(path);
    if parts.len() == 0 {
        None
    } else {
        match parts.last() {
            ComponentView::Name(name) => Some(name),
            _ => None,
        }
    }
}

/// The GC root of a derivation: a link with the derivation's file name in the GC roots directory.
pub fn gc_root_link(gc_dir: &str, drv_path: &str) -> (result: Result<String, String>)
    ensures
        match result {
            Ok(link) => file_name_of(drv_path@) is Some && link@ == joined_path(
                gc_dir@,
                file_name_of(drv_path@)->0,
            ),
            Err(message) => file_name_of(drv_path@) is None && message@
                == "drv path has no filename"@,
        },
{
    let parts = components(drv_path);
    if parts.len() == 0 {
        return Err("drv path has no filename".to_owned());
    }
    assert(parts.deep_view().last() == parts@[parts@.len() - 1]@);
    match &parts[parts.len() - 1] {
        Component::Name(name) => Ok(join_path(gc_dir, name.as_str())),
        _ => Err("drv path has no filename".to_owned()),
    }
}

/// The names that a flake fragment leads through, one after another.
pub open spec fn fragment_names(fragment: Seq<char>) -> Seq<Seq<char>> {
    if fragment.len() == 0 {
        Seq::empty()
    } else {
        pieces(fragment, '.')
    }
}

/// The names that a flake fragment leads through.
pub fn fragment_parts(fragment: &str) -> (names: Vec<String>)
    ensures
        names.deep_view() == fragment_names(fragment@),
{
    proof {
        reveal_strlit("");
        assert(fragment@.len() == 0 ==> fragment@ =~= ""@);
    }
    if same(fragment, "") {
        let names: Vec<String> = Vec::new();
        assert(names.deep_view() =~= Seq::empty());
        return names;
    }
    split(fragment, '.')
}

/// How an argument is called in messages about it.
pub fn auto_arg_context(name: &str, arg: &AutoArg) -> (text: String)
    ensures
        text@ == (match arg@ {
            AutoArgView::Expr(_) => "--arg "@ + name@,
            AutoArgView::Str(_) => "--argstr "@ + name@,
        }),
{
    match arg {
        AutoArg::Expr(_) => "--arg ".to_owned().concat(name),
        AutoArg::Str(_) => "--argstr ".to_owned().concat(name),
    }
}

/// Evaluating an attribute never ends the whole evaluation, and the event names the path that it
/// answers.
pub proof fn law_attribute_errors_are_not_fatal(
    path: Seq<Seq<char>>,
    finding: FindingView,
    options: EvalOptionsView,
)
    ensures
        event_of(path, finding, options).attr_path() == path,
        event_of(path, finding, options).attr() == joined(path, "."@),
        event_of(path, finding, options) matches EventView::Error(error) ==> !error.fatal,
{
}

/// What costs extra evaluation is there only where it is asked for, and an error about a GC root
/// only where one is to be registered.
pub proof fn law_extras_are_asked_for(
    path: Seq<Seq<char>>,
    job: JobView,
    options: EvalOptionsView,
)
    ensures
        job_derivation(path, job, options).meta is Some ==> options.meta && job.meta is Some,
        job_derivation(path, job, options).input_drvs != Map::<Seq<char>, Seq<Seq<char>>>::empty()
            ==> options.show_input_drvs,
        job_derivation(path, job, options).gc_root_error is Some ==> options.gc_roots_dir is Some,
{
}

/// Below the root, an attrset is gone into where it asks for it or the options force it, and then
/// with the same names: all but the flag that asks for it.
pub proof fn law_recursion_is_asked_for(keys: Seq<Seq<char>>, path: Seq<Seq<char>>)
    requires
        path.len() > 0,
    ensures
        recursed(Some(keys), false, path, false).len() == 0,
        recursed(Some(keys), false, path, true) == recursed(Some(keys), true, path, false),
        !recursed(Some(keys), true, path, false).contains("recurseForDerivations"@),
{
    lemma_flag_is_no_child(keys);
}

proof fn lemma_flag_is_no_child(keys: Seq<Seq<char>>)
    ensures
        !child_keys(keys).contains("recurseForDerivations"@),
    decreases keys.len(),
{
    if keys.len() > 0 {
        lemma_flag_is_no_child(keys.drop_last());
        let before = child_keys(keys.drop_last());
        let all = child_keys(keys);
        if all.contains("recurseForDerivations"@) {
            let k = choose|k: int| 0 <= k < all.len() && all[k] == "recurseForDerivations"@;
            if k < before.len() {
                assert(before[k] == all[k]);
                assert(before.contains("recurseForDerivations"@));
            }
        }
    }
}

/// The derivation of a job carries what the evaluator told about it: its name, its system, its `.drv`
/// path, its constituents, and for each output the last path that was listed for it. The path is the
/// one that was asked for.
pub proof fn law_jobs_are_told_as_they_are(
    path: Seq<Seq<char>>,
    job: JobView,
    options: EvalOptionsView,
)
    ensures
        ({
            let drv = job_derivation(path, job, options);
            &&& drv.attr_path == path
            &&& drv.attr == joined(path, "."@)
            &&& drv.name == job.name
            &&& job.system is Some ==> drv.system == job.system->0
            &&& job.system is None ==> drv.system.len() == 0
            &&& drv.drv_path == job.drv_path
            &&& drv.constituents == job.constituents
            &&& forall|i: int|
                0 <= i < job.outputs.len() && !has_later(job.outputs, i)
                    ==> drv.outputs.contains_pair(
                    (#[trigger] job.outputs[i]).0,
                    job.outputs[i].1,
                )
            &&& forall|name: Seq<char>| #[trigger]
                drv.outputs.contains_key(name) ==> exists|i: int|
                    0 <= i < job.outputs.len() && (#[trigger] job.outputs[i]).0 == name
            &&& forall|i: int|
                0 <= i < job.input_drvs.len() && !has_later(job.input_drvs, i)
                    && options.show_input_drvs ==> drv.input_drvs.contains_pair(
                    (#[trigger] job.input_drvs[i]).0,
                    job.input_drvs[i].1,
                )
            &&& forall|name: Seq<char>| #[trigger]
                drv.input_drvs.contains_key(name) ==> options.show_input_drvs && exists|i: int|
                    0 <= i < job.input_drvs.len() && (#[trigger] job.input_drvs[i]).0 == name
        }),
{
    let drv = job_derivation(path, job, options);
    assert forall|i: int|
        0 <= i < job.outputs.len() && !has_later(
            job.outputs,
            i,
        ) implies drv.outputs.contains_pair((#[trigger] job.outputs[i]).0, job.outputs[i].1) by {
        law_last_entry_counts(job.outputs, i);
    }
    assert forall|name: Seq<char>| #[trigger] drv.outputs.contains_key(name) implies exists|i: int|
        0 <= i < job.outputs.len() && (#[trigger] job.outputs[i]).0 == name by {
        law_keys_of_entries(job.outputs, name);
    }
    assert forall|i: int|
        0 <= i < job.input_drvs.len() && !has_later(job.input_drvs, i)
            && options.show_input_drvs implies drv.input_drvs.contains_pair(
        (#[trigger] job.input_drvs[i]).0,
        job.input_drvs[i].1,
    ) by {
        law_last_entry_counts(job.input_drvs, i);
    }
    assert forall|name: Seq<char>| #[trigger] drv.input_drvs.contains_key(name) implies
        options.show_input_drvs && exists|i: int|
        0 <= i < job.input_drvs.len() && (#[trigger] job.input_drvs[i]).0 == name by {
        law_keys_of_entries(job.input_drvs, name);
    }
}

/// What is asked for beside that is there as the evaluator told it.
pub proof fn law_extras_are_given(path: Seq<Seq<char>>, job: JobView, options: EvalOptionsView)
    ensures
        options.meta ==> job_derivation(path, job, options).meta == job.meta,
        !options.meta ==> job_derivation(path, job, options).meta is None,
        options.gc_roots_dir is Some ==> job_derivation(path, job, options).gc_root_error
            == job.gc_root_error,
        options.gc_roots_dir is None ==> job_derivation(path, job, options).gc_root_error is None,
{
}

/// A value that cannot be evaluated is an error with the evaluator's words; a derivation is told as
/// its job; any other value is an attrset, without names where it is none.
pub proof fn law_findings_become_events(
    path: Seq<Seq<char>>,
    finding: FindingView,
    options: EvalOptionsView,
)
    ensures
        match finding {
            FindingView::Failed(error) => event_of(path, finding, options) == EventView::Error(
                EvalErrorView {
                    attr: joined(path, "."@),
                    attr_path: path,
                    error,
                    fatal: false,
                },
            ),
            FindingView::Plain => {
                &&& event_of(path, finding, options) is AttrSet
                &&& event_of(path, finding, options)->AttrSet_attrs.len() == 0
            },
            FindingView::Derivation(job) => event_of(path, finding, options)
                == EventView::Derivation(job_derivation(path, job, options)),
            FindingView::AttrSet { keys, recurse } => {
                &&& event_of(path, finding, options) is AttrSet
                &&& event_of(path, finding, options)->AttrSet_attrs == recursed(
                    keys,
                    recurse,
                    path,
                    options.force_recurse,
                )
            },
        },
{
}

/// The names to go on with are all names of the attrset but the flag `recurseForDerivations`, in
/// order: those of two lists are those of the one and then those of the other.
pub proof fn law_child_names(one: Seq<Seq<char>>, two: Seq<Seq<char>>, name: Seq<char>)
    ensures
        child_keys(one + two) == child_keys(one) + child_keys(two),
        child_keys(seq![name]) == (if name == "recurseForDerivations"@ {
            Seq::empty()
        } else {
            seq![name]
        }),
        child_keys(Seq::empty()) == Seq::<Seq<char>>::empty(),
    decreases two.len(),
{
    assert(seq![name].drop_last() =~= Seq::empty());
    assert(child_keys(seq![name].drop_last()) =~= Seq::empty());
    assert(Seq::<Seq<char>>::empty().push(name) =~= seq![name]);
    if two.len() == 0 {
        assert(one + two =~= one);
        assert(child_keys(one) + child_keys(two) =~= child_keys(one));
    } else {
        law_child_names(one, two.drop_last(), name);
        assert((one + two).drop_last() =~= one + two.drop_last());
        assert(child_keys(one + two) =~= child_keys(one) + child_keys(two));
    }
}

/// An attrset is gone into at the root, where it asks for it, or where the options force it, and
/// then with all of its children; otherwise, or where its names cannot be listed, not at all.
pub proof fn law_attrsets_are_gone_into(
    keys: Seq<Seq<char>>,
    recurse: bool,
    path: Seq<Seq<char>>,
    force_recurse: bool,
)
    ensures
        path.len() == 0 || recurse || force_recurse ==> recursed(
            Some(keys),
            recurse,
            path,
            force_recurse,
        ) == child_keys(keys),
        path.len() > 0 && !recurse && !force_recurse ==> recursed(
            Some(keys),
            recurse,
            path,
            force_recurse,
        ).len() == 0,
        recursed(None, recurse, path, force_recurse).len() == 0,
{
}

/// The names of a fragment, joined by dots, are the fragment again, and none of them holds a dot.
pub proof fn law_fragments_are_taken_apart(fragment: Seq<char>)
    ensures
        fragment.len() == 0 <==> fragment_names(fragment).len() == 0,
        joined(fragment_names(fragment), seq!['.']) == fragment,
        forall|i: int|
            0 <= i < fragment_names(fragment).len() ==> !(
            #[trigger] fragment_names(fragment)[i]).contains('.'),
{
    if fragment.len() > 0 {
        law_pieces_join_up(fragment, '.');
    } else {
        assert(fragment =~= Seq::empty());
    }
}

/// The output names of an input derivation are those of its `outputs` field, or its own where it has
/// no such field.
pub proof fn law_output_names(fields: Map<Seq<char>, JsonView>, items: Seq<JsonView>)
    ensures
        fields.contains_key("outputs"@) ==> output_names(JsonView::Object(fields))
            == fields["outputs"@],
        output_names(JsonView::Array(items)) == JsonView::Array(items),
{
}

/// Each input derivation is told under its path with its output names, in order; one that has none
/// spoils the whole.
pub proof fn law_inputs_are_named(inputs: Seq<(Seq<char>, JsonView)>, i: int)
    requires
        0 <= i < inputs.len(),
    ensures
        named_inputs(inputs) is Ok ==> ({
            let named = named_inputs(inputs)->Ok_0;
            &&& named.len() == inputs.len()
            &&& named[i].0 == inputs[i].0
            &&& taken_texts(output_names(inputs[i].1)) == Ok::<_, Seq<char>>(named[i].1)
        }),
        taken_texts(output_names(inputs[i].1)) is Err ==> named_inputs(inputs) is Err,
    decreases inputs.len(),
{
    let shorter = inputs.drop_last();
    lemma_inputs_len(inputs);
    if i < shorter.len() {
        law_inputs_are_named(shorter, i);
        assert(shorter[i] == inputs[i]);
    }
    lemma_inputs_len(shorter);
}

proof fn lemma_inputs_len(inputs: Seq<(Seq<char>, JsonView)>)
    ensures
        named_inputs(inputs) is Ok ==> named_inputs(inputs)->Ok_0.len() == inputs.len(),
    decreases inputs.len(),
{
    if inputs.len() > 0 {
        lemma_inputs_len(inputs.drop_last());
    }
}

/// Where every input derivation has output names, the inputs are known.
pub proof fn law_good_inputs_are_read(inputs: Seq<(Seq<char>, JsonView)>)
    requires
        forall|i: int|
            0 <= i < inputs.len() ==> taken_texts(output_names((#[trigger] inputs[i]).1)) is Ok,
    ensures
        named_inputs(inputs) is Ok,
    decreases inputs.len(),
{
    if inputs.len() > 0 {
        let shorter = inputs.drop_last();
        assert forall|i: int| 0 <= i < shorter.len() implies taken_texts(
            output_names((#[trigger] shorter[i]).1),
        ) is Ok by {
            assert(shorter[i] == inputs[i]);
        }
        law_good_inputs_are_read(shorter);
        assert(taken_texts(output_names(inputs[inputs.len() - 1].1)) is Ok);
    }
}

/// The inputs of a derivation are those that its `inputDrvs` names, each with its output names; where
/// it has none there are no inputs, and what is no JSON is refused with the reason.
pub proof fn law_drv_inputs_are_read(
    text: Seq<char>,
    inputs: Map<Seq<char>, JsonView>,
    key: Seq<char>,
)
    requires
        is_listing(listing(inputs), inputs),
    ensures
        match json_read(text) {
            Err(cause) => inputs_of_drv(text) == Err::<Seq<(Seq<char>, Seq<Seq<char>>)>, _>(
                InputDrvsErrorView::NotJson(cause),
            ),
            Ok(drv) => {
                let named = field_of(drv, "inputDrvs"@);
                &&& !(named is Some && named->0 is Object) ==> inputs_of_drv(text) is Ok
                    && inputs_of_drv(text)->Ok_0.len() == 0
                &&& named == Some(JsonView::Object(inputs)) && inputs_of_drv(text) is Ok ==> {
                    let found = inputs_of_drv(text)->Ok_0;
                    &&& inputs.contains_key(key) <==> exists|i: int|
                        0 <= i < found.len() && (#[trigger] found[i]).0 == key
                    &&& forall|i: int|
                        0 <= i < found.len() ==> taken_texts(
                            output_names(inputs[(#[trigger] found[i]).0]),
                        ) == Ok::<_, Seq<char>>(found[i].1)
                }
            },
        },
{
    let listed = listing(inputs);
    if json_read(text) is Ok && inputs_of_drv(text) is Ok && field_of(
        json_read(text)->Ok_0,
        "inputDrvs"@,
    ) == Some(JsonView::Object(inputs)) {
        let found = inputs_of_drv(text)->Ok_0;
        lemma_inputs_len(listed);
        assert forall|i: int| 0 <= i < found.len() implies taken_texts(
            output_names(inputs[(#[trigger] found[i]).0]),
        ) == Ok::<_, Seq<char>>(found[i].1) && found[i].0 == listed[i].0 && inputs.contains_key(
            found[i].0,
        ) by {
            law_inputs_are_named(listed, i);
            law_listings_are_complete(listed, inputs, i, i, key);
        }
        if inputs.contains_key(key) {
            law_listings_are_complete(listed, inputs, 0, 0, key);
            let k = choose|k: int| 0 <= k < listed.len() && (#[trigger] listed[k]).0 == key;
            assert(found[k].0 == listed[k].0);
        }
    }
}

/// Why the inputs of a derivation are not known is told in words, with what is behind it.
pub proof fn law_input_errors_are_told(cause: Seq<char>)
    ensures
        InputDrvsErrorView::NotJson(cause).message() == "parsing derivation"@,
        InputDrvsErrorView::NotJson(cause).cause() == Some(cause),
        InputDrvsErrorView::BadNames(cause).message() == cause,
        InputDrvsErrorView::BadNames(cause).cause() is None,
{
}

/// The file name of a path is the name that it ends in; a path that ends in none has no file name.
pub proof fn law_file_names(path: Seq<char>, name: Seq<char>)
    ensures
        file_name_of(path) == Some(name) <==> components_of(path).len() > 0 && components_of(
            path,
        ).last() == ComponentView::Name(name),
{
}

} // verus!
