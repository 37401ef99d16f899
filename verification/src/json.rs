//! The flat JSON shape of events and diffs, one object per line.

use vstd::prelude::*;
use vstd::string::*;

use crate::json_value::{
    json_read, json_text, nests_within, no_texts, read_json, reads_back, take_texts, taken_texts,
    texts_of, whole_numbers, write_json, Json, JsonView,
};
use crate::key_order::{at_places, in_key_order, is_listing, listing};
use crate::keyed_map::{lemma_map_of_key, map_of, Duplicate, KeyedMap, TextMap};
use crate::text::same;
use crate::types::{
    Derivation, DerivationView, Diff, DiffView, EvalError, EvalErrorView, Event, EventView,
};

verus! {

/// A list of texts as JSON.
pub open spec fn texts_json(texts: Seq<Seq<char>>) -> JsonView {
    JsonView::Array(texts.map_values(|text: Seq<char>| JsonView::Text(text)))
}

/// A text or its absence as JSON.
pub open spec fn optional_json(text: Option<Seq<char>>) -> JsonView {
    match text {
        Some(text) => JsonView::Text(text),
        None => JsonView::Null,
    }
}

/// Output paths as JSON.
pub open spec fn outputs_json(outputs: Map<Seq<char>, Option<Seq<char>>>) -> JsonView {
    JsonView::Object(outputs.map_values(|path: Option<Seq<char>>| optional_json(path)))
}

/// Input derivations as JSON.
pub open spec fn input_drvs_json(drvs: Map<Seq<char>, Seq<Seq<char>>>) -> JsonView {
    JsonView::Object(drvs.map_values(|names: Seq<Seq<char>>| texts_json(names)))
}

/// A field that is there when its value is.
pub open spec fn with_optional(
    fields: Map<Seq<char>, JsonView>,
    name: Seq<char>,
    value: Option<JsonView>,
) -> Map<Seq<char>, JsonView> {
    match value {
        Some(value) => fields.insert(name, value),
        None => fields,
    }
}

/// The fields of a derivation that the command line prints for every derivation.
pub open spec fn plain_fields(drv: DerivationView) -> Map<Seq<char>, JsonView> {
    let always = Map::<Seq<char>, JsonView>::empty().insert(
        "attr"@,
        JsonView::Text(drv.attr),
    ).insert("attrPath"@, texts_json(drv.attr_path)).insert(
        "name"@,
        JsonView::Text(drv.name),
    ).insert("system"@, JsonView::Text(drv.system)).insert(
        "drvPath"@,
        JsonView::Text(drv.drv_path),
    ).insert("outputs"@, outputs_json(drv.outputs));
    let with_meta = with_optional(always, "meta"@, drv.meta);
    let with_inputs = with_optional(
        with_meta,
        "inputDrvs"@,
        if drv.input_drvs == Map::<Seq<char>, Seq<Seq<char>>>::empty() {
            None
        } else {
            Some(input_drvs_json(drv.input_drvs))
        },
    );
    with_optional(
        with_inputs,
        "constituents"@,
        match drv.constituents {
            Some(names) => Some(texts_json(names)),
            None => None,
        },
    )
}

/// A derivation as flat JSON.
pub open spec fn derivation_json(drv: DerivationView) -> JsonView {
    JsonView::Object(
        with_optional(
            plain_fields(drv),
            "gcRootError"@,
            match drv.gc_root_error {
                Some(error) => Some(JsonView::Text(error)),
                None => None,
            },
        ),
    )
}

/// An expanded attrset as flat JSON.
pub open spec fn attr_set_json(
    attr: Seq<char>,
    attr_path: Seq<Seq<char>>,
    attrs: Seq<Seq<char>>,
) -> JsonView {
    JsonView::Object(
        Map::<Seq<char>, JsonView>::empty().insert("attr"@, JsonView::Text(attr)).insert(
            "attrPath"@,
            texts_json(attr_path),
        ).insert("attrs"@, texts_json(attrs)),
    )
}

/// An evaluation error as flat JSON.
pub open spec fn error_json(error: EvalErrorView) -> JsonView {
    JsonView::Object(
        Map::<Seq<char>, JsonView>::empty().insert("attr"@, JsonView::Text(error.attr)).insert(
            "attrPath"@,
            texts_json(error.attr_path),
        ).insert("error"@, JsonView::Text(error.error)).insert(
            "fatal"@,
            JsonView::Bool(error.fatal),
        ),
    )
}

/// An event as flat JSON.
pub open spec fn event_json(event: EventView) -> JsonView {
    match event {
        EventView::Derivation(drv) => derivation_json(drv),
        EventView::AttrSet { attr, attr_path, attrs } => attr_set_json(attr, attr_path, attrs),
        EventView::Error(error) => error_json(error),
    }
}

/// An event as the one-shot command line prints it: without the error of registering a GC root,
/// which is logged instead.
pub open spec fn printed_json(event: EventView) -> JsonView {
    match event {
        EventView::Derivation(drv) => JsonView::Object(plain_fields(drv)),
        _ => event_json(event),
    }
}

/// An evaluation error within a diff as JSON.
pub open spec fn diff_error_json(error: EvalErrorView) -> JsonView {
    JsonView::Object(
        Map::<Seq<char>, JsonView>::empty().insert("attr"@, JsonView::Text(error.attr)).insert(
            "attr_path"@,
            texts_json(error.attr_path),
        ).insert("error"@, JsonView::Text(error.error)).insert(
            "fatal"@,
            JsonView::Bool(error.fatal),
        ),
    )
}

/// A diff as JSON.
pub open spec fn diff_json(diff: DiffView) -> JsonView {
    JsonView::Object(
        Map::<Seq<char>, JsonView>::empty().insert(
            "added"@,
            JsonView::Array(diff.added.map_values(|drv: DerivationView| derivation_json(drv))),
        ).insert(
            "removed"@,
            JsonView::Array(diff.removed.map_values(|drv: DerivationView| derivation_json(drv))),
        ).insert(
            "errors"@,
            JsonView::Array(diff.errors.map_values(|error: EvalErrorView| diff_error_json(error))),
        ),
    )
}

fn put(entries: &mut Vec<(String, Json)>, name: &str, value: Json)
    ensures
        map_of(final(entries).deep_view()) == map_of(old(entries).deep_view()).insert(
            name@,
            value@,
        ),
{
    let ghost before = entries.deep_view();
    entries.push((name.to_owned(), value));
    proof {
        assert(entries.deep_view() =~= before.push((name@, value@)));
        assert(entries.deep_view().drop_last() =~= before);
    }
}

fn object(entries: Vec<(String, Json)>) -> (value: Json)
    ensures
        value@ == JsonView::Object(map_of(entries.deep_view())),
{
    proof {
        Json::lemma_object(entries);
    }
    Json::Object(entries)
}

fn no_entries() -> (entries: Vec<(String, Json)>)
    ensures
        map_of(entries.deep_view()) == Map::<Seq<char>, JsonView>::empty(),
{
    Vec::new()
}

/// A list of texts as JSON.
pub fn texts_value(texts: &Vec<String>) -> (value: Json)
    ensures
        value@ == texts_json(texts.deep_view()),
{
    let mut items: Vec<Json> = Vec::new();
    let ghost views = texts.deep_view();
    let mut i: usize = 0;
    while i < texts.len()
        invariant
            i <= texts@.len(),
            views == texts.deep_view(),
            items.deep_view() =~= views.take(i as int).map_values(
                |text: Seq<char>| JsonView::Text(text),
            ),
        decreases texts@.len() - i,
    {
        let ghost before = items.deep_view();
        let item = Json::Text(texts[i].clone());
        items.push(item);
        assert(items.deep_view() =~= before.push(item@));
        i += 1;
    }
    proof {
        assert(views.take(views.len() as int) =~= views);
        Json::lemma_array(items);
    }
    Json::Array(items)
}

fn outputs_value(outputs: &TextMap<Option<String>>) -> (value: Json)
    ensures
        value@ == outputs_json(outputs@),
{
    let ghost f = |path: Option<Seq<char>>| optional_json(path);
    let ghost items = outputs.items();
    let mut entries = no_entries();
    let mut i: usize = 0;
    assert(map_of(items.take(0)).map_values(f) =~= Map::empty());
    while i < outputs.len()
        invariant
            items == outputs.items(),
            i <= items.len(),
            f == (|path: Option<Seq<char>>| optional_json(path)),
            map_of(entries.deep_view()) == map_of(items.take(i as int)).map_values(f),
        decreases items.len() - i,
    {
        let path = match outputs.value_at(i) {
            Some(path) => Json::Text(path.clone()),
            None => Json::Null,
        };
        put(&mut entries, outputs.key_at(i).as_str(), path);
        proof {
            assert(items.take(i + 1).drop_last() =~= items.take(i as int));
            assert(map_of(items.take(i + 1)).map_values(f) =~= map_of(
                items.take(i as int),
            ).map_values(f).insert(items[i as int].0, optional_json(items[i as int].1)));
        }
        i += 1;
    }
    assert(items.take(items.len() as int) =~= items);
    object(entries)
}

fn input_drvs_value(drvs: &TextMap<Vec<String>>) -> (value: Json)
    ensures
        value@ == input_drvs_json(drvs@),
{
    let ghost f = |names: Seq<Seq<char>>| texts_json(names);
    let ghost items = drvs.items();
    let mut entries = no_entries();
    let mut i: usize = 0;
    assert(map_of(items.take(0)).map_values(f) =~= Map::empty());
    while i < drvs.len()
        invariant
            items == drvs.items(),
            i <= items.len(),
            f == (|names: Seq<Seq<char>>| texts_json(names)),
            map_of(entries.deep_view()) == map_of(items.take(i as int)).map_values(f),
        decreases items.len() - i,
    {
        let names = texts_value(drvs.value_at(i));
        put(&mut entries, drvs.key_at(i).as_str(), names);
        proof {
            assert(items.take(i + 1).drop_last() =~= items.take(i as int));
            assert(map_of(items.take(i + 1)).map_values(f) =~= map_of(
                items.take(i as int),
            ).map_values(f).insert(items[i as int].0, texts_json(items[i as int].1)));
        }
        i += 1;
    }
    assert(items.take(items.len() as int) =~= items);
    object(entries)
}

fn plain_entries(drv: &Derivation) -> (entries: Vec<(String, Json)>)
    ensures
        map_of(entries.deep_view()) == plain_fields(drv@),
{
    let mut entries = no_entries();
    put(&mut entries, "attr", Json::Text(drv.attr.clone()));
    put(&mut entries, "attrPath", texts_value(&drv.attr_path));
    put(&mut entries, "name", Json::Text(drv.name.clone()));
    put(&mut entries, "system", Json::Text(drv.system.clone()));
    put(&mut entries, "drvPath", Json::Text(drv.drv_path.clone()));
    put(&mut entries, "outputs", outputs_value(&drv.outputs));
    if let Some(meta) = &drv.meta {
        put(&mut entries, "meta", meta.duplicate());
    }
    if !drv.input_drvs.is_empty() {
        put(&mut entries, "inputDrvs", input_drvs_value(&drv.input_drvs));
    }
    if let Some(constituents) = &drv.constituents {
        put(&mut entries, "constituents", texts_value(constituents));
    }
    entries
}

/// A derivation as flat JSON.
pub fn derivation_value(drv: &Derivation) -> (value: Json)
    ensures
        value@ == derivation_json(drv@),
{
    let mut entries = plain_entries(drv);
    if let Some(error) = &drv.gc_root_error {
        put(&mut entries, "gcRootError", Json::Text(error.clone()));
    }
    object(entries)
}

/// An event as flat JSON.
pub fn event_value(event: &Event) -> (value: Json)
    ensures
        value@ == event_json(event@),
{
    match event {
        Event::Derivation(drv) => derivation_value(drv),
        Event::AttrSet { attr, attr_path, attrs } => {
            let mut entries = no_entries();
            put(&mut entries, "attr", Json::Text(attr.clone()));
            put(&mut entries, "attrPath", texts_value(attr_path));
            put(&mut entries, "attrs", texts_value(attrs));
            object(entries)
        },
        Event::Error(error) => {
            let mut entries = no_entries();
            put(&mut entries, "attr", Json::Text(error.attr.clone()));
            put(&mut entries, "attrPath", texts_value(&error.attr_path));
            put(&mut entries, "error", Json::Text(error.error.clone()));
            put(&mut entries, "fatal", Json::Bool(error.fatal));
            object(entries)
        },
    }
}

/// An event as the one-shot command line prints it.
pub fn format_event(event: &Event) -> (line: String)
    ensures
        line@ == json_text(printed_json(event@)),
        !line@.contains('\n'),
{
    let value = match event {
        Event::Derivation(drv) => object(plain_entries(drv)),
        _ => event_value(event),
    };
    write_json(&value)
}

fn derivation_values(drvs: &Vec<Derivation>) -> (value: Json)
    ensures
        value@ == JsonView::Array(
            drvs.deep_view().map_values(|drv: DerivationView| derivation_json(drv)),
        ),
{
    let mut items: Vec<Json> = Vec::new();
    let ghost views = drvs.deep_view();
    let mut i: usize = 0;
    while i < drvs.len()
        invariant
            i <= drvs@.len(),
            views == drvs.deep_view(),
            items.deep_view() =~= views.take(i as int).map_values(
                |drv: DerivationView| derivation_json(drv),
            ),
        decreases drvs@.len() - i,
    {
        let ghost before = items.deep_view();
        let item = derivation_value(&drvs[i]);
        items.push(item);
        assert(items.deep_view() =~= before.push(item@));
        i += 1;
    }
    proof {
        assert(views.take(views.len() as int) =~= views);
        Json::lemma_array(items);
    }
    Json::Array(items)
}

fn diff_error_value(error: &EvalError) -> (value: Json)
    ensures
        value@ == diff_error_json(error@),
{
    let mut entries = no_entries();
    put(&mut entries, "attr", Json::Text(error.attr.clone()));
    put(&mut entries, "attr_path", texts_value(&error.attr_path));
    put(&mut entries, "error", Json::Text(error.error.clone()));
    put(&mut entries, "fatal", Json::Bool(error.fatal));
    object(entries)
}

fn diff_error_values(errors: &Vec<EvalError>) -> (value: Json)
    ensures
        value@ == JsonView::Array(
            errors.deep_view().map_values(|error: EvalErrorView| diff_error_json(error)),
        ),
{
    let mut items: Vec<Json> = Vec::new();
    let ghost views = errors.deep_view();
    let mut i: usize = 0;
    while i < errors.len()
        invariant
            i <= errors@.len(),
            views == errors.deep_view(),
            items.deep_view() =~= views.take(i as int).map_values(
                |error: EvalErrorView| diff_error_json(error),
            ),
        decreases errors@.len() - i,
    {
        let ghost before = items.deep_view();
        let item = diff_error_value(&errors[i]);
        items.push(item);
        assert(items.deep_view() =~= before.push(item@));
        i += 1;
    }
    proof {
        assert(views.take(views.len() as int) =~= views);
        Json::lemma_array(items);
    }
    Json::Array(items)
}

/// A diff as JSON.
pub fn diff_value(diff: &Diff) -> (value: Json)
    ensures
        value@ == diff_json(diff@),
{
    let mut entries = no_entries();
    put(&mut entries, "added", derivation_values(&diff.added));
    put(&mut entries, "removed", derivation_values(&diff.removed));
    put(&mut entries, "errors", diff_error_values(&diff.errors));
    object(entries)
}

/// A diff as a line of JSON.
pub fn diff_line(diff: &Diff) -> (line: String)
    ensures
        line@ == json_text(diff_json(diff@)),
        !line@.contains('\n'),
        reads_back(diff_json(diff@)) ==> json_read(line@) == Ok::<_, Seq<char>>(
            diff_json(diff@),
        ),
{
    write_json(&diff_value(diff))
}

/// Why a text or a JSON value is not an event.
#[derive(Debug)]
pub enum EventParseError {
    /// The line is not JSON; why.
    NotJson(String),
    /// A field is missing or not a string.
    MissingText(String),
    /// A field is missing.
    MissingTexts(String),
    /// A field is not a list of strings; why.
    BadTexts { name: String, cause: String },
    /// The output names of some input derivation are not a list of strings; why, for the first such
    /// one in the order of their paths.
    BadInputDrvs(String),
    /// The constituents are not a list of strings; why.
    BadConstituents(String),
}

pub enum EventParseErrorView {
    NotJson(Seq<char>),
    MissingText(Seq<char>),
    MissingTexts(Seq<char>),
    BadTexts { name: Seq<char>, cause: Seq<char> },
    BadInputDrvs(Seq<char>),
    BadConstituents(Seq<char>),
}

impl View for EventParseError {
    type V = EventParseErrorView;

    open spec fn view(&self) -> EventParseErrorView {
        match self {
            EventParseError::NotJson(cause) => EventParseErrorView::NotJson(cause@),
            EventParseError::MissingText(name) => EventParseErrorView::MissingText(name@),
            EventParseError::MissingTexts(name) => EventParseErrorView::MissingTexts(name@),
            EventParseError::BadTexts { name, cause } => EventParseErrorView::BadTexts {
                name: name@,
                cause: cause@,
            },
            EventParseError::BadInputDrvs(cause) => EventParseErrorView::BadInputDrvs(cause@),
            EventParseError::BadConstituents(cause) => {
                EventParseErrorView::BadConstituents(cause@)
            },
        }
    }
}

impl EventParseErrorView {
    /// The error in words.
    pub open spec fn message(self) -> Seq<char> {
        match self {
            EventParseErrorView::NotJson(_) => "parsing event line"@,
            EventParseErrorView::MissingText(name) => "missing string field \""@ + name + "\""@,
            EventParseErrorView::MissingTexts(name) => "missing string list field \""@ + name
                + "\""@,
            EventParseErrorView::BadTexts { name, .. } => "parsing field \""@ + name + "\""@,
            EventParseErrorView::BadInputDrvs(_) => "parsing inputDrvs"@,
            EventParseErrorView::BadConstituents(_) => "parsing constituents"@,
        }
    }

    /// What is behind the error, where it is not the first cause itself.
    pub open spec fn cause(self) -> Option<Seq<char>> {
        match self {
            EventParseErrorView::NotJson(cause) => Some(cause),
            EventParseErrorView::MissingText(_) => None,
            EventParseErrorView::MissingTexts(_) => None,
            EventParseErrorView::BadTexts { cause, .. } => Some(cause),
            EventParseErrorView::BadInputDrvs(cause) => Some(cause),
            EventParseErrorView::BadConstituents(cause) => Some(cause),
        }
    }
}

impl EventParseError {
    /// The error in words.
    pub fn message(&self) -> (text: String)
        ensures
            text@ == self@.message(),
    {
        match self {
            EventParseError::NotJson(_) => "parsing event line".to_owned(),
            EventParseError::MissingText(name) => "missing string field \"".to_owned().concat(
                name.as_str(),
            ).concat("\""),
            EventParseError::MissingTexts(name) => "missing string list field \"".to_owned().concat(
                name.as_str(),
            ).concat("\""),
            EventParseError::BadTexts { name, .. } => "parsing field \"".to_owned().concat(
                name.as_str(),
            ).concat("\""),
            EventParseError::BadInputDrvs(_) => "parsing inputDrvs".to_owned(),
            EventParseError::BadConstituents(_) => "parsing constituents".to_owned(),
        }
    }

    /// What is behind the error, where it is not the first cause itself.
    pub fn cause(&self) -> (cause: Option<String>)
        ensures
            cause.deep_view() == self@.cause(),
    {
        match self {
            EventParseError::NotJson(cause) => Some(cause.clone()),
            EventParseError::MissingText(_) => None,
            EventParseError::MissingTexts(_) => None,
            EventParseError::BadTexts { cause, .. } => Some(cause.clone()),
            EventParseError::BadInputDrvs(cause) => Some(cause.clone()),
            EventParseError::BadConstituents(cause) => Some(cause.clone()),
        }
    }
}

/// The field of an object; other values have none.
pub open spec fn field_of(value: JsonView, name: Seq<char>) -> Option<JsonView> {
    match value {
        JsonView::Object(fields) => if fields.contains_key(name) {
            Some(fields[name])
        } else {
            None
        },
        _ => None,
    }
}

/// A string of a JSON value.
pub open spec fn text_of(value: JsonView) -> Option<Seq<char>> {
    match value {
        JsonView::Text(text) => Some(text),
        _ => None,
    }
}

/// The string field of an object.
pub open spec fn parsed_text(value: JsonView, name: Seq<char>) -> Result<
    Seq<char>,
    EventParseErrorView,
> {
    match field_of(value, name) {
        Some(JsonView::Text(text)) => Ok(text),
        _ => Err(EventParseErrorView::MissingText(name)),
    }
}

/// The string list field of an object.
pub open spec fn parsed_texts(value: JsonView, name: Seq<char>) -> Result<
    Seq<Seq<char>>,
    EventParseErrorView,
> {
    match field_of(value, name) {
        Some(field) => match taken_texts(field) {
            Ok(texts) => Ok(texts),
            Err(cause) => Err(EventParseErrorView::BadTexts { name, cause }),
        },
        None => Err(EventParseErrorView::MissingTexts(name)),
    }
}

/// The output paths of a derivation: whatever is not a string counts as no path.
pub open spec fn parsed_outputs(value: JsonView) -> Map<Seq<char>, Option<Seq<char>>> {
    match field_of(value, "outputs"@) {
        Some(JsonView::Object(fields)) => fields.map_values(|path: JsonView| text_of(path)),
        _ => Map::empty(),
    }
}

/// Why the first value that is not a list of strings is none.
pub open spec fn first_no_texts(entries: Seq<(Seq<char>, JsonView)>) -> Seq<char>
    decreases entries.len(),
{
    if entries.len() == 0 {
        Seq::empty()
    } else if texts_of(entries[0].1) is None {
        no_texts(entries[0].1)
    } else {
        first_no_texts(entries.skip(1))
    }
}

/// The input derivations of a derivation.
pub open spec fn parsed_input_drvs(value: JsonView) -> Result<
    Map<Seq<char>, Seq<Seq<char>>>,
    EventParseErrorView,
> {
    match field_of(value, "inputDrvs"@) {
        Some(JsonView::Object(fields)) => if forall|path: Seq<char>| #[trigger]
            fields.contains_key(path) ==> texts_of(fields[path]) is Some {
            Ok(fields.map_values(|names: JsonView| texts_of(names)->0))
        } else {
            Err(EventParseErrorView::BadInputDrvs(first_no_texts(listing(fields))))
        },
        _ => Ok(Map::empty()),
    }
}

/// The constituents of a derivation.
pub open spec fn parsed_constituents(value: JsonView) -> Result<
    Option<Seq<Seq<char>>>,
    EventParseErrorView,
> {
    match field_of(value, "constituents"@) {
        Some(field) => match taken_texts(field) {
            Ok(names) => Ok(Some(names)),
            Err(cause) => Err(EventParseErrorView::BadConstituents(cause)),
        },
        None => Ok(None),
    }
}

/// The derivation that a flat JSON value stands for.
pub open spec fn parsed_derivation(value: JsonView) -> Result<DerivationView, EventParseErrorView> {
    match (
        parsed_input_drvs(value),
        parsed_constituents(value),
        parsed_text(value, "attr"@),
        parsed_texts(value, "attrPath"@),
        parsed_text(value, "name"@),
        parsed_text(value, "system"@),
        parsed_text(value, "drvPath"@),
    ) {
        (Err(error), _, _, _, _, _, _) => Err(error),
        (_, Err(error), _, _, _, _, _) => Err(error),
        (_, _, Err(error), _, _, _, _) => Err(error),
        (_, _, _, Err(error), _, _, _) => Err(error),
        (_, _, _, _, Err(error), _, _) => Err(error),
        (_, _, _, _, _, Err(error), _) => Err(error),
        (_, _, _, _, _, _, Err(error)) => Err(error),
        (
            Ok(input_drvs),
            Ok(constituents),
            Ok(attr),
            Ok(attr_path),
            Ok(name),
            Ok(system),
            Ok(drv_path),
        ) => Ok(
            DerivationView {
                attr,
                attr_path,
                name,
                system,
                drv_path,
                outputs: parsed_outputs(value),
                meta: field_of(value, "meta"@),
                input_drvs,
                constituents,
                gc_root_error: match field_of(value, "gcRootError"@) {
                    Some(error) => text_of(error),
                    None => None,
                },
            },
        ),
    }
}

/// The event that a flat JSON value stands for: a derivation where it has a `.drv` path, an error
/// where it has one, and an expanded attrset otherwise.
pub open spec fn parsed_event(value: JsonView) -> Result<EventView, EventParseErrorView> {
    if field_of(value, "drvPath"@) is Some {
        match parsed_derivation(value) {
            Ok(drv) => Ok(EventView::Derivation(drv)),
            Err(error) => Err(error),
        }
    } else if field_of(value, "error"@) is Some {
        match (
            parsed_text(value, "attr"@),
            parsed_texts(value, "attrPath"@),
            parsed_text(value, "error"@),
        ) {
            (Err(error), _, _) => Err(error),
            (_, Err(error), _) => Err(error),
            (_, _, Err(error)) => Err(error),
            (Ok(attr), Ok(attr_path), Ok(error)) => Ok(
                EventView::Error(
                    EvalErrorView {
                        attr,
                        attr_path,
                        error,
                        fatal: field_of(value, "fatal"@) == Some(JsonView::Bool(true)),
                    },
                ),
            ),
        }
    } else {
        match (parsed_text(value, "attr"@), parsed_texts(value, "attrPath"@)) {
            (Err(error), _) => Err(error),
            (_, Err(error)) => Err(error),
            (Ok(attr), Ok(attr_path)) => Ok(
                EventView::AttrSet {
                    attr,
                    attr_path,
                    attrs: match parsed_texts(value, "attrs"@) {
                        Ok(attrs) => attrs,
                        Err(_) => Seq::empty(),
                    },
                },
            ),
        }
    }
}

/// The event that a line stands for.
pub open spec fn parsed_line(line: Seq<char>) -> Result<EventView, EventParseErrorView> {
    match json_read(line) {
        Ok(value) => parsed_event(value),
        Err(cause) => Err(EventParseErrorView::NotJson(cause)),
    }
}

fn find<'a>(entries: &'a Vec<(String, Json)>, name: &str) -> (found: Option<&'a Json>)
    ensures
        match found {
            Some(field) => map_of(entries.deep_view()).contains_pair(name@, field@),
            None => !map_of(entries.deep_view()).contains_key(name@),
        },
{
    let ghost all = entries.deep_view();
    let mut i: usize = entries.len();
    assert(all.take(i as int) =~= all);
    while i > 0
        invariant
            i <= entries@.len(),
            all == entries.deep_view(),
            map_of(all).contains_key(name@) == map_of(all.take(i as int)).contains_key(name@),
            map_of(all).contains_key(name@) ==> map_of(all)[name@] == map_of(
                all.take(i as int),
            )[name@],
        decreases i,
    {
        i -= 1;
        assert(all.take(i + 1).drop_last() =~= all.take(i as int));
        if same(entries[i].0.as_str(), name) {
            return Some(&entries[i].1);
        }
    }
    assert(all.take(0) =~= Seq::empty());
    None
}

/// The field of an object; other values have none.
pub fn field<'a>(value: &'a Json, name: &str) -> (found: Option<&'a Json>)
    ensures
        match found {
            Some(field) => field_of(value@, name@) == Some(field@),
            None => field_of(value@, name@) is None,
        },
{
    match value {
        Json::Object(entries) => {
            proof {
                Json::lemma_object(*entries);
            }
            find(entries, name)
        },
        _ => None,
    }
}

/// The string field of an object.
pub fn string_field(value: &Json, name: &str) -> (result: Result<String, EventParseError>)
    ensures
        match result {
            Ok(text) => parsed_text(value@, name@) == Ok::<_, EventParseErrorView>(text@),
            Err(error) => parsed_text(value@, name@) == Err::<Seq<char>, _>(error@),
        },
{
    match field(value, name) {
        Some(Json::Text(text)) => Ok(text.clone()),
        _ => Err(EventParseError::MissingText(name.to_owned())),
    }
}

/// The string list field of an object.
pub fn string_vec_field(value: &Json, name: &str) -> (result: Result<
    Vec<String>,
    EventParseError,
>)
    ensures
        match result {
            Ok(found) => parsed_texts(value@, name@) == Ok::<_, EventParseErrorView>(
                found.deep_view(),
            ),
            Err(error) => parsed_texts(value@, name@) == Err::<Seq<Seq<char>>, _>(error@),
        },
{
    match field(value, name) {
        Some(list) => match take_texts(list) {
            Ok(found) => Ok(found),
            Err(cause) => Err(EventParseError::BadTexts { name: name.to_owned(), cause }),
        },
        None => Err(EventParseError::MissingTexts(name.to_owned())),
    }
}

fn parse_outputs(value: &Json) -> (outputs: TextMap<Option<String>>)
    ensures
        outputs@ == parsed_outputs(value@),
{
    let mut outputs: TextMap<Option<String>> = KeyedMap::new();
    let entries = match field(value, "outputs") {
        Some(Json::Object(entries)) => entries,
        _ => return outputs,
    };
    let ghost all = entries.deep_view();
    let ghost f = |path: JsonView| text_of(path);
    proof {
        Json::lemma_object(*entries);
        assert(map_of(all.take(0)).map_values(f) =~= Map::empty());
    }
    let mut i: usize = 0;
    while i < entries.len()
        invariant
            all == entries.deep_view(),
            f == (|path: JsonView| text_of(path)),
            i <= entries@.len(),
            outputs@ == map_of(all.take(i as int)).map_values(f),
        decreases entries@.len() - i,
    {
        let path = match &entries[i].1 {
            Json::Text(path) => Some(path.clone()),
            _ => None,
        };
        outputs.insert(entries[i].0.clone(), path);
        proof {
            assert(path.deep_view() == text_of(all[i as int].1));
            assert(all.take(i + 1).drop_last() =~= all.take(i as int));
            assert(map_of(all.take(i + 1)).map_values(f) =~= map_of(all.take(i as int)).map_values(
                f,
            ).insert(all[i as int].0, text_of(all[i as int].1)));
        }
        i += 1;
    }
    assert(all.take(all.len() as int) =~= all);
    outputs
}

fn parse_input_drvs(value: &Json) -> (result: Result<TextMap<Vec<String>>, EventParseError>)
    ensures
        match result {
            Ok(drvs) => parsed_input_drvs(value@) == Ok::<_, EventParseErrorView>(drvs@),
            Err(error) => parsed_input_drvs(value@) == Err::<Map<Seq<char>, Seq<Seq<char>>>, _>(
                error@,
            ),
        },
{
    let mut drvs: TextMap<Vec<String>> = KeyedMap::new();
    let entries = match field(value, "inputDrvs") {
        Some(Json::Object(entries)) => entries,
        _ => return Ok(drvs),
    };
    let ghost all = entries.deep_view();
    let ghost fields = map_of(all);
    proof {
        Json::lemma_object(*entries);
    }
    let places = in_key_order(entries);
    let ghost listed = at_places(all, places@);
    let ghost g = |names: JsonView| texts_of(names)->0;
    assert(map_of(listed.take(0)).map_values(g) =~= Map::empty());
    assert(listed.skip(0) =~= listed);
    let mut k: usize = 0;
    while k < places.len()
        invariant
            all == entries.deep_view(),
            fields == map_of(all),
            listed == at_places(all, places@),
            listed == listing(fields),
            is_listing(listed, fields),
            map_of(listed) == fields,
            field_of(value@, "inputDrvs"@) == Some(JsonView::Object(fields)),
            forall|j: int| 0 <= j < places@.len() ==> (#[trigger] places@[j]) < entries@.len(),
            g == (|names: JsonView| texts_of(names)->0),
            k <= places@.len(),
            forall|j: int| 0 <= j < k ==> texts_of((#[trigger] listed[j]).1) is Some,
            first_no_texts(listed) == first_no_texts(listed.skip(k as int)),
            drvs@ == map_of(listed.take(k as int)).map_values(g),
        decreases places@.len() - k,
    {
        let entry = &entries[places[k]];
        proof {
            assert(listed[k as int] == all[places@[k as int] as int]);
            assert(all[places@[k as int] as int] == entry.deep_view());
            assert(listed.skip(k as int)[0] == listed[k as int]);
            assert(listed.skip(k as int).skip(1) =~= listed.skip(k + 1));
        }
        match take_texts(&entry.1) {
            Ok(names) => {
                drvs.insert(entry.0.clone(), names);
                proof {
                    assert(listed.take(k + 1).drop_last() =~= listed.take(k as int));
                    assert(map_of(listed.take(k + 1)).map_values(g) =~= map_of(
                        listed.take(k as int),
                    ).map_values(g).insert(listed[k as int].0, names.deep_view()));
                }
            },
            Err(cause) => {
                proof {
                    let at = listed[k as int].0;
                    assert(fields.contains_pair(at, listed[k as int].1));
                    assert(fields.contains_key(at) && texts_of(fields[at]) is None);
                }
                return Err(EventParseError::BadInputDrvs(cause));
            },
        }
        k += 1;
    }
    proof {
        assert(listed.take(listed.len() as int) =~= listed);
        assert forall|path: Seq<char>| #[trigger] fields.contains_key(path) implies texts_of(
            fields[path],
        ) is Some by {
            let j = lemma_map_of_key(listed, path);
            assert(texts_of(listed[j].1) is Some);
        }
        assert(drvs@ =~= fields.map_values(g));
    }
    Ok(drvs)
}

fn parse_constituents(value: &Json) -> (result: Result<Option<Vec<String>>, EventParseError>)
    ensures
        match result {
            Ok(names) => parsed_constituents(value@) == Ok::<_, EventParseErrorView>(
                names.deep_view(),
            ),
            Err(error) => parsed_constituents(value@) == Err::<Option<Seq<Seq<char>>>, _>(error@),
        },
{
    match field(value, "constituents") {
        Some(list) => match take_texts(list) {
            Ok(names) => Ok(Some(names)),
            Err(cause) => Err(EventParseError::BadConstituents(cause)),
        },
        None => Ok(None),
    }
}

/// Reads a derivation from its flat JSON.
pub fn parse_derivation(value: &Json) -> (result: Result<Derivation, EventParseError>)
    ensures
        match result {
            Ok(drv) => parsed_derivation(value@) == Ok::<_, EventParseErrorView>(drv@),
            Err(error) => parsed_derivation(value@) == Err::<DerivationView, _>(error@),
        },
{
    let outputs = parse_outputs(value);
    let input_drvs = match parse_input_drvs(value) {
        Ok(drvs) => drvs,
        Err(error) => return Err(error),
    };
    let constituents = match parse_constituents(value) {
        Ok(names) => names,
        Err(error) => return Err(error),
    };
    let attr = match string_field(value, "attr") {
        Ok(text) => text,
        Err(error) => return Err(error),
    };
    let attr_path = match string_vec_field(value, "attrPath") {
        Ok(names) => names,
        Err(error) => return Err(error),
    };
    let name = match string_field(value, "name") {
        Ok(text) => text,
        Err(error) => return Err(error),
    };
    let system = match string_field(value, "system") {
        Ok(text) => text,
        Err(error) => return Err(error),
    };
    let drv_path = match string_field(value, "drvPath") {
        Ok(text) => text,
        Err(error) => return Err(error),
    };
    let meta = match field(value, "meta") {
        Some(meta) => Some(meta.duplicate()),
        None => None,
    };
    let gc_root_error = match field(value, "gcRootError") {
        Some(Json::Text(error)) => Some(error.clone()),
        _ => None,
    };
    Ok(
        Derivation {
            attr,
            attr_path,
            name,
            system,
            drv_path,
            outputs,
            meta,
            input_drvs,
            constituents,
            gc_root_error,
        },
    )
}

/// Reads an event from its flat JSON.
pub fn parse_event_value(value: &Json) -> (result: Result<Event, EventParseError>)
    ensures
        match result {
            Ok(event) => parsed_event(value@) == Ok::<_, EventParseErrorView>(event@),
            Err(error) => parsed_event(value@) == Err::<EventView, _>(error@),
        },
{
    if field(value, "drvPath").is_some() {
        return match parse_derivation(value) {
            Ok(drv) => Ok(Event::Derivation(drv)),
            Err(error) => Err(error),
        };
    }
    let is_error = field(value, "error").is_some();
    let attr = match string_field(value, "attr") {
        Ok(text) => text,
        Err(error) => return Err(error),
    };
    let attr_path = match string_vec_field(value, "attrPath") {
        Ok(names) => names,
        Err(error) => return Err(error),
    };
    if is_error {
        let error = match string_field(value, "error") {
            Ok(text) => text,
            Err(error) => return Err(error),
        };
        let fatal = match field(value, "fatal") {
            Some(Json::Bool(fatal)) => *fatal,
            _ => false,
        };
        return Ok(Event::Error(EvalError { attr, attr_path, error, fatal }));
    }
    let attrs = match string_vec_field(value, "attrs") {
        Ok(names) => names,
        Err(_) => {
            let none: Vec<String> = Vec::new();
            assert(none.deep_view() =~= Seq::empty());
            none
        },
    };
    Ok(Event::AttrSet { attr, attr_path, attrs })
}

/// Reads an event from a line of flat JSON.
pub fn parse_event_line(line: &str) -> (result: Result<Event, EventParseError>)
    ensures
        match result {
            Ok(event) => parsed_line(line@) == Ok::<_, EventParseErrorView>(event@),
            Err(error) => parsed_line(line@) == Err::<EventView, _>(error@),
        },
{
    match read_json(line) {
        Ok(value) => parse_event_value(&value),
        Err(cause) => Err(EventParseError::NotJson(cause)),
    }
}

proof fn lemma_texts_json(texts: Seq<Seq<char>>)
    ensures
        texts_of(texts_json(texts)) == Some(texts),
{
    let items = texts_json(texts)->Array_0;
    assert forall|i: int| 0 <= i < items.len() implies (#[trigger] items[i]) is Text by {}
    assert(items.map_values(|item: JsonView| item->Text_0) =~= texts);
}

proof fn lemma_field_names()
    ensures
        ({
            &&& "attr"@.len() == 4
            &&& "name"@.len() == 4
            &&& "meta"@.len() == 4
            &&& "attr"@[0] == 'a'
            &&& "name"@[0] == 'n'
            &&& "meta"@[0] == 'm'
            &&& "attrs"@.len() == 5
            &&& "error"@.len() == 5
            &&& "fatal"@.len() == 5
            &&& "attrs"@[0] == 'a'
            &&& "error"@[0] == 'e'
            &&& "fatal"@[0] == 'f'
            &&& "system"@.len() == 6
            &&& "drvPath"@.len() == 7
            &&& "outputs"@.len() == 7
            &&& "drvPath"@[0] == 'd'
            &&& "outputs"@[0] == 'o'
            &&& "attrPath"@.len() == 8
            &&& "inputDrvs"@.len() == 9
            &&& "gcRootError"@.len() == 11
            &&& "constituents"@.len() == 12
        }),
{
    reveal_strlit("attr");
    reveal_strlit("name");
    reveal_strlit("meta");
    reveal_strlit("attrs");
    reveal_strlit("error");
    reveal_strlit("fatal");
    reveal_strlit("system");
    reveal_strlit("drvPath");
    reveal_strlit("outputs");
    reveal_strlit("attrPath");
    reveal_strlit("inputDrvs");
    reveal_strlit("gcRootError");
    reveal_strlit("constituents");
}

/// Reading the flat JSON of an event gives the event back.
pub proof fn law_event_json_reads_back(event: EventView)
    ensures
        parsed_event(event_json(event)) == Ok::<_, EventParseErrorView>(event),
{
    lemma_field_names();
    let value = event_json(event);
    match event {
        EventView::Derivation(drv) => {
            lemma_texts_json(drv.attr_path);
            if let Some(names) = drv.constituents {
                lemma_texts_json(names);
            }
            assert(parsed_outputs(value) =~= drv.outputs);
            assert(parsed_input_drvs(value) == Ok::<_, EventParseErrorView>(drv.input_drvs)) by {
                let fields = input_drvs_json(drv.input_drvs)->Object_0;
                assert forall|path: Seq<char>| #[trigger] fields.contains_key(path) implies texts_of(
                    fields[path],
                ) == Some(drv.input_drvs[path]) by {
                    lemma_texts_json(drv.input_drvs[path]);
                }
                assert(fields.map_values(|names: JsonView| texts_of(names)->0) =~= drv.input_drvs);
            }
            assert(parsed_derivation(value) == Ok::<_, EventParseErrorView>(drv));
        },
        EventView::AttrSet { attr, attr_path, attrs } => {
            lemma_texts_json(attr_path);
            lemma_texts_json(attrs);
        },
        EventView::Error(error) => {
            lemma_texts_json(error.attr_path);
        },
    }
}

/// An event as a line of flat JSON. Where the line's JSON can be read back, reading the line as an
/// event gives the event.
pub fn event_line(event: &Event) -> (line: String)
    ensures
        line@ == json_text(event_json(event@)),
        !line@.contains('\n'),
        reads_back(event_json(event@)) ==> parsed_line(line@) == Ok::<_, EventParseErrorView>(
            event@,
        ),
{
    proof {
        law_event_json_reads_back(event@);
    }
    write_json(&event_value(event))
}

/// The fields of a derivation's JSON, each under its name: the first six always, the others where
/// there is something to tell.
pub proof fn law_derivation_fields(drv: DerivationView, printed: bool)
    ensures
        ({
            let value = if printed {
                printed_json(EventView::Derivation(drv))
            } else {
                event_json(EventView::Derivation(drv))
            };
            &&& value is Object
            &&& field_of(value, "attr"@) == Some(JsonView::Text(drv.attr))
            &&& field_of(value, "attrPath"@) == Some(texts_json(drv.attr_path))
            &&& field_of(value, "name"@) == Some(JsonView::Text(drv.name))
            &&& field_of(value, "system"@) == Some(JsonView::Text(drv.system))
            &&& field_of(value, "drvPath"@) == Some(JsonView::Text(drv.drv_path))
            &&& field_of(value, "outputs"@) == Some(outputs_json(drv.outputs))
            &&& field_of(value, "meta"@) == drv.meta
            &&& field_of(value, "inputDrvs"@) == (if drv.input_drvs == Map::<
                Seq<char>,
                Seq<Seq<char>>,
            >::empty() {
                None
            } else {
                Some(input_drvs_json(drv.input_drvs))
            })
            &&& drv.constituents is Some ==> field_of(value, "constituents"@) == Some(
                texts_json(drv.constituents->0),
            )
            &&& drv.constituents is None ==> field_of(value, "constituents"@) is None
            &&& drv.gc_root_error is Some && !printed ==> field_of(value, "gcRootError"@) == Some(
                JsonView::Text(drv.gc_root_error->0),
            )
            &&& drv.gc_root_error is None || printed ==> field_of(value, "gcRootError"@) is None
            &&& field_of(value, "error"@) is None
            &&& field_of(value, "attrs"@) is None
        }),
{
    lemma_field_names();
}

/// Output paths are written by output name: a string where there is a path, `null` where there is
/// none, and nothing else.
pub proof fn law_outputs_are_written(outputs: Map<Seq<char>, Option<Seq<char>>>, name: Seq<char>)
    ensures
        outputs_json(outputs) is Object,
        field_of(outputs_json(outputs), name) is Some <==> outputs.contains_key(name),
        outputs.contains_key(name) && outputs[name] is Some ==> field_of(
            outputs_json(outputs),
            name,
        ) == Some(JsonView::Text(outputs[name]->0)),
        outputs.contains_key(name) && outputs[name] is None ==> field_of(
            outputs_json(outputs),
            name,
        ) == Some(JsonView::Null),
{
}

/// Input derivations are written by their paths, each as the list of its output names.
pub proof fn law_input_drvs_are_written(drvs: Map<Seq<char>, Seq<Seq<char>>>, path: Seq<char>)
    ensures
        input_drvs_json(drvs) is Object,
        field_of(input_drvs_json(drvs), path) is Some <==> drvs.contains_key(path),
        drvs.contains_key(path) ==> texts_of(field_of(input_drvs_json(drvs), path)->0) == Some(
            drvs[path],
        ),
{
    if drvs.contains_key(path) {
        lemma_texts_json(drvs[path]);
    }
}

/// A list of texts is written as an array of strings, one for each.
pub proof fn law_texts_are_written(texts: Seq<Seq<char>>, i: int)
    ensures
        texts_json(texts) is Array,
        texts_json(texts)->Array_0.len() == texts.len(),
        0 <= i < texts.len() ==> texts_json(texts)->Array_0[i] == JsonView::Text(texts[i]),
{
}

/// The fields of an expanded attrset's JSON.
pub proof fn law_attr_set_fields(
    attr: Seq<char>,
    attr_path: Seq<Seq<char>>,
    attrs: Seq<Seq<char>>,
)
    ensures
        ({
            let value = event_json(EventView::AttrSet { attr, attr_path, attrs });
            &&& value is Object
            &&& field_of(value, "attr"@) == Some(JsonView::Text(attr))
            &&& field_of(value, "attrPath"@) == Some(texts_json(attr_path))
            &&& field_of(value, "attrs"@) == Some(texts_json(attrs))
            &&& field_of(value, "drvPath"@) is None
            &&& field_of(value, "error"@) is None
        }),
        printed_json(EventView::AttrSet { attr, attr_path, attrs }) == event_json(
            EventView::AttrSet { attr, attr_path, attrs },
        ),
{
    lemma_field_names();
}

/// The fields of an evaluation error's JSON.
pub proof fn law_error_fields(error: EvalErrorView)
    ensures
        ({
            let value = event_json(EventView::Error(error));
            &&& value is Object
            &&& field_of(value, "attr"@) == Some(JsonView::Text(error.attr))
            &&& field_of(value, "attrPath"@) == Some(texts_json(error.attr_path))
            &&& field_of(value, "error"@) == Some(JsonView::Text(error.error))
            &&& field_of(value, "fatal"@) == Some(JsonView::Bool(error.fatal))
            &&& field_of(value, "drvPath"@) is None
        }),
        printed_json(EventView::Error(error)) == event_json(EventView::Error(error)),
{
    lemma_field_names();
}

/// The one-shot command line prints every event so that it is read back as it was, but for the error
/// of registering a GC root, which is left out.
pub proof fn law_printed_events_read_back(event: EventView)
    ensures
        parsed_event(printed_json(event)) == Ok::<_, EventParseErrorView>(
            match event {
                EventView::Derivation(drv) => EventView::Derivation(
                    DerivationView { gc_root_error: None, ..drv },
                ),
                _ => event,
            },
        ),
{
    match event {
        EventView::Derivation(drv) => {
            let bare = DerivationView { gc_root_error: None, ..drv };
            law_event_json_reads_back(EventView::Derivation(bare));
            assert(printed_json(event) == event_json(EventView::Derivation(bare)));
        },
        _ => {
            law_event_json_reads_back(event);
        },
    }
}

/// The JSON of a diff tells the whole diff: its `added` and `removed` are arrays as long as the
/// diff's lists, and each item, read as an event, is the derivation at its place; its `errors` is
/// an array as long as the diff's list, and each item tells its error field by field.
pub proof fn law_diff_json_reads_back(diff: DiffView, i: int)
    ensures
        ({
            let value = diff_json(diff);
            let added = field_of(value, "added"@);
            let removed = field_of(value, "removed"@);
            let errors = field_of(value, "errors"@);
            &&& added is Some && added->0 is Array && added->0->Array_0.len() == diff.added.len()
            &&& removed is Some && removed->0 is Array && removed->0->Array_0.len()
                == diff.removed.len()
            &&& errors is Some && errors->0 is Array && errors->0->Array_0.len()
                == diff.errors.len()
            &&& 0 <= i < diff.added.len() ==> parsed_event(added->0->Array_0[i]) == Ok::<
                _,
                EventParseErrorView,
            >(EventView::Derivation(diff.added[i]))
            &&& 0 <= i < diff.removed.len() ==> parsed_event(removed->0->Array_0[i]) == Ok::<
                _,
                EventParseErrorView,
            >(EventView::Derivation(diff.removed[i]))
            &&& 0 <= i < diff.errors.len() ==> {
                let item = errors->0->Array_0[i];
                let error = diff.errors[i];
                &&& field_of(item, "attr"@) == Some(JsonView::Text(error.attr))
                &&& field_of(item, "attr_path"@) == Some(texts_json(error.attr_path))
                &&& field_of(item, "error"@) == Some(JsonView::Text(error.error))
                &&& field_of(item, "fatal"@) == Some(JsonView::Bool(error.fatal))
            }
        }),
{
    reveal_strlit("added");
    reveal_strlit("removed");
    reveal_strlit("errors");
    reveal_strlit("attr_path");
    lemma_field_names();
    let value = diff_json(diff);
    assert("added"@.len() == 5 && "removed"@.len() == 7 && "errors"@.len() == 6);
    assert(field_of(value, "added"@) == Some(
        JsonView::Array(diff.added.map_values(|drv: DerivationView| derivation_json(drv))),
    ));
    assert(field_of(value, "removed"@) == Some(
        JsonView::Array(diff.removed.map_values(|drv: DerivationView| derivation_json(drv))),
    ));
    assert(field_of(value, "errors"@) == Some(
        JsonView::Array(diff.errors.map_values(|error: EvalErrorView| diff_error_json(error))),
    ));
    if 0 <= i < diff.errors.len() {
        let item = diff_error_json(diff.errors[i]);
        assert("attr_path"@.len() == 9);
        assert(field_of(item, "attr"@) == Some(JsonView::Text(diff.errors[i].attr)));
        assert(field_of(item, "attr_path"@) == Some(texts_json(diff.errors[i].attr_path)));
    }
    if 0 <= i < diff.added.len() {
        law_event_json_reads_back(EventView::Derivation(diff.added[i]));
    }
    if 0 <= i < diff.removed.len() {
        law_event_json_reads_back(EventView::Derivation(diff.removed[i]));
    }
}

/// Different diffs have different JSON.
pub proof fn law_diff_json_tells_diffs_apart(one: DiffView, two: DiffView)
    requires
        diff_json(one) == diff_json(two),
    ensures
        one == two,
{
    law_diff_json_reads_back(one, 0);
    law_diff_json_reads_back(two, 0);
    assert forall|i: int| 0 <= i < one.added.len() implies one.added[i] == two.added[i] by {
        law_diff_json_reads_back(one, i);
        law_diff_json_reads_back(two, i);
    }
    assert forall|i: int| 0 <= i < one.removed.len() implies one.removed[i] == two.removed[i] by {
        law_diff_json_reads_back(one, i);
        law_diff_json_reads_back(two, i);
    }
    assert forall|i: int| 0 <= i < one.errors.len() implies one.errors[i] == two.errors[i] by {
        law_diff_json_reads_back(one, i);
        law_diff_json_reads_back(two, i);
        lemma_texts_json(one.errors[i].attr_path);
        lemma_texts_json(two.errors[i].attr_path);
    }
    assert(one.added =~= two.added);
    assert(one.removed =~= two.removed);
    assert(one.errors =~= two.errors);
}

/// What is read from JSON is what its fields hold: an object with a `.drv` path is read as a
/// derivation, one with an error as that error, any other as an attrset.
pub proof fn law_events_are_what_their_fields_hold(value: JsonView)
    requires
        parsed_event(value) is Ok,
    ensures
        ({
            let event = parsed_event(value)->Ok_0;
            &&& field_of(value, "attr"@) == Some(JsonView::Text(event.attr()))
            &&& field_of(value, "attrPath"@) is Some && texts_of(field_of(value, "attrPath"@)->0)
                == Some(event.attr_path())
            &&& event is Derivation <==> field_of(value, "drvPath"@) is Some
            &&& event is Error <==> field_of(value, "drvPath"@) is None && field_of(
                value,
                "error"@,
            ) is Some
            &&& event matches EventView::Derivation(drv) ==> {
                &&& field_of(value, "name"@) == Some(JsonView::Text(drv.name))
                &&& field_of(value, "system"@) == Some(JsonView::Text(drv.system))
                &&& field_of(value, "drvPath"@) == Some(JsonView::Text(drv.drv_path))
                &&& drv.meta == field_of(value, "meta"@)
                &&& drv.constituents is Some <==> field_of(value, "constituents"@) is Some
                &&& drv.constituents is Some ==> texts_of(field_of(value, "constituents"@)->0)
                    == drv.constituents
                &&& drv.gc_root_error is Some <==> field_of(value, "gcRootError"@) is Some
                    && field_of(value, "gcRootError"@)->0 is Text
                &&& drv.gc_root_error is Some ==> field_of(value, "gcRootError"@) == Some(
                    JsonView::Text(drv.gc_root_error->0),
                )
            }
            &&& event matches EventView::Error(error) ==> {
                &&& field_of(value, "error"@) == Some(JsonView::Text(error.error))
                &&& error.fatal <==> field_of(value, "fatal"@) == Some(JsonView::Bool(true))
            }
            &&& event matches EventView::AttrSet { attrs, .. } ==> attrs == (match field_of(
                value,
                "attrs"@,
            ) {
                Some(JsonView::Array(items)) => if texts_of(JsonView::Array(items)) is Some {
                    texts_of(JsonView::Array(items))->0
                } else {
                    Seq::empty()
                },
                _ => Seq::empty(),
            })
        }),
{
}

/// The outputs and input derivations of a derivation are read entry by entry.
pub proof fn law_outputs_and_inputs_are_read(value: JsonView, name: Seq<char>)
    requires
        parsed_event(value) is Ok,
        parsed_event(value)->Ok_0 is Derivation,
    ensures
        ({
            let drv = parsed_event(value)->Ok_0->Derivation_0;
            let outputs = field_of(value, "outputs"@);
            let inputs = field_of(value, "inputDrvs"@);
            &&& drv.outputs.contains_key(name) <==> outputs is Some && field_of(
                outputs->0,
                name,
            ) is Some
            &&& drv.outputs.contains_key(name) ==> drv.outputs[name] == text_of(
                field_of(outputs->0, name)->0,
            )
            &&& drv.input_drvs.contains_key(name) <==> inputs is Some && field_of(
                inputs->0,
                name,
            ) is Some
            &&& drv.input_drvs.contains_key(name) ==> texts_of(field_of(inputs->0, name)->0) == Some(
                drv.input_drvs[name],
            )
        }),
{
}

/// An event is read wherever the fields that it needs have their form; what is left out or has
/// another form is named.
pub proof fn law_bad_events_are_refused(value: JsonView)
    ensures
        field_of(value, "drvPath"@) is None ==> {
            &&& !(field_of(value, "attr"@) is Some && field_of(value, "attr"@)->0 is Text)
                ==> parsed_event(value) == Err::<EventView, _>(
                EventParseErrorView::MissingText("attr"@),
            )
            &&& field_of(value, "attr"@) is Some && field_of(value, "attr"@)->0 is Text && field_of(
                value,
                "attrPath"@,
            ) is None ==> parsed_event(value) == Err::<EventView, _>(
                EventParseErrorView::MissingTexts("attrPath"@),
            )
            &&& field_of(value, "attr"@) is Some && field_of(value, "attr"@)->0 is Text && field_of(
                value,
                "attrPath"@,
            ) is Some && texts_of(field_of(value, "attrPath"@)->0) is Some && (field_of(
                value,
                "error"@,
            ) is None || field_of(value, "error"@)->0 is Text) ==> parsed_event(value) is Ok
        },
        field_of(value, "drvPath"@) is Some ==> (parsed_event(value) is Ok <==> {
            &&& field_of(value, "drvPath"@)->0 is Text
            &&& field_of(value, "attr"@) is Some && field_of(value, "attr"@)->0 is Text
            &&& field_of(value, "name"@) is Some && field_of(value, "name"@)->0 is Text
            &&& field_of(value, "system"@) is Some && field_of(value, "system"@)->0 is Text
            &&& field_of(value, "attrPath"@) is Some && texts_of(
                field_of(value, "attrPath"@)->0,
            ) is Some
            &&& field_of(value, "constituents"@) is Some ==> texts_of(
                field_of(value, "constituents"@)->0,
            ) is Some
            &&& field_of(value, "inputDrvs"@) is Some && field_of(value, "inputDrvs"@)->0 is Object
                ==> forall|path: Seq<char>| #[trigger]
                (field_of(value, "inputDrvs"@)->0->Object_0).contains_key(path) ==> texts_of(
                    (field_of(value, "inputDrvs"@)->0->Object_0)[path],
                ) is Some
        }),
{
}

/// An event without `meta` can always be written as a line and read back; so can one whose `meta`
/// nests at most one level less than lines are read, and has no number with a fraction.
pub proof fn law_events_survive_the_line(event: EventView)
    requires
        event matches EventView::Derivation(drv) ==> (drv.meta matches Some(meta) ==> nests_within(
            meta,
            126,
        ) && whole_numbers(meta, 126)),
    ensures
        reads_back(event_json(event)),
{
    lemma_field_names();
    let fields = event_json(event)->Object_0;
    assert forall|key: Seq<char>| fields.contains_key(key) implies nests_within(
        #[trigger] fields[key],
        126,
    ) && whole_numbers(fields[key], 126) by {
        match event {
            EventView::Derivation(drv) => {
                lemma_texts_nest(drv.attr_path);
                if let Some(names) = drv.constituents {
                    lemma_texts_nest(names);
                }
                lemma_outputs_nest(drv.outputs);
                lemma_inputs_nest(drv.input_drvs);
            },
            EventView::AttrSet { attr_path, attrs, .. } => {
                lemma_texts_nest(attr_path);
                lemma_texts_nest(attrs);
            },
            EventView::Error(error) => {
                lemma_texts_nest(error.attr_path);
            },
        }
    }
}

proof fn lemma_texts_nest(texts: Seq<Seq<char>>)
    ensures
        nests_within(texts_json(texts), 126),
        whole_numbers(texts_json(texts), 126),
        nests_within(texts_json(texts), 125),
        whole_numbers(texts_json(texts), 125),
{
    let items = texts_json(texts)->Array_0;
    assert forall|i: int| 0 <= i < items.len() implies nests_within(#[trigger] items[i], 125)
        && whole_numbers(items[i], 125) && nests_within(items[i], 124) && whole_numbers(
        items[i],
        124,
    ) by {}
}

proof fn lemma_outputs_nest(outputs: Map<Seq<char>, Option<Seq<char>>>)
    ensures
        nests_within(outputs_json(outputs), 126),
        whole_numbers(outputs_json(outputs), 126),
{
    let fields = outputs_json(outputs)->Object_0;
    assert forall|key: Seq<char>| fields.contains_key(key) implies nests_within(
        #[trigger] fields[key],
        125,
    ) && whole_numbers(fields[key], 125) by {}
}

proof fn lemma_inputs_nest(drvs: Map<Seq<char>, Seq<Seq<char>>>)
    ensures
        nests_within(input_drvs_json(drvs), 126),
        whole_numbers(input_drvs_json(drvs), 126),
{
    let fields = input_drvs_json(drvs)->Object_0;
    assert forall|key: Seq<char>| fields.contains_key(key) implies nests_within(
        #[trigger] fields[key],
        125,
    ) && whole_numbers(fields[key], 125) by {
        lemma_texts_nest(drvs[key]);
    }
}

/// Why an event cannot be read is told in words that name the field, with what is behind it.
pub proof fn law_event_errors_are_told(name: Seq<char>, cause: Seq<char>)
    ensures
        EventParseErrorView::NotJson(cause).message() == "parsing event line"@,
        EventParseErrorView::NotJson(cause).cause() == Some(cause),
        EventParseErrorView::MissingText(name).message() == "missing string field \""@ + name
            + "\""@,
        EventParseErrorView::MissingText(name).cause() is None,
        EventParseErrorView::MissingTexts(name).message() == "missing string list field \""@ + name
            + "\""@,
        EventParseErrorView::MissingTexts(name).cause() is None,
        (EventParseErrorView::BadTexts { name, cause }).message() == "parsing field \""@ + name
            + "\""@,
        (EventParseErrorView::BadTexts { name, cause }).cause() == Some(cause),
        EventParseErrorView::BadInputDrvs(cause).message() == "parsing inputDrvs"@,
        EventParseErrorView::BadInputDrvs(cause).cause() == Some(cause),
        EventParseErrorView::BadConstituents(cause).message() == "parsing constituents"@,
        EventParseErrorView::BadConstituents(cause).cause() == Some(cause),
{
}

/// What is said of values is said of the first that is no list of strings.
pub proof fn law_first_bad_value_is_told(entries: Seq<(Seq<char>, JsonView)>, k: int)
    requires
        0 <= k < entries.len(),
        texts_of(entries[k].1) is None,
        forall|i: int| 0 <= i < k ==> texts_of((#[trigger] entries[i]).1) is Some,
    ensures
        first_no_texts(entries) == no_texts(entries[k].1),
    decreases k,
{
    if k > 0 {
        let rest = entries.skip(1);
        assert(texts_of(entries[0].1) is Some);
        assert forall|i: int| 0 <= i < k - 1 implies texts_of((#[trigger] rest[i]).1) is Some by {
            assert(rest[i] == entries[i + 1]);
        }
        law_first_bad_value_is_told(rest, k - 1);
    }
}

} // verus!
