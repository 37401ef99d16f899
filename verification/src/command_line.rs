//! The words of the `evix` command line: grouping the values of options that take several, and
//! sorting words into the subcommand and its options.

use vstd::prelude::*;
use vstd::string::*;

use crate::text::{
    chars_of, contains_char, decimal, halves, is_digit, join, joined, law_halves,
    law_joined_parts_are_pieces, number_text, pieces, same, split_once, starts_with, text_between,
};

verus! {

broadcast use vstd::string::group_string_axioms;

/// Separates the values of an option that takes several.
pub const PACK_SEP: char = '\x1f';

/// The subcommands.
#[derive(Clone, Copy, PartialEq, Eq, Structural, Debug)]
pub enum Verb {
    Eval,
    Watch,
    Query,
    Diff,
    Daemon,
    Worker,
}

/// Whether an option takes a value.
#[derive(Clone, Copy, PartialEq, Eq, Structural, Debug)]
pub enum Shape {
    Switch,
    Valued,
}

/// Why a command line is not carried out.
#[derive(Debug)]
pub enum PlanError {
    /// Help was asked for.
    Help,
    /// The version was asked for.
    Version,
    /// An option that takes several values has too few.
    TooFewValues { flag: String, arity: usize },
    /// A value of an option that takes several holds the separator.
    HoldsSeparator,
    /// No option has this spelling.
    Unknown(String),
    /// An option that takes a value has none.
    MissingValue(String),
    /// An option that takes no value has one.
    UnexpectedValue(String),
    /// A word is neither an option nor a subcommand.
    UnexpectedWord(String),
    /// No subcommand has this name.
    UnknownVerb(String),
    /// There is no subcommand.
    MissingVerb,
    /// A required option is missing.
    MissingOption(String),
    /// Two options exclude each other.
    Conflict { first: String, second: String },
    /// No input is given.
    MissingInput,
    /// A value does not have the form that its option asks for.
    BadValue { option: String, value: String, reason: String },
    /// There is not exactly one input.
    NotOneInput,
    /// The input of a watch is an inline expression.
    WatchesExpr,
}

pub enum PlanErrorView {
    Help,
    Version,
    TooFewValues { flag: Seq<char>, arity: nat },
    HoldsSeparator,
    Unknown(Seq<char>),
    MissingValue(Seq<char>),
    UnexpectedValue(Seq<char>),
    UnexpectedWord(Seq<char>),
    UnknownVerb(Seq<char>),
    MissingVerb,
    MissingOption(Seq<char>),
    Conflict { first: Seq<char>, second: Seq<char> },
    MissingInput,
    BadValue { option: Seq<char>, value: Seq<char>, reason: Seq<char> },
    NotOneInput,
    WatchesExpr,
}

impl View for PlanError {
    type V = PlanErrorView;

    open spec fn view(&self) -> PlanErrorView {
        match self {
            PlanError::Help => PlanErrorView::Help,
            PlanError::Version => PlanErrorView::Version,
            PlanError::TooFewValues { flag, arity } => PlanErrorView::TooFewValues {
                flag: flag@,
                arity: *arity as nat,
            },
            PlanError::HoldsSeparator => PlanErrorView::HoldsSeparator,
            PlanError::Unknown(arg) => PlanErrorView::Unknown(arg@),
            PlanError::MissingValue(arg) => PlanErrorView::MissingValue(arg@),
            PlanError::UnexpectedValue(arg) => PlanErrorView::UnexpectedValue(arg@),
            PlanError::UnexpectedWord(word) => PlanErrorView::UnexpectedWord(word@),
            PlanError::UnknownVerb(word) => PlanErrorView::UnknownVerb(word@),
            PlanError::MissingVerb => PlanErrorView::MissingVerb,
            PlanError::MissingOption(arg) => PlanErrorView::MissingOption(arg@),
            PlanError::Conflict { first, second } => PlanErrorView::Conflict {
                first: first@,
                second: second@,
            },
            PlanError::MissingInput => PlanErrorView::MissingInput,
            PlanError::BadValue { option, value, reason } => PlanErrorView::BadValue {
                option: option@,
                value: value@,
                reason: reason@,
            },
            PlanError::NotOneInput => PlanErrorView::NotOneInput,
            PlanError::WatchesExpr => PlanErrorView::WatchesExpr,
        }
    }
}

impl PlanErrorView {
    /// The error in words.
    pub open spec fn message(self) -> Seq<char> {
        match self {
            PlanErrorView::Help => "help requested"@,
            PlanErrorView::Version => "version requested"@,
            PlanErrorView::TooFewValues { flag, arity } => flag + " requires "@ + decimal(arity)
                + " values"@,
            PlanErrorView::HoldsSeparator => {
                "argument values cannot contain ASCII unit separator"@
            },
            PlanErrorView::Unknown(arg) => "unrecognized argument '"@ + arg + "'"@,
            PlanErrorView::MissingValue(arg) => "'"@ + arg + "' needs a value"@,
            PlanErrorView::UnexpectedValue(arg) => "'"@ + arg + "' does not take a value"@,
            PlanErrorView::UnexpectedWord(word) => "unexpected argument '"@ + word + "'"@,
            PlanErrorView::UnknownVerb(word) => "unknown subcommand '"@ + word + "'"@,
            PlanErrorView::MissingVerb => "a subcommand is required"@,
            PlanErrorView::MissingOption(arg) => "missing required argument "@ + arg,
            PlanErrorView::Conflict { first, second } => first + " and "@ + second
                + " cannot be used together (input)"@,
            PlanErrorView::MissingInput => {
                "one of --flake, --expr, --file is required (input)"@
            },
            PlanErrorView::BadValue { option, value, reason } => "invalid value '"@ + value
                + "' for "@ + option + ": "@ + reason,
            PlanErrorView::NotOneInput => {
                "exactly one of --flake, --expr, or --file is required"@
            },
            PlanErrorView::WatchesExpr => "watch requires --flake or --file input"@,
        }
    }
}

impl PlanError {
    /// The error in words.
    pub fn message(&self) -> (text: String)
        ensures
            text@ == self@.message(),
    {
        match self {
            PlanError::Help => "help requested".to_owned(),
            PlanError::Version => "version requested".to_owned(),
            PlanError::TooFewValues { flag, arity } => flag.clone().concat(" requires ").concat(
                number_text(*arity).as_str(),
            ).concat(" values"),
            PlanError::HoldsSeparator => {
                "argument values cannot contain ASCII unit separator".to_owned()
            },
            PlanError::Unknown(arg) => "unrecognized argument '".to_owned().concat(
                arg.as_str(),
            ).concat("'"),
            PlanError::MissingValue(arg) => "'".to_owned().concat(arg.as_str()).concat(
                "' needs a value",
            ),
            PlanError::UnexpectedValue(arg) => "'".to_owned().concat(arg.as_str()).concat(
                "' does not take a value",
            ),
            PlanError::UnexpectedWord(word) => "unexpected argument '".to_owned().concat(
                word.as_str(),
            ).concat("'"),
            PlanError::UnknownVerb(word) => "unknown subcommand '".to_owned().concat(
                word.as_str(),
            ).concat("'"),
            PlanError::MissingVerb => "a subcommand is required".to_owned(),
            PlanError::MissingOption(arg) => "missing required argument ".to_owned().concat(
                arg.as_str(),
            ),
            PlanError::Conflict { first, second } => first.clone().concat(" and ").concat(
                second.as_str(),
            ).concat(" cannot be used together (input)"),
            PlanError::MissingInput => {
                "one of --flake, --expr, --file is required (input)".to_owned()
            },
            PlanError::BadValue { option, value, reason } => "invalid value '".to_owned().concat(
                value.as_str(),
            ).concat("' for ").concat(option.as_str()).concat(": ").concat(reason.as_str()),
            PlanError::NotOneInput => {
                "exactly one of --flake, --expr, or --file is required".to_owned()
            },
            PlanError::WatchesExpr => "watch requires --flake or --file input".to_owned(),
        }
    }
}

/// How many values an option takes that takes several.
pub open spec fn arity_of(flag: Seq<char>) -> Option<nat> {
    if flag == "--arg"@ || flag == "--argstr"@ || flag == "--override-input"@ || flag
        == "--option"@ {
        Some(2)
    } else if flag == "--remote"@ {
        Some(3)
    } else {
        None
    }
}

/// How many values an option takes that takes several.
pub fn packed_arity(flag: &str) -> (arity: Option<usize>)
    ensures
        match arity {
            Some(n) => arity_of(flag@) == Some(n as nat) && n >= 2,
            None => arity_of(flag@) is None,
        },
{
    if same(flag, "--arg") || same(flag, "--argstr") || same(flag, "--override-input") || same(
        flag,
        "--option",
    ) {
        Some(2)
    } else if same(flag, "--remote") {
        Some(3)
    } else {
        None
    }
}

/// Several values as one: joined by the separator, which none of them may hold.
pub open spec fn packed(values: Seq<Seq<char>>) -> Result<Seq<char>, PlanErrorView> {
    if exists|i: int| 0 <= i < values.len() && (#[trigger] values[i]).contains(PACK_SEP) {
        Err(PlanErrorView::HoldsSeparator)
    } else {
        Ok(joined(values, seq![PACK_SEP]))
    }
}

/// Joins several values by the separator, which none of them may hold.
pub fn pack(values: &Vec<String>) -> (result: Result<String, PlanError>)
    ensures
        match result {
            Ok(text) => packed(values.deep_view()) == Ok::<_, PlanErrorView>(text@),
            Err(error) => packed(values.deep_view()) == Err::<Seq<char>, _>(error@),
        },
{
    let mut i: usize = 0;
    while i < values.len()
        invariant
            i <= values@.len(),
            forall|j: int|
                0 <= j < i ==> !(#[trigger] values.deep_view()[j]).contains(PACK_SEP),
        decreases values@.len() - i,
    {
        if contains_char(values[i].as_str(), PACK_SEP) {
            assert(values.deep_view()[i as int].contains(PACK_SEP));
            return Err(PlanError::HoldsSeparator);
        }
        i += 1;
    }
    let mut sep = String::new();
    sep.push(PACK_SEP);
    assert(sep@ =~= seq![PACK_SEP]);
    Ok(join(values, sep.as_str()))
}

/// The values of an option that takes `arity` of them: `first` where it is written behind the
/// option's equals sign, and the words that follow the option.
pub open spec fn collected(
    words: Seq<Seq<char>>,
    flag: Seq<char>,
    arity: nat,
    first: Option<Seq<char>>,
) -> Result<Seq<Seq<char>>, PlanErrorView> {
    let written = match first {
        Some(value) => seq![value],
        None => Seq::empty(),
    };
    let wanted = arity - written.len();
    if words.len() - 1 < wanted {
        Err(PlanErrorView::TooFewValues { flag, arity })
    } else {
        Ok(written + words.subrange(1, 1 + wanted))
    }
}

/// How many words an option and its values are.
pub open spec fn words_taken(arity: nat, first: Option<Seq<char>>) -> int {
    match first {
        Some(_) => arity as int,
        None => arity as int + 1,
    }
}

/// Collects the values of the option at place `index`, and moves on to the word behind them; where
/// the words run out, to the end.
pub fn collect_packed_values(
    args: &Vec<String>,
    index: &mut usize,
    flag: &str,
    arity: usize,
    first: Option<String>,
) -> (result: Result<Vec<String>, PlanError>)
    requires
        *old(index) < args@.len(),
        arity >= 1,
    ensures
        match result {
            Ok(values) => collected(
                args.deep_view().skip(*old(index) as int),
                flag@,
                arity as nat,
                first.deep_view(),
            ) == Ok::<_, PlanErrorView>(values.deep_view()) && *final(index) == *old(index)
                + words_taken(arity as nat, first.deep_view()),
            Err(error) => collected(
                args.deep_view().skip(*old(index) as int),
                flag@,
                arity as nat,
                first.deep_view(),
            ) == Err::<Seq<Seq<char>>, _>(error@) && *final(index) == args@.len(),
        },
{
    let ghost start = *index as int;
    let ghost words = args.deep_view().skip(start);
    let ghost given = first.deep_view();
    let mut values: Vec<String> = Vec::new();
    let ghost mut written = Seq::<Seq<char>>::empty();
    assert(values.deep_view() =~= written);
    if let Some(value) = first {
        let ghost text = value@;
        values.push(value);
        proof {
            written = seq![text];
        }
        assert(values.deep_view() =~= written);
    }
    assert(written + words.subrange(1, 1) =~= written);
    let count: usize = args.len();
    while values.len() < arity
        invariant
            count == args@.len(),
            start == *old(index),
            words == args.deep_view().skip(start),
            given == first.deep_view(),
            written == (match given {
                Some(value) => seq![value],
                None => Seq::empty(),
            }),
            start <= *index < args@.len(),
            written.len() <= values@.len() <= arity,
            *index - start == values@.len() - written.len(),
            values.deep_view() == written + words.subrange(1, 1 + *index - start),
        ensures
            values@.len() == arity,
            *index - start == arity - written.len(),
            values.deep_view() == written + words.subrange(1, 1 + *index - start),
            start <= *index < args@.len(),
        decreases arity - values@.len(),
    {
        *index += 1;
        if *index >= count {
            return Err(PlanError::TooFewValues { flag: flag.to_owned(), arity });
        }
        let ghost at = *index as int;
        let ghost before = values.deep_view();
        values.push(args[*index].clone());
        assert(words.subrange(1, at - start).push(words[at - start]) =~= words.subrange(
            1,
            1 + at - start,
        ));
        assert(values.deep_view() =~= before.push(words[at - start]));
        assert(before.push(words[at - start]) =~= written + words.subrange(1, 1 + at - start));
    }
    *index += 1;
    Ok(values)
}

/// The words with the values of each option that takes several packed into one word, behind an
/// equals sign.
pub open spec fn normalized(words: Seq<Seq<char>>) -> Result<Seq<Seq<char>>, PlanErrorView>
    decreases words.len(),
{
    if words.len() == 0 {
        Ok(Seq::empty())
    } else {
        let (flag, first) = match halves(words[0], '=') {
            Some((flag, first)) if arity_of(flag) is Some => (flag, Some(first)),
            _ => (words[0], None),
        };
        match arity_of(flag) {
            Some(arity) => match collected(words, flag, arity, first) {
                Ok(values) => match packed(values) {
                    Ok(text) => led_by(
                        seq![flag + "="@ + text],
                        normalized(words.skip(words_taken(arity, first))),
                    ),
                    Err(error) => Err(error),
                },
                Err(error) => Err(error),
            },
            None => led_by(seq![words[0]], normalized(words.skip(1))),
        }
    }
}

/// The words with others in front.
pub open spec fn led_by(
    lead: Seq<Seq<char>>,
    rest: Result<Seq<Seq<char>>, PlanErrorView>,
) -> Result<Seq<Seq<char>>, PlanErrorView> {
    match rest {
        Ok(words) => Ok(lead + words),
        Err(error) => Err(error),
    }
}

proof fn lemma_led_by_both(
    one: Seq<Seq<char>>,
    two: Seq<Seq<char>>,
    rest: Result<Seq<Seq<char>>, PlanErrorView>,
)
    ensures
        led_by(one, led_by(two, rest)) == led_by(one + two, rest),
{
    if let Ok(words) = rest {
        assert(one + (two + words) =~= (one + two) + words);
    }
}

/// Packs the values of each option that takes several into one word.
pub fn normalize_args(args: &Vec<String>) -> (result: Result<Vec<String>, PlanError>)
    ensures
        match result {
            Ok(words) => normalized(args.deep_view()) == Ok::<_, PlanErrorView>(words.deep_view()),
            Err(error) => normalized(args.deep_view()) == Err::<Seq<Seq<char>>, _>(error@),
        },
{
    let ghost words = args.deep_view();
    let mut done: Vec<String> = Vec::new();
    let mut index: usize = 0;
    proof {
        assert(words.skip(0) =~= words);
        if let Ok(all) = normalized(words) {
            assert(done.deep_view() + all =~= all);
        }
    }
    while index < args.len()
        invariant
            words == args.deep_view(),
            index <= args@.len(),
            led_by(done.deep_view(), normalized(words.skip(index as int))) == normalized(words),
        decreases args@.len() - index,
    {
        let ghost left = words.skip(index as int);
        let arg = &args[index];
        assert(left[0] == arg@);
        let cut = split_once(arg.as_str(), '=');
        let mut flag = arg.clone();
        let mut first: Option<String> = None;
        if let Some((before, after)) = cut {
            if packed_arity(before.as_str()).is_some() {
                flag = before;
                first = Some(after);
            }
        }
        let ghost so_far = done.deep_view();
        match packed_arity(flag.as_str()) {
            Some(arity) => {
                let ghost given = first.deep_view();
                let ghost step = words_taken(arity as nat, given);
                let ghost at = index as int;
                let values = match collect_packed_values(
                    args,
                    &mut index,
                    flag.as_str(),
                    arity,
                    first,
                ) {
                    Ok(values) => values,
                    Err(error) => return Err(error),
                };
                let text = match pack(&values) {
                    Ok(text) => text,
                    Err(error) => return Err(error),
                };
                let word = flag.concat("=").concat(text.as_str());
                done.push(word);
                proof {
                    assert(done.deep_view() =~= so_far + seq![word@]);
                    assert(left.skip(step) =~= words.skip(at + step));
                    lemma_led_by_both(so_far, seq![word@], normalized(words.skip(at + step)));
                }
            },
            None => {
                done.push(arg.clone());
                proof {
                    assert(done.deep_view() =~= so_far + seq![arg@]);
                    assert(left.skip(1) =~= words.skip(index + 1));
                    lemma_led_by_both(so_far, seq![arg@], normalized(words.skip(index + 1)));
                }
                index += 1;
            },
        }
    }
    proof {
        assert(words.skip(index as int) =~= Seq::empty());
        assert(done.deep_view() + Seq::empty() =~= done.deep_view());
    }
    Ok(done)
}

/// The subcommand of a name.
pub open spec fn verb_of(name: Seq<char>) -> Option<Verb> {
    if name == "eval"@ {
        Some(Verb::Eval)
    } else if name == "watch"@ {
        Some(Verb::Watch)
    } else if name == "query"@ {
        Some(Verb::Query)
    } else if name == "diff"@ {
        Some(Verb::Diff)
    } else if name == "daemon"@ {
        Some(Verb::Daemon)
    } else if name == "worker"@ {
        Some(Verb::Worker)
    } else {
        None
    }
}

fn find_verb(name: &str) -> (verb: Option<Verb>)
    ensures
        verb == verb_of(name@),
{
    if same(name, "eval") {
        Some(Verb::Eval)
    } else if same(name, "watch") {
        Some(Verb::Watch)
    } else if same(name, "query") {
        Some(Verb::Query)
    } else if same(name, "diff") {
        Some(Verb::Diff)
    } else if same(name, "daemon") {
        Some(Verb::Daemon)
    } else if same(name, "worker") {
        Some(Verb::Worker)
    } else {
        None
    }
}

/// Whether a subcommand evaluates an input.
pub open spec fn evaluates(verb: Verb) -> bool {
    verb == Verb::Eval || verb == Verb::Watch || verb == Verb::Query || verb == Verb::Diff
}

/// The options of the subcommands that evaluate an input which take a value.
pub open spec fn is_evaluation_option(name: Seq<char>) -> bool {
    name == "flake"@ || name == "expr"@ || name == "file"@ || name == "arg"@ || name == "argstr"@
        || name == "override-input"@ || name == "option"@ || name == "remote"@ || name
        == "workers"@ || name == "max-memory"@ || name == "gc-roots-dir"@ || name == "socket"@
}

/// The options of the subcommands that evaluate an input which take no value.
pub open spec fn is_evaluation_switch(name: Seq<char>) -> bool {
    name == "meta"@ || name == "show-input-drvs"@ || name == "force-recurse"@
}

/// The option's proper name: `max-memory-size` is another name of `max-memory`.
pub open spec fn proper_name(name: Seq<char>) -> Seq<char> {
    if name == "max-memory-size"@ {
        "max-memory"@
    } else {
        name
    }
}

/// The shape of the option with a proper name, before any subcommand or of one.
pub open spec fn shape_of(verb: Option<Verb>, name: Seq<char>) -> Option<Shape> {
    if name == "verbose"@ || name == "quiet"@ {
        Some(Shape::Switch)
    } else {
        match verb {
            Some(verb) => if evaluates(verb) && is_evaluation_option(name) {
                Some(Shape::Valued)
            } else if evaluates(verb) && is_evaluation_switch(name) {
                Some(Shape::Switch)
            } else if name == "no-daemon"@ && evaluates(verb) && verb != Verb::Diff {
                Some(Shape::Switch)
            } else if verb == Verb::Query && (name == "system"@ || name == "attr-prefix"@) {
                Some(Shape::Valued)
            } else if verb == Verb::Daemon && name == "socket"@ {
                Some(Shape::Valued)
            } else if verb == Verb::Daemon && name == "foreground"@ {
                Some(Shape::Switch)
            } else if verb == Verb::Worker && name == "listen"@ {
                Some(Shape::Valued)
            } else {
                None
            },
            None => None,
        }
    }
}

fn takes_input(verb: Verb) -> (yes: bool)
    ensures
        yes == evaluates(verb),
{
    verb == Verb::Eval || verb == Verb::Watch || verb == Verb::Query || verb == Verb::Diff
}

fn find_shape(verb: Option<Verb>, name: &str) -> (shape: Option<Shape>)
    ensures
        shape == shape_of(verb, name@),
{
    if same(name, "verbose") || same(name, "quiet") {
        return Some(Shape::Switch);
    }
    let verb = match verb {
        Some(verb) => verb,
        None => return None,
    };
    let valued = same(name, "flake") || same(name, "expr") || same(name, "file") || same(name, "arg")
        || same(name, "argstr") || same(name, "override-input") || same(name, "option") || same(
        name,
        "remote",
    ) || same(name, "workers") || same(name, "max-memory") || same(name, "gc-roots-dir") || same(
        name,
        "socket",
    );
    let switch = same(name, "meta") || same(name, "show-input-drvs") || same(name, "force-recurse");
    if takes_input(verb) && valued {
        Some(Shape::Valued)
    } else if takes_input(verb) && switch {
        Some(Shape::Switch)
    } else if same(name, "no-daemon") && takes_input(verb) && verb != Verb::Diff {
        Some(Shape::Switch)
    } else if verb == Verb::Query && (same(name, "system") || same(name, "attr-prefix")) {
        Some(Shape::Valued)
    } else if verb == Verb::Daemon && same(name, "socket") {
        Some(Shape::Valued)
    } else if verb == Verb::Daemon && same(name, "foreground") {
        Some(Shape::Switch)
    } else if verb == Verb::Worker && same(name, "listen") {
        Some(Shape::Valued)
    } else {
        None
    }
}

/// One use of an option on the command line.
pub struct Use {
    /// The option's proper name, without the dashes.
    pub name: String,
    pub value: Option<String>,
}

pub struct UseView {
    pub name: Seq<char>,
    pub value: Option<Seq<char>>,
}

impl View for Use {
    type V = UseView;

    open spec fn view(&self) -> UseView {
        UseView { name: self.name@, value: self.value.deep_view() }
    }
}

impl DeepView for Use {
    type V = UseView;

    open spec fn deep_view(&self) -> UseView {
        self@
    }
}

/// A command line sorted into its subcommand and the uses of options.
pub struct Line {
    pub verb: Option<Verb>,
    pub uses: Vec<Use>,
}

pub struct LineView {
    pub verb: Option<Verb>,
    pub uses: Seq<UseView>,
}

impl View for Line {
    type V = LineView;

    open spec fn view(&self) -> LineView {
        LineView { verb: self.verb, uses: self.uses.deep_view() }
    }
}

/// Whether a word cannot be the value of an option: it begins with a dash and is neither a dash
/// alone nor a negative number.
pub open spec fn looks_like_option(word: Seq<char>) -> bool {
    word.len() > 1 && word[0] == '-' && !is_digit(word[1]) && word[1] != '.'
}

fn is_option_like(word: &str) -> (yes: bool)
    ensures
        yes == looks_like_option(word@),
{
    let chars = chars_of(word);
    chars.len() > 1 && chars[0] == '-' && !('0' <= chars[1] && chars[1] <= '9') && chars[1] != '.'
}

/// The uses of a cluster of one-letter options.
pub open spec fn cluster(verb: Option<Verb>, letters: Seq<char>) -> Result<
    Seq<UseView>,
    PlanErrorView,
>
    decreases letters.len(),
{
    if letters.len() == 0 {
        Ok(Seq::empty())
    } else if letters[0] == 'h' {
        Err(PlanErrorView::Help)
    } else if letters[0] == 'V' && verb is None {
        Err(PlanErrorView::Version)
    } else if letters[0] == 'v' || letters[0] == 'q' {
        let name = if letters[0] == 'v' {
            "verbose"@
        } else {
            "quiet"@
        };
        match cluster(verb, letters.skip(1)) {
            Ok(uses) => Ok(seq![UseView { name, value: None }] + uses),
            Err(error) => Err(error),
        }
    } else {
        Err(PlanErrorView::Unknown(seq!['-', letters[0]]))
    }
}

/// Whether a letter is a one-letter option.
pub open spec fn known_letter(verb: Option<Verb>, letter: char) -> bool {
    letter == 'h' || (letter == 'V' && verb is None) || letter == 'v' || letter == 'q'
}

/// What the words behind `help` ask for: they name at most one subcommand.
pub open spec fn help_on(words: Seq<Seq<char>>, named: bool) -> PlanErrorView
    decreases words.len(),
{
    if words.len() == 0 {
        PlanErrorView::Help
    } else if !named && words[0] == "help"@ {
        help_on(words.skip(1), false)
    } else if !named && verb_of(words[0]) is Some {
        help_on(words.skip(1), true)
    } else {
        PlanErrorView::UnknownVerb(words[0])
    }
}

/// A line with uses of options in front.
pub open spec fn after_uses(
    uses: Seq<UseView>,
    rest: Result<LineView, PlanErrorView>,
) -> Result<LineView, PlanErrorView> {
    match rest {
        Ok(line) => Ok(LineView { uses: uses + line.uses, ..line }),
        Err(error) => Err(error),
    }
}

/// A long option without its dashes: its name, and what is behind its equals sign.
pub open spec fn long_parts(body: Seq<char>) -> (Seq<char>, Option<Seq<char>>) {
    match halves(body, '=') {
        Some((name, value)) => (name, Some(value)),
        None => (body, None),
    }
}

/// Sorts words into the subcommand and the uses of options. `plain` tells that options have ended.
pub open spec fn sorted_line(verb: Option<Verb>, words: Seq<Seq<char>>, plain: bool) -> Result<
    LineView,
    PlanErrorView,
>
    decreases words.len(),
{
    if words.len() == 0 {
        Ok(LineView { verb, uses: Seq::empty() })
    } else {
        let word = words[0];
        let rest = words.skip(1);
        if plain {
            Err(PlanErrorView::UnexpectedWord(word))
        } else if word == "--"@ {
            sorted_line(verb, rest, true)
        } else if "--"@.is_prefix_of(word) {
            let (spelled, inline) = long_parts(word.skip(2));
            let name = proper_name(spelled);
            if spelled == "help"@ {
                Err(PlanErrorView::Help)
            } else if spelled == "version"@ && verb is None {
                Err(PlanErrorView::Version)
            } else {
                match (shape_of(verb, name), inline) {
                    (None, _) => Err(PlanErrorView::Unknown("--"@ + spelled)),
                    (Some(Shape::Switch), Some(_)) => Err(
                        PlanErrorView::UnexpectedValue("--"@ + name),
                    ),
                    (Some(Shape::Switch), None) => after_uses(
                        seq![UseView { name, value: None }],
                        sorted_line(verb, rest, false),
                    ),
                    (Some(Shape::Valued), Some(value)) => after_uses(
                        seq![UseView { name, value: Some(value) }],
                        sorted_line(verb, rest, false),
                    ),
                    (Some(Shape::Valued), None) => if rest.len() > 0 && !looks_like_option(
                        rest[0],
                    ) {
                        after_uses(
                            seq![UseView { name, value: Some(rest[0]) }],
                            sorted_line(verb, rest.skip(1), false),
                        )
                    } else {
                        Err(PlanErrorView::MissingValue("--"@ + name))
                    },
                }
            }
        } else if word.len() > 1 && word[0] == '-' {
            if !known_letter(verb, word[1]) && (is_digit(word[1]) || word[1] == '.') {
                Err(PlanErrorView::UnexpectedWord(word))
            } else {
                match cluster(verb, word.skip(1)) {
                    Ok(uses) => after_uses(uses, sorted_line(verb, rest, false)),
                    Err(error) => Err(error),
                }
            }
        } else if verb is Some {
            Err(PlanErrorView::UnexpectedWord(word))
        } else if word == "help"@ {
            Err(help_on(rest, false))
        } else {
            match verb_of(word) {
                Some(verb) => sorted_line(Some(verb), rest, false),
                None => Err(PlanErrorView::UnknownVerb(word)),
            }
        }
    }
}

fn cluster_uses(verb: Option<Verb>, word: &str) -> (result: Result<Vec<Use>, PlanError>)
    requires
        word@.len() > 1,
    ensures
        match result {
            Ok(uses) => cluster(verb, word@.skip(1)) == Ok::<_, PlanErrorView>(uses.deep_view()),
            Err(error) => cluster(verb, word@.skip(1)) == Err::<Seq<UseView>, _>(error@),
        },
{
    let letters = chars_of(word);
    let ghost all = word@.skip(1);
    let mut uses: Vec<Use> = Vec::new();
    let mut i: usize = 1;
    assert(all.skip(0) =~= all);
    proof {
        if let Ok(rest) = cluster(verb, all) {
            assert(uses.deep_view() + rest =~= rest);
        }
    }
    while i < letters.len()
        invariant
            letters@ == word@,
            all == word@.skip(1),
            1 <= i <= letters@.len(),
            match cluster(verb, all.skip(i - 1)) {
                Ok(rest) => cluster(verb, all) == Ok::<_, PlanErrorView>(uses.deep_view() + rest),
                Err(error) => cluster(verb, all) == Err::<Seq<UseView>, _>(error),
            },
        decreases letters@.len() - i,
    {
        let letter = letters[i];
        let ghost left = all.skip(i - 1);
        assert(left[0] == letter);
        assert(left.skip(1) =~= all.skip(i as int));
        if letter == 'h' {
            return Err(PlanError::Help);
        }
        if letter == 'V' && verb.is_none() {
            return Err(PlanError::Version);
        }
        if letter != 'v' && letter != 'q' {
            let mut spelled = String::new();
            spelled.push('-');
            spelled.push(letter);
            assert(spelled@ =~= seq!['-', letter]);
            return Err(PlanError::Unknown(spelled));
        }
        let name = if letter == 'v' {
            "verbose".to_owned()
        } else {
            "quiet".to_owned()
        };
        let ghost before = uses.deep_view();
        let one = Use { name, value: None };
        uses.push(one);
        proof {
            assert(uses.deep_view() =~= before.push(one@));
            if let Ok(rest) = cluster(verb, left.skip(1)) {
                assert(before + (seq![one@] + rest) =~= uses.deep_view() + rest);
            }
        }
        i += 1;
    }
    proof {
        assert(all.skip(i - 1) =~= Seq::empty());
        assert(uses.deep_view() + Seq::empty() =~= uses.deep_view());
    }
    Ok(uses)
}

fn help_request(words: &Vec<String>, from: usize) -> (error: PlanError)
    requires
        from <= words@.len(),
    ensures
        error@ == help_on(words.deep_view().skip(from as int), false),
{
    let ghost all = words.deep_view();
    let mut named = false;
    let mut i: usize = from;
    while i < words.len()
        invariant
            all == words.deep_view(),
            from <= i <= words@.len(),
            help_on(all.skip(i as int), named) == help_on(all.skip(from as int), false),
        decreases words@.len() - i,
    {
        let word = &words[i];
        assert(all.skip(i as int)[0] == word@);
        assert(all.skip(i as int).skip(1) =~= all.skip(i + 1));
        if !named && same(word.as_str(), "help") {
        } else if !named && find_verb(word.as_str()).is_some() {
            named = true;
        } else {
            return PlanError::UnknownVerb(word.clone());
        }
        i += 1;
    }
    PlanError::Help
}

proof fn lemma_after_both(
    one: Seq<UseView>,
    two: Seq<UseView>,
    rest: Result<LineView, PlanErrorView>,
)
    ensures
        after_uses(one, after_uses(two, rest)) == after_uses(one + two, rest),
{
    if let Ok(line) = rest {
        assert(one + (two + line.uses) =~= (one + two) + line.uses);
    }
}

fn push_use(uses: &mut Vec<Use>, name: String, value: Option<String>)
    ensures
        final(uses).deep_view() == old(uses).deep_view() + seq![
            UseView { name: name@, value: value.deep_view() },
        ],
{
    let ghost before = uses.deep_view();
    let one = Use { name, value };
    uses.push(one);
    assert(uses.deep_view() =~= before + seq![one@]);
}

/// Sorts the words of a command line into the subcommand and the uses of options.
pub fn sort_line(words: &Vec<String>) -> (result: Result<Line, PlanError>)
    ensures
        match result {
            Ok(line) => sorted_line(None, words.deep_view(), false) == Ok::<_, PlanErrorView>(
                line@,
            ),
            Err(error) => sorted_line(None, words.deep_view(), false) == Err::<LineView, _>(error@),
        },
{
    let ghost all = words.deep_view();
    let ghost whole = sorted_line(None, all, false);
    let mut verb: Option<Verb> = None;
    let mut plain = false;
    let mut uses: Vec<Use> = Vec::new();
    let mut i: usize = 0;
    proof {
        assert(all.skip(0) =~= all);
        if let Ok(line) = whole {
            assert(uses.deep_view() + line.uses =~= line.uses);
        }
    }
    while i < words.len()
        invariant
            all == words.deep_view(),
            whole == sorted_line(None, all, false),
            i <= words@.len(),
            after_uses(uses.deep_view(), sorted_line(verb, all.skip(i as int), plain)) == whole,
        decreases words@.len() - i,
    {
        let word = &words[i];
        let ghost left = all.skip(i as int);
        let ghost so_far = uses.deep_view();
        proof {
            assert(left[0] == word@);
            assert(left.skip(1) =~= all.skip(i + 1));
        }
        if plain {
            return Err(PlanError::UnexpectedWord(word.clone()));
        }
        if same(word.as_str(), "--") {
            plain = true;
            i += 1;
            continue;
        }
        let chars = chars_of(word.as_str());
        if starts_with(word.as_str(), "--") {
            proof {
                reveal_strlit("--");
                assert(chars@.subrange(2, chars@.len() as int) =~= word@.skip(2));
            }
            let body = text_between(&chars, 2, chars.len());
            let (spelled, inline) = match split_once(body.as_str(), '=') {
                Some((name, value)) => (name, Some(value)),
                None => (body, None),
            };
            if same(spelled.as_str(), "help") {
                return Err(PlanError::Help);
            }
            if same(spelled.as_str(), "version") && verb.is_none() {
                return Err(PlanError::Version);
            }
            let name = if same(spelled.as_str(), "max-memory-size") {
                "max-memory".to_owned()
            } else {
                spelled.clone()
            };
            match find_shape(verb, name.as_str()) {
                None => {
                    return Err(PlanError::Unknown("--".to_owned().concat(spelled.as_str())));
                },
                Some(Shape::Switch) => {
                    if inline.is_some() {
                        return Err(
                            PlanError::UnexpectedValue("--".to_owned().concat(name.as_str())),
                        );
                    }
                    let ghost one = seq![UseView { name: name@, value: None }];
                    push_use(&mut uses, name, None);
                    proof {
                        lemma_after_both(so_far, one, sorted_line(verb, all.skip(i + 1), false));
                    }
                    i += 1;
                },
                Some(Shape::Valued) => {
                    match inline {
                        Some(value) => {
                            let ghost one = seq![UseView { name: name@, value: Some(value@) }];
                            push_use(&mut uses, name, Some(value));
                            proof {
                                lemma_after_both(
                                    so_far,
                                    one,
                                    sorted_line(verb, all.skip(i + 1), false),
                                );
                            }
                            i += 1;
                        },
                        None => {
                            if words.len() - i < 2 || is_option_like(words[i + 1].as_str()) {
                                proof {
                                    if words@.len() - i >= 2 {
                                        assert(all.skip(i + 1)[0] == words@[i + 1]@);
                                    }
                                }
                                return Err(
                                    PlanError::MissingValue("--".to_owned().concat(name.as_str())),
                                );
                            }
                            let value = words[i + 1].clone();
                            let ghost one = seq![UseView { name: name@, value: Some(value@) }];
                            push_use(&mut uses, name, Some(value));
                            proof {
                                assert(all.skip(i + 1)[0] == value@);
                                assert(all.skip(i + 1).skip(1) =~= all.skip(i + 2));
                                lemma_after_both(
                                    so_far,
                                    one,
                                    sorted_line(verb, all.skip(i + 2), false),
                                );
                            }
                            i += 2;
                        },
                    }
                },
            }
            continue;
        }
        if chars.len() > 1 && chars[0] == '-' {
            let first = chars[1];
            let known = first == 'h' || (first == 'V' && verb.is_none()) || first == 'v' || first
                == 'q';
            if !known && (('0' <= first && first <= '9') || first == '.') {
                return Err(PlanError::UnexpectedWord(word.clone()));
            }
            let mut more = match cluster_uses(verb, word.as_str()) {
                Ok(more) => more,
                Err(error) => return Err(error),
            };
            let ghost added = more.deep_view();
            uses.append(&mut more);
            proof {
                assert(uses.deep_view() =~= so_far + added);
                lemma_after_both(so_far, added, sorted_line(verb, all.skip(i + 1), false));
            }
            i += 1;
            continue;
        }
        if verb.is_some() {
            return Err(PlanError::UnexpectedWord(word.clone()));
        }
        if same(word.as_str(), "help") {
            return Err(help_request(words, i + 1));
        }
        match find_verb(word.as_str()) {
            Some(found) => {
                verb = Some(found);
            },
            None => {
                return Err(PlanError::UnknownVerb(word.clone()));
            },
        }
        i += 1;
    }
    proof {
        assert(all.skip(i as int) =~= Seq::empty());
        assert(uses.deep_view() + Seq::empty() =~= uses.deep_view());
    }
    Ok(Line { verb, uses })
}

/// Arguments, overrides and Nix options take two values, remotes three; every other option takes at
/// most one.
pub proof fn law_options_with_several_values(flag: Seq<char>)
    ensures
        arity_of("--arg"@) == Some(2nat),
        arity_of("--argstr"@) == Some(2nat),
        arity_of("--override-input"@) == Some(2nat),
        arity_of("--option"@) == Some(2nat),
        arity_of("--remote"@) == Some(3nat),
        arity_of(flag) is Some ==> flag == "--arg"@ || flag == "--argstr"@ || flag
            == "--override-input"@ || flag == "--option"@ || flag == "--remote"@,
{
    reveal_strlit("--arg");
    reveal_strlit("--argstr");
    reveal_strlit("--override-input");
    reveal_strlit("--option");
    reveal_strlit("--remote");
    assert("--remote"@.len() == 8 && "--arg"@.len() == 5 && "--argstr"@.len() == 8
        && "--override-input"@.len() == 16 && "--option"@.len() == 8);
    assert("--remote"@[2] == 'r' && "--argstr"@[2] == 'a' && "--option"@[2] == 'o');
}

/// Values are packed so that they can be told apart again, and are refused where one of them holds
/// the separator.
pub proof fn law_packed_values_are_unpacked(values: Seq<Seq<char>>)
    requires
        values.len() > 0,
    ensures
        packed(values) is Ok ==> pieces(packed(values)->Ok_0, PACK_SEP) == values,
        packed(values) is Ok <==> forall|i: int|
            0 <= i < values.len() ==> !(#[trigger] values[i]).contains(PACK_SEP),
        packed(values) is Err ==> packed(values) == Err::<Seq<char>, _>(
            PlanErrorView::HoldsSeparator,
        ),
{
    if packed(values) is Ok {
        law_joined_parts_are_pieces(values, PACK_SEP);
    }
}

proof fn lemma_flag_without_equals(flag: Seq<char>)
    requires
        arity_of(flag) is Some,
    ensures
        !flag.contains('='),
{
    reveal_strlit("--arg");
    reveal_strlit("--argstr");
    reveal_strlit("--override-input");
    reveal_strlit("--option");
    reveal_strlit("--remote");
}

/// An option that takes several values takes the words behind it, or what is behind its equals sign
/// and then words, and becomes one word with its values packed. The words behind them are dealt with
/// on their own.
pub proof fn law_several_values_become_one_word(
    flag: Seq<char>,
    values: Seq<Seq<char>>,
    rest: Seq<Seq<char>>,
)
    requires
        arity_of(flag) == Some(values.len()),
        forall|i: int| 0 <= i < values.len() ==> !(#[trigger] values[i]).contains(PACK_SEP),
    ensures
        normalized(rest) is Ok ==> {
            let whole = seq![flag + "="@ + joined(values, seq![PACK_SEP])] + normalized(rest)->Ok_0;
            &&& normalized(seq![flag] + values + rest) == Ok::<_, PlanErrorView>(whole)
            &&& normalized(seq![flag + "="@ + values[0]] + values.skip(1) + rest) == Ok::<
                _,
                PlanErrorView,
            >(whole)
        },
        normalized(rest) is Err ==> normalized(seq![flag] + values + rest) == normalized(rest),
{
    reveal_strlit("=");
    lemma_flag_without_equals(flag);
    law_halves(flag, '=', values[0]);
    let arity = values.len() as int;
    let words = seq![flag] + values + rest;
    assert(words[0] == flag);
    assert(words.subrange(1, 1 + arity) =~= values);
    assert(Seq::<Seq<char>>::empty() + values =~= values);
    assert(words.skip(arity + 1) =~= rest);
    let word = flag + "="@ + values[0];
    assert(word =~= flag.push('=') + values[0]);
    let inline = seq![word] + values.skip(1) + rest;
    assert(inline[0] == word);
    assert(inline.subrange(1, arity as int) =~= values.skip(1));
    assert(seq![values[0]] + values.skip(1) =~= values);
    assert(inline.skip(arity as int) =~= rest);
}

/// Too few words behind an option that takes several values are reported with the option.
pub proof fn law_too_few_values_are_refused(flag: Seq<char>, values: Seq<Seq<char>>)
    requires
        arity_of(flag) is Some,
        values.len() < arity_of(flag)->0,
    ensures
        normalized(seq![flag] + values) == Err::<Seq<Seq<char>>, _>(
            PlanErrorView::TooFewValues { flag, arity: arity_of(flag)->0 },
        ),
{
    lemma_flag_without_equals(flag);
    law_halves(flag, '=', flag);
    assert((seq![flag] + values)[0] == flag);
}

/// Every other word is left as it is.
pub proof fn law_other_words_stay(word: Seq<char>, rest: Seq<Seq<char>>)
    requires
        arity_of(word) is None,
        halves(word, '=') matches Some((before, after)) ==> arity_of(before) is None,
    ensures
        normalized(rest) is Ok ==> normalized(seq![word] + rest) == Ok::<_, PlanErrorView>(
            seq![word] + normalized(rest)->Ok_0,
        ),
        normalized(rest) is Err ==> normalized(seq![word] + rest) == normalized(rest),
{
    let words = seq![word] + rest;
    assert(words[0] == word);
    assert(words.skip(1) =~= rest);
}

proof fn lemma_verbs_differ()
    ensures
        ({
            &&& "eval"@.len() == 4 && "eval"@[0] == 'e'
            &&& "diff"@.len() == 4 && "diff"@[0] == 'd'
            &&& "help"@.len() == 4 && "help"@[0] == 'h'
            &&& "watch"@.len() == 5 && "watch"@[0] == 'w'
            &&& "query"@.len() == 5 && "query"@[0] == 'q'
            &&& "daemon"@.len() == 6 && "daemon"@[0] == 'd'
            &&& "worker"@.len() == 6 && "worker"@[0] == 'w'
        }),
{
    reveal_strlit("eval");
    reveal_strlit("watch");
    reveal_strlit("query");
    reveal_strlit("diff");
    reveal_strlit("daemon");
    reveal_strlit("worker");
    reveal_strlit("help");
}

/// There are six subcommands, each with its name.
pub proof fn law_subcommands(name: Seq<char>)
    ensures
        verb_of("eval"@) == Some(Verb::Eval),
        verb_of("watch"@) == Some(Verb::Watch),
        verb_of("query"@) == Some(Verb::Query),
        verb_of("diff"@) == Some(Verb::Diff),
        verb_of("daemon"@) == Some(Verb::Daemon),
        verb_of("worker"@) == Some(Verb::Worker),
        verb_of(name) is Some ==> name == "eval"@ || name == "watch"@ || name == "query"@ || name
            == "diff"@ || name == "daemon"@ || name == "worker"@,
{
    lemma_verbs_differ();
}

/// The subcommand is the word that names it, and what comes behind it is sorted for it.
pub proof fn law_subcommand_comes_first(name: Seq<char>, rest: Seq<Seq<char>>)
    requires
        verb_of(name) is Some,
    ensures
        sorted_line(None, seq![name] + rest, false) == sorted_line(verb_of(name), rest, false),
{
    lemma_verbs_differ();
    reveal_strlit("--");
    let words = seq![name] + rest;
    assert(words[0] == name);
    assert(words.skip(1) =~= rest);
    assert(!"--"@.is_prefix_of(name)) by {
        if "--"@.is_prefix_of(name) {
            assert("--"@[0] == name.subrange(0, 2)[0]);
        }
    }
}

proof fn lemma_long_word(name: Seq<char>, value: Seq<char>)
    requires
        !name.contains('='),
        name.len() > 0,
    ensures
        "--"@ + name != "--"@,
        "--"@.is_prefix_of("--"@ + name),
        long_parts(("--"@ + name).skip(2)) == (name, None::<Seq<char>>),
        "--"@ + name + "="@ + value != "--"@,
        "--"@.is_prefix_of("--"@ + name + "="@ + value),
        long_parts(("--"@ + name + "="@ + value).skip(2)) == (name, Some(value)),
{
    reveal_strlit("--");
    reveal_strlit("=");
    law_halves(name, '=', value);
    let word = "--"@ + name;
    let long = "--"@ + name + "="@ + value;
    assert(word.len() > 2 && long.len() > 2);
    assert("--"@ =~= word.subrange(0, 2));
    assert("--"@ =~= long.subrange(0, 2));
    assert(word.skip(2) =~= name);
    assert(long.skip(2) =~= name.push('=') + value);
}

/// An option's value may stand behind an equals sign or in the next word: both mean the same. Either
/// way the option is used with that value.
pub proof fn law_both_ways_to_give_a_value(
    verb: Verb,
    name: Seq<char>,
    value: Seq<char>,
    rest: Seq<Seq<char>>,
)
    requires
        !name.contains('='),
        name.len() > 0,
        name != "help"@,
        shape_of(Some(verb), proper_name(name)) == Some(Shape::Valued),
        !looks_like_option(value),
    ensures
        sorted_line(Some(verb), seq!["--"@ + name, value] + rest, false) == sorted_line(
            Some(verb),
            seq!["--"@ + name + "="@ + value] + rest,
            false,
        ),
        sorted_line(Some(verb), rest, false) is Ok ==> sorted_line(
            Some(verb),
            seq!["--"@ + name, value] + rest,
            false,
        ) == Ok::<_, PlanErrorView>(
            LineView {
                verb: sorted_line(Some(verb), rest, false)->Ok_0.verb,
                uses: seq![UseView { name: proper_name(name), value: Some(value) }] + sorted_line(
                    Some(verb),
                    rest,
                    false,
                )->Ok_0.uses,
            },
        ),
        sorted_line(Some(verb), rest, false) is Err ==> sorted_line(
            Some(verb),
            seq!["--"@ + name, value] + rest,
            false,
        ) == sorted_line(Some(verb), rest, false),
{
    lemma_long_word(name, value);
    let apart = seq!["--"@ + name, value] + rest;
    let one = seq!["--"@ + name + "="@ + value] + rest;
    assert(apart[0] == "--"@ + name);
    assert(apart.skip(1)[0] == value);
    assert(apart.skip(1).skip(1) =~= rest);
    assert(one[0] == "--"@ + name + "="@ + value);
    assert(one.skip(1) =~= rest);
}

/// A switch is used without a value; given one, it is refused. An option that takes a value is refused
/// without one.
pub proof fn law_switches_and_missing_values(
    verb: Verb,
    name: Seq<char>,
    value: Seq<char>,
    rest: Seq<Seq<char>>,
)
    requires
        !name.contains('='),
        name.len() > 0,
        name != "help"@,
    ensures
        shape_of(Some(verb), proper_name(name)) == Some(Shape::Switch) && sorted_line(
            Some(verb),
            rest,
            false,
        ) is Ok ==> sorted_line(Some(verb), seq!["--"@ + name] + rest, false) == Ok::<
            _,
            PlanErrorView,
        >(
            LineView {
                verb: sorted_line(Some(verb), rest, false)->Ok_0.verb,
                uses: seq![UseView { name: proper_name(name), value: None }] + sorted_line(
                    Some(verb),
                    rest,
                    false,
                )->Ok_0.uses,
            },
        ),
        shape_of(Some(verb), proper_name(name)) == Some(Shape::Switch) ==> sorted_line(
            Some(verb),
            seq!["--"@ + name + "="@ + value] + rest,
            false,
        ) == Err::<LineView, _>(PlanErrorView::UnexpectedValue("--"@ + proper_name(name))),
        shape_of(Some(verb), proper_name(name)) == Some(Shape::Valued) && (rest.len() == 0
            || looks_like_option(rest[0])) ==> sorted_line(
            Some(verb),
            seq!["--"@ + name] + rest,
            false,
        ) == Err::<LineView, _>(PlanErrorView::MissingValue("--"@ + proper_name(name))),
        shape_of(Some(verb), proper_name(name)) is None ==> sorted_line(
            Some(verb),
            seq!["--"@ + name] + rest,
            false,
        ) == Err::<LineView, _>(PlanErrorView::Unknown("--"@ + name)),
{
    lemma_long_word(name, value);
    let words = seq!["--"@ + name] + rest;
    let inline = seq!["--"@ + name + "="@ + value] + rest;
    assert(words[0] == "--"@ + name);
    assert(words.skip(1) =~= rest);
    assert(inline[0] == "--"@ + name + "="@ + value);
    assert(inline.skip(1) =~= rest);
}

/// Which options a subcommand has, and whether they take a value.
pub proof fn law_option_shapes(verb: Verb, name: Seq<char>)
    ensures
        name == "verbose"@ || name == "quiet"@ ==> shape_of(Some(verb), name) == Some(
            Shape::Switch,
        ) && shape_of(None, name) == Some(Shape::Switch),
        verb != Verb::Daemon && verb != Verb::Worker && (name == "flake"@ || name == "expr"@ || name
            == "file"@ || name == "arg"@ || name == "argstr"@ || name == "override-input"@ || name
            == "option"@ || name == "remote"@ || name == "workers"@ || name == "max-memory"@ || name
            == "gc-roots-dir"@ || name == "socket"@) ==> shape_of(Some(verb), name) == Some(
            Shape::Valued,
        ),
        verb != Verb::Daemon && verb != Verb::Worker && (name == "meta"@ || name
            == "show-input-drvs"@ || name == "force-recurse"@) ==> shape_of(Some(verb), name)
            == Some(Shape::Switch),
        (verb == Verb::Eval || verb == Verb::Watch || verb == Verb::Query) && name == "no-daemon"@
            ==> shape_of(Some(verb), name) == Some(Shape::Switch),
        verb == Verb::Query && (name == "system"@ || name == "attr-prefix"@) ==> shape_of(
            Some(verb),
            name,
        ) == Some(Shape::Valued),
        verb == Verb::Daemon && name == "socket"@ ==> shape_of(Some(verb), name) == Some(
            Shape::Valued,
        ),
        verb == Verb::Daemon && name == "foreground"@ ==> shape_of(Some(verb), name) == Some(
            Shape::Switch,
        ),
        verb == Verb::Worker && name == "listen"@ ==> shape_of(Some(verb), name) == Some(
            Shape::Valued,
        ),
        proper_name("max-memory-size"@) == "max-memory"@,
        name != "max-memory-size"@ ==> proper_name(name) == name,
{
    reveal_strlit("verbose");
    reveal_strlit("quiet");
    reveal_strlit("flake");
    reveal_strlit("expr");
    reveal_strlit("file");
    reveal_strlit("arg");
    reveal_strlit("argstr");
    reveal_strlit("override-input");
    reveal_strlit("option");
    reveal_strlit("remote");
    reveal_strlit("workers");
    reveal_strlit("max-memory");
    reveal_strlit("gc-roots-dir");
    reveal_strlit("socket");
    reveal_strlit("meta");
    reveal_strlit("show-input-drvs");
    reveal_strlit("force-recurse");
    reveal_strlit("no-daemon");
    reveal_strlit("system");
    reveal_strlit("attr-prefix");
    reveal_strlit("foreground");
    reveal_strlit("listen");
    assert("verbose"@[0] == 'v' && "workers"@[0] == 'w' && "quiet"@[0] == 'q' && "flake"@[0]
        == 'f');
    assert("meta"@[0] == 'm' && "expr"@[0] == 'e' && "file"@[0] == 'f');
    assert("meta"@.len() == 4 && "show-input-drvs"@.len() == 15 && "force-recurse"@.len() == 13
        && "no-daemon"@.len() == 9);
    assert("flake"@.len() == 5 && "arg"@.len() == 3 && "argstr"@.len() == 6
        && "override-input"@.len() == 14 && "option"@.len() == 6 && "remote"@.len() == 6
        && "workers"@.len() == 7 && "max-memory"@.len() == 10 && "gc-roots-dir"@.len() == 12
        && "socket"@.len() == 6);
}

/// A cluster of letters counts each `v` and each `q`, in order.
pub proof fn law_letters_count_one_by_one(verb: Option<Verb>, letters: Seq<char>, i: int)
    requires
        forall|k: int| 0 <= k < letters.len() ==> (#[trigger] letters[k]) == 'v' || letters[k] == 'q',
    ensures
        cluster(verb, letters) is Ok,
        cluster(verb, letters)->Ok_0.len() == letters.len(),
        0 <= i < letters.len() && letters[i] == 'v' ==> cluster(verb, letters)->Ok_0[i] == (UseView {
            name: "verbose"@,
            value: None,
        }),
        0 <= i < letters.len() && letters[i] == 'q' ==> cluster(verb, letters)->Ok_0[i] == (UseView {
            name: "quiet"@,
            value: None,
        }),
    decreases letters.len(),
{
    if letters.len() > 0 {
        let rest = letters.skip(1);
        assert(letters[0] == 'v' || letters[0] == 'q');
        assert forall|k: int| 0 <= k < rest.len() implies (#[trigger] rest[k]) == 'v' || rest[k]
            == 'q' by {
            assert(rest[k] == letters[k + 1]);
        }
        law_letters_count_one_by_one(verb, rest, i - 1);
        if i > 0 && i < letters.len() {
            assert(rest[i - 1] == letters[i]);
        }
    }
}

/// Another letter in a cluster is refused, but `h` asks for help, and `V` before any subcommand for
/// the version.
pub proof fn law_other_letters(verb: Option<Verb>, letter: char, rest: Seq<char>)
    requires
        letter != 'v',
        letter != 'q',
    ensures
        letter == 'h' ==> cluster(verb, seq![letter] + rest) == Err::<Seq<UseView>, _>(
            PlanErrorView::Help,
        ),
        letter == 'V' && verb is None ==> cluster(verb, seq![letter] + rest) == Err::<
            Seq<UseView>,
            _,
        >(PlanErrorView::Version),
        letter != 'h' && !(letter == 'V' && verb is None) ==> cluster(verb, seq![letter] + rest)
            == Err::<Seq<UseView>, _>(PlanErrorView::Unknown(seq!['-', letter])),
{
}

/// A word that is no option is refused behind a subcommand, and before one where it names none;
/// behind two dashes every word is refused.
pub proof fn law_other_words_are_refused(verb: Verb, word: Seq<char>, rest: Seq<Seq<char>>)
    requires
        word.len() == 0 || word[0] != '-',
    ensures
        sorted_line(Some(verb), seq![word] + rest, false) == Err::<LineView, _>(
            PlanErrorView::UnexpectedWord(word),
        ),
        sorted_line(Some(verb), seq!["--"@, word] + rest, false) == Err::<LineView, _>(
            PlanErrorView::UnexpectedWord(word),
        ),
        word != "help"@ && verb_of(word) is None ==> sorted_line(None, seq![word] + rest, false)
            == Err::<LineView, _>(PlanErrorView::UnknownVerb(word)),
{
    reveal_strlit("--");
    let words = seq![word] + rest;
    assert(words[0] == word);
    assert(!"--"@.is_prefix_of(word)) by {
        if "--"@.is_prefix_of(word) {
            assert("--"@[0] == word.subrange(0, 2)[0]);
        }
    }
    let dashed = seq!["--"@, word] + rest;
    assert(dashed[0] == "--"@);
    assert(dashed.skip(1)[0] == word);
    reveal_with_fuel(sorted_line, 2);
}

proof fn lemma_same_cluster(one: Verb, two: Verb, letters: Seq<char>)
    ensures
        cluster(Some(one), letters) == cluster(Some(two), letters),
        cluster(Some(one), letters) matches Ok(uses) ==> forall|i: int|
            0 <= i < uses.len() ==> (#[trigger] uses[i]).name == "verbose"@ || uses[i].name
                == "quiet"@,
    decreases letters.len(),
{
    if letters.len() > 0 {
        lemma_same_cluster(one, two, letters.skip(1));
    }
}

/// Whatever is said to `eval` can be said to the other subcommands that evaluate an input, and means
/// the same uses of options; only `diff` cannot do without the daemon.
pub proof fn law_subcommands_share_their_options(
    verb: Verb,
    words: Seq<Seq<char>>,
    plain: bool,
)
    requires
        verb == Verb::Watch || verb == Verb::Query || verb == Verb::Diff,
        sorted_line(Some(Verb::Eval), words, plain) is Ok,
        verb == Verb::Diff ==> forall|i: int|
            0 <= i < sorted_line(Some(Verb::Eval), words, plain)->Ok_0.uses.len() ==> (
            #[trigger] sorted_line(Some(Verb::Eval), words, plain)->Ok_0.uses[i]).name
                != "no-daemon"@,
    ensures
        sorted_line(Some(verb), words, plain) == Ok::<_, PlanErrorView>(
            LineView {
                verb: Some(verb),
                uses: sorted_line(Some(Verb::Eval), words, plain)->Ok_0.uses,
            },
        ),
        sorted_line(Some(Verb::Eval), words, plain)->Ok_0.verb == Some(Verb::Eval),
        forall|i: int|
            0 <= i < sorted_line(Some(Verb::Eval), words, plain)->Ok_0.uses.len() ==> shape_of(
                Some(Verb::Eval),
                (#[trigger] sorted_line(Some(Verb::Eval), words, plain)->Ok_0.uses[i]).name,
            ) is Some,
    decreases words.len(),
{
    if words.len() > 0 {
        let word = words[0];
        let rest = words.skip(1);
        let line = sorted_line(Some(Verb::Eval), words, plain)->Ok_0;
        let (taken, left, ended) = if word == "--"@ {
            (Seq::<UseView>::empty(), rest, true)
        } else if "--"@.is_prefix_of(word) {
            let (spelled, inline) = long_parts(word.skip(2));
            let name = proper_name(spelled);
            match (shape_of(Some(Verb::Eval), name), inline) {
                (Some(Shape::Valued), None) => (
                    seq![UseView { name, value: Some(rest[0]) }],
                    rest.skip(1),
                    false,
                ),
                (_, value) => (seq![UseView { name, value }], rest, false),
            }
        } else {
            lemma_same_cluster(Verb::Eval, verb, word.skip(1));
            (cluster(Some(Verb::Eval), word.skip(1))->Ok_0, rest, false)
        };
        let then = sorted_line(Some(Verb::Eval), left, ended);
        assert(then is Ok);
        assert(line.uses =~= taken + then->Ok_0.uses);
        assert forall|i: int| 0 <= i < then->Ok_0.uses.len() implies (
        #[trigger] then->Ok_0.uses[i]) == line.uses[taken.len() + i] by {}
        if verb == Verb::Diff {
            assert forall|i: int| 0 <= i < then->Ok_0.uses.len() implies (
            #[trigger] then->Ok_0.uses[i]).name != "no-daemon"@ by {
                assert(line.uses[taken.len() + i].name != "no-daemon"@);
            }
            if taken.len() > 0 {
                assert(line.uses[0].name != "no-daemon"@);
                assert(line.uses[0] == taken[0]);
            }
        }
        law_subcommands_share_their_options(verb, left, ended);
        assert forall|i: int| 0 <= i < line.uses.len() implies shape_of(
            Some(Verb::Eval),
            (#[trigger] line.uses[i]).name,
        ) is Some by {
            if i < taken.len() {
                assert(line.uses[i] == taken[i]);
            } else {
                assert(line.uses[i] == then->Ok_0.uses[i - taken.len()]);
            }
        }
    }
}

/// Why a command line is refused is told in words that name what is wrong.
pub proof fn law_refusals_are_told(
    word: Seq<char>,
    other: Seq<char>,
    reason: Seq<char>,
    arity: nat,
)
    ensures
        (PlanErrorView::TooFewValues { flag: word, arity }).message() == word + " requires "@
            + decimal(arity) + " values"@,
        PlanErrorView::Unknown(word).message() == "unrecognized argument '"@ + word + "'"@,
        PlanErrorView::MissingValue(word).message() == "'"@ + word + "' needs a value"@,
        PlanErrorView::UnexpectedValue(word).message() == "'"@ + word + "' does not take a value"@,
        PlanErrorView::UnexpectedWord(word).message() == "unexpected argument '"@ + word + "'"@,
        PlanErrorView::UnknownVerb(word).message() == "unknown subcommand '"@ + word + "'"@,
        PlanErrorView::MissingOption(word).message() == "missing required argument "@ + word,
        (PlanErrorView::Conflict { first: word, second: other }).message() == word + " and "@
            + other + " cannot be used together (input)"@,
        (PlanErrorView::BadValue { option: word, value: other, reason }).message()
            == "invalid value '"@ + other + "' for "@ + word + ": "@ + reason,
        PlanErrorView::HoldsSeparator.message()
            == "argument values cannot contain ASCII unit separator"@,
        PlanErrorView::NotOneInput.message()
            == "exactly one of --flake, --expr, or --file is required"@,
        PlanErrorView::WatchesExpr.message() == "watch requires --flake or --file input"@,
{
}

} // verus!
