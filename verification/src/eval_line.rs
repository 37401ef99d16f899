//! The command line that evaluates a configuration is read back as that configuration.

use vstd::prelude::*;

use crate::args::{
    auto_args_of, config_of, eval_input_of, input_error, parsed_pairs, parsed_plan,
    parsed_remotes, times_used, value_of, values_of, CommandPlanView, Verbosity,
};
use crate::command_line::{
    arity_of, led_by, long_parts, looks_like_option, normalized, packed, proper_name, shape_of,
    sorted_line, LineView, PlanErrorView, Shape, UseView, Verb, PACK_SEP,
};
use crate::remote::{
    auto_arg_words, eval_words, gc_roots_words, input_words, pair_words, switch_words,
};
use crate::text::{decimal, halves, joined, law_numbers_are_read_back};
use crate::types::{AutoArgView, ConfigView, InputView};

verus! {

/// The options of an evaluation.
enum Opt {
    NoDaemon,
    Flake,
    Expr,
    File,
    Workers,
    MaxMemory,
    GcRootsDir,
    Meta,
    ShowInputDrvs,
    ForceRecurse,
    OverrideInput,
    Arg,
    Argstr,
    Setting,
    Remote,
    Socket,
    Verbose,
    Quiet,
}

/// An option's name.
spec fn name(opt: Opt) -> Seq<char> {
    match opt {
        Opt::NoDaemon => "no-daemon"@,
        Opt::Flake => "flake"@,
        Opt::Expr => "expr"@,
        Opt::File => "file"@,
        Opt::Workers => "workers"@,
        Opt::MaxMemory => "max-memory"@,
        Opt::GcRootsDir => "gc-roots-dir"@,
        Opt::Meta => "meta"@,
        Opt::ShowInputDrvs => "show-input-drvs"@,
        Opt::ForceRecurse => "force-recurse"@,
        Opt::OverrideInput => "override-input"@,
        Opt::Arg => "arg"@,
        Opt::Argstr => "argstr"@,
        Opt::Setting => "option"@,
        Opt::Remote => "remote"@,
        Opt::Socket => "socket"@,
        Opt::Verbose => "verbose"@,
        Opt::Quiet => "quiet"@,
    }
}

/// How an option is written.
spec fn flag(opt: Opt) -> Seq<char> {
    match opt {
        Opt::NoDaemon => "--no-daemon"@,
        Opt::Flake => "--flake"@,
        Opt::Expr => "--expr"@,
        Opt::File => "--file"@,
        Opt::Workers => "--workers"@,
        Opt::MaxMemory => "--max-memory"@,
        Opt::GcRootsDir => "--gc-roots-dir"@,
        Opt::Meta => "--meta"@,
        Opt::ShowInputDrvs => "--show-input-drvs"@,
        Opt::ForceRecurse => "--force-recurse"@,
        Opt::OverrideInput => "--override-input"@,
        Opt::Arg => "--arg"@,
        Opt::Argstr => "--argstr"@,
        Opt::Setting => "--option"@,
        Opt::Remote => "--remote"@,
        _ => "--"@ + name(opt),
    }
}

/// What tells an option's name from the others: its length and its first letter.
spec fn mark(opt: Opt) -> (nat, char) {
    match opt {
        Opt::NoDaemon => (9, 'n'),
        Opt::Flake => (5, 'f'),
        Opt::Expr => (4, 'e'),
        Opt::File => (4, 'f'),
        Opt::Workers => (7, 'w'),
        Opt::MaxMemory => (10, 'm'),
        Opt::GcRootsDir => (12, 'g'),
        Opt::Meta => (4, 'm'),
        Opt::ShowInputDrvs => (15, 's'),
        Opt::ForceRecurse => (13, 'f'),
        Opt::OverrideInput => (14, 'o'),
        Opt::Arg => (3, 'a'),
        Opt::Argstr => (6, 'a'),
        Opt::Setting => (6, 'o'),
        Opt::Remote => (6, 'r'),
        Opt::Socket => (6, 's'),
        Opt::Verbose => (7, 'v'),
        Opt::Quiet => (5, 'q'),
    }
}

proof fn lemma_mark(opt: Opt)
    ensures
        name(opt).len() == mark(opt).0,
        name(opt)[0] == mark(opt).1,
        !name(opt).contains('='),
{
    reveal_strlit("no-daemon");
    reveal_strlit("flake");
    reveal_strlit("expr");
    reveal_strlit("file");
    reveal_strlit("workers");
    reveal_strlit("max-memory");
    reveal_strlit("gc-roots-dir");
    reveal_strlit("meta");
    reveal_strlit("show-input-drvs");
    reveal_strlit("force-recurse");
    reveal_strlit("override-input");
    reveal_strlit("arg");
    reveal_strlit("argstr");
    reveal_strlit("option");
    reveal_strlit("remote");
    reveal_strlit("socket");
    reveal_strlit("verbose");
    reveal_strlit("quiet");
}

proof fn lemma_flag(opt: Opt)
    ensures
        flag(opt) == "--"@ + name(opt),
{
    reveal_strlit("--");
    match opt {
        Opt::NoDaemon => {
            reveal_strlit("no-daemon");
            reveal_strlit("--no-daemon");
        },
        Opt::Flake => {
            reveal_strlit("flake");
            reveal_strlit("--flake");
        },
        Opt::Expr => {
            reveal_strlit("expr");
            reveal_strlit("--expr");
        },
        Opt::File => {
            reveal_strlit("file");
            reveal_strlit("--file");
        },
        Opt::Workers => {
            reveal_strlit("workers");
            reveal_strlit("--workers");
        },
        Opt::MaxMemory => {
            reveal_strlit("max-memory");
            reveal_strlit("--max-memory");
        },
        Opt::GcRootsDir => {
            reveal_strlit("gc-roots-dir");
            reveal_strlit("--gc-roots-dir");
        },
        Opt::Meta => {
            reveal_strlit("meta");
            reveal_strlit("--meta");
        },
        Opt::ShowInputDrvs => {
            reveal_strlit("show-input-drvs");
            reveal_strlit("--show-input-drvs");
        },
        Opt::ForceRecurse => {
            reveal_strlit("force-recurse");
            reveal_strlit("--force-recurse");
        },
        Opt::OverrideInput => {
            reveal_strlit("override-input");
            reveal_strlit("--override-input");
        },
        Opt::Arg => {
            reveal_strlit("arg");
            reveal_strlit("--arg");
        },
        Opt::Argstr => {
            reveal_strlit("argstr");
            reveal_strlit("--argstr");
        },
        Opt::Setting => {
            reveal_strlit("option");
            reveal_strlit("--option");
        },
        Opt::Remote => {
            reveal_strlit("remote");
            reveal_strlit("--remote");
        },
        _ => {},
    }
    assert(flag(opt) =~= "--"@ + name(opt));
}

proof fn lemma_names_differ(one: Opt, other: Opt)
    ensures
        name(one) == name(other) ==> one == other,
        flag(one) == flag(other) ==> one == other,
{
    lemma_mark(one);
    lemma_mark(other);
    lemma_flag(one);
    lemma_flag(other);
    reveal_strlit("--");
    if flag(one) == flag(other) {
        assert(flag(one).skip(2) =~= name(one));
        assert(flag(other).skip(2) =~= name(other));
    }
}

/// A use of an option on the command line.
enum Item {
    Switch(Opt),
    Valued(Opt, Seq<char>),
    Packed(Opt, Seq<char>, Seq<char>),
}

spec fn packed_pair(first: Seq<char>, second: Seq<char>) -> Seq<char> {
    first + seq![PACK_SEP] + second
}

/// The words of a use as they are written.
spec fn item_words(item: Item) -> Seq<Seq<char>> {
    match item {
        Item::Switch(opt) => seq![flag(opt)],
        Item::Valued(opt, value) => seq![flag(opt), value],
        Item::Packed(opt, first, second) => seq![flag(opt), first, second],
    }
}

/// The words of a use with the values of an option that takes several packed.
spec fn item_normal(item: Item) -> Seq<Seq<char>> {
    match item {
        Item::Packed(opt, first, second) => seq![flag(opt) + "="@ + packed_pair(first, second)],
        _ => item_words(item),
    }
}

/// What a use means.
spec fn item_use(item: Item) -> UseView {
    match item {
        Item::Switch(opt) => UseView { name: name(opt), value: None },
        Item::Valued(opt, value) => UseView { name: name(opt), value: Some(value) },
        Item::Packed(opt, first, second) => UseView {
            name: name(opt),
            value: Some(packed_pair(first, second)),
        },
    }
}

spec fn is_switch(opt: Opt) -> bool {
    opt == Opt::NoDaemon || opt == Opt::Meta || opt == Opt::ShowInputDrvs || opt
        == Opt::ForceRecurse
}

spec fn is_packed(opt: Opt) -> bool {
    opt == Opt::OverrideInput || opt == Opt::Arg || opt == Opt::Argstr || opt == Opt::Setting
}

spec fn is_valued(opt: Opt) -> bool {
    opt == Opt::Flake || opt == Opt::Expr || opt == Opt::File || opt == Opt::Workers || opt
        == Opt::MaxMemory || opt == Opt::GcRootsDir
}

/// Whether a use can be written: its values are not taken for options, and those that are packed
/// do not hold the separator.
spec fn good(item: Item) -> bool {
    match item {
        Item::Switch(opt) => is_switch(opt),
        Item::Valued(opt, value) => is_valued(opt) && !looks_like_option(value),
        Item::Packed(opt, first, second) => is_packed(opt) && !first.contains(PACK_SEP)
            && !second.contains(PACK_SEP),
    }
}

spec fn all_good(items: Seq<Item>) -> bool {
    forall|i: int| 0 <= i < items.len() ==> good(#[trigger] items[i])
}

spec fn words_of(items: Seq<Item>) -> Seq<Seq<char>>
    decreases items.len(),
{
    if items.len() == 0 {
        Seq::empty()
    } else {
        item_words(items[0]) + words_of(items.skip(1))
    }
}

spec fn normal_of(items: Seq<Item>) -> Seq<Seq<char>>
    decreases items.len(),
{
    if items.len() == 0 {
        Seq::empty()
    } else {
        item_normal(items[0]) + normal_of(items.skip(1))
    }
}

spec fn uses_of(items: Seq<Item>) -> Seq<UseView> {
    items.map_values(|item: Item| item_use(item))
}

proof fn lemma_words_of_both(one: Seq<Item>, two: Seq<Item>)
    ensures
        words_of(one + two) == words_of(one) + words_of(two),
    decreases one.len(),
{
    if one.len() == 0 {
        assert(one + two =~= two);
        assert(words_of(one) + words_of(two) =~= words_of(two));
    } else {
        assert((one + two).skip(1) =~= one.skip(1) + two);
        lemma_words_of_both(one.skip(1), two);
        assert(item_words(one[0]) + (words_of(one.skip(1)) + words_of(two)) =~= item_words(one[0])
            + words_of(one.skip(1)) + words_of(two));
    }
}

/// The first character of its kind ends the first half.
proof fn lemma_halves(before: Seq<char>, c: char, after: Seq<char>)
    requires
        !before.contains(c),
    ensures
        halves(before + seq![c] + after, c) == Some((before, after)),
        halves(before, c) is None,
{
    let text = before + seq![c] + after;
    let at = before.len() as int;
    assert(text[at] == c);
    assert forall|i: int| 0 <= i < at implies text[i] != c by {
        assert(text[i] == before[i]);
    }
    text.index_of_first_ensures(c);
    before.index_of_first_ensures(c);
    assert(text.contains(c));
    let found = text.index_of_first(c)->0;
    assert(found == at);
    assert(text.take(at) =~= before);
    assert(text.skip(at + 1) =~= after);
}

/// The options that take several values here are the packed ones.
proof fn lemma_arity(opt: Opt)
    ensures
        arity_of(flag(opt)) == (if opt == Opt::Remote {
            Some(3nat)
        } else if is_packed(opt) {
            Some(2nat)
        } else {
            None
        }),
        !flag(opt).contains('='),
{
    lemma_names_differ(opt, Opt::Arg);
    lemma_names_differ(opt, Opt::Argstr);
    lemma_names_differ(opt, Opt::OverrideInput);
    lemma_names_differ(opt, Opt::Setting);
    lemma_names_differ(opt, Opt::Remote);
    lemma_flag(opt);
    lemma_mark(opt);
    reveal_strlit("--");
    if flag(opt).contains('=') {
        let i = choose|i: int| 0 <= i < flag(opt).len() && flag(opt)[i] == '=';
        assert(name(opt)[i - 2] == '=');
    }
}

/// A word that is no option with several values stays as it is.
proof fn lemma_plain_word(word: Seq<char>, rest: Seq<Seq<char>>)
    requires
        arity_of(word) is None,
        halves(word, '=') matches Some((before, after)) ==> arity_of(before) is None,
    ensures
        normalized(seq![word] + rest) == led_by(seq![word], normalized(rest)),
{
    let words = seq![word] + rest;
    assert(words[0] == word);
    assert(words.skip(1) =~= rest);
}

/// A value that is not taken for an option is none with several values either.
proof fn lemma_value_word(value: Seq<char>)
    requires
        !looks_like_option(value),
    ensures
        arity_of(value) is None,
        halves(value, '=') matches Some((before, after)) ==> arity_of(before) is None,
{
    if arity_of(value) is Some {
        lemma_dashes(value);
    }
    if let Some((before, after)) = halves(value, '=') {
        if arity_of(before) is Some {
            lemma_dashes(before);
            value.index_of_first_ensures('=');
            assert(before[0] == value[0] && before[1] == value[1]);
        }
    }
}

proof fn lemma_dashes(word: Seq<char>)
    requires
        arity_of(word) is Some,
    ensures
        word.len() > 1,
        word[0] == '-',
        word[1] == '-',
{
    reveal_strlit("--arg");
    reveal_strlit("--argstr");
    reveal_strlit("--override-input");
    reveal_strlit("--option");
    reveal_strlit("--remote");
}

/// Packing the values of each option that takes several.
proof fn lemma_normalized(items: Seq<Item>)
    requires
        all_good(items),
    ensures
        normalized(words_of(items)) == Ok::<_, PlanErrorView>(normal_of(items)),
    decreases items.len(),
{
    if items.len() > 0 {
        let rest = items.skip(1);
        assert(all_good(rest));
        lemma_normalized(rest);
        let words = words_of(items);
        assert(good(items[0]));
        match items[0] {
            Item::Switch(opt) => {
                lemma_arity(opt);
                lemma_halves(flag(opt), '=', Seq::empty());
                lemma_plain_word(flag(opt), words_of(rest));
            },
            Item::Valued(opt, value) => {
                lemma_arity(opt);
                lemma_halves(flag(opt), '=', Seq::empty());
                lemma_value_word(value);
                lemma_plain_word(value, words_of(rest));
                lemma_plain_word(flag(opt), seq![value] + words_of(rest));
                assert(words =~= seq![flag(opt)] + (seq![value] + words_of(rest)));
                assert(normal_of(items) =~= seq![flag(opt)] + (seq![value] + normal_of(rest)));
            },
            Item::Packed(opt, first, second) => {
                lemma_arity(opt);
                lemma_halves(flag(opt), '=', Seq::empty());
                assert(words[0] == flag(opt));
                assert(words.subrange(1, 3) =~= seq![first, second]);
                assert(Seq::<Seq<char>>::empty() + words.subrange(1, 3) =~= seq![first, second]);
                assert(words.skip(3) =~= words_of(rest));
                assert(seq![first, second].drop_last() =~= seq![first]);
                reveal_with_fuel(joined, 2);
                assert(packed(seq![first, second]) == Ok::<_, PlanErrorView>(
                    packed_pair(first, second),
                ));
            },
        }
    }
}

proof fn lemma_shape(opt: Opt)
    requires
        is_switch(opt) || is_packed(opt) || is_valued(opt),
    ensures
        shape_of(Some(Verb::Eval), name(opt)) == Some(
            if is_switch(opt) {
                Shape::Switch
            } else {
                Shape::Valued
            },
        ),
        proper_name(name(opt)) == name(opt),
        name(opt) != "help"@,
{
    lemma_names_differ(opt, Opt::Verbose);
    lemma_names_differ(opt, Opt::Quiet);
    lemma_names_differ(opt, Opt::Flake);
    lemma_names_differ(opt, Opt::Expr);
    lemma_names_differ(opt, Opt::File);
    lemma_names_differ(opt, Opt::Arg);
    lemma_names_differ(opt, Opt::Argstr);
    lemma_names_differ(opt, Opt::OverrideInput);
    lemma_names_differ(opt, Opt::Setting);
    lemma_names_differ(opt, Opt::Remote);
    lemma_names_differ(opt, Opt::Workers);
    lemma_names_differ(opt, Opt::MaxMemory);
    lemma_names_differ(opt, Opt::GcRootsDir);
    lemma_names_differ(opt, Opt::Socket);
    lemma_mark(opt);
    reveal_strlit("help");
    reveal_strlit("max-memory-size");
}

/// What is behind the dashes of an option.
proof fn lemma_long(opt: Opt, more: Seq<char>)
    ensures
        flag(opt) != "--"@,
        "--"@.is_prefix_of(flag(opt)),
        long_parts(flag(opt).skip(2)) == (name(opt), None::<Seq<char>>),
        flag(opt) + "="@ + more != "--"@,
        "--"@.is_prefix_of(flag(opt) + "="@ + more),
        long_parts((flag(opt) + "="@ + more).skip(2)) == (name(opt), Some(more)),
{
    lemma_flag(opt);
    lemma_mark(opt);
    lemma_halves(name(opt), '=', more);
    reveal_strlit("--");
    reveal_strlit("=");
    let word = flag(opt) + "="@ + more;
    assert(flag(opt).skip(2) =~= name(opt));
    assert(word.skip(2) =~= name(opt) + seq!['='] + more);
    assert("--"@ =~= flag(opt).subrange(0, 2));
    assert("--"@ =~= word.subrange(0, 2));
}

/// Sorting the words of an evaluation into uses of options.
proof fn lemma_sorted(items: Seq<Item>)
    requires
        all_good(items),
    ensures
        sorted_line(Some(Verb::Eval), normal_of(items), false) == Ok::<_, PlanErrorView>(
            LineView { verb: Some(Verb::Eval), uses: uses_of(items) },
        ),
    decreases items.len(),
{
    if items.len() == 0 {
        assert(uses_of(items) =~= Seq::empty());
    } else {
        let rest = items.skip(1);
        assert(all_good(rest));
        lemma_sorted(rest);
        let words = normal_of(items);
        assert(good(items[0]));
        assert(uses_of(items) =~= seq![item_use(items[0])] + uses_of(rest));
        match items[0] {
            Item::Switch(opt) => {
                lemma_shape(opt);
                lemma_long(opt, Seq::empty());
                assert(words.skip(1) =~= normal_of(rest));
            },
            Item::Valued(opt, value) => {
                lemma_shape(opt);
                lemma_long(opt, Seq::empty());
                assert(words.skip(1) =~= seq![value] + normal_of(rest));
                assert(words.skip(1).skip(1) =~= normal_of(rest));
            },
            Item::Packed(opt, first, second) => {
                lemma_shape(opt);
                lemma_long(opt, packed_pair(first, second));
                assert(words.skip(1) =~= normal_of(rest));
            },
        }
    }
}

/// The values that uses give an option.
spec fn selected(items: Seq<Item>, opt: Opt) -> Seq<Seq<char>> {
    values_of(uses_of(items), name(opt))
}

/// How often an option is used.
spec fn counted(items: Seq<Item>, opt: Opt) -> nat {
    times_used(uses_of(items), name(opt))
}

proof fn lemma_values_of_both(one: Seq<UseView>, two: Seq<UseView>, name: Seq<char>)
    ensures
        values_of(one + two, name) == values_of(one, name) + values_of(two, name),
        times_used(one + two, name) == times_used(one, name) + times_used(two, name),
    decreases two.len(),
{
    if two.len() == 0 {
        assert(one + two =~= one);
        assert(values_of(one, name) + Seq::empty() =~= values_of(one, name));
    } else {
        assert((one + two).drop_last() =~= one + two.drop_last());
        assert((one + two).last() == two.last());
        lemma_values_of_both(one, two.drop_last(), name);
        assert(values_of(one + two, name) =~= values_of(one, name) + values_of(two, name));
    }
}

proof fn lemma_selected_both(one: Seq<Item>, two: Seq<Item>, opt: Opt)
    ensures
        selected(one + two, opt) == selected(one, opt) + selected(two, opt),
        counted(one + two, opt) == counted(one, opt) + counted(two, opt),
{
    assert(uses_of(one + two) =~= uses_of(one) + uses_of(two));
    lemma_values_of_both(uses_of(one), uses_of(two), name(opt));
}

spec fn option_of(item: Item) -> Opt {
    match item {
        Item::Switch(opt) => opt,
        Item::Valued(opt, _) => opt,
        Item::Packed(opt, _, _) => opt,
    }
}

proof fn lemma_selected_one(item: Item, opt: Opt)
    ensures
        selected(seq![item], opt) == (if option_of(item) == opt && item_use(item).value is Some {
            seq![item_use(item).value->0]
        } else {
            Seq::empty()
        }),
        counted(seq![item], opt) == (if option_of(item) == opt {
            1nat
        } else {
            0nat
        }),
        selected(Seq::empty(), opt) == Seq::<Seq<char>>::empty(),
        counted(Seq::empty(), opt) == 0,
        words_of(seq![item]) == item_words(item),
{
    lemma_names_differ(option_of(item), opt);
    let uses = uses_of(seq![item]);
    assert(uses =~= seq![item_use(item)]);
    assert(uses.drop_last() =~= Seq::empty());
    assert(values_of(uses.drop_last(), name(opt)) =~= Seq::empty());
    assert(times_used(uses.drop_last(), name(opt)) == 0);
    assert(uses_of(Seq::empty()) =~= Seq::empty());
    assert(seq![item].skip(1) =~= Seq::empty());
    assert(words_of(seq![item].skip(1)) =~= Seq::empty());
    assert(item_words(item) + Seq::empty() =~= item_words(item));
    assert(selected(seq![item], opt) =~= (if option_of(item) == opt && item_use(
        item,
    ).value is Some {
        seq![item_use(item).value->0]
    } else {
        Seq::empty()
    }));
}

spec fn switch_items(opt: Opt, on: bool) -> Seq<Item> {
    if on {
        seq![Item::Switch(opt)]
    } else {
        Seq::empty()
    }
}

spec fn pair_items(opt: Opt, pairs: Seq<(Seq<char>, Seq<char>)>) -> Seq<Item>
    decreases pairs.len(),
{
    if pairs.len() == 0 {
        Seq::empty()
    } else {
        pair_items(opt, pairs.drop_last()) + seq![
            Item::Packed(opt, pairs.last().0, pairs.last().1),
        ]
    }
}

spec fn packed_pairs(pairs: Seq<(Seq<char>, Seq<char>)>) -> Seq<Seq<char>> {
    pairs.map_values(|pair: (Seq<char>, Seq<char>)| packed_pair(pair.0, pair.1))
}

/// Whether a pair can be packed and taken apart again.
pub open spec fn can_be_packed(pair: (Seq<char>, Seq<char>)) -> bool {
    !pair.0.contains(PACK_SEP) && !pair.1.contains(PACK_SEP)
}

proof fn lemma_pair_items(option: Opt, pairs: Seq<(Seq<char>, Seq<char>)>, opt: Opt)
    ensures
        words_of(pair_items(option, pairs)) == pair_words(flag(option), pairs),
        selected(pair_items(option, pairs), opt) == (if option == opt {
            packed_pairs(pairs)
        } else {
            Seq::empty()
        }),
        option != opt ==> counted(pair_items(option, pairs), opt) == 0,
        is_packed(option) && (forall|i: int| 0 <= i < pairs.len() ==> can_be_packed(
            #[trigger] pairs[i],
        )) ==> all_good(pair_items(option, pairs)),
    decreases pairs.len(),
{
    if pairs.len() == 0 {
        lemma_selected_one(Item::Switch(option), opt);
        assert(packed_pairs(pairs) =~= Seq::empty());
    } else {
        let shorter = pairs.drop_last();
        let item = Item::Packed(option, pairs.last().0, pairs.last().1);
        lemma_pair_items(option, shorter, opt);
        lemma_words_of_both(pair_items(option, shorter), seq![item]);
        lemma_selected_both(pair_items(option, shorter), seq![item], opt);
        lemma_selected_one(item, opt);
        assert(packed_pairs(pairs) =~= packed_pairs(shorter).push(
            packed_pair(pairs.last().0, pairs.last().1),
        ));
        assert(selected(pair_items(option, pairs), opt) =~= (if option == opt {
            packed_pairs(pairs)
        } else {
            Seq::empty()
        }));
        if is_packed(option) && forall|i: int|
            0 <= i < pairs.len() ==> can_be_packed(#[trigger] pairs[i]) {
            assert forall|i: int| 0 <= i < shorter.len() implies can_be_packed(
                #[trigger] shorter[i],
            ) by {
                assert(shorter[i] == pairs[i]);
            }
            assert(can_be_packed(pairs[pairs.len() - 1]));
            assert(good(item));
        }
    }
}

/// The text of an argument.
pub open spec fn arg_text(arg: AutoArgView) -> Seq<char> {
    match arg {
        AutoArgView::Expr(value) => value,
        AutoArgView::Str(value) => value,
    }
}

/// The arguments of one kind with their names, in order.
pub open spec fn args_of_kind(args: Seq<(Seq<char>, AutoArgView)>, exprs: bool) -> Seq<
    (Seq<char>, Seq<char>),
>
    decreases args.len(),
{
    if args.len() == 0 {
        Seq::empty()
    } else {
        let before = args_of_kind(args.drop_last(), exprs);
        if (args.last().1 is Expr) == exprs {
            before.push((args.last().0, arg_text(args.last().1)))
        } else {
            before
        }
    }
}

spec fn auto_arg_items(args: Seq<(Seq<char>, AutoArgView)>) -> Seq<Item>
    decreases args.len(),
{
    if args.len() == 0 {
        Seq::empty()
    } else {
        auto_arg_items(args.drop_last()) + seq![auto_arg_item(args.last())]
    }
}

spec fn auto_arg_item(arg: (Seq<char>, AutoArgView)) -> Item {
    match arg.1 {
        AutoArgView::Expr(value) => Item::Packed(Opt::Arg, arg.0, value),
        AutoArgView::Str(value) => Item::Packed(Opt::Argstr, arg.0, value),
    }
}

proof fn lemma_auto_arg_items(args: Seq<(Seq<char>, AutoArgView)>, opt: Opt)
    ensures
        words_of(auto_arg_items(args)) == auto_arg_words(args),
        selected(auto_arg_items(args), opt) == (if opt == Opt::Arg {
            packed_pairs(args_of_kind(args, true))
        } else if opt == Opt::Argstr {
            packed_pairs(args_of_kind(args, false))
        } else {
            Seq::empty()
        }),
        opt != Opt::Arg && opt != Opt::Argstr ==> counted(auto_arg_items(args), opt) == 0,
        (forall|i: int|
            0 <= i < args.len() ==> can_be_packed(
                ((#[trigger] args[i]).0, arg_text(args[i].1)),
            )) ==> all_good(auto_arg_items(args)),
    decreases args.len(),
{
    if args.len() == 0 {
        lemma_selected_one(Item::Switch(Opt::Arg), opt);
        assert(packed_pairs(args_of_kind(args, true)) =~= Seq::empty());
        assert(packed_pairs(args_of_kind(args, false)) =~= Seq::empty());
    } else {
        let shorter = args.drop_last();
        let item = auto_arg_item(args.last());
        lemma_auto_arg_items(shorter, opt);
        lemma_words_of_both(auto_arg_items(shorter), seq![item]);
        lemma_selected_both(auto_arg_items(shorter), seq![item], opt);
        lemma_selected_one(item, opt);
        let exprs = args.last().1 is Expr;
        assert(packed_pairs(args_of_kind(args, exprs)) =~= packed_pairs(
            args_of_kind(shorter, exprs),
        ).push(packed_pair(args.last().0, arg_text(args.last().1))));
        assert(selected(auto_arg_items(args), opt) =~= (if opt == Opt::Arg {
            packed_pairs(args_of_kind(args, true))
        } else if opt == Opt::Argstr {
            packed_pairs(args_of_kind(args, false))
        } else {
            Seq::empty()
        }));
        if forall|i: int|
            0 <= i < args.len() ==> can_be_packed(
                ((#[trigger] args[i]).0, arg_text(args[i].1)),
            ) {
            assert forall|i: int| 0 <= i < shorter.len() implies can_be_packed(
                ((#[trigger] shorter[i]).0, arg_text(shorter[i].1)),
            ) by {
                assert(shorter[i] == args[i]);
            }
            assert(can_be_packed((args[args.len() - 1].0, arg_text(args[args.len() - 1].1))));
            assert(good(item));
        }
    }
}

proof fn lemma_pairs_are_read_back(option: Seq<char>, pairs: Seq<(Seq<char>, Seq<char>)>)
    requires
        forall|i: int| 0 <= i < pairs.len() ==> can_be_packed(#[trigger] pairs[i]),
    ensures
        parsed_pairs(option, packed_pairs(pairs)) == Ok::<_, PlanErrorView>(pairs),
    decreases pairs.len(),
{
    let values = packed_pairs(pairs);
    if pairs.len() == 0 {
        assert(pairs =~= Seq::empty());
    } else {
        let shorter = pairs.drop_last();
        assert forall|i: int| 0 <= i < shorter.len() implies can_be_packed(
            #[trigger] shorter[i],
        ) by {
            assert(shorter[i] == pairs[i]);
        }
        lemma_pairs_are_read_back(option, shorter);
        assert(values.drop_last() =~= packed_pairs(shorter));
        assert(can_be_packed(pairs[pairs.len() - 1]));
        lemma_halves(pairs.last().0, PACK_SEP, pairs.last().1);
        assert(shorter.push(pairs.last()) =~= pairs);
    }
}

spec fn input_item(input: InputView) -> Item {
    match input {
        InputView::Flake(value) => Item::Valued(Opt::Flake, value),
        InputView::Expr(value) => Item::Valued(Opt::Expr, value),
        InputView::File(path) => Item::Valued(Opt::File, path),
    }
}

spec fn number_items(config: ConfigView) -> Seq<Item> {
    seq![Item::Valued(Opt::Workers, decimal(config.workers))] + seq![
        Item::Valued(Opt::MaxMemory, decimal(config.max_memory_size)),
    ]
}

spec fn gc_roots_items(dir: Option<Seq<char>>) -> Seq<Item> {
    match dir {
        Some(dir) => seq![Item::Valued(Opt::GcRootsDir, dir)],
        None => Seq::empty(),
    }
}

/// The uses of options before those that take pairs.
spec fn single_items(config: ConfigView, no_daemon: bool) -> Seq<Item> {
    switch_items(Opt::NoDaemon, no_daemon) + seq![input_item(config.input)] + number_items(config)
        + gc_roots_items(config.gc_roots_dir) + switch_items(Opt::Meta, config.meta)
        + switch_items(Opt::ShowInputDrvs, config.show_input_drvs) + switch_items(
        Opt::ForceRecurse,
        config.force_recurse,
    )
}

/// The uses of options on the command line that evaluates a configuration.
spec fn items_of(config: ConfigView, no_daemon: bool) -> Seq<Item> {
    single_items(config, no_daemon) + pair_items(Opt::OverrideInput, config.override_inputs)
        + auto_arg_items(config.auto_args) + pair_items(Opt::Setting, config.nix_options)
}

/// The input's text.
pub open spec fn input_text(input: InputView) -> Seq<char> {
    match input {
        InputView::Flake(value) => value,
        InputView::Expr(value) => value,
        InputView::File(path) => path,
    }
}

/// Whether a configuration can be written on a command line: the input and the GC roots directory
/// are not taken for options, and no name or value of a pair holds the separator.
pub open spec fn can_be_written(config: ConfigView) -> bool {
    &&& !looks_like_option(input_text(config.input))
    &&& config.gc_roots_dir is Some ==> !looks_like_option(config.gc_roots_dir->0)
    &&& config.workers <= usize::MAX
    &&& config.max_memory_size <= usize::MAX
    &&& forall|i: int|
        0 <= i < config.override_inputs.len() ==> can_be_packed(
            #[trigger] config.override_inputs[i],
        )
    &&& forall|i: int|
        0 <= i < config.auto_args.len() ==> can_be_packed(
            ((#[trigger] config.auto_args[i]).0, arg_text(config.auto_args[i].1)),
        )
    &&& forall|i: int|
        0 <= i < config.nix_options.len() ==> can_be_packed(#[trigger] config.nix_options[i])
}

/// The values that the options before those with pairs give an option.
spec fn single_values(config: ConfigView, opt: Opt) -> Seq<Seq<char>> {
    match opt {
        Opt::Flake => if config.input is Flake {
            seq![input_text(config.input)]
        } else {
            Seq::empty()
        },
        Opt::Expr => if config.input is Expr {
            seq![input_text(config.input)]
        } else {
            Seq::empty()
        },
        Opt::File => if config.input is File {
            seq![input_text(config.input)]
        } else {
            Seq::empty()
        },
        Opt::Workers => seq![decimal(config.workers)],
        Opt::MaxMemory => seq![decimal(config.max_memory_size)],
        Opt::GcRootsDir => match config.gc_roots_dir {
            Some(dir) => seq![dir],
            None => Seq::empty(),
        },
        _ => Seq::empty(),
    }
}

/// Whether an option without pairs is used.
spec fn is_used(config: ConfigView, no_daemon: bool, opt: Opt) -> bool {
    match opt {
        Opt::NoDaemon => no_daemon,
        Opt::Meta => config.meta,
        Opt::ShowInputDrvs => config.show_input_drvs,
        Opt::ForceRecurse => config.force_recurse,
        _ => single_values(config, opt).len() > 0,
    }
}

proof fn lemma_switch_items(option: Opt, on: bool, opt: Opt)
    ensures
        words_of(switch_items(option, on)) == switch_words(flag(option), on),
        selected(switch_items(option, on), opt) == Seq::<Seq<char>>::empty(),
        counted(switch_items(option, on), opt) == (if on && option == opt {
            1nat
        } else {
            0nat
        }),
        is_switch(option) ==> all_good(switch_items(option, on)),
{
    lemma_selected_one(Item::Switch(option), opt);
}

proof fn lemma_single_items(config: ConfigView, no_daemon: bool, opt: Opt)
    ensures
        selected(single_items(config, no_daemon), opt) == single_values(config, opt),
        counted(single_items(config, no_daemon), opt) > 0 <==> is_used(config, no_daemon, opt),
{
    let first = switch_items(Opt::NoDaemon, no_daemon);
    let input = seq![input_item(config.input)];
    let workers = Item::Valued(Opt::Workers, decimal(config.workers));
    let memory = Item::Valued(Opt::MaxMemory, decimal(config.max_memory_size));
    let numbers = number_items(config);
    let roots = gc_roots_items(config.gc_roots_dir);
    let meta = switch_items(Opt::Meta, config.meta);
    let drvs = switch_items(Opt::ShowInputDrvs, config.show_input_drvs);
    let recurse = switch_items(Opt::ForceRecurse, config.force_recurse);
    lemma_switch_items(Opt::NoDaemon, no_daemon, opt);
    lemma_switch_items(Opt::Meta, config.meta, opt);
    lemma_switch_items(Opt::ShowInputDrvs, config.show_input_drvs, opt);
    lemma_switch_items(Opt::ForceRecurse, config.force_recurse, opt);
    lemma_selected_one(input_item(config.input), opt);
    lemma_selected_one(workers, opt);
    lemma_selected_one(memory, opt);
    lemma_selected_both(seq![workers], seq![memory], opt);
    if let Some(dir) = config.gc_roots_dir {
        lemma_selected_one(Item::Valued(Opt::GcRootsDir, dir), opt);
    }
    lemma_selected_both(first, input, opt);
    lemma_selected_both(first + input, numbers, opt);
    lemma_selected_both(first + input + numbers, roots, opt);
    lemma_selected_both(first + input + numbers + roots, meta, opt);
    lemma_selected_both(first + input + numbers + roots + meta, drvs, opt);
    lemma_selected_both(first + input + numbers + roots + meta + drvs, recurse, opt);
    assert(selected(single_items(config, no_daemon), opt) =~= single_values(config, opt));
}

/// The values that the whole line gives an option.
proof fn lemma_items(config: ConfigView, no_daemon: bool, opt: Opt)
    ensures
        selected(items_of(config, no_daemon), opt) == (match opt {
            Opt::OverrideInput => packed_pairs(config.override_inputs),
            Opt::Arg => packed_pairs(args_of_kind(config.auto_args, true)),
            Opt::Argstr => packed_pairs(args_of_kind(config.auto_args, false)),
            Opt::Setting => packed_pairs(config.nix_options),
            _ => single_values(config, opt),
        }),
        !is_packed(opt) ==> (counted(items_of(config, no_daemon), opt) > 0 <==> is_used(
            config,
            no_daemon,
            opt,
        )),
{
    let single = single_items(config, no_daemon);
    let inputs = pair_items(Opt::OverrideInput, config.override_inputs);
    let args = auto_arg_items(config.auto_args);
    let settings = pair_items(Opt::Setting, config.nix_options);
    lemma_single_items(config, no_daemon, opt);
    lemma_pair_items(Opt::OverrideInput, config.override_inputs, opt);
    lemma_auto_arg_items(config.auto_args, opt);
    lemma_pair_items(Opt::Setting, config.nix_options, opt);
    lemma_selected_both(single, inputs, opt);
    lemma_selected_both(single + inputs, args, opt);
    lemma_selected_both(single + inputs + args, settings, opt);
    assert(selected(items_of(config, no_daemon), opt) =~= selected(single, opt) + selected(
        inputs,
        opt,
    ) + selected(args, opt) + selected(settings, opt));
    assert(selected(items_of(config, no_daemon), opt) =~= (match opt {
        Opt::OverrideInput => packed_pairs(config.override_inputs),
        Opt::Arg => packed_pairs(args_of_kind(config.auto_args, true)),
        Opt::Argstr => packed_pairs(args_of_kind(config.auto_args, false)),
        Opt::Setting => packed_pairs(config.nix_options),
        _ => single_values(config, opt),
    }));
}

proof fn lemma_good_both(one: Seq<Item>, two: Seq<Item>)
    requires
        all_good(one),
        all_good(two),
    ensures
        all_good(one + two),
{
    assert forall|i: int| 0 <= i < (one + two).len() implies good(#[trigger] (one + two)[i]) by {
        if i < one.len() {
            assert(good(one[i]));
        } else {
            assert(good(two[i - one.len()]));
        }
    }
}

proof fn lemma_items_are_good(config: ConfigView, no_daemon: bool)
    requires
        can_be_written(config),
    ensures
        all_good(items_of(config, no_daemon)),
{
    let first = switch_items(Opt::NoDaemon, no_daemon);
    let input = seq![input_item(config.input)];
    let numbers = number_items(config);
    let roots = gc_roots_items(config.gc_roots_dir);
    let meta = switch_items(Opt::Meta, config.meta);
    let drvs = switch_items(Opt::ShowInputDrvs, config.show_input_drvs);
    let recurse = switch_items(Opt::ForceRecurse, config.force_recurse);
    let inputs = pair_items(Opt::OverrideInput, config.override_inputs);
    let args = auto_arg_items(config.auto_args);
    let settings = pair_items(Opt::Setting, config.nix_options);
    law_numbers_are_read_back(config.workers);
    law_numbers_are_read_back(config.max_memory_size);
    assert(all_good(numbers));
    lemma_pair_items(Opt::OverrideInput, config.override_inputs, Opt::Arg);
    lemma_auto_arg_items(config.auto_args, Opt::Arg);
    lemma_pair_items(Opt::Setting, config.nix_options, Opt::Arg);
    lemma_good_both(first, input);
    lemma_good_both(first + input, numbers);
    lemma_good_both(first + input + numbers, roots);
    lemma_good_both(first + input + numbers + roots, meta);
    lemma_good_both(first + input + numbers + roots + meta, drvs);
    lemma_good_both(first + input + numbers + roots + meta + drvs, recurse);
    let single = single_items(config, no_daemon);
    lemma_good_both(single, inputs);
    lemma_good_both(single + inputs, args);
    lemma_good_both(single + inputs + args, settings);
}

proof fn lemma_longer(lead: Seq<Seq<char>>, items: Seq<Item>, more: Seq<Item>)
    ensures
        lead + words_of(items + more) == lead + words_of(items) + words_of(more),
{
    lemma_words_of_both(items, more);
    assert(lead + (words_of(items) + words_of(more)) =~= lead + words_of(items) + words_of(more));
}

proof fn lemma_eval_words(config: ConfigView, no_daemon: bool)
    ensures
        eval_words(config, no_daemon) == seq!["eval"@] + words_of(items_of(config, no_daemon)),
{
    let lead = seq!["eval"@];
    let first = switch_items(Opt::NoDaemon, no_daemon);
    let input = seq![input_item(config.input)];
    let workers = Item::Valued(Opt::Workers, decimal(config.workers));
    let memory = Item::Valued(Opt::MaxMemory, decimal(config.max_memory_size));
    let numbers = number_items(config);
    let roots = gc_roots_items(config.gc_roots_dir);
    let meta = switch_items(Opt::Meta, config.meta);
    let drvs = switch_items(Opt::ShowInputDrvs, config.show_input_drvs);
    let recurse = switch_items(Opt::ForceRecurse, config.force_recurse);
    let inputs = pair_items(Opt::OverrideInput, config.override_inputs);
    let args = auto_arg_items(config.auto_args);
    let settings = pair_items(Opt::Setting, config.nix_options);
    let any = Opt::Arg;
    lemma_switch_items(Opt::NoDaemon, no_daemon, any);
    lemma_selected_one(input_item(config.input), any);
    lemma_selected_one(workers, any);
    lemma_selected_one(memory, any);
    lemma_words_of_both(seq![workers], seq![memory]);
    assert(words_of(numbers) =~= seq![
        "--workers"@,
        decimal(config.workers),
        "--max-memory"@,
        decimal(config.max_memory_size),
    ]);
    assert(words_of(input) =~= input_words(config.input));
    if let Some(dir) = config.gc_roots_dir {
        lemma_selected_one(Item::Valued(Opt::GcRootsDir, dir), any);
    }
    assert(words_of(roots) =~= gc_roots_words(config.gc_roots_dir));
    lemma_switch_items(Opt::Meta, config.meta, any);
    lemma_switch_items(Opt::ShowInputDrvs, config.show_input_drvs, any);
    lemma_switch_items(Opt::ForceRecurse, config.force_recurse, any);
    lemma_pair_items(Opt::OverrideInput, config.override_inputs, any);
    lemma_auto_arg_items(config.auto_args, any);
    lemma_pair_items(Opt::Setting, config.nix_options, any);
    lemma_longer(lead, first, input);
    lemma_longer(lead, first + input, numbers);
    lemma_longer(lead, first + input + numbers, roots);
    lemma_longer(lead, first + input + numbers + roots, meta);
    lemma_longer(lead, first + input + numbers + roots + meta, drvs);
    lemma_longer(lead, first + input + numbers + roots + meta + drvs, recurse);
    let single = single_items(config, no_daemon);
    lemma_longer(lead, single, inputs);
    lemma_longer(lead, single + inputs, args);
    lemma_longer(lead, single + inputs + args, settings);
}

proof fn lemma_sorted_eval(items: Seq<Item>)
    requires
        all_good(items),
    ensures
        normalized(seq!["eval"@] + words_of(items)) == Ok::<_, PlanErrorView>(
            seq!["eval"@] + normal_of(items),
        ),
        sorted_line(None, seq!["eval"@] + normal_of(items), false) == Ok::<_, PlanErrorView>(
            LineView { verb: Some(Verb::Eval), uses: uses_of(items) },
        ),
{
    reveal_strlit("eval");
    reveal_strlit("--");
    reveal_strlit("help");
    lemma_normalized(items);
    lemma_sorted(items);
    lemma_value_word("eval"@);
    lemma_plain_word("eval"@, words_of(items));
    let words = seq!["eval"@] + normal_of(items);
    assert(words[0] == "eval"@);
    assert(words.skip(1) =~= normal_of(items));
    assert(!"--"@.is_prefix_of("eval"@)) by {
        if "--"@.is_prefix_of("eval"@) {
            assert("--"@[0] == "eval"@[0]);
        }
    }
}

/// A configuration as its command line gives it back: without remotes, and with the arguments that
/// are expressions in front.
pub open spec fn as_read_back(config: ConfigView) -> ConfigView {
    ConfigView {
        auto_args: auto_args_of(
            args_of_kind(config.auto_args, true),
            args_of_kind(config.auto_args, false),
        ),
        remotes: Seq::empty(),
        ..config
    }
}

proof fn lemma_kind_can_be_packed(args: Seq<(Seq<char>, AutoArgView)>, exprs: bool)
    requires
        forall|i: int|
            0 <= i < args.len() ==> can_be_packed(
                ((#[trigger] args[i]).0, arg_text(args[i].1)),
            ),
    ensures
        forall|i: int|
            0 <= i < args_of_kind(args, exprs).len() ==> can_be_packed(
                #[trigger] args_of_kind(args, exprs)[i],
            ),
    decreases args.len(),
{
    if args.len() > 0 {
        let shorter = args.drop_last();
        assert forall|i: int| 0 <= i < shorter.len() implies can_be_packed(
            ((#[trigger] shorter[i]).0, arg_text(shorter[i].1)),
        ) by {
            assert(shorter[i] == args[i]);
        }
        lemma_kind_can_be_packed(shorter, exprs);
        assert(can_be_packed((args[args.len() - 1].0, arg_text(args[args.len() - 1].1))));
        let before = args_of_kind(shorter, exprs);
        let all = args_of_kind(args, exprs);
        assert forall|i: int| 0 <= i < all.len() implies can_be_packed(#[trigger] all[i]) by {
            if i < before.len() {
                assert(all[i] == before[i]);
            }
        }
    }
}

/// The options of an evaluation as its command line gives them back.
proof fn lemma_eval_input(config: ConfigView, no_daemon: bool)
    requires
        can_be_written(config),
    ensures
        ({
            let uses = uses_of(items_of(config, no_daemon));
            &&& input_error(uses) is None
            &&& eval_input_of(uses) matches Ok(input) && config_of(input) == Ok::<
                _,
                PlanErrorView,
            >(as_read_back(config))
            &&& value_of(uses, "socket"@) is None
            &&& times_used(uses, "no-daemon"@) > 0 <==> no_daemon
            &&& times_used(uses, "verbose"@) == 0
            &&& times_used(uses, "quiet"@) == 0
        }),
{
    let uses = uses_of(items_of(config, no_daemon));
    lemma_items(config, no_daemon, Opt::Flake);
    lemma_items(config, no_daemon, Opt::Expr);
    lemma_items(config, no_daemon, Opt::File);
    lemma_items(config, no_daemon, Opt::NoDaemon);
    lemma_items(config, no_daemon, Opt::Verbose);
    lemma_items(config, no_daemon, Opt::Quiet);
    lemma_items(config, no_daemon, Opt::Socket);
    lemma_items(config, no_daemon, Opt::Meta);
    lemma_items(config, no_daemon, Opt::ShowInputDrvs);
    lemma_items(config, no_daemon, Opt::ForceRecurse);
    lemma_items(config, no_daemon, Opt::GcRootsDir);
    lemma_items(config, no_daemon, Opt::Workers);
    lemma_items(config, no_daemon, Opt::MaxMemory);
    lemma_items(config, no_daemon, Opt::OverrideInput);
    lemma_items(config, no_daemon, Opt::Arg);
    lemma_items(config, no_daemon, Opt::Argstr);
    lemma_items(config, no_daemon, Opt::Setting);
    lemma_items(config, no_daemon, Opt::Remote);
    law_numbers_are_read_back(config.workers);
    law_numbers_are_read_back(config.max_memory_size);
    lemma_kind_can_be_packed(config.auto_args, true);
    lemma_kind_can_be_packed(config.auto_args, false);
    lemma_pairs_are_read_back("--arg"@, args_of_kind(config.auto_args, true));
    lemma_pairs_are_read_back("--argstr"@, args_of_kind(config.auto_args, false));
    lemma_pairs_are_read_back("--override-input"@, config.override_inputs);
    lemma_pairs_are_read_back("--option"@, config.nix_options);
    assert(values_of(uses, "remote"@) =~= Seq::empty());
    assert(parsed_remotes("--remote"@, values_of(uses, "remote"@)) is Ok);
}

/// The command line that evaluates a configuration once asks for just that evaluation: for the
/// configuration itself, but for its remotes, which the line does not name, and for the order of
/// its arguments, of which the expressions come first.
pub proof fn law_eval_line_is_read_back(config: ConfigView, no_daemon: bool)
    requires
        can_be_written(config),
    ensures
        parsed_plan(eval_words(config, no_daemon)) == Ok::<_, PlanErrorView>(
            (
                Verbosity { verbose: 0, quiet: 0 },
                CommandPlanView::Eval {
                    config: as_read_back(config),
                    socket: None,
                    use_daemon: !no_daemon,
                },
            ),
        ),
{
    let items = items_of(config, no_daemon);
    lemma_items_are_good(config, no_daemon);
    lemma_eval_words(config, no_daemon);
    lemma_sorted_eval(items);
    lemma_eval_input(config, no_daemon);
}

/// A configuration that has no remotes and whose expressions come first is read back as it was.
pub proof fn law_eval_line_keeps_the_configuration(config: ConfigView)
    requires
        config.remotes.len() == 0,
        forall|i: int, j: int|
            0 <= i < j < config.auto_args.len() && (#[trigger] config.auto_args[j]).1 is Expr
                ==> (#[trigger] config.auto_args[i]).1 is Expr,
    ensures
        as_read_back(config) == config,
{
    lemma_expressions_first(config.auto_args);
    assert(config.remotes =~= Seq::empty());
}

proof fn lemma_expressions_first(args: Seq<(Seq<char>, AutoArgView)>)
    requires
        forall|i: int, j: int|
            0 <= i < j < args.len() && (#[trigger] args[j]).1 is Expr ==> (
            #[trigger] args[i]).1 is Expr,
    ensures
        auto_args_of(args_of_kind(args, true), args_of_kind(args, false)) == args,
        args.len() > 0 && args.last().1 is Expr ==> args_of_kind(args, false).len() == 0,
    decreases args.len(),
{
    if args.len() == 0 {
        assert(auto_args_of(args_of_kind(args, true), args_of_kind(args, false)) =~= args);
    } else {
        let shorter = args.drop_last();
        assert forall|i: int, j: int|
            0 <= i < j < shorter.len() && (#[trigger] shorter[j]).1 is Expr implies (
        #[trigger] shorter[i]).1 is Expr by {
            assert(shorter[i] == args[i] && shorter[j] == args[j]);
        }
        lemma_expressions_first(shorter);
        if args.last().1 is Expr && shorter.len() > 0 {
            assert(args[args.len() - 1].1 is Expr);
            assert(args[args.len() - 2].1 is Expr);
            assert(shorter.last() == args[args.len() - 2]);
        }
        let exprs = args_of_kind(shorter, true);
        let strs = args_of_kind(shorter, false);
        assert(shorter.push(args.last()) =~= args);
        assert(auto_args_of(args_of_kind(args, true), args_of_kind(args, false))
            =~= auto_args_of(exprs, strs).push(args.last()));
    }
}

} // verus!
