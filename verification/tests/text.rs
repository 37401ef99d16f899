use std::collections::VecDeque;

use evix::keyed_map::KeyedMap;
use evix::scheduler::{NextWork, Scheduler, WorkItem};
use evix::text::{
    contains_char, join, number_text, parse_number, split, split_once, starts_with, trim, trim_line, NumberError,
};

const TEXTS: [&str; 12] = [
    "", " ", "a", "a=b=c", "=", "==", "\u{a0}x\u{3000}", "\n\r x \r\n", "--arg=1", "h\u{e9}llo", "a,,b,", "\u{1f}\u{1f}",
];

#[test]
fn numbers_are_written_and_read() {
    for n in [0, 9, 10, 101, 4096, usize::MAX - 1, usize::MAX] {
        assert_eq!(number_text(n), n.to_string());
        assert_eq!(parse_number(&number_text(n)), Ok(n));
    }
    assert_eq!(parse_number("+007"), Ok(7));
    assert_eq!(parse_number(""), Err(NumberError::Empty));
    assert_eq!(NumberError::Empty.message(), "cannot parse integer from empty string");
}

#[test]
fn numbers_are_read_as_std_reads_them() {
    let texts = [
        "", "+", "-", "-0", "-1", "+1", "++1", "1 ", " 1", "1a", "a1", "18446744073709551615", "18446744073709551616",
        "99999999999999999999x", "000000000000000000000001", "0x10", "1_000", "\u{661}", "+18446744073709551616",
    ];
    for text in texts {
        match (parse_number(text), text.parse::<usize>()) {
            (Ok(n), Ok(m)) => assert_eq!(n, m, "{text:?}"),
            (Err(error), Err(expected)) => assert_eq!(error.message(), expected.to_string(), "{text:?}"),
            (got, expected) => panic!("{text:?}: {got:?}, {expected:?}"),
        }
    }
}

#[test]
fn texts_are_cut_as_std_cuts_them() {
    for text in TEXTS {
        for c in ['=', ',', '\u{1f}', '\u{e9}'] {
            let expected: Vec<&str> = text.split(c).collect();
            assert_eq!(split(text, c), expected);
            assert_eq!(join(&split(text, c), &c.to_string()), text);
            let cut = split_once(text, c);
            let cut = cut.as_ref().map(|(before, after)| (before.as_str(), after.as_str()));
            assert_eq!(cut, text.split_once(c));
            assert_eq!(contains_char(text, c), text.contains(c));
        }
        assert_eq!(trim(text), text.trim());
        assert_eq!(trim_line(text), text.trim_matches(['\n', '\r', ' ']));
        assert_eq!(starts_with(text, "--"), text.starts_with("--"));
    }
}

#[test]
fn whitespace_is_what_std_calls_whitespace() {
    for c in '\0'..='\u{3fff}' {
        assert_eq!(trim(&c.to_string()).is_empty(), c.is_whitespace(), "{c:?}");
    }
}

#[test]
fn maps_keep_their_keys_in_order() {
    let mut map: KeyedMap<String, Option<String>> = KeyedMap::new();
    assert!(map.is_empty());
    map.insert("b".into(), None);
    map.insert("a".into(), Some("1".into()));
    map.insert("b".into(), Some("2".into()));
    assert_eq!(map.len(), 2);
    assert_eq!(map.key_at(0), "b");
    assert_eq!(map.value_at(0).as_deref(), Some("2"));
    assert_eq!(map.key_at(1), "a");
    assert!(map.get(&"c".to_string()).is_none());
}

#[test]
fn an_item_that_all_workers_rejected_is_fatal() {
    let mut scheduler = Scheduler {
        todo: VecDeque::from([
            WorkItem { path: vec!["a".into()], rejected_by: vec![0] },
            WorkItem { path: vec!["b".into(), "c".into()], rejected_by: vec![1, 0] },
        ]),
        active: 0,
        worker_count: 2,
        error: None,
    };
    assert_eq!(scheduler.exhausted_error().as_deref(), Some("no worker accepted derivation at b.c"));
    assert!(matches!(scheduler.next_for(0), NextWork::Fatal(error) if error == "no worker accepted derivation at b.c"));
    assert!(matches!(scheduler.next_for(1), NextWork::Fatal(_)));
}
