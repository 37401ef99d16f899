use evix::paths::{join_path, order, sort_and_dedup, Order};
use evix::watch::{
    local_flake_root, local_path_inputs, lock_path, watch_step, watched_flake_paths, watched_paths, WatchSignal,
    WatchStep,
};
use evix::{Config, Input};

#[test]
fn local_flake_root_accepts_path_refs_and_fragments() {
    assert_eq!(local_flake_root(".#hydraJobs").unwrap(), ".");
    assert_eq!(local_flake_root("path:/repo#jobs").unwrap(), "/repo");
    assert!(local_flake_root("github:owner/repo#jobs").is_none());
}

#[test]
fn local_flake_roots() {
    assert_eq!(local_flake_root("").unwrap(), ".");
    assert_eq!(local_flake_root("#jobs").unwrap(), ".");
    assert_eq!(local_flake_root("path:").unwrap(), ".");
    assert_eq!(local_flake_root("..").unwrap(), "..");
    assert_eq!(local_flake_root("./sub#a#b").unwrap(), "./sub");
    assert!(local_flake_root("../other").is_none());
    assert!(local_flake_root("nixpkgs").is_none());
}

fn lock() -> String {
    r#"{"nodes":{
        "a":{"locked":{"type":"path","path":"/abs/dep"}},
        "b":{"locked":{"type":"path","path":"sub/dep"}},
        "c":{"locked":{"type":"github","path":"x"}},
        "d":{"locked":{"type":"path"}},
        "e":{"locked":{"type":"path","path":"/abs//dep/"}},
        "root":{"inputs":{}}
    },"version":7}"#
        .to_string()
}

#[test]
fn local_inputs_of_a_lock_file_are_watched_once_each() {
    let paths = watched_flake_paths("/repo#jobs", &Some(lock())).unwrap();
    assert_eq!(paths, ["/abs/dep", "/repo", "/repo/sub/dep"]);
    assert_eq!(watched_flake_paths("/repo", &None).unwrap(), ["/repo"]);
    assert_eq!(
        watched_flake_paths("/repo", &Some("{".into())).unwrap_err().message(),
        "parsing flake.lock"
    );
    assert_eq!(
        watched_flake_paths("github:a/b", &None).unwrap_err().message(),
        "flake reference is not a local path: github:a/b"
    );
    assert_eq!(
        watched_flake_paths("/repo", &Some("{".into())).unwrap_err().cause(),
        Some(serde_json::from_str::<serde_json::Value>("{").unwrap_err().to_string())
    );
    assert_eq!(watched_flake_paths("github:a/b", &None).unwrap_err().cause(), None);
    assert!(local_path_inputs("/repo", &Some(r#"{"nodes":[1]}"#.into())).unwrap().is_empty());
    assert!(local_path_inputs("/repo", &None).unwrap().is_empty());
}

#[test]
fn local_inputs_come_in_the_order_of_their_nodes() {
    let lock = r#"{"nodes":{
        "z":{"locked":{"type":"path","path":"one"}},
        "b":{"locked":{"type":"path","path":"two//"}},
        "a":{"locked":{"type":"path","path":"two"}},
        "B":{"locked":{"type":"path","path":"/x"}},
        "ab":{"locked":{"type":"path","path":"two"}}
    }}"#;
    assert_eq!(
        local_path_inputs("/r", &Some(lock.into())).unwrap(),
        ["/x", "/r/two", "/r/two", "/r/two//", "/r/one"]
    );
}

#[test]
fn the_first_spelling_of_a_path_is_watched() {
    let lock = r#"{"nodes":{
        "b":{"locked":{"type":"path","path":"/dep"}},
        "a":{"locked":{"type":"path","path":"//dep/./"}},
        "c":{"locked":{"type":"path","path":"/repo"}}
    }}"#;
    assert_eq!(watched_flake_paths("/repo/", &Some(lock.into())).unwrap(), ["//dep/./", "/repo/"]);
    let spelled = ["b/", "a", "b", "a//", "./a"].map(String::from).to_vec();
    assert_eq!(sort_and_dedup(&spelled), ["./a", "a", "b/"]);
}

#[test]
fn files_are_watched_and_expressions_are_not() {
    let config = |input| Config { input, ..Config::default() };
    assert_eq!(watched_paths(&config(Input::File("jobs.nix".into())), &None).unwrap(), ["jobs.nix"]);
    assert!(watched_paths(&config(Input::Expr("{}".into())), &None).unwrap().is_empty());
    assert_eq!(watched_paths(&config(Input::Flake(".".into())), &None).unwrap(), ["."]);
}

#[test]
fn paths_are_ordered_as_std_orders_them() {
    let texts = [
        "", ".", "..", "/", "/a", "/a/", "/a//b", "/a/./b", "a", "a/..", "./a", "b", "/a/b/c", "/ab", "a.b", "A",
        "/a.b", "./", "a/.",
    ];
    for a in texts {
        for b in texts {
            let expected = std::path::Path::new(a).cmp(std::path::Path::new(b));
            let expected = if expected.is_lt() {
                Order::Before
            } else if expected.is_gt() {
                Order::After
            } else {
                Order::Same
            };
            assert_eq!(order(a, b), expected, "{a:?} {b:?}");
        }
    }
}

#[test]
fn paths_are_joined_as_std_joins_them() {
    for root in ["", ".", "/", "/repo", "/repo/", "./sub"] {
        for path in ["", "flake.lock", "/abs", "../x", "a/b"] {
            let expected = std::path::Path::new(root).join(path);
            assert_eq!(join_path(root, path), expected.to_str().unwrap(), "{root:?} {path:?}");
        }
    }
    assert_eq!(lock_path("/repo"), "/repo/flake.lock");
}

#[test]
fn sorting_paths_agrees_with_std() {
    let texts = ["/b", "/a/", "a", "/a", "./a", "/a/b", "..", "/b//"];
    let mut expected: Vec<std::path::PathBuf> = texts.iter().map(std::path::PathBuf::from).collect();
    expected.sort();
    expected.dedup();
    let list: Vec<String> = texts.iter().map(|text| (*text).to_string()).collect();
    let sorted: Vec<std::path::PathBuf> = sort_and_dedup(&list).iter().map(std::path::PathBuf::from).collect();
    assert_eq!(sorted, expected);
}

#[test]
fn each_watch_signal_has_its_step() {
    assert!(matches!(watch_step(WatchSignal::Changed), WatchStep::Reevaluate));
    assert!(matches!(watch_step(WatchSignal::Quiet), WatchStep::Wait));
    assert!(matches!(
        watch_step(WatchSignal::Failed("gone".into())),
        WatchStep::Report(message) if message == "filesystem watch error: gone"
    ));
    assert!(matches!(
        watch_step(WatchSignal::Disconnected),
        WatchStep::Fail(message) if message == "filesystem watcher disconnected"
    ));
}
