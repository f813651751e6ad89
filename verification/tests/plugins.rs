use gertrude::admin::{PluginInfo, PluginsSrv};
use gertrude::paths::{
    extension_of, is_module, is_module_extension, is_module_file, name_of, stem_of,
};
use gertrude::plugins::{
    new_plugins, Attempt, Candidate, EventKind, FsEvent, FsWatcher, LoadTime, Manager, Refusal,
    WasmError, WasmPlugin,
};

fn loaded(secs: u64) -> Attempt {
    Attempt::Loaded { size: Some(secs * 10), loaded_time: LoadTime { secs, nanos: 7 } }
}

fn candidate(path: &str, attempt: Attempt) -> Candidate {
    Candidate { path: path.to_string(), attempt }
}

#[test]
fn the_module_extension_is_read_without_regard_to_case() {
    assert!(is_module("plugins/hello.wasm"));
    assert!(is_module("plugins/hello.WASM"));
    assert!(is_module("plugins/hello.WaSm"));
    assert!(is_module("hello.tar.wasm"));
    assert!(is_module("/abs/dir.d/..hidden.wasm"));
    assert!(is_module("dir/hello.wasm/"));
}

#[test]
fn other_files_are_no_modules() {
    assert!(!is_module("plugins/hello.wat"));
    assert!(!is_module("plugins/hello"));
    assert!(!is_module("plugins/wasm"));
    assert!(!is_module("plugins/.wasm"));
    assert!(!is_module("plugins/hello.wasm.bak"));
    assert!(!is_module("plugins/hello.wasm2"));
    assert!(!is_module("plugins/hello.wası"));
    assert!(!is_module("plugins.wasm/hello"));
    assert!(!is_module("hello."));
    assert!(!is_module(""));
    assert!(!is_module(".."));
    assert!(!is_module("dir/hello.wasm/.."));
}

#[test]
fn a_plugin_is_named_by_its_file_without_the_extension() {
    assert_eq!(name_of("plugins/hello.wasm"), "hello");
    assert_eq!(name_of("/p/foo.tar.wasm"), "foo.tar");
    assert_eq!(name_of("plugins/hello.tar.wasm"), "hello.tar");
    assert_eq!(name_of("hello"), "hello");
    assert_eq!(name_of("/a/b/.hidden"), ".hidden");
    assert_eq!(name_of("/a/b/.hidden.wasm"), ".hidden");
    assert_eq!(name_of("/a/b/ɸ.x.wasm"), "ɸ.x");
    assert_eq!(name_of("dir.d/hello"), "hello");
    assert_eq!(name_of("a/b.wasm/"), "b");
    assert_eq!(name_of("a."), "a");
    assert_eq!(name_of(".."), "<unknown>");
    assert_eq!(name_of("/"), "<unknown>");
    assert_eq!(name_of(""), "<unknown>");
}

#[test]
fn valid_files_are_registered_and_the_others_refused() {
    let mut manager = Manager::new();
    let rejected = manager.register(vec![
        candidate("p/one.wasm", loaded(1)),
        candidate("p/readme.md", Attempt::Skipped),
        candidate("p/broken.wasm", Attempt::Failed(WasmError::Compile)),
        candidate("p/two.WASM", loaded(2)),
        candidate("p/noimports.wasm", Attempt::Failed(WasmError::Instantiate)),
        candidate("p/gone.wasm", Attempt::Failed(WasmError::Load)),
        candidate("p/three.wasm", loaded(3)),
        candidate("p/untried.wasm", Attempt::Skipped),
        candidate("p/sneaky.txt", loaded(4)),
    ]);
    let paths: Vec<&str> = manager.get_info().iter().map(|p| p.path.as_str()).collect();
    assert_eq!(paths, vec!["p/one.wasm", "p/two.WASM", "p/three.wasm"]);
    let refused: Vec<(&str, Refusal)> =
        rejected.iter().map(|r| (r.path.as_str(), r.refusal)).collect();
    assert_eq!(
        refused,
        vec![
            ("p/readme.md", Refusal::Extension),
            ("p/broken.wasm", Refusal::Failed(WasmError::Compile)),
            ("p/noimports.wasm", Refusal::Failed(WasmError::Instantiate)),
            ("p/gone.wasm", Refusal::Failed(WasmError::Load)),
            ("p/untried.wasm", Refusal::Failed(WasmError::Load)),
            ("p/sneaky.txt", Refusal::Extension),
        ]
    );
    assert_eq!(manager.get_info().len() + rejected.len(), 9);
    assert_eq!(manager.get_info()[1].size, Some(20));
    assert_eq!(manager.get_info()[1].loaded_time, LoadTime { secs: 2, nanos: 7 });
}

#[test]
fn a_new_module_is_added_after_those_that_are_there() {
    let mut manager = Manager::new();
    manager.register(vec![candidate("p/one.wasm", loaded(100)), candidate("p/two.wasm", loaded(100))]);
    let before: Vec<(String, LoadTime)> =
        manager.get_info().iter().map(|p| (p.path.clone(), p.loaded_time)).collect();
    let watcher = FsWatcher { dir: "p".to_string() };
    let tried = watcher.watch(&vec![FsEvent {
        kind: EventKind::CreateFile,
        paths: vec!["p/three.wasm".to_string()],
    }]);
    assert_eq!(tried, vec!["p/three.wasm".to_string()]);
    let rejected = manager.register(vec![candidate(&tried[0], loaded(250))]);
    assert!(rejected.is_empty());
    let after = manager.get_info();
    assert_eq!(after.len(), before.len() + 1);
    for (i, (path, time)) in before.iter().enumerate() {
        assert_eq!(&after[i].path, path);
        assert_eq!(&after[i].loaded_time, time);
    }
    assert_eq!(after[2].path, "p/three.wasm");
    assert!(after[2].loaded_time.secs > 100);
}

#[test]
fn only_new_files_are_tried() {
    let watcher = FsWatcher { dir: "p".to_string() };
    let events = vec![
        FsEvent { kind: EventKind::Other, paths: vec!["p/changed.wasm".to_string()] },
        FsEvent {
            kind: EventKind::CreateFile,
            paths: vec!["p/a.wasm".to_string(), "p/b.txt".to_string()],
        },
        FsEvent { kind: EventKind::CreateFile, paths: vec![] },
        FsEvent { kind: EventKind::Other, paths: vec![] },
        FsEvent { kind: EventKind::CreateFile, paths: vec!["p/c.wasm".to_string()] },
    ];
    assert_eq!(
        watcher.watch(&events),
        vec!["p/a.wasm".to_string(), "p/b.txt".to_string(), "p/c.wasm".to_string()]
    );
    assert!(watcher.watch(&vec![]).is_empty());
}

#[test]
fn a_failing_plugin_is_left_out_of_the_replies() {
    let manager = Manager::new();
    let dispatch =
        manager.handle_privmsg(vec![Err(WasmError::Runtime), Ok(Some("hello back".to_string()))]);
    assert_eq!(dispatch.replies, vec!["hello back".to_string()]);
    assert_eq!(dispatch.failures, vec![(0, WasmError::Runtime)]);
}

#[test]
fn replies_come_in_the_order_of_the_registry() {
    let manager = Manager::new();
    let dispatch = manager.handle_privmsg(vec![
        Ok(Some("one".to_string())),
        Ok(None),
        Err(WasmError::Runtime),
        Ok(Some(String::new())),
        Err(WasmError::Instantiate),
        Ok(Some("two".to_string())),
    ]);
    assert_eq!(dispatch.replies, vec!["one".to_string(), "two".to_string()]);
    assert_eq!(dispatch.failures, vec![(2, WasmError::Runtime), (4, WasmError::Instantiate)]);
    let none = manager.handle_privmsg(vec![]);
    assert!(none.replies.is_empty());
    assert!(none.failures.is_empty());
}

#[test]
fn an_empty_reply_is_no_reply() {
    let manager = Manager::new();
    let dispatch = manager.handle_privmsg(vec![Ok(Some(String::new()))]);
    assert!(dispatch.replies.is_empty());
    assert!(dispatch.failures.is_empty());
    let dispatch = manager.handle_privmsg(vec![
        Ok(Some(String::new())),
        Ok(Some(" ".to_string())),
        Ok(Some(String::new())),
    ]);
    assert_eq!(dispatch.replies, vec![" ".to_string()]);
}

#[test]
fn every_failure_names_the_place_of_its_plugin() {
    let manager = Manager::new();
    let outcomes = vec![
        Err(WasmError::Load),
        Ok(Some("x".to_string())),
        Err(WasmError::Compile),
        Ok(None),
        Err(WasmError::Runtime),
    ];
    let dispatch = manager.handle_privmsg(outcomes.clone());
    assert_eq!(
        dispatch.failures,
        vec![(0, WasmError::Load), (2, WasmError::Compile), (4, WasmError::Runtime)]
    );
    for (at, error) in &dispatch.failures {
        assert!(*at < outcomes.len());
        assert_eq!(outcomes[*at], Err(*error));
    }
}

#[test]
fn without_a_directory_there_is_nothing_to_watch() {
    let (watchers, manager) = new_plugins(None);
    assert!(watchers.watchers.is_empty());
    assert!(manager.get_info().is_empty());
    let (watchers, manager) = new_plugins(Some("plugins"));
    assert_eq!(watchers.watchers.len(), 1);
    assert_eq!(watchers.watchers[0].dir, "plugins");
    assert!(manager.get_info().is_empty());
}

#[test]
fn a_clone_of_the_registry_is_a_point_in_time() {
    let mut manager = Manager::new();
    manager.register(vec![candidate("p/one.wasm", loaded(1))]);
    let then = manager.clone();
    manager.register(vec![candidate("p/two.wasm", loaded(2))]);
    assert_eq!(then.get_info().len(), 1);
    assert_eq!(manager.get_info().len(), 2);
}

#[test]
fn the_list_tells_name_path_size_and_time() {
    let mut manager = Manager::new();
    manager.register(vec![
        candidate("plugins/hello.wasm", loaded(5)),
        candidate(
            "plugins/.odd.v2.wasm",
            Attempt::Loaded { size: None, loaded_time: LoadTime { secs: 9, nanos: 1 } },
        ),
    ]);
    let listed = PluginsSrv::new(manager).list();
    assert_eq!(listed.len(), 2);
    assert_eq!(listed[0].name, "hello");
    assert_eq!(listed[0].path, "plugins/hello.wasm");
    assert_eq!(listed[0].size, 50);
    assert_eq!(listed[0].loaded_time, LoadTime { secs: 5, nanos: 7 });
    assert_eq!(listed[1].name, ".odd.v2");
    assert_eq!(listed[1].path, "plugins/.odd.v2.wasm");
    assert_eq!(listed[1].size, 0);
    assert_eq!(listed[1].loaded_time, LoadTime { secs: 9, nanos: 1 });
    assert!(PluginsSrv::new(Manager::new()).list().is_empty());
}

#[test]
fn errors_have_their_words() {
    assert_eq!(WasmError::Load.message(), "Load error");
    assert_eq!(WasmError::Compile.message(), "Compile error");
    assert_eq!(WasmError::Instantiate.message(), "Instantiation error");
    assert_eq!(WasmError::Runtime.message(), "Runtime error");
}

#[test]
fn the_extension_follows_the_last_dot() {
    assert_eq!(extension_of("hello.wasm"), Some("wasm"));
    assert_eq!(extension_of("hello.tar.GZ"), Some("GZ"));
    assert_eq!(extension_of("hello."), Some(""));
    assert_eq!(extension_of("..wasm"), Some("wasm"));
    assert_eq!(extension_of("ɸ.ɸɸ"), Some("ɸɸ"));
    assert_eq!(extension_of(".hidden"), None);
    assert_eq!(extension_of("hello"), None);
    assert_eq!(extension_of("."), None);
    assert_eq!(extension_of(""), None);
}

#[test]
fn the_stem_ends_at_the_last_dot() {
    assert_eq!(stem_of("foo.tar.wasm"), "foo.tar");
    assert_eq!(stem_of("hello.tar.gz"), "hello.tar");
    assert_eq!(stem_of("hello.wasm"), "hello");
    assert_eq!(stem_of("hello"), "hello");
    assert_eq!(stem_of(".hidden"), ".hidden");
    assert_eq!(stem_of(".hidden.wasm"), ".hidden");
    assert_eq!(stem_of("..rc"), ".");
    assert_eq!(stem_of("a."), "a");
    assert_eq!(stem_of("."), ".");
    assert_eq!(stem_of(""), "");
}

#[test]
fn stem_and_extension_part_a_name_at_the_same_dot() {
    for name in ["foo.tar.wasm", "a.b", "a.", "..rc", "ɸ.ɸɸ"] {
        let extension = extension_of(name).unwrap();
        assert_eq!(format!("{}.{}", stem_of(name), extension), name);
    }
    for name in ["hello", ".hidden", ".", ""] {
        assert_eq!(extension_of(name), None);
        assert_eq!(stem_of(name), name);
    }
}

#[test]
fn a_module_has_the_module_extension() {
    assert!(is_module_extension("wasm"));
    assert!(!is_module_extension("WASM"));
    assert!(!is_module_extension("wasm "));
    assert!(!is_module_extension(""));
    assert!(is_module_file("a.wasm"));
    assert!(is_module_file("a.b.WaSM"));
    assert!(!is_module_file(".wasm"));
    assert!(!is_module_file("wasm"));
    assert!(!is_module_file("a.wasm.txt"));
    assert!(!is_module_file("dir/a.wasm/b"));
}

#[test]
fn one_candidate_is_recorded_or_refused() {
    let mut manager = Manager::new();
    let refused = manager.record(&candidate("one.txt", loaded(1)), true);
    assert!(refused.is_none());
    assert_eq!(manager.get_info().len(), 1);
    assert_eq!(manager.get_info()[0].path, "one.txt");

    let refused = manager.record(&candidate("two.wasm", loaded(2)), false).unwrap();
    assert_eq!((refused.path.as_str(), refused.refusal), ("two.wasm", Refusal::Extension));
    let refused = manager.record(&candidate("three.wasm", Attempt::Skipped), true).unwrap();
    assert_eq!(refused.refusal, Refusal::Failed(WasmError::Load));
    let refused =
        manager.record(&candidate("four.wasm", Attempt::Failed(WasmError::Compile)), true).unwrap();
    assert_eq!(refused.refusal, Refusal::Failed(WasmError::Compile));
    let refused =
        manager.record(&candidate("five.wasm", Attempt::Failed(WasmError::Compile)), false).unwrap();
    assert_eq!(refused.refusal, Refusal::Extension);
    assert_eq!(manager.get_info().len(), 1);
}

#[test]
fn what_is_told_of_a_plugin_goes_by_the_name_given() {
    let plugin = WasmPlugin {
        path: "p/hello.wasm".to_string(),
        size: None,
        loaded_time: LoadTime { secs: 3, nanos: 4 },
    };
    let info = PluginInfo::of(&plugin, "any name".to_string());
    assert_eq!(info.name, "any name");
    assert_eq!(info.path, "p/hello.wasm");
    assert_eq!(info.size, 0);
    assert_eq!(info.loaded_time, LoadTime { secs: 3, nanos: 4 });
    let sized = WasmPlugin { size: Some(77), ..plugin.clone() };
    assert_eq!(PluginInfo::of(&sized, String::new()).size, 77);
}
