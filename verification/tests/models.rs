use hookd::clock::Timestamp;
use hookd::config::{copy_texts, Config, Hook};
use hookd::model::{CreateConfig, Info, Request};
use hookd::string_map::StringMap;
use std::time::Duration;

fn text(s: &str) -> String {
    s.to_string()
}

fn map(pairs: &[(&str, &str)]) -> StringMap {
    let mut map = StringMap::new();
    for (key, value) in pairs {
        map.insert(key.to_string(), value.to_string());
    }
    map
}

fn sorted(map: &StringMap) -> Vec<(String, String)> {
    let mut pairs = map.entries();
    pairs.sort();
    pairs
}

fn deploy_hook() -> Hook {
    Hook {
        command: text("/usr/local/bin/deploy"),
        work_dir: text("/srv/app"),
        allowed_keys: vec![text("BRANCH"), text("COMMIT")],
        timeout: Duration::from_secs(30),
    }
}

fn post_request() -> Request {
    Request::from_request_parts(
        text("/hook/deploy"),
        text("POST"),
        text("HTTP/1.1"),
        &vec![(text("content-type"), Some(text("application/json")))],
        Some(text("203.0.113.7:51234")),
    )
}

#[test]
fn filter_keeps_the_allowed_variables() {
    let mut create_config =
        CreateConfig { vars: map(&[("BRANCH", "main"), ("PATH", "/evil"), ("COMMIT", "abc")]) };
    create_config.filter(&[text("BRANCH"), text("COMMIT"), text("TAG")]);
    assert_eq!(
        sorted(&create_config.vars),
        vec![(text("BRANCH"), text("main")), (text("COMMIT"), text("abc"))]
    );
}

#[test]
fn filter_drops_everything_when_nothing_is_allowed() {
    let mut create_config = CreateConfig { vars: map(&[("BRANCH", "main")]) };
    create_config.filter(&[]);
    assert!(create_config.vars.entries().is_empty());
}

#[test]
fn filter_of_no_variables_is_no_error() {
    let mut create_config = CreateConfig { vars: StringMap::new() };
    create_config.filter(&[text("BRANCH")]);
    assert!(create_config.vars.entries().is_empty());
}

#[test]
fn request_keeps_its_parts() {
    let request = post_request();
    assert_eq!(request.uri, "/hook/deploy");
    assert_eq!(request.method, "POST");
    assert_eq!(request.version, "HTTP/1.1");
    assert_eq!(request.peer_address, Some(text("203.0.113.7:51234")));
    assert_eq!(sorted(&request.headers), vec![(text("content-type"), text("application/json"))]);
}

#[test]
fn request_leaves_out_headers_that_are_no_text() {
    let headers = vec![
        (text("accept"), Some(text("*/*"))),
        (text("x-binary"), None),
        (text("host"), Some(text("example.org"))),
    ];
    let request =
        Request::from_request_parts(text("/"), text("GET"), text("HTTP/2.0"), &headers, None);
    assert_eq!(
        sorted(&request.headers),
        vec![(text("accept"), text("*/*")), (text("host"), text("example.org"))]
    );
    assert_eq!(request.peer_address, None);
}

#[test]
fn request_keeps_the_last_header_of_a_name() {
    let headers = vec![
        (text("x-tag"), Some(text("first"))),
        (text("x-tag"), Some(text("second"))),
        (text("x-tag"), None),
        (text("x-only-binary"), None),
    ];
    let request =
        Request::from_request_parts(text("/"), text("GET"), text("HTTP/1.1"), &headers, None);
    assert_eq!(sorted(&request.headers), vec![(text("x-tag"), text("second"))]);
}

#[test]
fn initial_info_is_running() {
    let started = Timestamp { secs: 1_700_000_000, nanos: 5 };
    let vars = map(&[("BRANCH", "main")]);
    let info = Info::initial(&deploy_hook(), &vars, post_request(), started);
    assert!(info.running);
    assert_eq!(info.started, started);
    assert_eq!(info.finished, None);
    assert_eq!(info.success, None);
    assert_eq!(info.config, deploy_hook());
    assert_eq!(info.request, post_request());
    assert_eq!(info.vars.map(|vars| sorted(&vars)), Some(vec![(text("BRANCH"), text("main"))]));
}

#[test]
fn finished_info_has_its_end_and_outcome() {
    let started = Timestamp { secs: 1_700_000_000, nanos: 5 };
    let finished = Timestamp { secs: 1_700_000_009, nanos: 0 };
    let vars = map(&[("BRANCH", "main")]);
    let info = Info::initial(&deploy_hook(), &vars, post_request(), started).finish(true, finished);
    assert!(!info.running);
    assert_eq!(info.started, started);
    assert_eq!(info.finished, Some(finished));
    assert_eq!(info.success, Some(true));
    assert!(info.finished.unwrap().not_before(&info.started));
    assert_eq!(info.config, deploy_hook());
    assert_eq!(info.request, post_request());
    let failed = Info::initial(&deploy_hook(), &vars, post_request(), started).finish(false, finished);
    assert_eq!(failed.success, Some(false));
}

#[test]
fn hook_clone_is_equal() {
    assert_eq!(deploy_hook().clone(), deploy_hook());
}

#[test]
fn texts_are_copied() {
    let texts = vec![text("a"), text(""), text("ccc")];
    assert_eq!(copy_texts(&texts), texts);
    assert_eq!(copy_texts(&Vec::new()), Vec::<String>::new());
}

#[test]
fn config_finds_hooks_by_name() {
    let mut config = Config::new();
    assert_eq!(config.get("deploy"), None);
    config.insert(text("deploy"), deploy_hook());
    assert_eq!(config.get("deploy"), Some(&deploy_hook()));
    assert_eq!(config.get("Deploy"), None);
    let mut other = deploy_hook();
    other.command = text("/bin/true");
    config.insert(text("deploy"), other);
    assert_eq!(config.get("deploy").map(|hook| hook.command.as_str()), Some("/bin/true"));
}

#[test]
fn timestamps_are_ordered_by_seconds_then_nanoseconds() {
    let early = Timestamp { secs: 10, nanos: 999_999_999 };
    let late = Timestamp { secs: 11, nanos: 0 };
    assert!(late.not_before(&early));
    assert!(!early.not_before(&late));
    assert!(early.not_before(&early));
    assert!(Timestamp { secs: 10, nanos: 5 }.not_before(&Timestamp { secs: 10, nanos: 4 }));
    assert!(!Timestamp { secs: 10, nanos: 4 }.not_before(&Timestamp { secs: 10, nanos: 5 }));
    assert!(Timestamp { secs: 0, nanos: 0 }.not_before(&Timestamp { secs: -1, nanos: 7 }));
}
