use korun::cli::client::{
    head_url, health_url, not_started_message, restart_url, session_url, sessions_url, stop_url,
    tail_url, wait_for_daemon, WaitStep, DEFAULT_ADDR,
};
use korun::cli::select::{is_daemon_process, stop_all_ids, stop_report, ResolveError};
use korun::cli::serve::{created_id, parse_env, serve_cmd};
use korun::cli::{load_watch_paths, resolve_id};

fn words(list: &[&str]) -> Vec<String> {
    list.iter().map(|w| w.to_string()).collect()
}

fn ids(list: &[Option<&str>]) -> Option<Vec<Option<String>>> {
    Some(list.iter().map(|id| id.map(|id| id.to_string())).collect())
}

#[test]
fn a_named_session_is_meant() {
    assert_eq!(resolve_id(Some("x".into()), &None), Ok("x".to_string()));
    assert_eq!(resolve_id(Some("x".into()), &ids(&[Some("a"), Some("b")])), Ok("x".to_string()));
}

#[test]
fn the_only_session_is_meant() {
    assert_eq!(resolve_id(None, &ids(&[Some("a")])), Ok("a".to_string()));
    let refused = [
        (None, "unexpected response from daemon"),
        (ids(&[]), "no active sessions"),
        (ids(&[None]), "session has no id"),
        (ids(&[Some("a"), None, Some("b")]), "3 active sessions — specify a UUID"),
    ];
    for (listing, message) in refused {
        assert_eq!(resolve_id(None, &listing).unwrap_err().message(), message);
    }
    assert_eq!(resolve_id(None, &ids(&[None, None])), Err(ResolveError::Ambiguous(2)));
}

#[test]
fn all_sessions_with_an_identifier_are_stopped() {
    assert_eq!(stop_all_ids(&ids(&[Some("a"), None, Some("b")])), vec!["a", "b"]);
    assert!(stop_all_ids(&ids(&[])).is_empty());
    assert!(stop_all_ids(&None).is_empty());
    assert_eq!(stop_report("a", &Some("stopping".into())), "a: stopping");
    assert_eq!(stop_report("a", &None), "a: ?");
}

#[test]
fn the_daemon_process_is_told_by_an_argument() {
    assert!(is_daemon_process(&words(&["korun", "--daemon-internal"])));
    assert!(!is_daemon_process(&words(&["korun", "ls", "--daemon"])));
    assert!(!is_daemon_process(&vec![]));
}

#[test]
fn addresses() {
    assert_eq!(DEFAULT_ADDR, "http://127.0.0.1:7777");
    assert_eq!(health_url(), "http://127.0.0.1:7777/healthz");
    assert_eq!(sessions_url(), "http://127.0.0.1:7777/v1/sessions");
    assert_eq!(session_url("x"), "http://127.0.0.1:7777/v1/sessions/x");
    assert_eq!(restart_url("x"), "http://127.0.0.1:7777/v1/sessions/x/restart");
    assert_eq!(stop_url("x"), "http://127.0.0.1:7777/v1/sessions/x/stop");
    assert_eq!(
        tail_url("x", true),
        "http://127.0.0.1:7777/v1/sessions/x/tail?follow=1&format=text"
    );
    assert_eq!(
        tail_url("x", false),
        "http://127.0.0.1:7777/v1/sessions/x/tail?follow=0&format=text"
    );
    assert_eq!(head_url("x"), "http://127.0.0.1:7777/v1/sessions/x/head?format=text");
}

#[test]
fn the_daemon_gets_five_seconds() {
    let mut paused = 0;
    let mut probes = 0;
    loop {
        let step = wait_for_daemon(probes, false);
        probes += 1;
        match step {
            WaitStep::AskAgain { pause_ms } => paused += pause_ms,
            WaitStep::GiveUp { pause_ms } => {
                paused += pause_ms;
                break;
            }
            WaitStep::Ready => panic!("it is not up"),
        }
    }
    assert_eq!((probes, paused), (50, 5_000));
    assert_eq!(not_started_message(), "daemon did not start within 5 seconds");
    assert_eq!(wait_for_daemon(0, true), WaitStep::Ready);
    assert_eq!(wait_for_daemon(49, true), WaitStep::Ready);
    assert_eq!(wait_for_daemon(u32::MAX, false), WaitStep::GiveUp { pause_ms: 100 });
}

#[test]
fn watch_files_list_a_path_on_each_line() {
    let contents = "src\r\n\n  # a comment\n\tCargo.toml \n#x\na b\n\u{a0}\nlast";
    let paths = load_watch_paths(words(&["first"]), Some(contents));
    assert_eq!(paths, vec!["first", "src", "Cargo.toml", "a b", "last"]);
    assert_eq!(load_watch_paths(words(&["a"]), None), vec!["a"]);
    assert_eq!(load_watch_paths(vec![], Some("")), Vec::<String>::new());
    assert_eq!(load_watch_paths(vec![], Some("x # y\n")), vec!["x # y"]);
}

fn expected_paths(contents: &str) -> Vec<String> {
    contents
        .lines()
        .map(|line| line.trim())
        .filter(|line| !line.is_empty() && !line.starts_with('#'))
        .map(|line| line.to_string())
        .collect()
}

#[test]
fn lines_and_white_space_are_as_the_standard_library_has_them() {
    for contents in ["a\r\nb\rc\n", "\r", "a\r", "\n\n", "é ü\n\u{3000}x\u{2028}y\u{85}\n# no"] {
        assert_eq!(load_watch_paths(vec![], Some(contents)), expected_paths(contents));
    }
    for code in 0..0x11_0000u32 {
        if let Some(c) = char::from_u32(code) {
            if c.is_whitespace() || code < 0x3100 {
                let contents = format!("{c}a{c}");
                assert_eq!(load_watch_paths(vec![], Some(&contents)), expected_paths(&contents));
            }
        }
    }
}

#[test]
fn variables_are_split_at_the_first_equals_sign() {
    let env = parse_env(&words(&["A=1", "B=x=y", "C", "A=2", "=e", "D="]));
    assert_eq!(env.get("A"), Some("2"));
    assert_eq!(env.get("B"), Some("x=y"));
    assert_eq!(env.get("C"), None);
    assert_eq!(env.get(""), Some("e"));
    assert_eq!(env.get("D"), Some(""));
    assert_eq!(env.pairs().len(), 4);
}

#[test]
fn a_request_is_made_from_the_command_line() {
    let req = serve_cmd(
        words(&["cargo", "run"]),
        words(&["src"]),
        &words(&["A=1"]),
        Some("/tmp/app".into()),
        "/home".into(),
    );
    assert_eq!(req.command, vec!["cargo", "run"]);
    assert_eq!(req.cwd.as_deref(), Some("/tmp/app"));
    assert_eq!(req.watch, Some(words(&["src"])));
    assert_eq!(req.env.unwrap().get("A"), Some("1"));
    let req = serve_cmd(words(&["x"]), vec![], &vec![], None, "/home".into());
    assert_eq!(req.cwd.as_deref(), Some("/home"));
}

#[test]
fn the_identifier_of_a_new_session() {
    assert_eq!(created_id(Some("x".into())), "x");
    assert_eq!(created_id(None), "unknown");
}
