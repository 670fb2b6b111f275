use d5_cli::addr::Ipv4Address;
use d5_cli::cache::CacheFile;
use d5_cli::resolver::start;
use d5_cli::resolver::step;
use d5_cli::resolver::trim_bytes;
use d5_cli::resolver::Event;
use d5_cli::resolver::ResolveError;
use d5_cli::resolver::State;
use d5_cli::D5;

fn creds_with_password() -> D5 {
    D5 { username: b"dsock".to_vec(), password: Some(b"hunter2".to_vec()) }
}

#[test]
fn default_credentials() {
    let creds = D5::new();
    assert_eq!(creds.username, b"dsock".to_vec());
    assert_eq!(creds.password, None);
}

#[test]
fn trim_strips_surrounding_whitespace() {
    assert_eq!(trim_bytes(b"  hunter2\n"), b"hunter2".to_vec());
    assert_eq!(trim_bytes(b"hunter2"), b"hunter2".to_vec());
    assert_eq!(trim_bytes(b"\t a b \r\n"), b"a b".to_vec());
    assert_eq!(trim_bytes(b" \n "), b"".to_vec());
    assert_eq!(trim_bytes(b""), b"".to_vec());
}

#[test]
fn prompted_password_is_trimmed_before_the_fetch() {
    let creds = D5 { username: b"dsock".to_vec(), password: None };
    let s0 = start(creds, true);
    assert!(matches!(s0, State::NeedPassword { .. }));
    let s1 = step(s0, Event::Prompted { password: Some(b"  hunter2\n".to_vec()) });
    match s1 {
        State::Fetch { username, password } => {
            assert_eq!(username, b"dsock".to_vec());
            assert_eq!(password, b"hunter2".to_vec());
        },
        other => panic!("expected the fetch state, got {:?}", other),
    }
}

#[test]
fn fresh_cache_resolves_without_any_fetch() {
    let now = 1_000_000;
    let file = CacheFile { content: b"198.51.100.4".to_vec(), modified: now - 10 };
    let s0 = start(creds_with_password(), false);
    assert!(matches!(s0, State::TryCache { .. }));
    let s1 = step(s0, Event::CacheRead { file: Some(file), now });
    match s1 {
        State::Done { addr } => assert_eq!(addr, Ipv4Address { a: 198, b: 51, c: 100, d: 4 }),
        other => panic!("expected immediate success, got {:?}", other),
    }
}

#[test]
fn forced_resolution_skips_the_cache() {
    let s0 = start(creds_with_password(), true);
    match s0 {
        State::Fetch { username, password } => {
            assert_eq!(username, b"dsock".to_vec());
            assert_eq!(password, b"hunter2".to_vec());
        },
        other => panic!("expected the fetch state, got {:?}", other),
    }
}

#[test]
fn stale_cache_falls_back_to_the_server() {
    let now = 1_000_000;
    let file = CacheFile { content: b"198.51.100.4".to_vec(), modified: now - 4000 };
    let s0 = start(creds_with_password(), false);
    let s1 = step(s0, Event::CacheRead { file: Some(file), now });
    assert!(matches!(s1, State::Fetch { .. }));
}

#[test]
fn invalid_response_fails_with_the_exact_text() {
    let s0 = State::Fetch { username: b"dsock".to_vec(), password: b"wrong".to_vec() };
    let s1 = step(s0, Event::Fetched { body: Some(b"invalid password".to_vec()) });
    match s1 {
        State::Failed { err } => {
            assert_eq!(err, ResolveError::InvalidResponse { body: b"invalid password".to_vec() });
        },
        other => panic!("expected a failure, got {:?}", other),
    }
}

#[test]
fn unsendable_request_is_a_network_error() {
    let s0 = State::Fetch { username: b"dsock".to_vec(), password: b"hunter2".to_vec() };
    let s1 = step(s0, Event::Fetched { body: None });
    match s1 {
        State::Failed { err } => assert_eq!(err, ResolveError::NetworkError),
        other => panic!("expected a failure, got {:?}", other),
    }
}

#[test]
fn missing_prompt_dependency_fails_before_any_fetch() {
    let creds = D5 { username: b"dsock".to_vec(), password: None };
    let s0 = start(creds, false);
    let s1 = step(s0, Event::CacheRead { file: None, now: 1_000_000 });
    assert!(matches!(s1, State::NeedPassword { .. }));
    let s2 = step(s1, Event::Prompted { password: None });
    match s2 {
        State::Failed { err } => assert_eq!(err, ResolveError::MissingDependency),
        other => panic!("expected a failure, got {:?}", other),
    }
}

#[test]
fn write_failure_still_returns_the_fetched_address() {
    let addr = Ipv4Address { a: 203, b: 0, c: 113, d: 7 };
    let s1 = step(State::WriteBack { addr }, Event::Wrote { ok: false });
    match s1 {
        State::Done { addr: got } => assert_eq!(got, addr),
        other => panic!("expected success despite the failed write, got {:?}", other),
    }
}

#[test]
fn scenario_cache_absent_then_cached() {
    let expected = Ipv4Address { a: 203, b: 0, c: 113, d: 7 };
    let now = 1_000_000;
    // First resolution: no cache file, so the machine asks for a fetch.
    let s0 = start(creds_with_password(), false);
    let s1 = step(s0, Event::CacheRead { file: None, now });
    assert!(matches!(s1, State::Fetch { .. }));
    let s2 = step(s1, Event::Fetched { body: Some(b"203.0.113.7".to_vec()) });
    match &s2 {
        State::WriteBack { addr } => assert_eq!(*addr, expected),
        other => panic!("expected the write-back state, got {:?}", other),
    }
    let s3 = step(s2, Event::Wrote { ok: true });
    match s3 {
        State::Done { addr } => assert_eq!(addr, expected),
        other => panic!("expected success, got {:?}", other),
    }
    // What the write-back put on disk is the canonical form.
    let content = expected.serialize();
    assert_eq!(content, b"203.0.113.7".to_vec());
    // An immediate second resolution ends at the cache, never fetching.
    let t0 = start(creds_with_password(), false);
    let t1 = step(t0, Event::CacheRead { file: Some(CacheFile { content, modified: now }), now });
    match t1 {
        State::Done { addr } => assert_eq!(addr, expected),
        other => panic!("expected success straight from the cache, got {:?}", other),
    }
}
