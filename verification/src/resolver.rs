//! The address resolver: credentials and the cache-or-fetch state machine.
//!
//! A resolution is a walk of a small state machine. Each non-terminal
//! state names the one outside action the surrounding program performs
//! next (read the cache file, prompt for a password, send the request,
//! write the cache back); the program reports what happened as an
//! [`Event`], and [`step`] decides the next state. The fallback policy —
//! cache first, then the server; cache-read failures recovered, cache-write
//! failures ignored — lives entirely in the transition relation
//! [`step_rel`], which `step` is proved to follow.

use vstd::prelude::*;

use crate::addr::parse;
use crate::addr::parse_spec;
use crate::addr::Ipv4Address;
use crate::cache::read_decision;
use crate::cache::read_decision_spec;
use crate::cache::CacheFile;

verus! {

/// ASCII whitespace: space, tab, line feed, form feed, carriage return.
pub open spec fn is_space(ch: u8) -> bool {
    ch == 32 || ch == 9 || ch == 10 || ch == 12 || ch == 13
}

/// `s` without its leading whitespace.
pub open spec fn trim_front(s: Seq<u8>) -> Seq<u8>
    decreases s.len(),
{
    if s.len() > 0 && is_space(s[0]) {
        trim_front(s.drop_first())
    } else {
        s
    }
}

/// `s` without its trailing whitespace.
pub open spec fn trim_back(s: Seq<u8>) -> Seq<u8>
    decreases s.len(),
{
    if s.len() > 0 && is_space(s[s.len() - 1]) {
        trim_back(s.drop_last())
    } else {
        s
    }
}

/// `s` without surrounding whitespace.
pub open spec fn trimmed(s: Seq<u8>) -> Seq<u8> {
    trim_back(trim_front(s))
}

/// Whether `ch` is ASCII whitespace.
fn is_space_byte(ch: u8) -> (r: bool)
    ensures
        r == is_space(ch),
{
    ch == 32 || ch == 9 || ch == 10 || ch == 12 || ch == 13
}

/// Removes surrounding ASCII whitespace, as from a prompted password.
pub fn trim_bytes(s: &[u8]) -> (r: Vec<u8>)
    ensures
        r@ == trimmed(s@),
{
    let len = s.len();
    proof {
        assert(s@.subrange(0, len as int) =~= s@);
    }
    let mut lo: usize = 0;
    while lo < len && is_space_byte(s[lo])
        invariant
            len == s@.len(),
            lo <= len,
            trim_front(s@) == trim_front(s@.subrange(lo as int, len as int)),
        decreases len - lo,
    {
        proof {
            assert(s@.subrange(lo as int, len as int).drop_first() =~= s@.subrange(
                lo as int + 1,
                len as int,
            ));
        }
        lo = lo + 1;
    }
    proof {
        assert(trim_front(s@) == s@.subrange(lo as int, len as int));
    }
    let mut hi: usize = len;
    while hi > lo && is_space_byte(s[hi - 1])
        invariant
            len == s@.len(),
            lo <= hi <= len,
            trim_back(s@.subrange(lo as int, len as int)) == trim_back(
                s@.subrange(lo as int, hi as int),
            ),
        decreases hi,
    {
        proof {
            assert(s@.subrange(lo as int, hi as int).drop_last() =~= s@.subrange(
                lo as int,
                hi as int - 1,
            ));
        }
        hi = hi - 1;
    }
    proof {
        assert(trimmed(s@) == s@.subrange(lo as int, hi as int));
    }
    let mut out: Vec<u8> = Vec::new();
    let mut i: usize = lo;
    while i < hi
        invariant
            lo <= i <= hi <= len,
            len == s@.len(),
            out@ == s@.subrange(lo as int, i as int),
        decreases hi - i,
    {
        out.push(s[i]);
        proof {
            assert(s@.subrange(lo as int, i as int + 1) =~= s@.subrange(lo as int, i as int)
                + seq![s@[i as int]]);
        }
        i = i + 1;
    }
    out
}

/// The credentials a resolution runs with.
#[derive(PartialEq, Eq, Debug)]
pub struct D5 {
    /// User name for HTTP Basic authentication, as UTF-8 bytes.
    pub username: Vec<u8>,
    /// Password for HTTP Basic authentication, as UTF-8 bytes; when
    /// absent, one is prompted for before any fetch.
    pub password: Option<Vec<u8>>,
}

/// The default user name, `dsock`, as ASCII bytes.
pub open spec fn default_username() -> Seq<u8> {
    seq![100u8, 115u8, 111u8, 99u8, 107u8]
}

impl Default for D5 {
    /// The default credentials: user `dsock` and no password.
    fn default() -> (r: Self)
        ensures
            r.username@ == default_username(),
            r.password is None,
    {
        let mut username: Vec<u8> = Vec::new();
        username.push(100);
        username.push(115);
        username.push(111);
        username.push(99);
        username.push(107);
        proof {
            assert(username@ =~= default_username());
        }
        D5 { username, password: None }
    }
}

impl D5 {
    /// The default credentials: user `dsock` and no password.
    pub fn new() -> (r: Self)
        ensures
            r.username@ == default_username(),
            r.password is None,
    {
        Self::default()
    }
}

/// Why a resolution fails. Cache-side failures never surface here: they
/// fall back to the server path.
#[derive(PartialEq, Eq, Debug)]
pub enum ResolveError {
    /// No password was supplied and the interactive prompt, or a program
    /// it depends on, is absent.
    MissingDependency,
    /// The request could not be sent or the connection failed.
    NetworkError,
    /// The server answered, but not with an address; carries the raw
    /// response text.
    InvalidResponse { body: Vec<u8> },
}

/// A state of the resolver. Each non-terminal state asks the surrounding
/// program for one outside action.
#[derive(Debug)]
pub enum State {
    /// Read the cache file and report its contents and modification time.
    TryCache { creds: D5 },
    /// Prompt interactively for a password.
    NeedPassword { username: Vec<u8> },
    /// Send the HTTP GET with Basic authentication and report the
    /// response text.
    Fetch { username: Vec<u8>, password: Vec<u8> },
    /// Write the fetched address back to the cache file, in canonical form.
    WriteBack { addr: Ipv4Address },
    /// Resolution succeeded with this address.
    Done { addr: Ipv4Address },
    /// Resolution failed.
    Failed { err: ResolveError },
}

/// What the surrounding program observed while performing the action the
/// current state asked for.
#[derive(Debug)]
pub enum Event {
    /// The cache file as found (`None` when missing or unreadable), and
    /// the current time in seconds.
    CacheRead { file: Option<CacheFile>, now: u64 },
    /// The prompted password, untrimmed; `None` when the prompt or one of
    /// its dependencies is absent.
    Prompted { password: Option<Vec<u8>> },
    /// The full response text; `None` when the request could not be sent.
    Fetched { body: Option<Vec<u8>> },
    /// Whether the cache write succeeded.
    Wrote { ok: bool },
}

/// Where the server path starts: straight at the fetch when a password is
/// in hand, otherwise at the prompt.
pub open spec fn server_entry_spec(creds: D5) -> State {
    match creds.password {
        Some(p) => State::Fetch { username: creds.username, password: p },
        None => State::NeedPassword { username: creds.username },
    }
}

/// The state a resolution starts in: the cache, unless a refresh is
/// forced, in which case the server path — with the same credential rule.
pub open spec fn start_spec(creds: D5, force: bool) -> State {
    if force {
        server_entry_spec(creds)
    } else {
        State::TryCache { creds }
    }
}

/// Which events answer which states; the terminal states take none.
pub open spec fn event_fits(state: State, event: Event) -> bool {
    match state {
        State::TryCache { .. } => event is CacheRead,
        State::NeedPassword { .. } => event is Prompted,
        State::Fetch { .. } => event is Fetched,
        State::WriteBack { .. } => event is Wrote,
        State::Done { .. } => false,
        State::Failed { .. } => false,
    }
}

/// The transition relation of the resolver.
///
/// - A cache read that yields an address ends the resolution; any
///   cache-read failure falls back to the server path.
/// - A missing prompt fails the resolution; a prompted password is
///   trimmed and carried to the fetch.
/// - A fetch that cannot be sent fails; a response that parses moves to
///   the write-back; any other response fails with its exact text.
/// - The write-back ends with the fetched address whether or not the
///   write succeeded.
pub open spec fn step_rel(state: State, event: Event, next: State) -> bool {
    match (state, event) {
        (State::TryCache { creds }, Event::CacheRead { file, now }) => match read_decision_spec(
            file,
            now,
        ) {
            Ok(addr) => next == (State::Done { addr }),
            Err(_) => next == server_entry_spec(creds),
        },
        (State::NeedPassword { username }, Event::Prompted { password }) => match password {
            Some(raw) => next matches State::Fetch { username: u2, password: p2 } && u2 == username
                && p2@ == trimmed(raw@),
            None => next == (State::Failed { err: ResolveError::MissingDependency }),
        },
        (State::Fetch { .. }, Event::Fetched { body }) => match body {
            Some(text) => match parse_spec(text@) {
                Some(addr) => next == (State::WriteBack { addr }),
                None => next == (State::Failed {
                    err: ResolveError::InvalidResponse { body: text },
                }),
            },
            None => next == (State::Failed { err: ResolveError::NetworkError }),
        },
        (State::WriteBack { addr }, Event::Wrote { .. }) => next == (State::Done { addr }),
        _ => false,
    }
}

/// Enters the server path with the given credentials.
fn server_entry(creds: D5) -> (next: State)
    ensures
        next == server_entry_spec(creds),
{
    let D5 { username, password } = creds;
    match password {
        Some(p) => State::Fetch { username, password: p },
        None => State::NeedPassword { username },
    }
}

/// Starts a resolution: at the cache, or on the server path when the
/// caller forces a refresh.
pub fn start(creds: D5, force: bool) -> (next: State)
    ensures
        next == start_spec(creds, force),
{
    if force {
        server_entry(creds)
    } else {
        State::TryCache { creds }
    }
}

/// One transition of the resolver: consumes the current state and the
/// observed event, and returns the next state.
pub fn step(state: State, event: Event) -> (next: State)
    requires
        event_fits(state, event),
    ensures
        step_rel(state, event, next),
{
    match (state, event) {
        (State::TryCache { creds }, Event::CacheRead { file, now }) => {
            match read_decision(&file, now) {
                Ok(addr) => State::Done { addr },
                Err(_) => server_entry(creds),
            }
        },
        (State::NeedPassword { username }, Event::Prompted { password }) => {
            match password {
                Some(raw) => {
                    let p = trim_bytes(raw.as_slice());
                    State::Fetch { username, password: p }
                },
                None => State::Failed { err: ResolveError::MissingDependency },
            }
        },
        (State::Fetch { username: _, password: _ }, Event::Fetched { body }) => {
            match body {
                Some(text) => {
                    match parse(text.as_slice()) {
                        Some(addr) => State::WriteBack { addr },
                        None => State::Failed { err: ResolveError::InvalidResponse { body: text } },
                    }
                },
                None => State::Failed { err: ResolveError::NetworkError },
            }
        },
        (State::WriteBack { addr }, Event::Wrote { ok: _ }) => State::Done { addr },
        _ => {
            proof {
                assert(false);
            }
            vstd::pervasive::unreached()
        },
    }
}

/// Law: when the cache read yields an address, the resolution that asked
/// for it finishes at once with that address: the server path — prompt,
/// fetch — is never entered.
pub proof fn lemma_fresh_cache_skips_network(
    creds: D5,
    file: Option<CacheFile>,
    now: u64,
    addr: Ipv4Address,
    next: State,
)
    requires
        read_decision_spec(file, now) == Ok::<Ipv4Address, crate::cache::CacheError>(addr),
        step_rel((State::TryCache { creds }), (Event::CacheRead { file, now }), next),
    ensures
        next == (State::Done { addr }),
{
}

/// Law: a forced resolution never consults the cache: it starts on the
/// server path, at the fetch when a password is in hand and at the prompt
/// otherwise.
pub proof fn lemma_force_goes_to_server(creds: D5)
    ensures
        !(start_spec(creds, true) is TryCache),
        creds.password is Some ==> start_spec(creds, true) is Fetch,
        creds.password is None ==> start_spec(creds, true) is NeedPassword,
{
}

/// Law: when the write-back fails, the resolution still ends with the
/// fetched address.
pub proof fn lemma_write_failure_still_resolves(addr: Ipv4Address, next: State)
    requires
        step_rel((State::WriteBack { addr }), (Event::Wrote { ok: false }), next),
    ensures
        next == (State::Done { addr }),
{
}

/// Law: a response that is not the canonical form of an address fails the
/// resolution with that exact text — never with a network error.
pub proof fn lemma_invalid_response_keeps_text(
    username: Vec<u8>,
    password: Vec<u8>,
    text: Vec<u8>,
    next: State,
)
    requires
        parse_spec(text@) is None,
        step_rel(
            (State::Fetch { username, password }),
            (Event::Fetched { body: Some(text) }),
            next,
        ),
    ensures
        next == (State::Failed { err: ResolveError::InvalidResponse { body: text } }),
{
}

/// Law: a successful fetch is read back from the cache. When the machine
/// moved from the fetch to the write-back for `addr`, the response text
/// was `addr`'s canonical form — which is exactly what the write-back
/// stores — and a cache file holding it is returned as `addr` by every
/// read within the freshness window.
pub proof fn lemma_fetch_then_read_same(
    username: Vec<u8>,
    password: Vec<u8>,
    text: Vec<u8>,
    addr: Ipv4Address,
    file: CacheFile,
    now: u64,
)
    requires
        step_rel(
            (State::Fetch { username, password }),
            (Event::Fetched { body: Some(text) }),
            (State::WriteBack { addr }),
        ),
        file.content@ == crate::addr::canonical_rep(addr),
        crate::cache::is_fresh(file.modified, now),
    ensures
        text@ == crate::addr::canonical_rep(addr),
        read_decision_spec(Some(file), now) == Ok::<Ipv4Address, crate::cache::CacheError>(addr),
{
    assert(parse_spec(text@) == Some(addr));
    crate::cache::lemma_fresh_read_returns_stored(file, addr, now);
}

/// Law: with no password supplied and the prompt absent, the resolution
/// fails with the missing dependency — the fetch state is never reached.
pub proof fn lemma_missing_prompt_fails(username: Vec<u8>, next: State)
    requires
        step_rel((State::NeedPassword { username }), (Event::Prompted { password: None }), next),
    ensures
        next == (State::Failed { err: ResolveError::MissingDependency }),
{
}

} // verus!
