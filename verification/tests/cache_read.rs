use d5_cli::addr::Ipv4Address;
use d5_cli::cache::read_decision;
use d5_cli::cache::CacheError;
use d5_cli::cache::CacheFile;
use d5_cli::cache::FRESHNESS_WINDOW_SECS;

fn stored(content: &[u8], modified: u64) -> Option<CacheFile> {
    Some(CacheFile { content: content.to_vec(), modified })
}

#[test]
fn fresh_cache_returns_stored_value() {
    let modified = 1_000_000;
    let now = modified + FRESHNESS_WINDOW_SECS - 1;
    assert_eq!(
        read_decision(&stored(b"10.1.2.3", modified), now),
        Ok(Ipv4Address { a: 10, b: 1, c: 2, d: 3 })
    );
}

#[test]
fn cache_written_just_now_is_fresh() {
    let now = 1_000_000;
    assert_eq!(
        read_decision(&stored(b"10.1.2.3", now), now),
        Ok(Ipv4Address { a: 10, b: 1, c: 2, d: 3 })
    );
}

#[test]
fn cache_exactly_one_window_old_is_stale() {
    let modified = 1_000_000;
    let now = modified + FRESHNESS_WINDOW_SECS;
    assert_eq!(read_decision(&stored(b"10.1.2.3", modified), now), Err(CacheError::Stale));
}

#[test]
fn cache_older_than_window_is_stale() {
    let modified = 1_000_000;
    let now = modified + 2 * FRESHNESS_WINDOW_SECS;
    assert_eq!(read_decision(&stored(b"10.1.2.3", modified), now), Err(CacheError::Stale));
}

#[test]
fn cache_modified_in_the_future_is_stale() {
    let now = 1_000_000;
    assert_eq!(read_decision(&stored(b"10.1.2.3", now + 1), now), Err(CacheError::Stale));
}

#[test]
fn missing_cache_file_is_not_found() {
    assert_eq!(read_decision(&None, 1_000_000), Err(CacheError::NotFound));
}

#[test]
fn unparseable_cache_contents_are_a_parse_error() {
    let now = 1_000_000;
    assert_eq!(read_decision(&stored(b"invalid password", now), now), Err(CacheError::ParseError));
    assert_eq!(read_decision(&stored(b"", now), now), Err(CacheError::ParseError));
}

#[test]
fn staleness_is_checked_before_contents() {
    let modified = 1_000_000;
    let now = modified + FRESHNESS_WINDOW_SECS;
    assert_eq!(read_decision(&stored(b"not an address", modified), now), Err(CacheError::Stale));
}
