//! The cache store's read decision and its freshness rule.
//!
//! The backing file itself is read and written by the surrounding program;
//! this module decides what a read outcome means: the file's modification
//! time is the sole freshness signal, and its contents must be the
//! canonical form of an address.

use vstd::prelude::*;

use crate::addr::canonical_rep;
use crate::addr::lemma_parse_round_trip;
use crate::addr::parse;
use crate::addr::parse_spec;
use crate::addr::Ipv4Address;

verus! {

/// How long a cached value stays usable: one hour, in seconds.
pub const FRESHNESS_WINDOW_SECS: u64 = 3600;

/// Why a cache read yields no usable address.
#[derive(Clone, Copy, PartialEq, Eq, Structural, Debug)]
pub enum CacheError {
    /// The backing file does not exist or could not be read.
    NotFound,
    /// The stored value is at least as old as the freshness window.
    Stale,
    /// The stored text is not the canonical form of an address.
    ParseError,
}

/// What reading the backing file produced: its contents, and its
/// modification time in seconds.
#[derive(PartialEq, Eq, Debug)]
pub struct CacheFile {
    pub content: Vec<u8>,
    pub modified: u64,
}

/// A modification time within the freshness window of `now`. A timestamp
/// in the future is not fresh: the staleness clock cannot place it.
pub open spec fn is_fresh(modified: u64, now: u64) -> bool {
    modified <= now && now - modified < FRESHNESS_WINDOW_SECS
}

/// What a cache read decides: a missing file fails with `NotFound`, one
/// outside the freshness window with `Stale`, unparseable contents with
/// `ParseError`; otherwise the stored address is returned.
pub open spec fn read_decision_spec(file: Option<CacheFile>, now: u64) -> Result<
    Ipv4Address,
    CacheError,
> {
    match file {
        None => Err(CacheError::NotFound),
        Some(f) => if !is_fresh(f.modified, now) {
            Err(CacheError::Stale)
        } else {
            match parse_spec(f.content@) {
                Some(addr) => Ok(addr),
                None => Err(CacheError::ParseError),
            }
        },
    }
}

/// The cache store's read: decides what the observed state of the backing
/// file means, against the current time in seconds.
pub fn read_decision(file: &Option<CacheFile>, now: u64) -> (r: Result<Ipv4Address, CacheError>)
    ensures
        r == read_decision_spec(*file, now),
{
    match file {
        None => Err(CacheError::NotFound),
        Some(f) => {
            if !(f.modified <= now && now - f.modified < FRESHNESS_WINDOW_SECS) {
                Err(CacheError::Stale)
            } else {
                match parse(f.content.as_slice()) {
                    Some(addr) => Ok(addr),
                    None => Err(CacheError::ParseError),
                }
            }
        },
    }
}

/// Law: a cache file holding an address in canonical form and modified
/// within the freshness window is read back as that address. This is both
/// halves of write-back idempotence: whatever a fetch wrote, a read within
/// the window returns it.
pub proof fn lemma_fresh_read_returns_stored(file: CacheFile, addr: Ipv4Address, now: u64)
    requires
        file.content@ == canonical_rep(addr),
        is_fresh(file.modified, now),
    ensures
        read_decision_spec(Some(file), now) == Ok::<Ipv4Address, CacheError>(addr),
{
    lemma_parse_round_trip(addr);
}

/// Law: a cache file whose modification time lies a full freshness window
/// or more before `now` is reported stale, whatever it holds.
pub proof fn lemma_stale_read(file: CacheFile, now: u64)
    requires
        file.modified <= now,
        now - file.modified >= FRESHNESS_WINDOW_SECS,
    ensures
        read_decision_spec(Some(file), now) == Err::<Ipv4Address, CacheError>(CacheError::Stale),
{
}

} // verus!
