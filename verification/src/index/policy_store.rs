//! Which initial-index window and event size an existing index keeps: the
//! first ones chosen stay fixed until the index is rebuilt.

use vstd::prelude::*;

use crate::index::policy::{policy_new_spec, InitialIndexPolicy, PolicyError};
use crate::text::{decimal_text, parse_i64_spec, parse_usize_spec, str_parse_i64, str_parse_usize, string_push_str, u64_to_string, usize_to_string};

verus! {

/// Why the stored index settings cannot be used.
#[derive(Clone, Copy, Debug, PartialEq, Eq, Structural)]
pub enum StoredPolicyError {
    /// The stored window is no number.
    InvalidDays,
    /// The configured window differs from the stored one; a rebuild applies it.
    DaysChanged { stored: i64, requested: i64 },
    /// An all-history index names a cutoff.
    AllHistoryCutoff,
    /// The stored cutoff is no number.
    InvalidCutoff,
    /// A windowed index names no cutoff.
    MissingCutoff,
    /// An index with sources but no stored window asks for a window; a rebuild applies it.
    PredatesDays,
    /// A cutoff is stored without a window; a rebuild is needed.
    Incomplete,
    /// The stored event size limit is no number.
    InvalidMaxBytes,
    /// The configured event size limit differs from the stored one; a rebuild applies it.
    MaxBytesChanged { stored: usize, requested: usize },
    /// An index with sources but no stored event size limit; a rebuild applies it.
    PredatesMaxBytes,
    /// The configured window cannot be built.
    Window(PolicyError),
}

/// The settings an index keeps, and what to store: the window's days and
/// cutoff when they were just chosen, and the event size limit when it was.
#[derive(Clone, Copy, Debug, PartialEq, Eq, Structural)]
pub struct PolicyResolution {
    pub policy: InitialIndexPolicy,
    pub store_days: bool,
    pub store_cutoff: Option<i64>,
    pub store_max_event_bytes: bool,
}

/// The window an index keeps, from what is stored (`days`, `cutoff`), how
/// many sources it holds, and what is configured.
pub open spec fn window_spec(
    days: Option<Seq<char>>,
    cutoff: Option<Seq<char>>,
    indexed_files: i64,
    requested_days: i64,
    now_micros: i64,
) -> Result<(InitialIndexPolicy, bool, Option<i64>), StoredPolicyError> {
    match (days, cutoff) {
        (Some(dt), c) => match parse_i64_spec(dt) {
            None => Err(StoredPolicyError::InvalidDays),
            Some(d) => if d != requested_days {
                Err(StoredPolicyError::DaysChanged { stored: d, requested: requested_days })
            } else if d == -1i64 {
                match c {
                    None => Ok((InitialIndexPolicy { days: d, cutoff_micros: None }, false, None)),
                    Some(ct) => if ct.len() == 0 {
                        Ok((InitialIndexPolicy { days: d, cutoff_micros: None }, false, None))
                    } else {
                        Err(StoredPolicyError::AllHistoryCutoff)
                    },
                }
            } else {
                match c {
                    None => Err(StoredPolicyError::MissingCutoff),
                    Some(ct) => match parse_i64_spec(ct) {
                        None => Err(StoredPolicyError::InvalidCutoff),
                        Some(v) => Ok((InitialIndexPolicy { days: d, cutoff_micros: Some(v) }, false, None)),
                    },
                }
            },
        },
        (None, None) => if indexed_files == 0 {
            match policy_new_spec(requested_days as int, now_micros as int) {
                Err(e) => Err(StoredPolicyError::Window(e)),
                Ok(c) => {
                    let cut: Option<i64> = match c {
                        Some(v) => Some(v as i64),
                        None => None,
                    };
                    Ok((InitialIndexPolicy { days: requested_days, cutoff_micros: cut }, true, cut))
                },
            }
        } else if requested_days != -1i64 {
            Err(StoredPolicyError::PredatesDays)
        } else {
            Ok((InitialIndexPolicy { days: -1i64, cutoff_micros: None }, true, None))
        },
        (None, Some(_)) => Err(StoredPolicyError::Incomplete),
    }
}

/// Whether the event size limit stays as stored, or is stored now.
pub open spec fn max_bytes_spec(stored: Option<Seq<char>>, indexed_files: i64, requested: usize) -> Result<bool, StoredPolicyError> {
    match stored {
        Some(t) => match parse_usize_spec(t) {
            None => Err(StoredPolicyError::InvalidMaxBytes),
            Some(v) => if v != requested {
                Err(StoredPolicyError::MaxBytesChanged { stored: v, requested })
            } else {
                Ok(false)
            },
        },
        None => if indexed_files != 0 { Err(StoredPolicyError::PredatesMaxBytes) } else { Ok(true) },
    }
}

/// Optional text as a sequence of characters.
pub open spec fn opt_str(t: Option<&str>) -> Option<Seq<char>> {
    match t {
        Some(s) => Some(s@),
        None => None,
    }
}

/// Decides which window and event size limit an index keeps. A stored
/// window must match the configured one; an index without one takes the
/// configured window when it holds no sources yet, and all history only
/// when that is what is configured. The event size limit works the same
/// way. Every mismatch asks for a rebuild.
pub fn resolve_index_policy(
    stored_days: Option<&str>,
    stored_cutoff: Option<&str>,
    stored_max_event_bytes: Option<&str>,
    indexed_files: i64,
    requested_days: i64,
    requested_max_event_bytes: usize,
    now_micros: i64,
) -> (r: Result<PolicyResolution, StoredPolicyError>)
    ensures
        match window_spec(opt_str(stored_days), opt_str(stored_cutoff), indexed_files, requested_days, now_micros) {
            Err(e) => r == Err::<PolicyResolution, StoredPolicyError>(e),
            Ok(w) => match max_bytes_spec(opt_str(stored_max_event_bytes), indexed_files, requested_max_event_bytes) {
                Err(e) => r == Err::<PolicyResolution, StoredPolicyError>(e),
                Ok(store_max) => r == Ok::<PolicyResolution, StoredPolicyError>(
                    PolicyResolution { policy: w.0, store_days: w.1, store_cutoff: w.2, store_max_event_bytes: store_max },
                ),
            },
        },
{
    let (policy, store_days, store_cutoff) = match (stored_days, stored_cutoff) {
        (Some(dt), c) => {
            let d = match str_parse_i64(dt) {
                None => return Err(StoredPolicyError::InvalidDays),
                Some(d) => d,
            };
            if d != requested_days {
                return Err(StoredPolicyError::DaysChanged { stored: d, requested: requested_days });
            }
            if d == -1 {
                match c {
                    None => {},
                    Some(ct) => if !ct.is_empty() {
                        return Err(StoredPolicyError::AllHistoryCutoff);
                    },
                }
                (InitialIndexPolicy { days: d, cutoff_micros: None }, false, None)
            } else {
                match c {
                    None => return Err(StoredPolicyError::MissingCutoff),
                    Some(ct) => match str_parse_i64(ct) {
                        None => return Err(StoredPolicyError::InvalidCutoff),
                        Some(v) => (InitialIndexPolicy { days: d, cutoff_micros: Some(v) }, false, None),
                    },
                }
            }
        },
        (None, None) => if indexed_files == 0 {
            match InitialIndexPolicy::new(requested_days, now_micros) {
                Err(e) => return Err(StoredPolicyError::Window(e)),
                Ok(p) => {
                    proof {
                        if let Some(v) = p.cutoff_micros {
                            assert(p.cutoff_view() == Some(v as int));
                        }
                    }
                    (p, true, p.cutoff_micros)
                },
            }
        } else if requested_days != -1i64 {
            return Err(StoredPolicyError::PredatesDays);
        } else {
            (InitialIndexPolicy::all(), true, None)
        },
        (None, Some(_)) => return Err(StoredPolicyError::Incomplete),
    };
    assert(window_spec(opt_str(stored_days), opt_str(stored_cutoff), indexed_files, requested_days, now_micros)
        == Ok::<(InitialIndexPolicy, bool, Option<i64>), StoredPolicyError>((policy, store_days, store_cutoff)));
    let store_max_event_bytes = match stored_max_event_bytes {
        Some(t) => match str_parse_usize(t) {
            None => return Err(StoredPolicyError::InvalidMaxBytes),
            Some(v) => if v != requested_max_event_bytes {
                return Err(StoredPolicyError::MaxBytesChanged { stored: v, requested: requested_max_event_bytes });
            } else {
                false
            },
        },
        None => if indexed_files != 0 {
            return Err(StoredPolicyError::PredatesMaxBytes);
        } else {
            true
        },
    };
    Ok(PolicyResolution { policy, store_days, store_cutoff, store_max_event_bytes })
}


/// An integer in decimal, with a leading `-` when negative.
pub open spec fn signed_text(v: int) -> Seq<char> {
    if v < 0 { "-"@ + decimal_text((-v) as nat) } else { decimal_text(v as nat) }
}

/// An `i64` in decimal.
pub fn i64_text(v: i64) -> (r: String)
    ensures
        r@ == signed_text(v as int),
{
    if v < 0 {
        let m: u64 = ((-(v + 1)) as u64) + 1;
        assert(m as int == -(v as int));
        let mut out = String::new();
        string_push_str(&mut out, "-");
        let digits = u64_to_string(m);
        string_push_str(&mut out, digits.as_str());
        out
    } else {
        u64_to_string(v as u64)
    }
}

/// The message of a window that cannot be built.
pub open spec fn policy_error_text(e: PolicyError) -> Seq<char> {
    match e {
        PolicyError::NegativeDays => "initial index days must be -1 or non-negative"@,
        PolicyError::WindowOverflow => "index window overflow"@,
        PolicyError::CutoffOverflow => "index cutoff overflow"@,
    }
}

/// The message each refusal of the stored settings is reported with; the
/// refusals a rebuild resolves say to run `--rebuild-index`.
pub open spec fn stored_policy_text(e: StoredPolicyError) -> Seq<char> {
    match e {
        StoredPolicyError::InvalidDays => "invalid stored initial_index_days"@,
        StoredPolicyError::DaysChanged { stored, requested } => "initial_index_days changed from "@ + signed_text(stored as int) + " to "@
            + signed_text(requested as int) + "; run agents-viewer --rebuild-index to apply the new fixed window"@,
        StoredPolicyError::AllHistoryCutoff => "invalid stored cutoff for all-history index"@,
        StoredPolicyError::InvalidCutoff => "invalid stored initial_index_cutoff_micros"@,
        StoredPolicyError::MissingCutoff => "stored initial index cutoff is missing"@,
        StoredPolicyError::PredatesDays => "existing index predates fixed initial_index_days metadata; run agents-viewer --rebuild-index to apply the configured window"@,
        StoredPolicyError::Incomplete => "stored initial index policy is incomplete; run agents-viewer --rebuild-index"@,
        StoredPolicyError::InvalidMaxBytes => "invalid stored max_event_bytes"@,
        StoredPolicyError::MaxBytesChanged { stored, requested } => "max_event_bytes changed from "@ + decimal_text(stored as nat) + " to "@
            + decimal_text(requested as nat) + "; run agents-viewer --rebuild-index to apply it consistently"@,
        StoredPolicyError::PredatesMaxBytes => "existing index predates max_event_bytes metadata; run agents-viewer --rebuild-index to apply the configured limit"@,
        StoredPolicyError::Window(w) => policy_error_text(w),
    }
}

/// Text and a string slice joined.
fn joined(a: String, b: &str) -> (r: String)
    ensures
        r@ == a@ + b@,
{
    let mut out = a;
    string_push_str(&mut out, b);
    out
}

/// A string holding a literal.
fn text_from(a: &str) -> (r: String)
    ensures
        r@ == a@,
{
    let mut out = String::new();
    string_push_str(&mut out, a);
    assert(out@ =~= a@);
    out
}

impl StoredPolicyError {
    /// The message the refusal is reported with.
    pub fn message(&self) -> (r: String)
        ensures
            r@ == stored_policy_text(*self),
    {
        match self {
            StoredPolicyError::InvalidDays => text_from("invalid stored initial_index_days"),
            StoredPolicyError::DaysChanged { stored, requested } => {
                let a = joined(text_from("initial_index_days changed from "), i64_text(*stored).as_str());
                let b = joined(joined(a, " to "), i64_text(*requested).as_str());
                joined(b, "; run agents-viewer --rebuild-index to apply the new fixed window")
            },
            StoredPolicyError::AllHistoryCutoff => text_from("invalid stored cutoff for all-history index"),
            StoredPolicyError::InvalidCutoff => text_from("invalid stored initial_index_cutoff_micros"),
            StoredPolicyError::MissingCutoff => text_from("stored initial index cutoff is missing"),
            StoredPolicyError::PredatesDays => text_from(
                "existing index predates fixed initial_index_days metadata; run agents-viewer --rebuild-index to apply the configured window",
            ),
            StoredPolicyError::Incomplete => text_from("stored initial index policy is incomplete; run agents-viewer --rebuild-index"),
            StoredPolicyError::InvalidMaxBytes => text_from("invalid stored max_event_bytes"),
            StoredPolicyError::MaxBytesChanged { stored, requested } => {
                let a = joined(text_from("max_event_bytes changed from "), usize_to_string(*stored).as_str());
                let b = joined(joined(a, " to "), usize_to_string(*requested).as_str());
                joined(b, "; run agents-viewer --rebuild-index to apply it consistently")
            },
            StoredPolicyError::PredatesMaxBytes => text_from(
                "existing index predates max_event_bytes metadata; run agents-viewer --rebuild-index to apply the configured limit",
            ),
            StoredPolicyError::Window(w) => match w {
                PolicyError::NegativeDays => text_from("initial index days must be -1 or non-negative"),
                PolicyError::WindowOverflow => text_from("index window overflow"),
                PolicyError::CutoffOverflow => text_from("index cutoff overflow"),
            },
        }
    }
}

} // verus!
