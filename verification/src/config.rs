//! Viewer configuration: the file's fields, their defaults and the scalars
//! they hold.

use vstd::prelude::*;

use crate::error::ViewerError;
use crate::paths::{path_absolute, path_is_absolute, path_join, path_joined};
use crate::text::{all_ascii_digits, decimal_value, starts_with, str_chars, str_eq, str_strip_prefix, string_push_str};

verus! {

/// Diagnostic verbosity accepted in the configuration file.
#[derive(Clone, Copy, Debug, PartialEq, Eq, Structural)]
pub enum LogLevel {
    Trace,
    Debug,
    Info,
    Warn,
    Error,
    Off,
}

impl LogLevel {
    /// The tracing filter directive for this level.
    pub open spec fn filter_spec(self) -> Seq<char> {
        match self {
            LogLevel::Trace => "trace"@,
            LogLevel::Debug => "debug"@,
            LogLevel::Info => "info"@,
            LogLevel::Warn => "warn"@,
            LogLevel::Error => "error"@,
            LogLevel::Off => "off"@,
        }
    }

    pub fn as_filter(self) -> (r: &'static str)
        ensures
            r@ == self.filter_spec(),
    {
        match self {
            LogLevel::Trace => "trace",
            LogLevel::Debug => "debug",
            LogLevel::Info => "info",
            LogLevel::Warn => "warn",
            LogLevel::Error => "error",
            LogLevel::Off => "off",
        }
    }
}

impl Default for LogLevel {
    /// The level used when the configuration names none: `warn`.
    fn default() -> (r: Self)
        ensures
            r == LogLevel::Warn,
    {
        LogLevel::Warn
    }
}

/// Command-line options.
#[derive(Clone, Debug)]
pub struct Cli {
    /// Configuration file; missing files are created with documented defaults.
    pub config: Option<String>,
    /// Atomically rebuild the current source's index using the configured bootstrap window.
    pub rebuild_index: bool,
}

/// The record size limit when none is configured: 32 MiB.
pub const DEFAULT_MAX_EVENT_BYTES: usize = 33554432;
/// The smallest record size limit accepted: 1 MiB.
pub const MIN_EVENT_BYTES: usize = 1048576;
/// The largest record size limit accepted: 256 MiB.
pub const MAX_EVENT_BYTES: usize = 268435456;
/// The configuration file's name.
pub const CONFIG_FILE_NAME: &'static str = "config.toml";
/// The schema file's name, beside the configuration.
pub const SCHEMA_FILE_NAME: &'static str = "schema.json";

/// The configuration written when none exists.
pub const DEFAULT_CONFIG_TOML: &'static str = "#:schema ./schema.json\n\n# Codex data source. Only sessions/ and archived_sessions/ are read.\nsource_dir = \"~/.codex\"\n\n# Viewer-owned configuration, index, and lock root.\ndata_dir = \"~/.agents-viewer\"\n\n# Fixed bootstrap window: 7 = seven days, -1 = all history, 0 = new sessions only.\ninitial_index_days = 7\n\n# HTTP must bind to an IPv4 or IPv6 loopback address. Port 0 selects a free port.\nlisten = \"127.0.0.1:4747\"\n\n# Maximum complete JSONL record size. Units: B, KiB, MiB, or GiB.\nmax_event_bytes = \"32MiB\"\n\n# Diagnostic verbosity: trace, debug, info, warn, error, or off.\nlog_level = \"warn\"\n";

/// The fields of the configuration file.
#[derive(Clone, Debug)]
pub struct FileConfig {
    /// Codex data source. Only sessions/ and archived_sessions/ are read.
    pub source_dir: String,
    /// Viewer-owned configuration, index, and lock root.
    pub data_dir: String,
    /// Fixed bootstrap window: 7 = seven days, -1 = all history, 0 = new sessions only.
    pub initial_index_days: i64,
    /// IPv4 or IPv6 loopback listen address. Port 0 selects a free port.
    pub listen: String,
    /// Maximum complete JSONL record size using B, KiB, MiB, or GiB.
    pub max_event_bytes: String,
    /// Diagnostic verbosity.
    pub log_level: LogLevel,
}

impl Default for FileConfig {
    fn default() -> (r: Self)
        ensures
            r.source_dir@ == "~/.codex"@,
            r.data_dir@ == "~/.agents-viewer"@,
            r.initial_index_days == 7,
            r.listen@ == "127.0.0.1:4747"@,
            r.max_event_bytes@ == "32MiB"@,
            r.log_level == LogLevel::Warn,
    {
        FileConfig {
            source_dir: "~/.codex".to_string(),
            data_dir: "~/.agents-viewer".to_string(),
            initial_index_days: 7,
            listen: "127.0.0.1:4747".to_string(),
            max_event_bytes: "32MiB".to_string(),
            log_level: LogLevel::Warn,
        }
    }
}

/// The leading run of ASCII digits of a text.
pub open spec fn digit_prefix_len(s: Seq<char>) -> int
    decreases s.len(),
{
    if s.len() > 0 && '0' <= s[0] && s[0] <= '9' {
        1 + digit_prefix_len(s.drop_first())
    } else {
        0
    }
}

/// The multiplier a size suffix names.
pub open spec fn size_unit(suffix: Seq<char>) -> Option<int> {
    if suffix == "B"@ {
        Some(1)
    } else if suffix == "KiB"@ {
        Some(1024)
    } else if suffix == "MiB"@ {
        Some(1048576)
    } else if suffix == "GiB"@ {
        Some(1073741824)
    } else {
        None
    }
}

/// Why a size is refused, or the size in bytes.
pub open spec fn event_bytes_spec(value: Seq<char>) -> Result<usize, Seq<char>> {
    let split = digit_prefix_len(value);
    let digits = value.take(split);
    if split == 0 || decimal_value(digits) > u64::MAX {
        Err("size must start with a base-10 integer"@)
    } else {
        match size_unit(value.skip(split)) {
            None => Err("size suffix must be B, KiB, MiB, or GiB"@),
            Some(unit) => {
                let bytes = decimal_value(digits) * unit;
                if bytes > u64::MAX || bytes > usize::MAX {
                    Err("size exceeds this platform's range"@)
                } else if bytes < MIN_EVENT_BYTES || bytes > MAX_EVENT_BYTES {
                    Err("size must be between 1MiB and 256MiB"@)
                } else {
                    Ok(bytes as usize)
                }
            },
        }
    }
}

proof fn lemma_digit_prefix_exact(s: Seq<char>, k: int)
    requires
        0 <= k <= s.len(),
        forall|j: int| 0 <= j < k ==> '0' <= #[trigger] s[j] && s[j] <= '9',
        k == s.len() || !('0' <= s[k] && s[k] <= '9'),
    ensures
        digit_prefix_len(s) == k,
    decreases k,
{
    if k > 0 {
        assert forall|j: int| 0 <= j < k - 1 implies '0' <= #[trigger] s.drop_first()[j] && s.drop_first()[j] <= '9' by {
            assert(s.drop_first()[j] == s[j + 1]);
        }
        lemma_digit_prefix_exact(s.drop_first(), k - 1);
    }
}

fn owned(text: &str) -> (r: String)
    ensures
        r@ == text@,
{
    let mut out = String::new();
    string_push_str(&mut out, text);
    out
}

/// Reads a record size limit such as `32MiB`: a base-10 integer, a unit of
/// B, KiB, MiB or GiB, and a size between 1 MiB and 256 MiB.
pub fn parse_event_bytes(value: &str) -> (r: Result<usize, String>)
    ensures
        match event_bytes_spec(value@) {
            Ok(n) => r == Ok::<usize, String>(n),
            Err(m) => (r matches Err(e) && e@ == m),
        },
{
    let chars = str_chars(value);
    let mut split: usize = 0;
    let mut number: u64 = 0;
    let mut overflow = false;
    while split < chars.len() && '0' <= chars[split] && chars[split] <= '9'
        invariant
            split <= chars@.len(),
            chars@ == value@,
            forall|j: int| 0 <= j < split ==> '0' <= #[trigger] value@[j] && value@[j] <= '9',
            !overflow ==> number == decimal_value(value@.take(split as int)),
            overflow ==> decimal_value(value@.take(split as int)) > u64::MAX,
        decreases chars@.len() - split,
    {
        let d = (chars[split] as u32 - 48) as u64;
        proof {
            assert(value@.take(split + 1).drop_last() =~= value@.take(split as int));
            assert(decimal_value(value@.take(split + 1)) == decimal_value(value@.take(split as int)) * 10 + d);
        }
        if !overflow {
            if number > (u64::MAX - d) / 10 {
                assert(number * 10 + d > u64::MAX) by (nonlinear_arith)
                    requires
                        number > (u64::MAX - d) / 10,
                        d <= 9;
                overflow = true;
            } else {
                assert(number * 10 + d <= u64::MAX) by (nonlinear_arith)
                    requires
                        number <= (u64::MAX - d) / 10,
                        d <= 9;
                number = number * 10 + d;
            }
        } else {
            assert(decimal_value(value@.take(split + 1)) >= decimal_value(value@.take(split as int))) by (nonlinear_arith)
                requires
                    decimal_value(value@.take(split + 1)) == decimal_value(value@.take(split as int)) * 10 + d,
                    decimal_value(value@.take(split as int)) >= 0;
        }
        split = split + 1;
    }
    proof {
        lemma_digit_prefix_exact(value@, split as int);
    }
    if split == 0 || overflow {
        return Err(owned("size must start with a base-10 integer"));
    }
    let mut suffix = String::new();
    let mut k: usize = split;
    while k < chars.len()
        invariant
            split <= k <= chars@.len(),
            chars@ == value@,
            suffix@ == value@.subrange(split as int, k as int),
        decreases chars@.len() - k,
    {
        crate::text::string_push(&mut suffix, chars[k]);
        assert(value@.subrange(split as int, k + 1) =~= value@.subrange(split as int, k as int).push(value@[k as int]));
        k = k + 1;
    }
    assert(value@.subrange(split as int, chars@.len() as int) =~= value@.skip(split as int));
    let unit: u64 = if str_eq(suffix.as_str(), "B") {
        1
    } else if str_eq(suffix.as_str(), "KiB") {
        1024
    } else if str_eq(suffix.as_str(), "MiB") {
        1048576
    } else if str_eq(suffix.as_str(), "GiB") {
        1073741824
    } else {
        return Err(owned("size suffix must be B, KiB, MiB, or GiB"));
    };
    let bytes = match number.checked_mul(unit) {
        Some(b) => b,
        None => return Err(owned("size exceeds this platform's range")),
    };
    if bytes as u128 > usize::MAX as u128 {
        return Err(owned("size exceeds this platform's range"));
    }
    let bytes = bytes as usize;
    if bytes < MIN_EVENT_BYTES || bytes > MAX_EVENT_BYTES {
        return Err(owned("size must be between 1MiB and 256MiB"));
    }
    Ok(bytes)
}

/// Where a path written in the configuration points, before it is made
/// canonical: `~` is the home directory, `~/...` lies inside it, other
/// `~` forms are refused, absolute paths stand, relative ones lie beside
/// the configuration.
pub open spec fn config_path_spec(value: Seq<char>, config_dir: Seq<char>, home: Seq<char>) -> Result<Seq<char>, Seq<char>> {
    if value == "~"@ {
        Ok(home)
    } else if starts_with(value, "~/"@) {
        Ok(path_joined(home, value.skip("~/"@.len() as int)))
    } else if starts_with(value, "~"@) {
        Err("only ~ and ~/... current-user paths are supported: "@ + value)
    } else if path_absolute(value) {
        Ok(value)
    } else {
        Ok(path_joined(config_dir, value))
    }
}

/// Expands a path written in the configuration.
pub fn resolve_config_path(value: &str, config_dir: &str, home: &str) -> (r: Result<String, ViewerError>)
    ensures
        match config_path_spec(value@, config_dir@, home@) {
            Ok(p) => (r matches Ok(s) && s@ == p),
            Err(m) => (r matches Err(ViewerError::InvalidArgument(e)) && e@ == m),
        },
{
    if str_eq(value, "~") {
        return Ok(owned(home));
    }
    if let Some(relative) = str_strip_prefix(value, "~/") {
        return Ok(path_join(home, relative));
    }
    if crate::text::str_starts_with(value, "~") {
        let mut message = owned("only ~ and ~/... current-user paths are supported: ");
        string_push_str(&mut message, value);
        return Err(ViewerError::InvalidArgument(message));
    }
    if path_is_absolute(value) {
        Ok(owned(value))
    } else {
        Ok(path_join(config_dir, value))
    }
}


/// An IP address and port to listen on.
#[derive(Clone, Copy, Debug, PartialEq, Eq)]
pub enum ListenAddress {
    V4 { octets: [u8; 4], port: u16 },
    V6 { segments: [u16; 8], port: u16 },
}

/// Whether an address is loopback: `127.0.0.0/8` for IPv4, `::1` for IPv6.
pub open spec fn loopback_spec(a: ListenAddress) -> bool {
    match a {
        ListenAddress::V4 { octets, .. } => octets@[0] == 127,
        ListenAddress::V6 { segments, .. } => segments@ == seq![0u16, 0, 0, 0, 0, 0, 0, 1],
    }
}

/// Whether an address is loopback.
pub fn is_loopback(a: &ListenAddress) -> (r: bool)
    ensures
        r == loopback_spec(*a),
{
    match a {
        ListenAddress::V4 { octets, .. } => octets[0] == 127,
        ListenAddress::V6 { segments, .. } => {
            let r = segments[0] == 0 && segments[1] == 0 && segments[2] == 0 && segments[3] == 0 && segments[4] == 0
                && segments[5] == 0 && segments[6] == 0 && segments[7] == 1;
            proof {
                if r {
                    assert(segments@ =~= seq![0u16, 0, 0, 0, 0, 0, 0, 1]);
                }
            }
            r
        },
    }
}

/// Checks the listen address: `None` stands for text that is no IP address
/// and port. Only loopback addresses are accepted.
pub fn check_listen(address: Option<ListenAddress>) -> (r: Result<ListenAddress, String>)
    ensures
        match address {
            None => r matches Err(m) && m@ == "listen must be an IP address and port (hostnames are not accepted)"@,
            Some(a) => if loopback_spec(a) {
                r == Ok::<ListenAddress, String>(a)
            } else {
                r matches Err(m) && m@ == "listen address must be IPv4 or IPv6 loopback"@
            },
        },
{
    match address {
        None => Err(owned("listen must be an IP address and port (hostnames are not accepted)")),
        Some(a) => if is_loopback(&a) {
            Ok(a)
        } else {
            Err(owned("listen address must be IPv4 or IPv6 loopback"))
        },
    }
}


/// Checks the configured initial index window: -1 (all history) or a
/// non-negative number of days.
pub fn check_initial_index_days(days: i64) -> (r: Result<i64, ViewerError>)
    ensures
        r is Ok <==> days >= -1,
        r matches Ok(d) ==> d == days,
        r matches Err(e) ==> (e matches ViewerError::InvalidArgument(m) && m@ == "initial_index_days must be -1 or a non-negative integer"@),
{
    if days < -1 {
        Err(ViewerError::InvalidArgument(owned("initial_index_days must be -1 or a non-negative integer")))
    } else {
        Ok(days)
    }
}

} // verus!
