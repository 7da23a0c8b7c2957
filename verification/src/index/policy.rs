//! The fixed bootstrap window and the priority of indexing work.

use vstd::prelude::*;

verus! {

/// Microseconds in one day.
pub const MICROS_PER_DAY: i64 = 86400000000;

/// Why a bootstrap window was rejected.
#[derive(Clone, Copy, Debug, PartialEq, Eq, Structural)]
pub enum PolicyError {
    /// Days below -1.
    NegativeDays,
    /// `days * MICROS_PER_DAY` does not fit in `i64`.
    WindowOverflow,
    /// `now - window` does not fit in `i64`.
    CutoffOverflow,
}

/// Which history the first index covers: every session updated at or after
/// `cutoff_micros`, or all history when there is no cutoff.
#[derive(Clone, Copy, Debug, PartialEq, Eq, Structural)]
pub struct InitialIndexPolicy {
    pub days: i64,
    pub cutoff_micros: Option<i64>,
}

/// The cutoff a window of `days` gives at `now_micros`: -1 is all history,
/// 0 is "from now on", otherwise `days` whole days back.
pub open spec fn cutoff_spec(days: int, now_micros: int) -> Option<int> {
    if days == -1 {
        None
    } else if days == 0 {
        Some(now_micros)
    } else {
        Some(now_micros - days * MICROS_PER_DAY)
    }
}

/// What `InitialIndexPolicy::new` gives: the cutoff, or why the window is rejected.
pub open spec fn policy_new_spec(days: int, now_micros: int) -> Result<Option<int>, PolicyError> {
    if days < -1 {
        Err(PolicyError::NegativeDays)
    } else if days > 0 && days * MICROS_PER_DAY > i64::MAX {
        Err(PolicyError::WindowOverflow)
    } else if days > 0 && now_micros - days * MICROS_PER_DAY < i64::MIN {
        Err(PolicyError::CutoffOverflow)
    } else {
        Ok(cutoff_spec(days, now_micros))
    }
}

impl InitialIndexPolicy {
    /// The cutoff as a mathematical integer.
    pub open spec fn cutoff_view(self) -> Option<int> {
        match self.cutoff_micros {
            Some(c) => Some(c as int),
            None => None,
        }
    }

    /// Builds the window; rejects days below -1 and arithmetic that overflows `i64`.
    pub fn new(days: i64, now_micros: i64) -> (r: Result<Self, PolicyError>)
        ensures
            match policy_new_spec(days as int, now_micros as int) {
                Err(e) => r == Err::<Self, PolicyError>(e),
                Ok(c) => (r matches Ok(p) && p.days == days && p.cutoff_view() == c),
            },
    {
        if days < -1 {
            return Err(PolicyError::NegativeDays);
        }
        let cutoff_micros = if days == -1 {
            None
        } else if days == 0 {
            Some(now_micros)
        } else {
            let window = match days.checked_mul(MICROS_PER_DAY) {
                Some(w) => w,
                None => return Err(PolicyError::WindowOverflow),
            };
            match now_micros.checked_sub(window) {
                Some(c) => Some(c),
                None => return Err(PolicyError::CutoffOverflow),
            }
        };
        Ok(InitialIndexPolicy { days, cutoff_micros })
    }

    /// The window that covers all history.
    pub fn all() -> (r: Self)
        ensures
            r.days == -1,
            r.cutoff_micros is None,
    {
        InitialIndexPolicy { days: -1, cutoff_micros: None }
    }

    /// Whether a session updated at `created_at_micros` falls in the window.
    pub open spec fn includes_spec(self, created_at_micros: int) -> bool {
        match self.cutoff_micros {
            None => true,
            Some(cutoff) => created_at_micros >= cutoff,
        }
    }

    /// Whether a session updated at `created_at_micros` falls in the window.
    pub fn includes(self, created_at_micros: i64) -> (r: bool)
        ensures
            r == self.includes_spec(created_at_micros as int),
    {
        match self.cutoff_micros {
            None => true,
            Some(cutoff) => created_at_micros >= cutoff,
        }
    }

    /// Whether work updated at `updated_at_micros` is recent enough to be
    /// indexed before older history.
    pub fn is_recent(self, updated_at_micros: i64, now_micros: i64) -> (r: bool)
        ensures
            r == self.includes_spec(updated_at_micros as int),
    {
        self.includes(updated_at_micros)
    }

    /// Whether history outside the window is indexed in the background
    /// (every window except 0).
    pub fn background_enabled(self) -> (r: bool)
        ensures
            r == (self.days != 0),
    {
        self.days != 0
    }
}

/// How urgent a piece of indexing work is.
#[derive(Clone, Copy, Debug, PartialEq, Eq, Structural)]
pub enum WorkPriority {
    Background,
    Recent,
    Interactive,
}

impl WorkPriority {
    /// The numeric level: background 1, recent 2, interactive 3.
    pub open spec fn level_spec(self) -> u8 {
        match self {
            WorkPriority::Background => 1,
            WorkPriority::Recent => 2,
            WorkPriority::Interactive => 3,
        }
    }

    /// The numeric level: background 1, recent 2, interactive 3.
    pub fn level(self) -> (r: u8)
        ensures
            r == self.level_spec(),
    {
        match self {
            WorkPriority::Background => 1,
            WorkPriority::Recent => 2,
            WorkPriority::Interactive => 3,
        }
    }

    /// The priority stored as `value`; unknown levels read as background.
    pub fn from_u8(value: u8) -> (r: Self)
        ensures
            1 <= value <= 3 ==> r.level_spec() == value,
            !(1 <= value <= 3) ==> r == WorkPriority::Background,
    {
        match value {
            3 => WorkPriority::Interactive,
            2 => WorkPriority::Recent,
            _ => WorkPriority::Background,
        }
    }
}

/// Levels round-trip through `from_u8`.
pub proof fn lemma_level_round_trip(p: WorkPriority)
    ensures
        1 <= p.level_spec() <= 3,
        (p.level_spec() == 1) == (p == WorkPriority::Background),
        (p.level_spec() == 2) == (p == WorkPriority::Recent),
        (p.level_spec() == 3) == (p == WorkPriority::Interactive),
{
}

} // verus!
