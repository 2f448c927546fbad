//! Per-topic retention: a pure decision engine that says which sealed
//! segments may be purged, based on age and count limits.

use vstd::prelude::*;

verus! {

use crate::decimal::spec_udec;
use crate::decimal::u64_to_dec;

/// Purge rule for one topic's sealed segments.
///
/// A segment may be deleted when it is older than `max_age_hours` or when it
/// falls outside the newest `max_segments`, but never when fewer than
/// `min_segments_to_keep` strictly newer segments would remain.
#[derive(Debug, Clone, Copy, PartialEq, Eq)]
pub struct RetentionPolicy {
    /// Maximum age of segments in hours (`None` = no time limit).
    pub max_age_hours: Option<u64>,
    /// Maximum number of segments to keep (`None` = no count limit).
    pub max_segments: Option<u64>,
    /// Number of strictly newer segments that must survive any deletion.
    pub min_segments_to_keep: u64,
}

/// The policy a topic starts with: no limits, one segment always kept.
pub open spec fn spec_default_policy() -> RetentionPolicy {
    RetentionPolicy { max_age_hours: None, max_segments: None, min_segments_to_keep: 1 }
}

/// What `should_delete_segment` decides, as a pure predicate.
///
/// `idx` is the segment's 0-based rank from oldest to newest among the
/// topic's `total` currently-known segments. The guard counts only the
/// segments strictly newer than `idx`; the age rule fires strictly above the
/// limit; the count rule deletes the oldest `total - max` segments.
pub open spec fn spec_should_delete(
    p: RetentionPolicy,
    age_secs: u64,
    total: u64,
    idx: u64,
) -> bool
    recommends
        idx < total,
{
    let newer_after_deletion = total as int - (idx as int + 1);
    if newer_after_deletion < p.min_segments_to_keep as int {
        false
    } else if p.max_age_hours matches Some(h) && age_secs as int > h as int * 3600 {
        true
    } else if p.max_segments matches Some(m) && total > m && (idx as int) < total as int
        - m as int {
        true
    } else {
        false
    }
}

impl Default for RetentionPolicy {
    /// No limits configured; a sole segment is always protected.
    fn default() -> (r: Self)
        ensures
            r == spec_default_policy(),
    {
        RetentionPolicy { max_age_hours: None, max_segments: None, min_segments_to_keep: 1 }
    }
}

impl RetentionPolicy {
    /// A policy that deletes segments strictly older than `max_age_hours`.
    pub fn time_based(max_age_hours: u64) -> (r: Self)
        ensures
            r == (RetentionPolicy {
                max_age_hours: Some(max_age_hours),
                max_segments: None,
                min_segments_to_keep: 1,
            }),
    {
        Self { max_age_hours: Some(max_age_hours), max_segments: None, min_segments_to_keep: 1 }
    }

    /// A policy that keeps only the newest `max_segments` segments.
    pub fn size_based(max_segments: u64) -> (r: Self)
        ensures
            r == (RetentionPolicy {
                max_age_hours: None,
                max_segments: Some(max_segments),
                min_segments_to_keep: 1,
            }),
    {
        Self { max_age_hours: None, max_segments: Some(max_segments), min_segments_to_keep: 1 }
    }

    /// A policy with both a time and a count limit.
    pub fn hybrid(max_age_hours: u64, max_segments: u64) -> (r: Self)
        ensures
            r == (RetentionPolicy {
                max_age_hours: Some(max_age_hours),
                max_segments: Some(max_segments),
                min_segments_to_keep: 1,
            }),
    {
        Self {
            max_age_hours: Some(max_age_hours),
            max_segments: Some(max_segments),
            min_segments_to_keep: 1,
        }
    }

    /// Decides whether the segment of rank `segment_index` (0-based, oldest
    /// first, among `total_segments` known segments) whose age is
    /// `segment_age_secs` seconds may be deleted.
    pub fn should_delete_segment(
        &self,
        segment_age_secs: u64,
        total_segments: u64,
        segment_index: u64,
    ) -> (r: bool)
        requires
            segment_index < total_segments,
        ensures
            r == spec_should_delete(*self, segment_age_secs, total_segments, segment_index),
    {
        let newer_after_deletion: u64 = total_segments - (segment_index + 1);
        if newer_after_deletion < self.min_segments_to_keep {
            return false;
        }
        if let Some(max_age_hours) = self.max_age_hours {
            let limit_secs: u128 = (max_age_hours as u128) * 3600;
            if (segment_age_secs as u128) > limit_secs {
                return true;
            }
        }
        if let Some(max_segments) = self.max_segments {
            if total_segments > max_segments {
                if segment_index < total_segments - max_segments {
                    return true;
                }
            }
        }
        false
    }

    /// What `describe` renders for the time limit alone: hours below a day,
    /// whole days at or above it.
    pub open spec fn spec_age_part(h: u64) -> Seq<char> {
        if h < 24 {
            spec_udec(h as int) + "h"@
        } else {
            spec_udec(h as int / 24) + "d"@
        }
    }

    /// What `describe` renders for the count limit alone.
    pub open spec fn spec_count_part(m: u64) -> Seq<char> {
        spec_udec(m as int) + " segments"@
    }

    /// What `describe` renders: the configured limits joined by " or ", or
    /// "unlimited" when none is set.
    pub open spec fn spec_describe(p: RetentionPolicy) -> Seq<char> {
        match (p.max_age_hours, p.max_segments) {
            (Option::None, Option::None) => "unlimited"@,
            (Option::Some(h), Option::None) => Self::spec_age_part(h),
            (Option::None, Option::Some(m)) => Self::spec_count_part(m),
            (Option::Some(h), Option::Some(m)) => Self::spec_age_part(h) + " or "@
                + Self::spec_count_part(m),
        }
    }

    /// Renders the policy for a human: its limits joined by " or ", or
    /// "unlimited" when none is set; hours collapse to whole days from 24h.
    pub fn describe(&self) -> (r: String)
        ensures
            r@ == Self::spec_describe(*self),
    {
        match (self.max_age_hours, self.max_segments) {
            (None, None) => {
                let r: String = "unlimited".to_owned();
                proof {
                    assert(r@ =~= Self::spec_describe(*self));
                }
                r
            },
            (Some(h), None) => {
                let r: String = Self::age_part(h);
                proof {
                    assert(r@ =~= Self::spec_describe(*self));
                }
                r
            },
            (None, Some(m)) => {
                let r: String = Self::count_part(m);
                proof {
                    assert(r@ =~= Self::spec_describe(*self));
                }
                r
            },
            (Some(h), Some(m)) => {
                let mut r: String = Self::age_part(h);
                r.append(" or ");
                let tail: String = Self::count_part(m);
                r.append(tail.as_str());
                proof {
                    assert(r@ =~= Self::spec_describe(*self));
                }
                r
            },
        }
    }

    /// Renders the time limit alone.
    fn age_part(h: u64) -> (r: String)
        ensures
            r@ == Self::spec_age_part(h),
    {
        if h < 24 {
            let mut r: String = u64_to_dec(h);
            r.append("h");
            proof {
                assert(r@ =~= Self::spec_age_part(h));
            }
            r
        } else {
            let mut r: String = u64_to_dec(h / 24);
            r.append("d");
            proof {
                assert(r@ =~= Self::spec_age_part(h));
            }
            r
        }
    }

    /// Renders the count limit alone.
    fn count_part(m: u64) -> (r: String)
        ensures
            r@ == Self::spec_count_part(m),
    {
        let mut r: String = u64_to_dec(m);
        r.append(" segments");
        proof {
            assert(r@ =~= Self::spec_count_part(m));
        }
        r
    }

    /// Reports whether either limit is configured.
    pub fn is_enabled(&self) -> (r: bool)
        ensures
            r == (self.max_age_hours is Some || self.max_segments is Some),
    {
        self.max_age_hours.is_some() || self.max_segments.is_some()
    }
}

/// A transient view of one segment, assembled for a retention decision.
#[derive(Debug, Clone, Copy)]
pub struct SegmentInfo {
    pub segment_id: u64,
    /// Creation time, in seconds since the Unix epoch.
    pub created_at: u64,
    pub is_sealed: bool,
}

impl SegmentInfo {
    /// The segment's age at time `now_secs` (seconds since the Unix epoch);
    /// a segment created in the future counts as age zero.
    pub fn age_at(&self, now_secs: u64) -> (r: u64)
        ensures
            r == if now_secs >= self.created_at {
                (now_secs - self.created_at) as u64
            } else {
                0u64
            },
    {
        if now_secs >= self.created_at {
            now_secs - self.created_at
        } else {
            0
        }
    }

    /// The segment's age now, in seconds. The clock is read once; nothing is
    /// promised of the result beyond what `age_at` states for some reading.
    pub fn age(&self) -> (r: u64)
        ensures
            exists|now: u64| r == self.age_at_spec(now),
    {
        let now: u64 = now_unix_secs();
        let r: u64 = self.age_at(now);
        proof {
            assert(r == self.age_at_spec(now));
        }
        r
    }

    /// What `age_at` returns, for use in contracts.
    pub open spec fn age_at_spec(&self, now_secs: u64) -> u64 {
        if now_secs >= self.created_at {
            (now_secs - self.created_at) as u64
        } else {
            0u64
        }
    }
}

/// Relies on std::time::SystemTime::now: reads the wall clock and converts it
/// to whole seconds since the Unix epoch (zero if the clock is before it).
/// The result depends on the machine's clock, so nothing is promised of it.
#[verifier::external_body]
pub(crate) fn now_unix_secs() -> u64 {
    std::time::SystemTime::now()
        .duration_since(std::time::UNIX_EPOCH)
        .unwrap_or_default()
        .as_secs()
}

} // verus!
