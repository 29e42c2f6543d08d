//! How many files a session may have open.
use vstd::prelude::*;

verus! {

/// Most the soft limit on open files is raised to, whatever the hard limit: the kernel
/// allows no more by default anyway.
pub const OPEN_FILES_CEILING: u64 = 1048576;

/// The limits on open files of a process.
#[derive(Clone, Copy, Debug, PartialEq, Eq, Structural)]
pub struct OpenFileLimit {
    /// The soft limit, which holds.
    pub rlim_cur: u64,
    /// The hard limit, up to which the soft one can be raised.
    pub rlim_max: u64,
}

/// The soft limit to aim for.
pub open spec fn wanted_limit(limit: OpenFileLimit) -> u64 {
    if limit.rlim_max < OPEN_FILES_CEILING {
        limit.rlim_max
    } else {
        OPEN_FILES_CEILING
    }
}

/// The soft limit on open files to raise `limit` to, or `None` when it is as high as it goes.
/// It never goes over the hard limit or the ceiling, and never comes down.
pub fn raised_soft_limit(limit: &OpenFileLimit) -> (raised: Option<u64>)
    ensures
        raised == (if limit.rlim_cur < wanted_limit(*limit) {
            Some(wanted_limit(*limit))
        } else {
            None
        }),
        raised matches Some(raised) ==> limit.rlim_cur < raised <= limit.rlim_max && raised
            <= OPEN_FILES_CEILING,
{
    let wanted: u64 = if limit.rlim_max < OPEN_FILES_CEILING {
        limit.rlim_max
    } else {
        OPEN_FILES_CEILING
    };
    if limit.rlim_cur < wanted {
        Some(wanted)
    } else {
        None
    }
}

/// The soft limit of open files that is wanted is the hard one, but never more than about a
/// million.
pub proof fn the_wanted_limit_is_the_hard_one_up_to_a_million(limit: OpenFileLimit)
    ensures
        limit.rlim_max <= 1048576 ==> wanted_limit(limit) == limit.rlim_max,
        limit.rlim_max > 1048576 ==> wanted_limit(limit) == 1048576,
{
}

/// The soft limit is raised only where it is lower, as far as the hard limit and a million allow,
/// and never lowered.
pub proof fn limits_are_only_raised(limit: &OpenFileLimit, raised: Option<u64>)
    requires
        call_ensures(raised_soft_limit, (limit,), raised),
    ensures
        raised matches Some(to) ==> limit.rlim_cur < to <= limit.rlim_max && to <= 1048576 && (to
            == limit.rlim_max || to == 1048576),
        raised is None ==> limit.rlim_cur >= limit.rlim_max || limit.rlim_cur >= 1048576,
{
}

} // verus!
