//! Detection of infeasible mixes of height-based and time-based locks in a
//! policy: no satisfaction path may require both kinds at once.

use vstd::prelude::*;
use crate::policy::{Policy, PolicyError, SpecPolicy, pvs, prs};

verus! {

broadcast use vstd::std_specs::vec::axiom_vec_index_decreases;

/// Locktimes below this threshold are block heights; at or above it they are
/// unix timestamps.
pub const LOCKTIME_THRESHOLD: u32 = 500000000;

/// Bit of a relative locktime value that, when set, makes it time-based
/// rather than height-based.
pub const SEQUENCE_LOCKTIME_TYPE_FLAG: u32 = 0x400000;

/// Which kinds of locks appear in a policy subtree, and whether some
/// satisfaction path needs both a height-based and a time-based lock.
#[derive(Clone, Copy, PartialEq, Eq, Structural, Debug)]
pub struct TimelockInfo {
    /// A height-based relative lock appears.
    pub csv_with_height: bool,
    /// A time-based relative lock appears.
    pub csv_with_time: bool,
    /// A height-based absolute lock appears.
    pub cltv_with_height: bool,
    /// A time-based absolute lock appears.
    pub cltv_with_time: bool,
    /// Some satisfaction path requires both a height lock and a time lock.
    pub contains_combination: bool,
}

/// The all-false lock summary.
pub open spec fn spec_no_locks() -> TimelockInfo {
    TimelockInfo {
        csv_with_height: false,
        csv_with_time: false,
        cltv_with_height: false,
        cltv_with_time: false,
        contains_combination: false,
    }
}

/// The subtree exhibits some height-based lock.
pub open spec fn has_height_lock(t: TimelockInfo) -> bool {
    t.csv_with_height || t.cltv_with_height
}

/// The subtree exhibits some time-based lock.
pub open spec fn has_time_lock(t: TimelockInfo) -> bool {
    t.csv_with_time || t.cltv_with_time
}

/// Satisfying both children at once would demand a height lock and a time
/// lock together.
pub open spec fn crosses(a: TimelockInfo, b: TimelockInfo) -> bool {
    has_height_lock(a) && has_time_lock(b)
}

/// Lock summary of a `k`-of-`n` aggregation of children: each flag is the
/// disjunction over the children, and a combination arises when a child
/// already has one or, for `k >= 2`, when two distinct children carry a
/// height-based and a time-based lock respectively.
pub open spec fn spec_combine(k: int, infos: Seq<TimelockInfo>) -> TimelockInfo {
    TimelockInfo {
        csv_with_height: exists|i: int| 0 <= i < infos.len() && (#[trigger] infos[i]).csv_with_height,
        csv_with_time: exists|i: int| 0 <= i < infos.len() && (#[trigger] infos[i]).csv_with_time,
        cltv_with_height: exists|i: int|
            0 <= i < infos.len() && (#[trigger] infos[i]).cltv_with_height,
        cltv_with_time: exists|i: int| 0 <= i < infos.len() && (#[trigger] infos[i]).cltv_with_time,
        contains_combination: (exists|i: int|
            0 <= i < infos.len() && (#[trigger] infos[i]).contains_combination) || (k >= 2
            && exists|i: int, j: int|
            0 <= i < infos.len() && 0 <= j < infos.len() && i != j && crosses(
                #[trigger] infos[i],
                #[trigger] infos[j],
            )),
    }
}

/// Lock summary of a policy subtree. `And` aggregates as `n`-of-`n`, `Or`
/// as `1`-of-`n`.
pub open spec fn spec_timelock_info(p: SpecPolicy) -> TimelockInfo
    decreases p,
{
    match p {
        SpecPolicy::After(t) => TimelockInfo {
            csv_with_height: false,
            csv_with_time: false,
            cltv_with_height: t < LOCKTIME_THRESHOLD,
            cltv_with_time: t >= LOCKTIME_THRESHOLD,
            contains_combination: false,
        },
        SpecPolicy::Older(t) => TimelockInfo {
            csv_with_height: (t & SEQUENCE_LOCKTIME_TYPE_FLAG) == 0,
            csv_with_time: (t & SEQUENCE_LOCKTIME_TYPE_FLAG) != 0,
            cltv_with_height: false,
            cltv_with_time: false,
            contains_combination: false,
        },
        SpecPolicy::Threshold(k, s) => spec_combine(k as int, spec_tl_list(s)),
        SpecPolicy::And(s) => spec_combine(s.len() as int, spec_tl_list(s)),
        SpecPolicy::Or(s) => spec_combine(1, spec_tl_pairs(s)),
        _ => spec_no_locks(),
    }
}

/// Lock summaries of each policy in a list.
pub open spec fn spec_tl_list(s: Seq<SpecPolicy>) -> Seq<TimelockInfo>
    decreases s,
{
    Seq::new(
        s.len(),
        |i: int|
            if 0 <= i < s.len() {
                spec_timelock_info(s[i])
            } else {
                spec_no_locks()
            },
    )
}

/// Lock summaries of each weighted policy in a list.
pub open spec fn spec_tl_pairs(s: Seq<(usize, SpecPolicy)>) -> Seq<TimelockInfo>
    decreases s,
{
    Seq::new(
        s.len(),
        |i: int|
            if 0 <= i < s.len() {
                spec_timelock_info(s[i].1)
            } else {
                spec_no_locks()
            },
    )
}

impl TimelockInfo {
    /// Aggregate the lock summaries of `k`-of-`n` children.
    pub fn combine_threshold(k: usize, infos: &Vec<TimelockInfo>) -> (r: TimelockInfo)
        ensures
            r == spec_combine(k as int, infos@),
    {
        let n = infos.len();
        let mut acc = TimelockInfo {
            csv_with_height: false,
            csv_with_time: false,
            cltv_with_height: false,
            cltv_with_time: false,
            contains_combination: false,
        };
        for j in 0..n
            invariant
                n == infos.len(),
                acc.csv_with_height == exists|i: int|
                    0 <= i < j && (#[trigger] infos@[i]).csv_with_height,
                acc.csv_with_time == exists|i: int|
                    0 <= i < j && (#[trigger] infos@[i]).csv_with_time,
                acc.cltv_with_height == exists|i: int|
                    0 <= i < j && (#[trigger] infos@[i]).cltv_with_height,
                acc.cltv_with_time == exists|i: int|
                    0 <= i < j && (#[trigger] infos@[i]).cltv_with_time,
                acc.contains_combination == ((exists|i: int|
                    0 <= i < j && (#[trigger] infos@[i]).contains_combination) || (k >= 2
                    && exists|i1: int, i2: int|
                    0 <= i1 < j && 0 <= i2 < j && i1 != i2 && crosses(
                        #[trigger] infos@[i1],
                        #[trigger] infos@[i2],
                    ))),
            decreases n - j,
        {
            let info = infos[j];
            let mut combo = acc.contains_combination || info.contains_combination;
            if k >= 2 {
                let acc_height = acc.csv_with_height || acc.cltv_with_height;
                let acc_time = acc.csv_with_time || acc.cltv_with_time;
                let info_height = info.csv_with_height || info.cltv_with_height;
                let info_time = info.csv_with_time || info.cltv_with_time;
                combo = combo || (acc_height && info_time) || (acc_time && info_height);
            }
            proof {
                let jj = j as int;
                if !acc.contains_combination && !info.contains_combination {
                    if k >= 2 {
                        if has_height_lock(acc) && has_time_lock(info) {
                            let w = choose|i: int|
                                0 <= i < jj && (has_height_lock(#[trigger] infos@[i]));
                            assert(crosses(infos@[w], infos@[jj]));
                        }
                        if has_time_lock(acc) && has_height_lock(info) {
                            let w = choose|i: int|
                                0 <= i < jj && (has_time_lock(#[trigger] infos@[i]));
                            assert(crosses(infos@[jj], infos@[w]));
                        }
                        if !combo {
                            assert(forall|i1: int, i2: int|
                                0 <= i1 < jj + 1 && 0 <= i2 < jj + 1 && i1 != i2 && crosses(
                                    #[trigger] infos@[i1],
                                    #[trigger] infos@[i2],
                                ) ==> false) by {
                                assert forall|i1: int, i2: int|
                                    0 <= i1 < jj + 1 && 0 <= i2 < jj + 1 && i1 != i2 && crosses(
                                        #[trigger] infos@[i1],
                                        #[trigger] infos@[i2],
                                    ) implies false by {
                                    if i1 < jj && i2 < jj {
                                    } else if i1 == jj {
                                        assert(has_height_lock(infos@[jj]));
                                        assert(has_time_lock(infos@[i2]));
                                        assert(has_time_lock(acc));
                                    } else {
                                        assert(has_height_lock(infos@[i1]));
                                        assert(has_height_lock(acc));
                                        assert(has_time_lock(infos@[jj]));
                                    }
                                }
                            }
                        }
                    }
                }
            }
            acc = TimelockInfo {
                csv_with_height: acc.csv_with_height || info.csv_with_height,
                csv_with_time: acc.csv_with_time || info.csv_with_time,
                cltv_with_height: acc.cltv_with_height || info.cltv_with_height,
                cltv_with_time: acc.cltv_with_time || info.cltv_with_time,
                contains_combination: combo,
            };
        }
        acc
    }
}

impl Policy {
    /// Lock summary of this policy: which kinds of locks appear below, and
    /// whether some satisfaction path combines a height lock with a time
    /// lock.
    pub fn check_timelocks_helper(&self) -> (r: TimelockInfo)
        ensures
            r == spec_timelock_info(self@),
        decreases self,
    {
        match self {
            Policy::After(t) => {
                let r = TimelockInfo {
                    csv_with_height: false,
                    csv_with_time: false,
                    cltv_with_height: *t < LOCKTIME_THRESHOLD,
                    cltv_with_time: *t >= LOCKTIME_THRESHOLD,
                    contains_combination: false,
                };
                proof {
                    assert(r == spec_timelock_info(self@));
                }
                r
            },
            Policy::Older(t) => {
                let r = TimelockInfo {
                    csv_with_height: (*t & SEQUENCE_LOCKTIME_TYPE_FLAG) == 0,
                    csv_with_time: (*t & SEQUENCE_LOCKTIME_TYPE_FLAG) != 0,
                    cltv_with_height: false,
                    cltv_with_time: false,
                    contains_combination: false,
                };
                proof {
                    assert(r == spec_timelock_info(self@));
                }
                r
            },
            Policy::Threshold(k, subs) => {
                let infos = tl_of_list(subs);
                proof {
                    assert(infos@ =~= spec_tl_list(pvs(*subs)));
                }
                let r = TimelockInfo::combine_threshold(*k, &infos);
                proof {
                    assert(r == spec_timelock_info(self@));
                }
                r
            },
            Policy::And(subs) => {
                let infos = tl_of_list(subs);
                proof {
                    assert(infos@ =~= spec_tl_list(pvs(*subs)));
                }
                let r = TimelockInfo::combine_threshold(subs.len(), &infos);
                proof {
                    assert(r == spec_timelock_info(self@));
                }
                r
            },
            Policy::Or(subs) => {
                let infos = tl_of_pairs(subs);
                proof {
                    assert(infos@ =~= spec_tl_pairs(prs(*subs)));
                }
                let r = TimelockInfo::combine_threshold(1, &infos);
                proof {
                    assert(r == spec_timelock_info(self@));
                }
                r
            },
            _ => {
                let r = TimelockInfo {
                    csv_with_height: false,
                    csv_with_time: false,
                    cltv_with_height: false,
                    cltv_with_time: false,
                    contains_combination: false,
                };
                proof {
                    assert(r == spec_timelock_info(self@));
                }
                r
            },
        }
    }

    /// Check whether some satisfaction path of the policy would require
    /// both a height-based and a time-based lock.
    pub fn check_timelocks(&self) -> (r: Result<(), PolicyError>)
        ensures
            r == if spec_timelock_info(self@).contains_combination {
                Result::<(), PolicyError>::Err(PolicyError::HeightTimelockCombination)
            } else {
                Result::<(), PolicyError>::Ok(())
            },
    {
        let timelocks = self.check_timelocks_helper();
        if timelocks.contains_combination {
            Err(PolicyError::HeightTimelockCombination)
        } else {
            Ok(())
        }
    }
}

fn tl_of_list(subs: &Vec<Policy>) -> (r: Vec<TimelockInfo>)
    ensures
        r.len() == subs.len(),
        forall|j: int| 0 <= j < subs.len() ==> r[j] == spec_timelock_info(pvs(*subs)[j]),
    decreases subs,
{
    let mut out: Vec<TimelockInfo> = Vec::new();
    let n = subs.len();
    for i in 0..n
        invariant
            n == subs.len(),
            out.len() == i,
            forall|j: int| 0 <= j < i ==> out[j] == spec_timelock_info(pvs(*subs)[j]),
        decreases n - i,
    {
        out.push(subs[i].check_timelocks_helper());
    }
    out
}

fn tl_of_pairs(subs: &Vec<(usize, Policy)>) -> (r: Vec<TimelockInfo>)
    ensures
        r.len() == subs.len(),
        forall|j: int| 0 <= j < subs.len() ==> r[j] == spec_timelock_info(prs(*subs)[j].1),
    decreases subs,
{
    let mut out: Vec<TimelockInfo> = Vec::new();
    let n = subs.len();
    for i in 0..n
        invariant
            n == subs.len(),
            out.len() == i,
            forall|j: int| 0 <= j < i ==> out[j] == spec_timelock_info(prs(*subs)[j].1),
        decreases n - i,
    {
        out.push(subs[i].1.check_timelocks_helper());
    }
    out
}

} // verus!
