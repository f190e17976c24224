//! CPU usage readout for the settings window: this process's own CPU time,
//! compared between two samples.

use vstd::prelude::*;

verus! {

/// A count of 100-ns units, in two halves.
#[derive(Debug, Clone, Copy, PartialEq, Eq, Structural)]
pub struct FileTime {
    pub high: u32,
    pub low: u32,
}

impl FileTime {
    pub open spec fn units(self) -> int {
        self.high * 0x1_0000_0000 + self.low
    }
}

pub fn filetime_to_u64(ft: FileTime) -> (r: u64)
    ensures
        r == ft.units(),
{
    ft.high as u64 * 0x1_0000_0000 + ft.low as u64
}

/// The times a process has spent.
#[derive(Debug, Clone, Copy, PartialEq, Eq, Structural)]
pub struct CpuTimes {
    pub kernel: FileTime,
    pub user: FileTime,
}

/// This process's total (kernel + user) CPU time in 100-ns units since
/// process start; `None` if the times could not be had.
pub fn process_cpu_100ns(times: Option<CpuTimes>) -> (r: Option<u64>)
    requires
        times matches Some(t) ==> t.kernel.units() + t.user.units() <= u64::MAX,
    ensures
        match times {
            Some(t) => r is Some && r->0 == t.kernel.units() + t.user.units(),
            None => r is None,
        },
{
    match times {
        Some(t) => Some(filetime_to_u64(t.kernel) + filetime_to_u64(t.user)),
        None => None,
    }
}

/// One reading of the clocks, in 100-ns units.
#[derive(Debug, Clone, Copy, PartialEq, Eq, Structural)]
pub struct Sample {
    pub cpu: u64,
    pub wall: u64,
}

/// CPU and wall time spent between two samples. `None` for a zero or backwards
/// wall-clock delta (first sample, or a clock hiccup), over which no share can
/// be taken; a CPU time that ran backwards counts as none.
pub fn cpu_deltas(prev: Sample, cur: Sample) -> (r: Option<(u64, u64)>)
    ensures
        match r {
            Some((cpu, wall)) => {
                &&& wall > 0
                &&& wall == cur.wall - prev.wall
                &&& cpu == (if cur.cpu >= prev.cpu {
                    cur.cpu - prev.cpu
                } else {
                    0
                })
            },
            None => cur.wall <= prev.wall,
        },
{
    if cur.wall <= prev.wall {
        return None;
    }
    let cpu: u64 = if cur.cpu >= prev.cpu {
        cur.cpu - prev.cpu
    } else {
        0
    };
    Some((cpu, cur.wall - prev.wall))
}

/// The high half counts for 2^32 of the low one's units, so times add up and
/// compare as they should.
pub proof fn law_a_time_is_both_of_its_halves(a: FileTime, b: FileTime)
    ensures
        a.units() == a.high * 0x1_0000_0000 + a.low,
        a.units() < b.units() <==> a.high < b.high || a.high == b.high && a.low < b.low,
{
}

} // verus!
