use ragequiet::sysinfo::{cpu_deltas, filetime_to_u64, process_cpu_100ns, CpuTimes, FileTime, Sample};

fn cpu_percent(prev: (u64, u64), cur: (u64, u64)) -> f32 {
    let at = |s: (u64, u64)| Sample { cpu: s.0, wall: s.1 };
    match cpu_deltas(at(prev), at(cur)) {
        Some((cpu, wall)) => (cpu as f64 / wall as f64 * 100.0) as f32,
        None => 0.0,
    }
}

#[test]
fn fifty_percent_of_one_core() {
    // 0.5 s of CPU time consumed over 1.0 s of wall time.
    let prev = (0u64, 0u64);
    let cur = (5_000_000u64, 10_000_000u64);
    assert!((cpu_percent(prev, cur) - 50.0).abs() < 0.01);
}

#[test]
fn zero_percent_when_no_cpu_time_elapsed() {
    let prev = (1_000_000u64, 0u64);
    let cur = (1_000_000u64, 10_000_000u64);
    assert_eq!(cpu_percent(prev, cur), 0.0);
}

#[test]
fn zero_or_backwards_wall_delta_is_guarded_to_zero() {
    let prev = (0u64, 5_000_000u64);
    assert_eq!(cpu_percent(prev, (1_000_000u64, 5_000_000u64)), 0.0, "zero wall delta");
    assert_eq!(cpu_percent(prev, (1_000_000u64, 4_000_000u64)), 0.0, "backwards wall delta");
}

#[test]
fn cpu_time_that_ran_backwards_counts_as_none() {
    let prev = Sample { cpu: 9, wall: 10 };
    let cur = Sample { cpu: 4, wall: 30 };
    assert_eq!(cpu_deltas(prev, cur), Some((0, 20)));
}

#[test]
fn process_time_is_kernel_plus_user() {
    let kernel = FileTime { high: 1, low: 2 };
    let user = FileTime { high: 3, low: 0xffff_ffff };
    assert_eq!(filetime_to_u64(kernel), (1u64 << 32) | 2);
    assert_eq!(
        process_cpu_100ns(Some(CpuTimes { kernel, user })),
        Some(((1u64 << 32) | 2) + ((3u64 << 32) | 0xffff_ffff))
    );
    assert_eq!(process_cpu_100ns(None), None);
}
