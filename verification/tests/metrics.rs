use beebo::metrics::{
    cpu_stat_in_range, meminfo_in_range_exec, net_dev_in_range, parse_cpu_stat, parse_meminfo,
    parse_net_dev, MetricType, MetricsData, Sample, MAX_SAMPLES,
};

fn percent(s: Sample) -> f64 {
    100.0 * s.part as f64 / s.whole as f64
}

fn kib_per_sec(s: Sample) -> f64 {
    s.part as f64 / s.whole as f64
}

#[test]
fn test_parse_cpu_stat_first_sample_returns_none() {
    let stat = "cpu  10132153 290696 3084719 46828483 16683 0 25195 0 0 0\n";
    let mut prev = None;
    assert!(cpu_stat_in_range(stat, prev));
    assert!(parse_cpu_stat(stat, &mut prev).is_none());
    assert!(prev.is_some());
}

#[test]
fn test_parse_cpu_stat_second_sample() {
    let stat1 = "cpu  10132153 290696 3084719 46828483 16683 0 25195 0 0 0\n";
    let stat2 = "cpu  10132253 290696 3084719 46828583 16683 0 25195 0 0 0\n";
    let mut prev = None;
    parse_cpu_stat(stat1, &mut prev);
    assert!(cpu_stat_in_range(stat2, prev));
    let usage = percent(parse_cpu_stat(stat2, &mut prev).unwrap());
    // 100 user increase, 100 idle increase => 200 total delta, 100 non-idle => 50%
    assert!((usage - 50.0).abs() < 0.1);
}

#[test]
fn test_parse_meminfo() {
    let meminfo = "\
MemTotal:       16384000 kB
MemFree:         2000000 kB
MemAvailable:    8192000 kB
Buffers:          500000 kB
";
    assert!(meminfo_in_range_exec(meminfo));
    let usage = percent(parse_meminfo(meminfo).unwrap());
    // (16384000 - 8192000) / 16384000 * 100 = 50%
    assert!((usage - 50.0).abs() < 0.1);
}

#[test]
fn test_parse_net_dev() {
    let dev1 = "\
Inter-|   Receive                                                |  Transmit
 face |bytes    packets errs drop fifo frame compressed multicast|bytes    packets errs drop fifo colls carrier compressed
    lo: 1000     10    0    0    0     0          0         0     1000     10    0    0    0     0       0          0
  eth0: 50000    100    0    0    0     0          0         0    30000     80    0    0    0     0       0          0
";
    let dev2 = "\
Inter-|   Receive                                                |  Transmit
 face |bytes    packets errs drop fifo frame compressed multicast|bytes    packets errs drop fifo colls carrier compressed
    lo: 2000     20    0    0    0     0          0         0     2000     20    0    0    0     0       0          0
  eth0: 60000    110    0    0    0     0          0         0    40000     90    0    0    0     0       0          0
";
    let mut prev = None;
    assert!(net_dev_in_range(dev1) && net_dev_in_range(dev2));
    assert!(parse_net_dev(dev1, &mut prev).is_none()); // first sample
    let throughput = kib_per_sec(parse_net_dev(dev2, &mut prev).unwrap());
    // eth0: delta = (60000+40000) - (50000+30000) = 20000 bytes
    // KB/s = 20000 / 2 / 1024 ≈ 9.77
    assert!((throughput - 9.77).abs() < 0.1);
}

#[test]
fn test_parse_meminfo_missing_fields() {
    let meminfo = "MemTotal:       16384000 kB\n";
    assert!(meminfo_in_range_exec(meminfo));
    assert!(parse_meminfo(meminfo).is_none());
}

#[test]
fn cpu_without_elapsed_time_is_zero() {
    let stat = "cpu  1 2 3 4\n";
    let mut prev = None;
    parse_cpu_stat(stat, &mut prev);
    assert!(cpu_stat_in_range(stat, prev));
    let s = parse_cpu_stat(stat, &mut prev).unwrap();
    assert_eq!(percent(s), 0.0);
}

#[test]
fn cpu_exact_fraction() {
    let mut prev = None;
    parse_cpu_stat("cpu  0 0 0 0\n", &mut prev);
    let s = parse_cpu_stat("cpu  30 0 0 10\n", &mut prev).unwrap();
    // 40 ticks elapsed, 10 of them idle: 30 of 40 busy
    assert_eq!(s, Sample { part: 30, whole: 40 });
    assert_eq!(prev, Some((10, 40)));
}

#[test]
fn meminfo_with_zero_total_gives_nothing() {
    assert!(parse_meminfo("MemTotal: 0 kB\nMemAvailable: 0 kB\n").is_none());
}

#[test]
fn meminfo_with_more_available_than_total_is_out_of_range() {
    assert!(!meminfo_in_range_exec("MemTotal: 10 kB\nMemAvailable: 20 kB\n"));
}

#[test]
fn samples_are_bounded_and_latest_is_last() {
    let mut m = MetricsData::new();
    assert!(m.latest(MetricType::Cpu).is_none());
    let mut stat = String::from("cpu  0 0 0 0\n");
    for i in 1..=(MAX_SAMPLES as u64 + 5) {
        assert!(m.cpu_update_in_range(&stat));
        m.update_cpu(&stat);
        stat = format!("cpu  {} 0 0 {}\n", i, i);
    }
    assert_eq!(m.series(MetricType::Cpu).len(), MAX_SAMPLES);
    assert_eq!(m.latest(MetricType::Cpu), Some(Sample { part: 1, whole: 2 }));
    assert!(m.series(MetricType::Memory).is_empty());
}

#[test]
fn metric_cycle_and_labels() {
    assert_eq!(MetricType::Cpu.next(), MetricType::Memory);
    assert_eq!(MetricType::Memory.next(), MetricType::Network);
    assert_eq!(MetricType::Network.next(), MetricType::Cpu);
    assert_eq!(MetricType::Cpu.label(), "CPU");
    assert_eq!(MetricType::Memory.label(), "MEM");
    assert_eq!(MetricType::Network.label(), "NET");
}
