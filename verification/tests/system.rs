use std::time::Duration;

use netwatch::system::{
    boot_time_or_fallback, cpu_info, cpu_info_safe, format_uptime_secs, memory_figures,
    memory_figures_safe, os_info, os_info_safe, parse_boot_time, parse_boot_time_safe,
    cpu_samples_in_order, parse_cpu_stats, parse_total_memory, parse_total_memory_safe, uptime_since, CpuStats,
    SafeSystemInfo, SafeSystemMonitor, SystemInfo, SystemMonitor,
};

const CPUINFO: &str = "processor\t: 0
model name\t: Example CPU @ 3.00GHz
core id\t\t: 0
processor\t: 1
model name\t: Example CPU @ 3.00GHz
core id\t\t: 1
processor\t: 2
core id\t\t: 0
";

fn stats(user: u64, idle: u64) -> CpuStats {
    CpuStats { user, nice: 0, system: 0, idle, iowait: 0, irq: 0, softirq: 0, steal: 0 }
}

#[test]
fn os_release_gives_pretty_name_and_version() {
    let content = "NAME=\"Ubuntu\"\nVERSION=\"22.04.3 LTS (Jammy Jellyfish)\"\nVERSION_ID=\"22.04\"\nPRETTY_NAME=\"Ubuntu 22.04.3 LTS\"\n";
    let (name, version) = os_info(Some(content));
    assert_eq!(name, "Ubuntu 22.04.3 LTS");
    assert_eq!(version, "22.04.3 LTS (Jammy Jellyfish)");
    assert_eq!(os_info_safe(Some(content)), (name, version));
    assert_eq!(os_info(None), ("Linux".to_string(), "Unknown".to_string()));
    assert_eq!(os_info(Some("ID=x\n")), ("Linux".to_string(), "Unknown".to_string()));
}

#[test]
fn os_release_key_is_removed_once_by_the_safe_variant() {
    let content = "VERSION=VERSION=1\n";
    assert_eq!(os_info(Some(content)).1, "1");
    assert_eq!(os_info_safe(Some(content)).1, "VERSION=1");
}

#[test]
fn cpuinfo_counts_threads_and_distinct_cores() {
    let (model, cores, threads) = cpu_info(Some(CPUINFO));
    assert_eq!(model, "Example CPU @ 3.00GHz");
    assert_eq!((cores, threads), (2, 3));
    assert_eq!(cpu_info(None), ("Unknown CPU".to_string(), 1, 1));
    assert_eq!(cpu_info(Some("processor : 0\nprocessor : 1\n")), ("Unknown CPU".to_string(), 2, 2));
}

#[test]
fn safe_cpuinfo_needs_the_colon_right_after_the_key() {
    let (model, cores, threads) = cpu_info_safe(Some(CPUINFO));
    assert_eq!(model, "Unknown CPU");
    assert_eq!((cores, threads), (3, 3));
    let (model, cores, threads) = cpu_info_safe(Some("model name: Tiny\nprocessor\ncore id: 4\n"));
    assert_eq!(model, "Tiny");
    assert_eq!((cores, threads), (1, 1));
}

#[test]
fn meminfo_total_and_use() {
    let content = "MemTotal:       16000 kB\nMemFree:  100 kB\nMemAvailable:    4000 kB\n";
    assert_eq!(parse_total_memory(content), 16000 * 1024);
    assert_eq!(parse_total_memory_safe(content), 16000 * 1024);
    assert_eq!(parse_total_memory("MemFree: 1 kB\n"), 0);
    assert_eq!(memory_figures(content), (12000 * 1024, 4000 * 1024));
    assert_eq!(memory_figures_safe("MemTotal: 1 kB\nMemAvailable: 2 kB\n"), (0, 2048));
}

#[test]
fn boot_time_from_stat() {
    let content = "cpu  1 2 3 4 5 6 7 8\nbtime 1700000000\nprocesses 10\n";
    assert_eq!(parse_boot_time(content), Some(1_700_000_000));
    assert_eq!(parse_boot_time_safe(content), Some(1_700_000_000));
    assert_eq!(parse_boot_time("cpu 1\n"), None);
    assert_eq!(boot_time_or_fallback(None, 10_000), 6_400);
    assert_eq!(boot_time_or_fallback(Some(5), 10_000), 5);
    assert_eq!(uptime_since(100, 250), 150);
    assert_eq!(uptime_since(300, 250), 0);
}

#[test]
fn cpu_stat_line() {
    let s = parse_cpu_stats("cpu  10 20 30 40 50 60 70 80 90\ncpu0 1 2 3 4 5 6 7 8\n");
    assert_eq!(s, CpuStats { user: 10, nice: 20, system: 30, idle: 40, iowait: 50, irq: 60, softirq: 70, steal: 80 });
    let no_steal = parse_cpu_stats("cpu  1 2 3 4 5 6 7\n");
    assert_eq!(no_steal.steal, 0);
    assert_eq!(parse_cpu_stats("intr 5\n"), stats(0, 1000));
}

fn info() -> SystemInfo {
    SystemInfo {
        hostname: "h".to_string(),
        os_name: "Linux".to_string(),
        os_version: "1".to_string(),
        kernel_version: "6".to_string(),
        architecture: "x86_64".to_string(),
        cpu_model: "cpu".to_string(),
        cpu_cores: 2,
        cpu_threads: 4,
        total_memory: 1024,
        boot_time: 0,
        uptime: 10,
    }
}

#[test]
fn cpu_load_between_samples() {
    let mut m = SystemMonitor::new(info());
    assert_eq!(m.get_system_info().hostname, "h");
    assert_eq!(m.record_cpu_sample(stats(100, 100)), None);
    assert_eq!(m.record_cpu_sample(stats(130, 170)), Some((30, 100)));
    assert_eq!(m.record_cpu_sample(stats(130, 170)), None);
}

#[test]
fn safe_monitor_keeps_errors_and_saturates() {
    let failed = SafeSystemMonitor::new(Some(Err("boom".to_string())));
    assert!(failed.get_system_info().is_none());
    let panicked = SafeSystemMonitor::new(None);
    assert!(panicked.get_system_info().is_none());
    let i = info();
    let safe = SafeSystemInfo {
        hostname: i.hostname,
        os_name: i.os_name,
        os_version: i.os_version,
        kernel_version: i.kernel_version,
        architecture: i.architecture,
        cpu_model: i.cpu_model,
        cpu_cores: i.cpu_cores,
        cpu_threads: i.cpu_threads,
        total_memory: i.total_memory,
        boot_time: i.boot_time,
        uptime: i.uptime,
    };
    let mut m = SafeSystemMonitor::new(Some(Ok(safe)));
    assert_eq!(m.get_system_info().unwrap().cpu_threads, 4);
    assert_eq!(m.record_cpu_sample(stats(100, 100)), None);
    assert_eq!(m.record_cpu_sample(stats(50, 300)), Some((0, 150)));
}

#[test]
fn uptime_text() {
    assert_eq!(format_uptime_secs(59), "0m");
    assert_eq!(format_uptime_secs(3 * 3600 + 4 * 60 + 5), "3h 4m");
    assert_eq!(format_uptime_secs(2 * 86400 + 60), "2d 0h 1m");
    assert_eq!(SystemMonitor::format_uptime(Duration::from_secs(90061)), "1d 1h 1m");
    assert_eq!(SafeSystemMonitor::format_uptime(Duration::from_secs(600)), "10m");
}

#[test]
fn samples_in_order_only_when_counters_did_not_go_back() {
    assert!(cpu_samples_in_order(&stats(100, 50), &stats(150, 60)));
    assert!(cpu_samples_in_order(&stats(100, 50), &stats(100, 50)));
    assert!(!cpu_samples_in_order(&stats(100, 50), &stats(90, 50)));
    assert!(!cpu_samples_in_order(&stats(100, 50), &stats(120, 40)));
    assert!(!cpu_samples_in_order(&stats(u64::MAX, 1), &stats(u64::MAX, 2)));
}

#[test]
fn monitor_accepts_any_first_sample_then_ordered_ones() {
    let mut m = SystemMonitor::new(info());
    assert!(m.accepts_cpu_sample(&stats(100, 50)));
    assert_eq!(m.record_cpu_sample(stats(100, 50)), None);
    assert!(!m.accepts_cpu_sample(&stats(90, 50)));
    assert!(m.accepts_cpu_sample(&stats(130, 60)));
    assert_eq!(m.record_cpu_sample(stats(130, 60)), Some((30, 40)));
}

#[test]
fn safe_memory_figures_read_the_word_after_the_prefix() {
    let glued = "MemTotal:1000 kB\nMemAvailable:200 kB\n";
    assert!(netwatch::system::is_meminfo_in_range_safe(glued));
    assert_eq!(memory_figures_safe(glued), (800 * 1024, 200 * 1024));
    // read as the second word, as the other monitor does, these lines give "kB"
    assert_eq!(memory_figures(glued), (0, 0));
    assert_eq!(parse_total_memory_safe(glued), 1000 * 1024);
    assert_eq!(memory_figures_safe("MemTotal: 1 kB\nMemAvailable: x kB\n"), (1024, 0));
    assert!(!netwatch::system::is_meminfo_in_range_safe("MemTotal: 18446744073709551615 kB\n"));
}
