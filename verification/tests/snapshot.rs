use kiro::snapshot::HostFacts;
use kiro::snapshot::MetricsSnapshot;
use kiro::snapshot::TickReadings;
use kiro::snapshot::FULL_USAGE;

fn readings(used_memory: u64, total_memory: u64) -> TickReadings {
    TickReadings {
        uptime: 277_800,
        used_memory,
        free_memory: total_memory.saturating_sub(used_memory),
        total_memory,
        cpu_usage_bits: 12.5f32.to_bits(),
    }
}

fn facts() -> HostFacts {
    HostFacts::resolve(
        Some("NixOS 24.05".to_string()),
        Some("6.8.0-48-generic".to_string()),
        Some("timeline".to_string()),
        Some("192.168.1.20".to_string()),
    )
}

#[test]
fn facts_the_provider_found_are_kept() {
    let facts = facts();
    assert_eq!(facts.os, "NixOS 24.05");
    assert_eq!(facts.kernel, "6.8.0-48-generic");
    assert_eq!(facts.host_name, "timeline");
    assert_eq!(facts.local_ip, "192.168.1.20");
}

#[test]
fn missing_facts_are_reported_as_unknown() {
    let facts = HostFacts::resolve(None, None, None, None);
    assert_eq!(facts.os, "unknown");
    assert_eq!(facts.kernel, "unknown");
    assert_eq!(facts.host_name, "unknown");
    assert_eq!(facts.local_ip, "unknown");
    let partly = HostFacts::resolve(Some("os".to_string()), None, Some(String::new()), None);
    assert_eq!(partly.os, "os");
    assert_eq!(partly.kernel, "unknown");
    assert_eq!(partly.host_name, "");
    assert_eq!(partly.local_ip, "unknown");
}

#[test]
fn snapshot_joins_facts_and_readings() {
    let snapshot = MetricsSnapshot::assemble(&facts(), readings(4, 16));
    assert_eq!(
        snapshot,
        MetricsSnapshot {
            os: "NixOS 24.05".to_string(),
            kernel: "6.8.0-48-generic".to_string(),
            host_name: "timeline".to_string(),
            local_ip: "192.168.1.20".to_string(),
            uptime: 277_800,
            used_memory: 4,
            free_memory: 12,
            total_memory: 16,
            cpu_usage_bits: 12.5f32.to_bits(),
        }
    );
}

#[test]
fn memory_usage_is_in_hundredths_of_a_percent() {
    let usage = |used, total| MetricsSnapshot::assemble(&facts(), readings(used, total)).memory_usage();
    assert_eq!(FULL_USAGE, 10_000);
    assert_eq!(usage(4, 16), Some(2500));
    assert_eq!(usage(1, 3), Some(3333));
    assert_eq!(usage(2, 3), Some(6666));
    assert_eq!(usage(0, 16), Some(0));
    assert_eq!(usage(16, 16), Some(10_000));
    assert_eq!(usage(u64::MAX, u64::MAX), Some(10_000));
    assert_eq!(usage(u64::MAX - 1, u64::MAX), Some(9999));
}

#[test]
fn memory_usage_needs_consistent_counters() {
    let usage = |used, total| MetricsSnapshot::assemble(&facts(), readings(used, total)).memory_usage();
    assert_eq!(usage(0, 0), None);
    assert_eq!(usage(5, 0), None);
    assert_eq!(usage(17, 16), None);
}

#[test]
fn uptime_label_is_written_in_words() {
    let snapshot = MetricsSnapshot::assemble(&facts(), readings(4, 16));
    assert_eq!(snapshot.uptime_label(), "3days 5h 10m");
}
