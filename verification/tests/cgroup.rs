use rsrun::cgroup::{compile, compile_writes, cpu_weight};
use rsrun::json::{parse_json, Json};

fn doc(text: &str) -> Json {
    parse_json(text.as_bytes()).unwrap()
}

fn find<'a>(writes: &'a [(String, Vec<u8>)], key: &str) -> Option<&'a [u8]> {
    writes.iter().find(|(k, _)| k == key).map(|(_, v)| &v[..])
}

fn weight_of(text: &str) -> u64 {
    let w = compile_writes(&doc(text));
    std::str::from_utf8(find(&w, "cpu.weight").unwrap()).unwrap().parse().unwrap()
}

#[test]
fn memory_max_and_low() {
    let w = compile_writes(&doc(r#"{"memory": {"limit": 134217728, "reservation": 67108864}}"#));
    assert_eq!(find(&w, "memory.max"), Some(&b"134217728"[..]));
    assert_eq!(find(&w, "memory.low"), Some(&b"67108864"[..]));
}

#[test]
fn memory_swap_subtracts_memory_limit() {
    let w = compile_writes(&doc(r#"{"memory": {"limit": 128, "swap": 200}}"#));
    assert_eq!(find(&w, "memory.swap.max"), Some(&b"72"[..]));
}

#[test]
fn unlimited_memory_renders_as_max() {
    let w = compile_writes(&doc(r#"{"memory": {"limit": 0}}"#));
    assert_eq!(find(&w, "memory.max"), Some(&b"max"[..]));
}

#[test]
fn cpu_quota_and_period() {
    let w = compile_writes(&doc(r#"{"cpu": {"quota": 50000, "period": 100000}}"#));
    assert_eq!(find(&w, "cpu.max"), Some(&b"50000 100000"[..]));
}

#[test]
fn cpu_period_only_uses_max_quota() {
    let w = compile_writes(&doc(r#"{"cpu": {"period": 50000}}"#));
    assert_eq!(find(&w, "cpu.max"), Some(&b"max 50000"[..]));
}

#[test]
fn cpu_shares_to_weight_clamps_to_v2_range() {
    let w = compile_writes(&doc(r#"{"cpu": {"shares": 2}}"#));
    assert_eq!(find(&w, "cpu.weight"), Some(&b"1"[..]));

    let weight = weight_of(r#"{"cpu": {"shares": 1024}}"#);
    assert!((30..=50).contains(&weight), "weight={weight}");

    let weight = weight_of(r#"{"cpu": {"shares": 1000000}}"#);
    assert!(weight <= 10_000);
}

#[test]
fn weight_is_exact_at_the_ends() {
    assert_eq!(cpu_weight(0), 1);
    assert_eq!(cpu_weight(2), 1);
    assert_eq!(cpu_weight(1024), 39);
    assert_eq!(cpu_weight(262144), 10000);
    assert_eq!(cpu_weight(262145), 10000);
    assert_eq!(cpu_weight(u64::MAX), 10000);
}

#[test]
fn cpuset_cpus_and_mems_passthrough() {
    let w = compile_writes(&doc(r#"{"cpu": {"cpus": "0-3", "mems": "0"}}"#));
    assert_eq!(find(&w, "cpuset.cpus"), Some(&b"0-3"[..]));
    assert_eq!(find(&w, "cpuset.mems"), Some(&b"0"[..]));
}

#[test]
fn pids_max_and_unlimited() {
    let w = compile_writes(&doc(r#"{"pids": {"limit": 100}}"#));
    assert_eq!(find(&w, "pids.max"), Some(&b"100"[..]));

    let w = compile_writes(&doc(r#"{"pids": {"limit": 0}}"#));
    assert_eq!(find(&w, "pids.max"), Some(&b"max"[..]));
}

#[test]
fn blockio_groups_per_device_into_one_line() {
    let w = compile_writes(&doc(
        r#"{
            "blockIO": {
                "throttleReadBpsDevice":  [{"major": 8, "minor": 0, "rate": 1048576}],
                "throttleWriteBpsDevice": [{"major": 8, "minor": 0, "rate": 524288}]
            }
        }"#,
    ));
    let line = find(&w, "io.max").unwrap();
    let s = std::str::from_utf8(line).unwrap();
    assert!(s.starts_with("8:0 "));
    assert!(s.contains("rbps=1048576"));
    assert!(s.contains("wbps=524288"));
    assert!(s.ends_with("\n"));
}

#[test]
fn devices_get_lines_in_order_and_the_last_rate_counts() {
    let w = compile_writes(&doc(
        r#"{
            "blockIO": {
                "throttleReadIOPSDevice": [
                    {"major": 9, "minor": 1, "rate": 5},
                    {"major": 8, "minor": 0, "rate": 3},
                    {"major": 8, "minor": 0, "rate": 4}
                ]
            }
        }"#,
    ));
    assert_eq!(w.len(), 2);
    assert_eq!(w[0].1, b"8:0 riops=4\n");
    assert_eq!(w[1].1, b"9:1 riops=5\n");
}

#[test]
fn empty_resources_produces_nothing() {
    let w = compile_writes(&doc("{}"));
    assert!(w.is_empty());
}

#[test]
fn a_cgroup_is_made_only_where_it_is_of_use() {
    let limits = doc(r#"{"pids": {"limit": 7}}"#);
    let (dir, writes) = compile(Some(&limits), "c1", true);
    assert_eq!(dir.as_deref(), Some("/sys/fs/cgroup/rsrun-c1"));
    assert_eq!(find(&writes, "pids.max"), Some(&b"7"[..]));

    let (dir, writes) = compile(Some(&limits), "c1", false);
    assert!(dir.is_none() && writes.is_empty());

    let nothing = doc("{}");
    assert!(compile(Some(&nothing), "c1", true).0.is_none());
    assert!(compile(None, "c1", true).0.is_none());

    let devices = doc(r#"{"devices": [{"allow": false}]}"#);
    let (dir, writes) = compile(Some(&devices), "c1", true);
    assert!(dir.is_some() && writes.is_empty());
}
