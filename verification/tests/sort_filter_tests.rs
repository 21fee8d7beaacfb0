use rip::filter::filter_records;
use rip::ports::{build_port_map, build_records_with_ports, ListenEntry};
use rip::record::{ProcessInfo, Protocol};
use rip::sort::{sort_processes, SortBy};

fn rec(pid: u32, name: &str, cpu_tenths: u32, memory: u64) -> ProcessInfo {
    ProcessInfo {
        pid,
        name: name.to_string(),
        cpu_tenths,
        memory,
        port: None,
        protocol: None,
    }
}

fn rec_port(pid: u32, name: &str, port: u16, proto: Protocol) -> ProcessInfo {
    ProcessInfo {
        pid,
        name: name.to_string(),
        cpu_tenths: 0,
        memory: 0,
        port: Some(port),
        protocol: Some(proto),
    }
}

fn pids(v: &[ProcessInfo]) -> Vec<u32> {
    v.iter().map(|p| p.pid).collect()
}

#[test]
fn test_sort_pid_ascending() {
    let mut v = vec![rec(200, "b", 0, 0), rec(150, "a", 0, 0), rec(300, "c", 0, 0)];
    sort_processes(&mut v, SortBy::Pid);
    assert_eq!(pids(&v), vec![150, 200, 300]);
}

#[test]
fn test_sort_cpu_descending() {
    let mut v = vec![rec(1, "a", 105, 0), rec(2, "b", 990, 0), rec(3, "c", 0, 0)];
    sort_processes(&mut v, SortBy::Cpu);
    assert_eq!(pids(&v), vec![2, 1, 3]);
}

#[test]
fn test_sort_mem_descending() {
    let mut v = vec![rec(1, "a", 0, 12), rec(2, "b", 0, 512), rec(3, "c", 0, 128)];
    sort_processes(&mut v, SortBy::Mem);
    assert_eq!(pids(&v), vec![2, 3, 1]);
}

#[test]
fn test_sort_name_case_insensitive() {
    let mut v = vec![rec(1, "zsh", 0, 0), rec(2, "Bash", 0, 0), rec(3, "apache", 0, 0)];
    sort_processes(&mut v, SortBy::Name);
    assert_eq!(pids(&v), vec![3, 2, 1]);
}

#[test]
fn test_sort_name_equal_up_to_case_keeps_order() {
    // "Bash" and "bash" compare equal for ordering, so the stable sort
    // keeps their original order.
    let mut v = vec![rec(1, "bash", 0, 0), rec(2, "Bash", 0, 0), rec(3, "BASH", 0, 0)];
    sort_processes(&mut v, SortBy::Name);
    assert_eq!(pids(&v), vec![1, 2, 3]);
}

#[test]
fn test_sort_idempotent() {
    let mut v = vec![
        rec(5, "e", 30, 7),
        rec(4, "D", 30, 9),
        rec(6, "d", 10, 9),
        rec(1, "a", 0, 0),
    ];
    for key in [SortBy::Cpu, SortBy::Mem, SortBy::Pid, SortBy::Name, SortBy::Port] {
        let mut once = v.clone();
        sort_processes(&mut once, key);
        let mut twice = once.clone();
        sort_processes(&mut twice, key);
        assert_eq!(pids(&once), pids(&twice));
    }
    sort_processes(&mut v, SortBy::Pid);
    assert_eq!(pids(&v), vec![1, 4, 5, 6]);
}

#[test]
fn test_sort_port_missing_first() {
    let mut v = vec![
        rec_port(1, "a", 443, Protocol::Tcp),
        rec(2, "b", 0, 0),
        rec_port(3, "c", 80, Protocol::Tcp),
    ];
    sort_processes(&mut v, SortBy::Port);
    assert_eq!(pids(&v), vec![2, 3, 1]);
}

#[test]
fn test_filter_substring_case_insensitive() {
    let v = vec![
        rec(200, "Google Chrome", 0, 0),
        rec(150, "chrome-sandbox", 0, 0),
        rec(999, "firefox", 0, 0),
        rec(300, "CHROME_helper", 0, 0),
    ];
    let all = filter_records(v.clone(), &None);
    assert_eq!(all.len(), 4);
    let filtered = filter_records(v.clone(), &Some("chrome".to_string()));
    assert_eq!(pids(&filtered), vec![200, 150, 300]);
    // every kept record appears in the unfiltered list and matches
    for p in &filtered {
        assert!(v.iter().any(|q| q.pid == p.pid && q.name == p.name));
        assert!(p.name.to_lowercase().contains("chrome"));
    }
}

#[test]
fn test_filter_no_match_is_empty() {
    let v = vec![rec(1, "a", 0, 0)];
    let filtered = filter_records(v, &Some("NONEXISTENT_PROCESS_12345".to_string()));
    assert!(filtered.is_empty());
}

#[test]
fn test_filter_chrome_sort_pid_scenario() {
    // Three matching records with pids 200, 150, 300 render in order
    // 150, 200, 300 after an ascending pid sort.
    let v = vec![
        rec(200, "chrome", 50, 100),
        rec(150, "chrome", 10, 50),
        rec(999, "bash", 0, 0),
        rec(300, "chrome", 0, 25),
    ];
    let mut matching = filter_records(v, &Some("chrome".to_string()));
    assert_eq!(matching.len(), 3);
    sort_processes(&mut matching, SortBy::Pid);
    assert_eq!(pids(&matching), vec![150, 200, 300]);
}

#[test]
fn test_port_map_dedup() {
    // The same pid/port/protocol reported twice (IPv4 and IPv6) maps
    // to exactly one entry.
    let listeners = vec![
        ListenEntry { pid: 10, port: 8080, protocol: Protocol::Tcp },
        ListenEntry { pid: 10, port: 8080, protocol: Protocol::Tcp },
    ];
    let m = build_port_map(&listeners);
    assert_eq!(m.get(&10).unwrap(), &vec![(8080, Protocol::Tcp)]);
}

#[test]
fn test_port_map_distinct_protocols_kept() {
    let listeners = vec![
        ListenEntry { pid: 10, port: 53, protocol: Protocol::Udp },
        ListenEntry { pid: 10, port: 53, protocol: Protocol::Tcp },
        ListenEntry { pid: 10, port: 53, protocol: Protocol::Udp },
        ListenEntry { pid: 11, port: 53, protocol: Protocol::Udp },
    ];
    let m = build_port_map(&listeners);
    assert_eq!(
        m.get(&10).unwrap(),
        &vec![(53, Protocol::Udp), (53, Protocol::Tcp)]
    );
    assert_eq!(m.get(&11).unwrap(), &vec![(53, Protocol::Udp)]);
}

#[test]
fn test_with_ports_one_row_per_port() {
    let listeners = vec![
        ListenEntry { pid: 10, port: 80, protocol: Protocol::Tcp },
        ListenEntry { pid: 10, port: 443, protocol: Protocol::Tcp },
        ListenEntry { pid: 20, port: 53, protocol: Protocol::Udp },
    ];
    let m = build_port_map(&listeners);
    let samples = vec![rec(10, "nginx", 5, 64), rec(20, "dns", 1, 8), rec(30, "bash", 0, 1)];
    let rows = build_records_with_ports(samples, &m, &None, None);
    // bash owns no port and is skipped entirely; nginx expands to two rows
    assert_eq!(pids(&rows), vec![10, 10, 20]);
    assert_eq!(rows[0].port, Some(80));
    assert_eq!(rows[1].port, Some(443));
    assert_eq!(rows[2].port, Some(53));
    assert_eq!(rows[2].protocol, Some(Protocol::Udp));
    assert_eq!(rows[0].name, "nginx");
    assert_eq!(rows[0].cpu_tenths, 5);
    assert_eq!(rows[0].memory, 64);
}

#[test]
fn test_with_ports_port_filter_exact() {
    let listeners = vec![
        ListenEntry { pid: 10, port: 80, protocol: Protocol::Tcp },
        ListenEntry { pid: 10, port: 443, protocol: Protocol::Tcp },
        ListenEntry { pid: 20, port: 80, protocol: Protocol::Tcp },
    ];
    let m = build_port_map(&listeners);
    let samples = vec![rec(10, "nginx", 0, 0), rec(20, "caddy", 0, 0)];
    let rows = build_records_with_ports(samples, &m, &None, Some(80));
    assert_eq!(pids(&rows), vec![10, 20]);
    assert!(rows.iter().all(|r| r.port == Some(80)));
}

#[test]
fn test_with_ports_name_filter_before_expansion() {
    let listeners = vec![
        ListenEntry { pid: 10, port: 80, protocol: Protocol::Tcp },
        ListenEntry { pid: 20, port: 81, protocol: Protocol::Tcp },
    ];
    let m = build_port_map(&listeners);
    let samples = vec![rec(10, "nginx", 0, 0), rec(20, "caddy", 0, 0)];
    let rows = build_records_with_ports(samples, &m, &Some("NGINX".to_string()), None);
    assert_eq!(pids(&rows), vec![10]);
}
