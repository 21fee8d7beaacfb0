use rip::format::{calculate_name_width, render_row, truncate, u64_to_dec};
use rip::record::{ProcessInfo, Protocol};

#[test]
fn test_truncate() {
    assert_eq!(truncate("short", 10), "short");
    assert_eq!(truncate("this is a very long string", 10), "this is...");
}

#[test]
fn test_truncate_exact_fit() {
    assert_eq!(truncate("abc", 3), "abc");
    assert_eq!(truncate("abcd", 3), "...");
}

#[test]
fn test_u64_to_dec() {
    assert_eq!(u64_to_dec(0), "0");
    assert_eq!(u64_to_dec(9), "9");
    assert_eq!(u64_to_dec(10), "10");
    assert_eq!(u64_to_dec(1234567890), "1234567890");
}

#[test]
fn test_calculate_name_width() {
    assert_eq!(calculate_name_width(80, false), 47);
    assert_eq!(calculate_name_width(80, true), 37);
    assert_eq!(calculate_name_width(20, false), 15); // floor
    assert_eq!(calculate_name_width(500, false), 80); // ceiling
}

#[test]
fn test_process_info_display() {
    let proc = ProcessInfo {
        pid: 1234,
        name: "test_process".to_string(),
        cpu_tenths: 255,
        memory: 512,
        port: None,
        protocol: None,
    };
    let display = render_row(&proc, 35);
    assert!(display.contains("1234"));
    assert!(display.contains("test_process"));
}

#[test]
fn test_process_info_display_with_port() {
    let proc = ProcessInfo {
        pid: 1234,
        name: "test_server".to_string(),
        cpu_tenths: 50,
        memory: 256,
        port: Some(8080),
        protocol: Some(Protocol::Tcp),
    };
    let display = render_row(&proc, 35);
    assert!(display.contains("8080"));
    assert!(display.contains("1234"));
    assert!(display.contains("test_server"));
}

#[test]
fn test_render_row_exact() {
    let proc = ProcessInfo {
        pid: 7,
        name: "ab".to_string(),
        cpu_tenths: 5,
        memory: 3,
        port: None,
        protocol: None,
    };
    assert_eq!(render_row(&proc, 5), "7       ab       0.5%      3 MB");
}

#[test]
fn test_render_row_exact_with_port() {
    let proc = ProcessInfo {
        pid: 7,
        name: "ab".to_string(),
        cpu_tenths: 1005,
        memory: 3,
        port: Some(53),
        protocol: Some(Protocol::Udp),
    };
    assert_eq!(render_row(&proc, 5), "53    UDP 7       ab     100.5%      3 MB");
}
