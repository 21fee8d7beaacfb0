use rip::signal::{check_batch_guard, parse_signal, ConfigError, Signal};

#[test]
fn test_parse_signal_kill() {
    assert_eq!(parse_signal("KILL").unwrap(), Signal::Kill);
    assert_eq!(parse_signal("kill").unwrap(), Signal::Kill);
    assert_eq!(parse_signal("SIGKILL").unwrap(), Signal::Kill);
    assert_eq!(parse_signal("9").unwrap(), Signal::Kill);
}

#[test]
fn test_parse_signal_term() {
    assert_eq!(parse_signal("TERM").unwrap(), Signal::Term);
    assert_eq!(parse_signal("term").unwrap(), Signal::Term);
    assert_eq!(parse_signal("SIGTERM").unwrap(), Signal::Term);
    assert_eq!(parse_signal("15").unwrap(), Signal::Term);
}

#[test]
fn test_parse_signal_int() {
    assert_eq!(parse_signal("INT").unwrap(), Signal::Int);
    assert_eq!(parse_signal("2").unwrap(), Signal::Int);
}

#[test]
fn test_parse_signal_hup() {
    assert_eq!(parse_signal("HUP").unwrap(), Signal::Hup);
    assert_eq!(parse_signal("1").unwrap(), Signal::Hup);
}

#[test]
fn test_parse_signal_invalid() {
    assert!(parse_signal("INVALID").is_err());
    assert!(parse_signal("999").is_err());
}

#[test]
fn test_parse_signal_all_aliases() {
    let table: Vec<(&str, &str, Signal)> = vec![
        ("KILL", "9", Signal::Kill),
        ("TERM", "15", Signal::Term),
        ("INT", "2", Signal::Int),
        ("HUP", "1", Signal::Hup),
        ("QUIT", "3", Signal::Quit),
        ("USR1", "10", Signal::Usr1),
        ("USR2", "12", Signal::Usr2),
        ("STOP", "19", Signal::Stop),
        ("CONT", "18", Signal::Cont),
    ];
    for (name, num, sig) in table {
        assert_eq!(parse_signal(name).unwrap(), sig);
        assert_eq!(parse_signal(num).unwrap(), sig);
        assert_eq!(parse_signal(&name.to_lowercase()).unwrap(), sig);
        let prefixed = format!("SIG{}", name);
        assert_eq!(parse_signal(&prefixed).unwrap(), sig);
        let mixed = format!("sig{}", name.to_lowercase());
        assert_eq!(parse_signal(&mixed).unwrap(), sig);
    }
}

#[test]
fn test_parse_signal_error_carries_input() {
    match parse_signal("BOGUS") {
        Err(ConfigError::UnknownSignal(t)) => assert_eq!(t, "BOGUS"),
        _ => panic!("expected an unknown-signal error"),
    }
}

#[test]
fn test_batch_guard_rejects_unfiltered() {
    let no_filter: Option<String> = None;
    let r = check_batch_guard(&no_filter, None);
    assert!(matches!(r, Err(ConfigError::MissingBatchFilter)));
}

#[test]
fn test_batch_guard_accepts_filtered() {
    assert!(check_batch_guard(&Some("chrome".to_string()), None).is_ok());
    let no_filter: Option<String> = None;
    assert!(check_batch_guard(&no_filter, Some(8080)).is_ok());
    assert!(check_batch_guard(&Some("x".to_string()), Some(80)).is_ok());
}
