use rip::live::{Key, Outcome, SelectionState};
use rip::record::ProcessInfo;

fn rec(pid: u32, name: &str) -> ProcessInfo {
    ProcessInfo {
        pid,
        name: name.to_string(),
        cpu_tenths: 0,
        memory: 0,
        port: None,
        protocol: None,
    }
}

fn three() -> Vec<ProcessInfo> {
    vec![rec(150, "chrome"), rec(200, "chrome"), rec(300, "chrome")]
}

#[test]
fn test_navigation_clamps() {
    let mut st = SelectionState::new(three());
    assert_eq!(st.cursor, 0);
    assert_eq!(st.on_key(Key::Up), Outcome::Continue);
    assert_eq!(st.cursor, 0); // no wraparound at the top
    st.on_key(Key::Down);
    st.on_key(Key::Down);
    assert_eq!(st.cursor, 2);
    st.on_key(Key::Down);
    assert_eq!(st.cursor, 2); // no wraparound at the bottom
    st.on_key(Key::Char('k'));
    assert_eq!(st.cursor, 1);
    st.on_key(Key::Char('j'));
    assert_eq!(st.cursor, 2);
}

#[test]
fn test_cursor_reclamped_on_shrink() {
    let mut st = SelectionState::new(three());
    st.on_key(Key::Down);
    st.on_key(Key::Down);
    assert_eq!(st.cursor, 2);
    st.on_refresh(vec![rec(150, "chrome")]);
    assert_eq!(st.cursor, 0);
    st.on_refresh(Vec::new());
    assert_eq!(st.cursor, 0);
    // with nothing shown, marking and confirming are no-ops
    st.on_key(Key::Char(' '));
    assert!(st.marked.is_empty());
    assert_eq!(st.on_key(Key::Enter), Outcome::Continue);
    assert!(!st.confirm_pending);
    // the list may grow back and the cursor stays valid
    st.on_refresh(three());
    assert_eq!(st.cursor, 0);
}

#[test]
fn test_mark_toggle_by_pid() {
    let mut st = SelectionState::new(three());
    st.on_key(Key::Char(' '));
    assert!(st.marked.contains(&150));
    st.on_key(Key::Char(' '));
    assert!(!st.marked.contains(&150));
}

#[test]
fn test_marks_survive_refresh_and_reorder() {
    let mut st = SelectionState::new(three());
    st.on_key(Key::Char(' ')); // mark 150
    st.on_refresh(vec![rec(300, "chrome"), rec(150, "chrome")]);
    assert!(st.marked.contains(&150));
    let kill = st.kill_list();
    assert_eq!(kill.len(), 1);
    assert_eq!(kill[0].pid, 150);
}

#[test]
fn test_confirm_gate_needs_marks() {
    let mut st = SelectionState::new(three());
    assert_eq!(st.on_key(Key::Enter), Outcome::Continue);
    assert!(!st.confirm_pending); // nothing marked: no-op
    st.on_key(Key::Char(' '));
    assert_eq!(st.on_key(Key::Enter), Outcome::Continue);
    assert!(st.confirm_pending);
}

#[test]
fn test_confirm_suppresses_refresh_and_navigation() {
    let mut st = SelectionState::new(three());
    st.on_key(Key::Char(' '));
    st.on_key(Key::Enter);
    assert!(st.confirm_pending);
    st.on_refresh(Vec::new()); // suppressed
    assert_eq!(st.records.len(), 3);
    st.on_key(Key::Down); // not heard while confirming
    assert_eq!(st.cursor, 0);
    assert_eq!(st.on_key(Key::Enter), Outcome::Exit(true));
    let kill = st.kill_list();
    assert_eq!(kill.len(), 1);
    assert_eq!(kill[0].pid, 150);
}

#[test]
fn test_cancel_then_quit_sends_nothing() {
    // Mark pids {150, 300}, cancel at the confirmation, then quit:
    // the dispatcher gets an empty kill list.
    let mut st = SelectionState::new(three());
    st.on_key(Key::Char(' ')); // mark 150
    st.on_key(Key::Down);
    st.on_key(Key::Down);
    st.on_key(Key::Char(' ')); // mark 300
    assert!(st.marked.contains(&150) && st.marked.contains(&300));
    st.on_key(Key::Enter);
    assert!(st.confirm_pending);
    assert_eq!(st.on_key(Key::Esc), Outcome::Continue); // cancel
    assert!(!st.confirm_pending);
    assert!(st.marked.contains(&150)); // cancel preserves the marks
    assert_eq!(st.on_key(Key::Char('q')), Outcome::Exit(false));
    assert!(st.kill_list().is_empty());
}

#[test]
fn test_quit_by_escape_clears_marks() {
    let mut st = SelectionState::new(three());
    st.on_key(Key::Char(' '));
    assert_eq!(st.on_key(Key::Esc), Outcome::Exit(false));
    assert!(st.marked.is_empty());
    assert!(st.kill_list().is_empty());
}

#[test]
fn test_kill_list_in_display_order() {
    let mut st = SelectionState::new(three());
    st.on_key(Key::Char(' ')); // 150
    st.on_key(Key::Down);
    st.on_key(Key::Down);
    st.on_key(Key::Char(' ')); // 300
    st.on_key(Key::Enter);
    assert_eq!(st.on_key(Key::Enter), Outcome::Exit(true));
    let kill = st.kill_list();
    let pids: Vec<u32> = kill.iter().map(|p| p.pid).collect();
    assert_eq!(pids, vec![150, 300]);
}
