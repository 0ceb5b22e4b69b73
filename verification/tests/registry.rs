use pty_sessions::error::{PtyError, NO_IDENTIFIER_LEFT, SESSION_NOT_FOUND};
use pty_sessions::event::PtyEvent;
use pty_sessions::reader::{ReadOutcome, ReaderLoop};
use pty_sessions::registry::{io_outcome, PtySession, Refused, Registry, SessionState};
use pty_sessions::terminal::{spawn_request, TerminalSize};

fn sendable<T: Send>(value: T) -> T {
    value
}

fn running(handles: &'static str) -> PtySession<&'static str> {
    PtySession { handles, state: SessionState::Running }
}

fn exited(handles: &'static str) -> PtySession<&'static str> {
    PtySession { handles, state: SessionState::Exited }
}

#[test]
fn a_new_registry_has_no_session() {
    let registry: Registry<()> = Registry::new();
    assert!(!registry.has_active_sessions());
    assert_eq!(registry.state(0), None);
    assert_eq!(registry.state(1), None);
}

#[test]
fn the_first_identifier_is_one() {
    let mut registry = Registry::new();
    assert_eq!(registry.create(Ok(())), Ok(1));
}

#[test]
fn identifiers_are_distinct_and_increasing() {
    let mut registry = Registry::new();
    let mut last = 0;
    for expected in 1..=1000u32 {
        let id = registry.create(Ok(expected)).unwrap();
        assert_eq!(id, expected);
        assert!(id > last);
        last = id;
    }
}

#[test]
fn identifiers_are_not_reused_after_close() {
    let mut registry = Registry::new();
    assert_eq!(registry.create(Ok("a")), Ok(1));
    assert_eq!(registry.create(Ok("b")), Ok(2));
    assert_eq!(registry.close(1), Some(running("a")));
    assert_eq!(registry.close(2), Some(running("b")));
    assert_eq!(registry.create(Ok("c")), Ok(3));
    assert_eq!(registry.close_all(), vec![(3, running("c"))]);
    assert_eq!(registry.create(Ok("d")), Ok(4));
    assert_eq!(registry.state(1), None);
    assert_eq!(registry.state(4), Some(SessionState::Running));
}

#[test]
fn a_failed_spawn_registers_nothing_and_uses_no_identifier() {
    let mut registry: Registry<&str> = Registry::new();
    assert_eq!(
        registry.create(Err(String::from("openpty: out of ptys"))),
        Err(Refused {
            error: PtyError::Allocation(String::from("openpty: out of ptys")),
            handles: None,
        })
    );
    assert!(!registry.has_active_sessions());
    assert_eq!(registry.state(1), None);
    assert_eq!(registry.create(Ok("a")), Ok(1));
    assert_eq!(
        registry.create(Err(String::new())),
        Err(Refused { error: PtyError::Allocation(String::new()), handles: None })
    );
    assert_eq!(registry.create(Ok("b")), Ok(2));
    assert_eq!(registry.state(3), None);
}

#[test]
fn a_created_session_is_registered_as_running_with_its_handles() {
    let mut registry = Registry::new();
    let id = registry.create(Ok("handles")).unwrap();
    assert_eq!(registry.state(id), Some(SessionState::Running));
    assert!(registry.has_active_sessions());
    assert_eq!(registry.close(id), Some(running("handles")));
}

#[test]
fn a_write_hands_the_host_the_handles_and_the_bytes_of_the_text() {
    let mut registry = Registry::new();
    let first = registry.create(Ok("first")).unwrap();
    let second = registry.create(Ok("second")).unwrap();
    assert_eq!(registry.write(first, "ls\n"), Ok((&"first", &b"ls\n"[..])));
    assert_eq!(registry.write(second, "ls\n"), Ok((&"second", &b"ls\n"[..])));
    assert_eq!(registry.write(first, ""), Ok((&"first", &b""[..])));
    assert_eq!(
        registry.write(first, "\u{e9}\u{1f600}"),
        Ok((&"first", "\u{e9}\u{1f600}".as_bytes()))
    );
    assert_eq!(registry.write(first, "\u{e9}"), Ok((&"first", &[0xc3u8, 0xa9][..])));
}

#[test]
fn a_write_to_an_unknown_session_is_not_found() {
    let mut registry = Registry::new();
    assert_eq!(registry.write(1, "ls\n"), Err(PtyError::NotFound));
    registry.create(Ok("a")).unwrap();
    assert_eq!(registry.write(0, "ls\n"), Err(PtyError::NotFound));
    assert_eq!(registry.write(2, "ls\n"), Err(PtyError::NotFound));
    assert_eq!(registry.write(u32::MAX, "ls\n"), Err(PtyError::NotFound));
}

#[test]
fn a_resize_hands_the_host_the_handles_and_the_geometry_in_cells() {
    let mut registry = Registry::new();
    let first = registry.create(Ok("first")).unwrap();
    let second = registry.create(Ok("second")).unwrap();
    assert_eq!(
        registry.resize(first, 40, 100),
        Ok((&"first", TerminalSize { rows: 40, cols: 100, pixel_width: 0, pixel_height: 0 }))
    );
    assert_eq!(
        registry.resize(second, 1, 2),
        Ok((&"second", TerminalSize { rows: 1, cols: 2, pixel_width: 0, pixel_height: 0 }))
    );
    assert_eq!(registry.state(first), Some(SessionState::Running));
}

#[test]
fn a_resize_of_an_unknown_session_is_not_found() {
    let mut registry = Registry::new();
    assert_eq!(registry.resize(1, 40, 100), Err(PtyError::NotFound));
    registry.create(Ok("a")).unwrap();
    assert_eq!(registry.resize(2, 40, 100), Err(PtyError::NotFound));
}

#[test]
fn a_resize_does_not_touch_the_exit_of_a_session() {
    let mut registry = Registry::new();
    let id = registry.create(Ok("a")).unwrap();
    registry.record_exit(id);
    assert_eq!(registry.resize(id, 10, 20), Ok((&"a", TerminalSize::cells(10, 20))));
    assert_eq!(registry.state(id), Some(SessionState::Exited));
}

#[test]
fn a_failure_of_the_host_is_an_io_failure_with_its_description() {
    assert_eq!(io_outcome(Ok(())), Ok(()));
    assert_eq!(
        io_outcome(Err(String::from("Input/output error (os error 5)"))),
        Err(PtyError::Io(String::from("Input/output error (os error 5)")))
    );
}

#[test]
fn a_session_stays_registered_after_an_io_failure() {
    let mut registry = Registry::new();
    let id = registry.create(Ok("a")).unwrap();
    assert!(registry.write(id, "x").is_ok());
    assert!(io_outcome(Err(String::from("broken pipe"))).is_err());
    assert_eq!(registry.state(id), Some(SessionState::Running));
    assert!(registry.write(id, "x").is_ok());
    assert_eq!(registry.close(id), Some(running("a")));
}

#[test]
fn after_close_write_and_resize_are_not_found() {
    let mut registry = Registry::new();
    let first = registry.create(Ok("first")).unwrap();
    let second = registry.create(Ok("second")).unwrap();
    assert_eq!(registry.close(first), Some(running("first")));
    assert_eq!(registry.write(first, "ls\n"), Err(PtyError::NotFound));
    assert_eq!(registry.resize(first, 40, 100), Err(PtyError::NotFound));
    assert!(registry.write(second, "ls\n").is_ok());
    assert!(registry.resize(second, 40, 100).is_ok());
}

#[test]
fn close_of_a_session_that_never_was_changes_nothing() {
    let mut registry = Registry::new();
    assert_eq!(registry.close(1), None);
    let id = registry.create(Ok("a")).unwrap();
    assert_eq!(id, 1);
    assert_eq!(registry.close(2), None);
    assert_eq!(registry.close(0), None);
    assert_eq!(registry.state(id), Some(SessionState::Running));
    assert!(registry.has_active_sessions());
    assert_eq!(registry.create(Ok("b")), Ok(2));
}

#[test]
fn close_twice_is_close_once() {
    let mut registry = Registry::new();
    let first = registry.create(Ok("first")).unwrap();
    let second = registry.create(Ok("second")).unwrap();
    assert_eq!(registry.close(second), Some(running("second")));
    assert_eq!(registry.close(second), None);
    assert_eq!(registry.close(second), None);
    assert_eq!(registry.state(first), Some(SessionState::Running));
    assert_eq!(registry.state(second), None);
}

#[test]
fn close_hands_back_a_session_that_had_exited() {
    let mut registry = Registry::new();
    let id = registry.create(Ok("a")).unwrap();
    registry.record_exit(id);
    assert_eq!(registry.close(id), Some(exited("a")));
    assert_eq!(registry.close(id), None);
}

#[test]
fn a_session_is_active_right_after_create() {
    let mut registry = Registry::new();
    assert!(!registry.has_active_sessions());
    registry.create(Ok(())).unwrap();
    assert!(registry.has_active_sessions());
}

#[test]
fn no_session_is_active_once_all_have_exited_though_none_is_closed() {
    let mut registry = Registry::new();
    let ids: Vec<u32> = (0..5).map(|_| registry.create(Ok(())).unwrap()).collect();
    for (seen, id) in ids.iter().enumerate() {
        assert!(registry.has_active_sessions(), "after {} exits", seen);
        registry.record_exit(*id);
    }
    assert!(!registry.has_active_sessions());
    for id in &ids {
        assert_eq!(registry.state(*id), Some(SessionState::Exited));
        assert!(registry.write(*id, "x").is_ok());
    }
}

#[test]
fn an_exited_session_does_not_hide_a_running_one() {
    let mut registry = Registry::new();
    let first = registry.create(Ok("first")).unwrap();
    let second = registry.create(Ok("second")).unwrap();
    registry.record_exit(first);
    assert!(registry.has_active_sessions());
    assert_eq!(registry.close(second), Some(running("second")));
    assert!(!registry.has_active_sessions());
    registry.create(Ok("third")).unwrap();
    assert!(registry.has_active_sessions());
}

#[test]
fn an_exit_is_recorded_once_and_for_all() {
    let mut registry = Registry::new();
    let id = registry.create(Ok("a")).unwrap();
    registry.record_exit(id);
    registry.record_exit(id);
    assert_eq!(registry.state(id), Some(SessionState::Exited));
    registry.create(Ok("b")).unwrap();
    assert!(registry.write(id, "x").is_ok());
    assert!(registry.resize(id, 1, 1).is_ok());
    assert_eq!(registry.state(id), Some(SessionState::Exited));
    assert_eq!(registry.close(id), Some(exited("a")));
}

#[test]
fn the_exit_of_an_unknown_session_changes_nothing() {
    let mut registry = Registry::new();
    registry.record_exit(1);
    assert_eq!(registry.state(1), None);
    let id = registry.create(Ok("a")).unwrap();
    assert_eq!(id, 1);
    assert_eq!(registry.state(id), Some(SessionState::Running));
    assert_eq!(registry.close(id), Some(running("a")));
    registry.record_exit(id);
    assert_eq!(registry.state(id), None);
    assert!(!registry.has_active_sessions());
}

#[test]
fn an_exit_event_is_recorded_and_an_output_event_is_not() {
    let mut registry = Registry::new();
    let first = registry.create(Ok("first")).unwrap();
    let second = registry.create(Ok("second")).unwrap();
    registry.observe(&PtyEvent::Output { id: first, data: String::from("Zg==") });
    assert_eq!(registry.state(first), Some(SessionState::Running));
    assert_eq!(registry.state(second), Some(SessionState::Running));
    registry.observe(&PtyEvent::Exit { id: first });
    assert_eq!(registry.state(first), Some(SessionState::Exited));
    assert_eq!(registry.state(second), Some(SessionState::Running));
    registry.observe(&PtyEvent::Exit { id: 77 });
    assert_eq!(registry.state(77), None);
    assert!(registry.has_active_sessions());
    registry.observe(&PtyEvent::Exit { id: second });
    assert!(!registry.has_active_sessions());
}

#[test]
fn close_all_returns_every_session_once_and_empties_the_registry() {
    let mut registry = Registry::new();
    for handles in ["a", "b", "c", "d", "e", "f"] {
        registry.create(Ok(handles)).unwrap();
    }
    registry.close(2);
    registry.record_exit(5);
    let mut closed = registry.close_all();
    closed.sort_by_key(|(id, _)| *id);
    assert_eq!(
        closed,
        vec![
            (1, running("a")),
            (3, running("c")),
            (4, running("d")),
            (5, exited("e")),
            (6, running("f")),
        ]
    );
    assert!(!registry.has_active_sessions());
    for id in 0..8 {
        assert_eq!(registry.state(id), None);
    }
    assert_eq!(registry.close_all(), Vec::new());
    assert_eq!(registry.create(Ok("g")), Ok(7));
}

#[test]
fn the_lack_of_identifiers_has_its_description() {
    assert_eq!(NO_IDENTIFIER_LEFT, "No session identifier left");
    assert_eq!(
        PtyError::Allocation(String::from(NO_IDENTIFIER_LEFT)).message(),
        "No session identifier left"
    );
}

#[test]
fn an_unknown_session_is_described_as_not_found() {
    assert_eq!(SESSION_NOT_FOUND, "Session not found");
    assert_eq!(PtyError::NotFound.message(), "Session not found");
}

#[test]
fn other_failures_are_described_by_what_they_carry() {
    assert_eq!(PtyError::Allocation(String::from("no pty")).message(), "no pty");
    assert_eq!(PtyError::Io(String::from("broken pipe")).message(), "broken pipe");
    assert_eq!(PtyError::Lock(String::from("poisoned lock")).message(), "poisoned lock");
    assert_eq!(PtyError::Io(String::new()).message(), "");
}

#[test]
fn a_registry_can_be_handed_to_another_thread() {
    let mut registry = sendable(Registry::new());
    assert_eq!(registry.create(Ok(vec![1u8])), Ok(1));
    let reader = sendable(ReaderLoop::new(1));
    assert_eq!(reader.id(), 1);
}

#[test]
fn two_sessions_from_create_to_exit() {
    let mut registry = Registry::new();

    assert_eq!(spawn_request(24, 80).size, TerminalSize::cells(24, 80));
    let first = registry.create(Ok("first shell")).unwrap();
    let mut first_reader = ReaderLoop::new(first);
    assert_eq!(spawn_request(24, 80).size, TerminalSize::cells(24, 80));
    let second = registry.create(Ok("second shell")).unwrap();
    assert_eq!(first, 1);
    assert_eq!(second, 2);
    assert!(first < second);

    assert_eq!(registry.write(1, "ls\n"), Ok((&"first shell", &b"ls\n"[..])));
    assert_eq!(io_outcome(Ok(())), Ok(()));
    assert_eq!(registry.resize(1, 40, 100), Ok((&"first shell", TerminalSize::cells(40, 100))));
    assert_eq!(io_outcome(Ok(())), Ok(()));

    assert_eq!(registry.close(2), Some(running("second shell")));
    assert_eq!(registry.close(2), None);
    assert!(registry.has_active_sessions());

    let mut events = Vec::new();
    for outcome in [
        ReadOutcome::Bytes(b"ls\r\n"),
        ReadOutcome::Bytes(b"Cargo.toml  src\r\n"),
        ReadOutcome::Bytes(&[]),
    ] {
        if let Some(event) = first_reader.step(outcome) {
            registry.observe(&event);
            events.push(event);
        }
    }
    assert_eq!(events.len(), 3);
    assert_eq!(events[0], PtyEvent::Output { id: 1, data: String::from("bHMNCg==") });
    assert_eq!(events[2], PtyEvent::Exit { id: 1 });
    assert!(first_reader.is_finished());
    assert!(!registry.has_active_sessions());
    assert_eq!(registry.state(1), Some(SessionState::Exited));
    assert_eq!(registry.close(1), Some(exited("first shell")));
    assert_eq!(registry.state(1), None);
}
