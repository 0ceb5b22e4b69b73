use pty_sessions::terminal::{spawn_request, EnvOverride, TerminalSize};

#[test]
fn a_geometry_in_cells_has_no_pixel_size() {
    assert_eq!(
        TerminalSize::cells(24, 80),
        TerminalSize { rows: 24, cols: 80, pixel_width: 0, pixel_height: 0 }
    );
    assert_eq!(
        TerminalSize::cells(0, u16::MAX),
        TerminalSize { rows: 0, cols: u16::MAX, pixel_width: 0, pixel_height: 0 }
    );
}

#[test]
fn a_spawn_request_carries_the_geometry_that_was_asked_for() {
    let request = spawn_request(24, 80);
    assert_eq!(request.size, TerminalSize { rows: 24, cols: 80, pixel_width: 0, pixel_height: 0 });
    let request = spawn_request(40, 100);
    assert_eq!(request.size, TerminalSize { rows: 40, cols: 100, pixel_width: 0, pixel_height: 0 });
}

#[test]
fn a_spawn_request_sets_the_terminal_type_and_true_colour() {
    let request = spawn_request(24, 80);
    assert_eq!(
        request.env,
        vec![
            EnvOverride { name: "TERM", value: "xterm-256color" },
            EnvOverride { name: "COLORTERM", value: "truecolor" },
        ]
    );
}
