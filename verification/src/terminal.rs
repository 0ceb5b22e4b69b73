//! What the host is told to set up for a session: the geometry of the
//! pseudo-terminal and the environment of the shell that runs in it.

use vstd::prelude::*;

verus! {

/// The geometry of a pseudo-terminal: character cells, and pixels.
#[derive(Debug, Clone, Copy, PartialEq, Eq, Structural)]
pub struct TerminalSize {
    pub rows: u16,
    pub cols: u16,
    pub pixel_width: u16,
    pub pixel_height: u16,
}

impl TerminalSize {
    /// A geometry of `rows` by `cols` character cells, its pixel size unset.
    pub fn cells(rows: u16, cols: u16) -> (size: TerminalSize)
        ensures
            size == (TerminalSize { rows, cols, pixel_width: 0, pixel_height: 0 }),
    {
        TerminalSize { rows, cols, pixel_width: 0, pixel_height: 0 }
    }
}

/// One variable that is set on top of the environment that the shell
/// inherits.
#[derive(Debug, Clone, Copy, PartialEq, Eq)]
pub struct EnvOverride {
    pub name: &'static str,
    pub value: &'static str,
}

/// What the host allocates and spawns for a new session: a pseudo-terminal
/// of `size`, and in it the platform's default interactive shell, without
/// arguments, in the inherited environment with `env` set on top of it.
#[derive(Debug, PartialEq, Eq)]
pub struct SpawnRequest {
    pub size: TerminalSize,
    pub env: Vec<EnvOverride>,
}

/// The request for a session of `rows` by `cols` character cells: the shell
/// is told that it runs in a 256-colour xterm with true colour.
pub fn spawn_request(rows: u16, cols: u16) -> (request: SpawnRequest)
    ensures
        request.size == (TerminalSize { rows, cols, pixel_width: 0, pixel_height: 0 }),
        request.env@.len() == 2,
        request.env@[0].name@ == "TERM"@,
        request.env@[0].value@ == "xterm-256color"@,
        request.env@[1].name@ == "COLORTERM"@,
        request.env@[1].value@ == "truecolor"@,
{
    let mut env: Vec<EnvOverride> = Vec::new();
    env.push(EnvOverride { name: "TERM", value: "xterm-256color" });
    env.push(EnvOverride { name: "COLORTERM", value: "truecolor" });
    SpawnRequest { size: TerminalSize::cells(rows, cols), env }
}

} // verus!
