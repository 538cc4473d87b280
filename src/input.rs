use vstd::prelude::*;
use crate::object::{move_by, move_refused, relocated, Game, Object, PLAYER_INDEX};

verus! {

/// The keys the game reacts to; every other key is `Other`.
#[derive(Clone, Copy, Debug, PartialEq, Eq, Structural)]
pub enum Key {
    Up,
    Down,
    Left,
    Right,
    NumPad1,
    NumPad2,
    NumPad3,
    NumPad4,
    NumPad6,
    NumPad7,
    NumPad8,
    NumPad9,
    Escape,
    /// Enter pressed together with Alt.
    AltEnter,
    Other,
}

/// One of the eight steps to a neighbouring cell.
#[derive(Clone, Copy, Debug, PartialEq, Eq, Structural)]
pub enum Direction {
    North,
    South,
    West,
    East,
    NorthWest,
    NorthEast,
    SouthWest,
    SouthEast,
}

/// What a key press asks for.
#[derive(Clone, Copy, Debug, PartialEq, Eq, Structural)]
pub enum Command {
    Move(Direction),
    ToggleFullscreen,
    Exit,
    Nothing,
}

/// The step of a direction; `y` grows downwards.
pub open spec fn delta_of(d: Direction) -> (int, int) {
    match d {
        Direction::North => (0, -1),
        Direction::South => (0, 1),
        Direction::West => (-1, 0),
        Direction::East => (1, 0),
        Direction::NorthWest => (-1, -1),
        Direction::NorthEast => (1, -1),
        Direction::SouthWest => (-1, 1),
        Direction::SouthEast => (1, 1),
    }
}

/// Arrow keys and the numeric keypad move; Escape leaves; Alt+Enter toggles
/// full screen.
pub open spec fn command_of(key: Key) -> Command {
    match key {
        Key::Up | Key::NumPad8 => Command::Move(Direction::North),
        Key::Down | Key::NumPad2 => Command::Move(Direction::South),
        Key::Left | Key::NumPad4 => Command::Move(Direction::West),
        Key::Right | Key::NumPad6 => Command::Move(Direction::East),
        Key::NumPad7 => Command::Move(Direction::NorthWest),
        Key::NumPad9 => Command::Move(Direction::NorthEast),
        Key::NumPad1 => Command::Move(Direction::SouthWest),
        Key::NumPad3 => Command::Move(Direction::SouthEast),
        Key::Escape => Command::Exit,
        Key::AltEnter => Command::ToggleFullscreen,
        Key::Other => Command::Nothing,
    }
}

impl Direction {
    pub fn delta(self) -> (r: (i32, i32))
        ensures
            r.0 == delta_of(self).0,
            r.1 == delta_of(self).1,
            -1 <= r.0 <= 1,
            -1 <= r.1 <= 1,
    {
        match self {
            Direction::North => (0, -1),
            Direction::South => (0, 1),
            Direction::West => (-1, 0),
            Direction::East => (1, 0),
            Direction::NorthWest => (-1, -1),
            Direction::NorthEast => (1, -1),
            Direction::SouthWest => (-1, 1),
            Direction::SouthEast => (1, 1),
        }
    }
}

/// The command that a key press stands for.
pub fn command_for_key(key: Key) -> (c: Command)
    ensures
        c == command_of(key),
{
    match key {
        Key::Up | Key::NumPad8 => Command::Move(Direction::North),
        Key::Down | Key::NumPad2 => Command::Move(Direction::South),
        Key::Left | Key::NumPad4 => Command::Move(Direction::West),
        Key::Right | Key::NumPad6 => Command::Move(Direction::East),
        Key::NumPad7 => Command::Move(Direction::NorthWest),
        Key::NumPad9 => Command::Move(Direction::NorthEast),
        Key::NumPad1 => Command::Move(Direction::SouthWest),
        Key::NumPad3 => Command::Move(Direction::SouthEast),
        Key::Escape => Command::Exit,
        Key::AltEnter => Command::ToggleFullscreen,
        Key::Other => Command::Nothing,
    }
}

/// Carries out a command for the player and says whether the game should
/// end. A move is tried as `move_by` does; every other command leaves the
/// actors as they are (toggling full screen is the caller's business).
pub fn handle_command(command: Command, game: &Game, objects: &mut Vec<Object>) -> (exit: bool)
    requires
        game.map.wf(),
        old(objects)@.len() > PLAYER_INDEX,
    ensures
        exit == (command == Command::Exit),
        final(objects)@ == match command {
            Command::Move(d) => {
                let p = old(objects)@[PLAYER_INDEX as int];
                let tx = p.x + delta_of(d).0;
                let ty = p.y + delta_of(d).1;
                if move_refused(game, old(objects)@, PLAYER_INDEX as int, tx, ty) {
                    old(objects)@
                } else {
                    old(objects)@.update(PLAYER_INDEX as int, relocated(p, tx, ty))
                }
            },
            _ => old(objects)@,
        },
{
    match command {
        Command::Move(d) => {
            let (dx, dy) = d.delta();
            move_by(PLAYER_INDEX, dx, dy, game, objects);
            false
        },
        Command::Exit => true,
        _ => false,
    }
}

} // verus!
