//! What the player sees and presses: the pages of the game, what a key does
//! on each of them, and the clock of a game that is being played.

use crate::taiko::state::Hit;
use vstd::prelude::*;

verus! {

/// A page of the game.
#[derive(Debug, Clone, Copy, PartialEq, Eq, Structural)]
pub enum Page {
    /// No page is shown yet.
    Blank,
    SongMenu,
    CourseMenu,
    Game,
    Result,
}

/// What the game is to do next.
#[derive(Debug, Clone, Copy, PartialEq, Eq, Structural)]
pub enum Action {
    Tick,
    Render,
    Resize(u16, u16),
    Quit,
    Switch(Page),
}

/// A key as far as the game tells keys apart.
#[derive(Debug, Clone, Copy, PartialEq, Eq, Structural)]
pub enum Key {
    Char(char),
    /// The letter `c` with the control key.
    CtrlC,
    Esc,
    Enter,
    Left,
    Right,
    Up,
    Down,
    Other,
}

/// The part of the drum that a key stands for.
#[derive(Debug, Clone, Copy, PartialEq, Eq, Structural)]
pub enum Drum {
    /// The head: the keys in the middle of the keyboard.
    Don,
    /// The rim to the left.
    KatLeft,
    /// The rim to the right.
    KatRight,
}

/// What a key does.
#[derive(Debug, Clone, Copy, PartialEq, Eq, Structural)]
pub enum Response {
    Nothing,
    /// The page is left, without a sound.
    Leave(Action),
    /// What is selected is picked, with the sound of the head.
    Pick(Action),
    /// The entry before is selected, with the sound of the rim.
    Prev,
    /// The entry behind is selected, with the sound of the rim.
    Next,
    /// The drum is struck.
    Strike(Hit),
}

/// The part of the drum that the character `c` stands for, if it stands for
/// one.
pub open spec fn drum_of(c: char) -> Option<Drum> {
    if c == ' ' || c == 'f' || c == 'g' || c == 'h' || c == 'j' || c == 'c' || c == 'v' || c == 'b'
        || c == 'n' || c == 'm' {
        Some(Drum::Don)
    } else if c == 'd' || c == 's' || c == 'a' || c == 't' || c == 'r' || c == 'e' || c == 'w' || c
        == 'q' || c == 'x' || c == 'z' {
        Some(Drum::KatLeft)
    } else if c == 'k' || c == 'l' || c == ';' || c == '\'' || c == 'y' || c == 'u' || c == 'i'
        || c == 'o' || c == 'p' || c == ',' || c == '.' || c == '/' {
        Some(Drum::KatRight)
    } else {
        None
    }
}

/// The part of the drum that a key stands for: that of its character, and
/// in a menu the head for the enter key, the left rim for the keys left and
/// up, the right rim for the keys right and down.
pub open spec fn drum_of_key(key: Key) -> Option<Drum> {
    match key {
        Key::Char(c) => drum_of(c),
        Key::Enter => Some(Drum::Don),
        Key::Left | Key::Up => Some(Drum::KatLeft),
        Key::Right | Key::Down => Some(Drum::KatRight),
        _ => None,
    }
}

/// The page that a menu leads on to.
pub open spec fn page_behind(page: Page) -> Page {
    match page {
        Page::SongMenu => Page::CourseMenu,
        Page::CourseMenu => Page::Game,
        _ => Page::SongMenu,
    }
}

/// What the key `key` does on the page `page`. The escape key, and `c` with
/// the control key, leave the page: the song menu for good, the course menu
/// and the results for the song menu, the game for the course menu. In a
/// menu the head picks what is selected and the rims go through the
/// entries. In the game a character of the head or of a rim strikes the
/// drum. On the results the head and the enter key lead back to the song
/// menu.
pub open spec fn response(page: Page, key: Key) -> Response {
    let leaving = key == Key::CtrlC || key == Key::Esc;
    match page {
        Page::Blank => Response::Nothing,
        Page::SongMenu => if leaving {
            Response::Leave(Action::Quit)
        } else {
            match drum_of_key(key) {
                Some(Drum::Don) => Response::Pick(Action::Switch(Page::CourseMenu)),
                Some(Drum::KatLeft) => Response::Prev,
                Some(Drum::KatRight) => Response::Next,
                None => Response::Nothing,
            }
        },
        Page::CourseMenu => if leaving {
            Response::Leave(Action::Switch(Page::SongMenu))
        } else {
            match drum_of_key(key) {
                Some(Drum::Don) => Response::Pick(Action::Switch(Page::Game)),
                Some(Drum::KatLeft) => Response::Prev,
                Some(Drum::KatRight) => Response::Next,
                None => Response::Nothing,
            }
        },
        Page::Game => if leaving {
            Response::Leave(Action::Switch(Page::CourseMenu))
        } else {
            match key {
                Key::Char(c) => match drum_of(c) {
                    Some(Drum::Don) => Response::Strike(Hit::Don),
                    Some(_) => Response::Strike(Hit::Kat),
                    None => Response::Nothing,
                },
                _ => Response::Nothing,
            }
        },
        Page::Result => if leaving || key == Key::Enter {
            Response::Leave(Action::Switch(Page::SongMenu))
        } else {
            match key {
                Key::Char(c) => if drum_of(c) == Some(Drum::Don) {
                    Response::Leave(Action::Switch(Page::SongMenu))
                } else {
                    Response::Nothing
                },
                _ => Response::Nothing,
            }
        },
    }
}

/// The part of the drum that the character `c` stands for, if it stands for
/// one.
pub fn drum_for(c: char) -> (r: Option<Drum>)
    ensures
        r == drum_of(c),
{
    match c {
        ' ' | 'f' | 'g' | 'h' | 'j' | 'c' | 'v' | 'b' | 'n' | 'm' => Some(Drum::Don),
        'd' | 's' | 'a' | 't' | 'r' | 'e' | 'w' | 'q' | 'x' | 'z' => Some(Drum::KatLeft),
        'k' | 'l' | ';' | '\'' | 'y' | 'u' | 'i' | 'o' | 'p' | ',' | '.' | '/' => Some(
            Drum::KatRight,
        ),
        _ => None,
    }
}

/// What the key `key` does on the page `page`; see [`response`].
pub fn respond(page: Page, key: Key) -> (r: Response)
    ensures
        r == response(page, key),
{
    let leaving: bool = match key {
        Key::CtrlC | Key::Esc => true,
        _ => false,
    };
    let drum: Option<Drum> = match key {
        Key::Char(c) => drum_for(c),
        Key::Enter => Some(Drum::Don),
        Key::Left | Key::Up => Some(Drum::KatLeft),
        Key::Right | Key::Down => Some(Drum::KatRight),
        _ => None,
    };
    match page {
        Page::Blank => Response::Nothing,
        Page::SongMenu => {
            if leaving {
                Response::Leave(Action::Quit)
            } else {
                match drum {
                    Some(Drum::Don) => Response::Pick(Action::Switch(Page::CourseMenu)),
                    Some(Drum::KatLeft) => Response::Prev,
                    Some(Drum::KatRight) => Response::Next,
                    None => Response::Nothing,
                }
            }
        },
        Page::CourseMenu => {
            if leaving {
                Response::Leave(Action::Switch(Page::SongMenu))
            } else {
                match drum {
                    Some(Drum::Don) => Response::Pick(Action::Switch(Page::Game)),
                    Some(Drum::KatLeft) => Response::Prev,
                    Some(Drum::KatRight) => Response::Next,
                    None => Response::Nothing,
                }
            }
        },
        Page::Game => {
            if leaving {
                Response::Leave(Action::Switch(Page::CourseMenu))
            } else {
                match key {
                    Key::Char(_) => match drum {
                        Some(Drum::Don) => Response::Strike(Hit::Don),
                        Some(_) => Response::Strike(Hit::Kat),
                        None => Response::Nothing,
                    },
                    _ => Response::Nothing,
                }
            }
        },
        Page::Result => {
            if leaving {
                Response::Leave(Action::Switch(Page::SongMenu))
            } else {
                match key {
                    Key::Enter => Response::Leave(Action::Switch(Page::SongMenu)),
                    Key::Char(_) => match drum {
                        Some(Drum::Don) => Response::Leave(Action::Switch(Page::SongMenu)),
                        _ => Response::Nothing,
                    },
                    _ => Response::Nothing,
                }
            }
        },
    }
}

/// No game counts in for more turns than this.
pub const LONGEST_LEAD: i64 = 3_000_000_000;

/// The clock of a game that is being played.
#[derive(Debug, Clone, Copy, PartialEq, Eq, Structural)]
pub struct GameClock {
    /// The turns until the music starts, as a negative number; zero in the
    /// turn in which it starts, one from then on.
    pub countdown: i64,
    /// The instant of the turn before, in nanoseconds.
    pub last_time: i64,
    /// For how many turns the instant has stood still.
    pub frozen: u64,
}

/// What a turn of the clock comes to.
#[derive(Debug, Clone, Copy, PartialEq, Eq, Structural)]
pub struct Turn {
    pub clock: GameClock,
    /// The instant of the turn, in nanoseconds.
    pub time: i64,
    /// Whether the music is to start now.
    pub resume: bool,
    /// Whether the game is over: the instant has stood still for half a
    /// second.
    pub over: bool,
}

/// The clock of a game of `tps` turns a second that has just been entered:
/// it counts in for three seconds, but for no more than [`LONGEST_LEAD`]
/// turns.
pub open spec fn entered(tps: u64) -> GameClock {
    GameClock {
        countdown: if 3 * tps > LONGEST_LEAD {
            (-LONGEST_LEAD) as i64
        } else {
            (-3 * tps) as i64
        },
        last_time: 0,
        frozen: 0,
    }
}

/// A turn of the clock in a game of `tps` turns a second, where the music
/// is at `playing` if it plays. While the clock counts in, the instant is
/// the time that is left, as a negative number; then it is where the music
/// is, or zero where no music plays. An instant that has stood still for
/// half a second ends the game.
pub open spec fn turned(clock: GameClock, tps: u64, playing: Option<i64>) -> Turn {
    let countdown = if clock.countdown < 0 {
        clock.countdown + 1
    } else if clock.countdown == 0 {
        1
    } else {
        clock.countdown as int
    };
    let time = if countdown <= 0 {
        -((-countdown * 1_000_000_000) / tps as int)
    } else {
        match playing {
            Some(at) => at as int,
            None => 0,
        }
    };
    let frozen = if clock.last_time == time {
        if clock.frozen < u64::MAX {
            clock.frozen + 1
        } else {
            u64::MAX as int
        }
    } else {
        0
    };
    Turn {
        clock: GameClock { countdown: countdown as i64, last_time: time as i64, frozen: frozen as u64 },
        time: time as i64,
        resume: clock.countdown == 0,
        over: clock.last_time == time && frozen >= tps / 2,
    }
}

impl GameClock {
    /// What every clock keeps: it counts in for no more than
    /// [`LONGEST_LEAD`] turns.
    pub open spec fn wf(self) -> bool {
        -LONGEST_LEAD <= self.countdown <= 1
    }

    /// The clock of a game that has just been entered.
    pub fn enter(tps: u64) -> (r: Self)
        ensures
            r == entered(tps),
            r.wf(),
    {
        let countdown: i64 = if tps > 1_000_000_000 {
            -LONGEST_LEAD
        } else {
            let turns: i64 = tps as i64;
            -(3 * turns)
        };
        GameClock { countdown, last_time: 0, frozen: 0 }
    }

    /// A turn of the clock; see [`turned`].
    pub fn turn(self, tps: u64, playing: Option<i64>) -> (r: Turn)
        requires
            self.wf(),
            tps > 0,
        ensures
            r == turned(self, tps, playing),
            r.clock.wf(),
    {
        let countdown: i64 = if self.countdown < 0 {
            self.countdown + 1
        } else if self.countdown == 0 {
            1
        } else {
            self.countdown
        };
        let time: i64 = if countdown <= 0 {
            let left: u128 = ((-countdown) as u128) * 1_000_000_000;
            let whole: u128 = left / (tps as u128);
            proof {
                vstd::arithmetic::div_mod::lemma_div_is_ordered_by_denominator(
                    left as int,
                    1,
                    tps as int,
                );
                vstd::arithmetic::div_mod::lemma_div_pos_is_pos(left as int, tps as int);
            }
            -(whole as i64)
        } else {
            match playing {
                Some(at) => at,
                None => 0,
            }
        };
        let still: bool = self.last_time == time;
        let frozen: u64 = if still {
            if self.frozen < u64::MAX {
                self.frozen + 1
            } else {
                u64::MAX
            }
        } else {
            0
        };
        Turn {
            clock: GameClock { countdown, last_time: time, frozen },
            time,
            resume: self.countdown == 0,
            over: still && frozen >= tps / 2,
        }
    }
}

} // verus!
