use taiko::taiko::control::{drum_for, respond, Drum, Turn};
use taiko::{Action, GameClock, Hit, Key, Page, Response};

#[test]
fn keys_stand_for_parts_of_the_drum() {
    for c in " fghjcvbnm".chars() {
        assert_eq!(drum_for(c), Some(Drum::Don));
    }
    for c in "dsatrewqxz".chars() {
        assert_eq!(drum_for(c), Some(Drum::KatLeft));
    }
    for c in "kl;'yuiop,./".chars() {
        assert_eq!(drum_for(c), Some(Drum::KatRight));
    }
    for c in "F1\n-太".chars() {
        assert_eq!(drum_for(c), None);
    }
}

#[test]
fn keys_in_the_song_menu() {
    let page = Page::SongMenu;
    assert_eq!(respond(page, Key::Esc), Response::Leave(Action::Quit));
    assert_eq!(respond(page, Key::CtrlC), Response::Leave(Action::Quit));
    assert_eq!(respond(page, Key::Enter), Response::Pick(Action::Switch(Page::CourseMenu)));
    assert_eq!(respond(page, Key::Char('c')), Response::Pick(Action::Switch(Page::CourseMenu)));
    assert_eq!(respond(page, Key::Up), Response::Prev);
    assert_eq!(respond(page, Key::Left), Response::Prev);
    assert_eq!(respond(page, Key::Char('d')), Response::Prev);
    assert_eq!(respond(page, Key::Down), Response::Next);
    assert_eq!(respond(page, Key::Right), Response::Next);
    assert_eq!(respond(page, Key::Char('k')), Response::Next);
    assert_eq!(respond(page, Key::Char('1')), Response::Nothing);
    assert_eq!(respond(page, Key::Other), Response::Nothing);
}

#[test]
fn keys_in_the_course_menu() {
    let page = Page::CourseMenu;
    assert_eq!(respond(page, Key::Esc), Response::Leave(Action::Switch(Page::SongMenu)));
    assert_eq!(respond(page, Key::Enter), Response::Pick(Action::Switch(Page::Game)));
    assert_eq!(respond(page, Key::Char(' ')), Response::Pick(Action::Switch(Page::Game)));
    assert_eq!(respond(page, Key::Char('z')), Response::Prev);
    assert_eq!(respond(page, Key::Char('/')), Response::Next);
}

#[test]
fn keys_in_the_game() {
    let page = Page::Game;
    assert_eq!(respond(page, Key::Esc), Response::Leave(Action::Switch(Page::CourseMenu)));
    assert_eq!(respond(page, Key::Char('f')), Response::Strike(Hit::Don));
    assert_eq!(respond(page, Key::Char('d')), Response::Strike(Hit::Kat));
    assert_eq!(respond(page, Key::Char('k')), Response::Strike(Hit::Kat));
    assert_eq!(respond(page, Key::Enter), Response::Nothing);
    assert_eq!(respond(page, Key::Left), Response::Nothing);
    assert_eq!(respond(page, Key::Char('0')), Response::Nothing);
}

#[test]
fn keys_on_the_results_and_on_no_page() {
    let back = Response::Leave(Action::Switch(Page::SongMenu));
    assert_eq!(respond(Page::Result, Key::Esc), back);
    assert_eq!(respond(Page::Result, Key::Enter), back);
    assert_eq!(respond(Page::Result, Key::Char('j')), back);
    assert_eq!(respond(Page::Result, Key::Char('d')), Response::Nothing);
    assert_eq!(respond(Page::Result, Key::Up), Response::Nothing);
    assert_eq!(respond(Page::Blank, Key::Esc), Response::Nothing);
    assert_eq!(respond(Page::Blank, Key::Char('f')), Response::Nothing);
}

#[test]
fn the_clock_counts_in_for_three_seconds() {
    let clock = GameClock::enter(4);
    assert_eq!(clock, GameClock { countdown: -12, last_time: 0, frozen: 0 });
    let turn = clock.turn(4, None);
    assert_eq!(
        turn,
        Turn {
            clock: GameClock { countdown: -11, last_time: -2_750_000_000, frozen: 0 },
            time: -2_750_000_000,
            resume: false,
            over: false,
        }
    );
    let mut clock = turn.clock;
    for _ in 0..10 {
        clock = clock.turn(4, None).clock;
    }
    assert_eq!(clock.countdown, -1);
    let turn = clock.turn(4, None);
    assert_eq!((turn.clock.countdown, turn.time, turn.resume), (0, 0, false));
    // the music starts in the turn after
    let turn = turn.clock.turn(4, Some(7));
    assert_eq!((turn.clock.countdown, turn.time, turn.resume), (1, 7, true));
    let turn = turn.clock.turn(4, Some(250_000_000));
    assert_eq!((turn.clock.countdown, turn.time, turn.resume), (1, 250_000_000, false));
    assert_eq!(GameClock::enter(u64::MAX).countdown, -3_000_000_000);
    assert_eq!(GameClock::enter(3).turn(3, None).time, -2_666_666_666);
}

#[test]
fn a_clock_that_stands_still_ends_the_game() {
    let mut clock = GameClock { countdown: 1, last_time: 0, frozen: 0 };
    clock = clock.turn(10, Some(5)).clock;
    for i in 1..5 {
        let turn = clock.turn(10, Some(5));
        assert_eq!(turn.clock.frozen, i);
        assert!(!turn.over);
        clock = turn.clock;
    }
    let turn = clock.turn(10, Some(5));
    assert!(turn.over);
    let turn = turn.clock.turn(10, Some(6));
    assert!(!turn.over);
    assert_eq!(turn.clock.frozen, 0);
    // without music the instant is zero and stands still
    let turn = GameClock { countdown: 1, last_time: 0, frozen: 0 }.turn(2, None);
    assert!(turn.over);
}
