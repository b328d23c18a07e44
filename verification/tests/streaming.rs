use taiko::streaming::{
    add_peer, answer_to, latency_from, new_ping, offset_from, ping_of, pong_of, same_peer,
};
use taiko::{Hit, StreamingEvent, TaikoGameState};

type Event = StreamingEvent<Hit, u8>;

#[test]
fn a_call_and_its_answer() {
    let ping: Event = StreamingEvent::Ping(7);
    let pong: Event = StreamingEvent::Pong(7, 1_000);
    assert_eq!(ping_of(&ping), Some(7));
    assert_eq!(ping_of(&pong), None);
    assert_eq!(pong_of(&pong, 7), Some(1_000));
    assert_eq!(pong_of(&pong, 8), None);
    assert_eq!(pong_of(&ping, 7), None);
    let ready: Event = StreamingEvent::SongReady("mark".to_owned());
    assert_eq!(ping_of(&ready), None);
    assert_eq!(pong_of(&ready, 7), None);
}

#[test]
fn a_drawn_call_is_a_call() {
    let ping: Event = new_ping();
    assert!(ping_of(&ping).is_some());
    assert!(matches!(ping, StreamingEvent::Ping(_)));
}

#[test]
fn names_are_told_apart() {
    assert!(same_peer("a", "a"));
    assert!(same_peer("", ""));
    assert!(!same_peer("a", "b"));
    assert!(!same_peer("a", "ab"));
    assert!(same_peer("太鼓", "太鼓"));
}

#[test]
fn the_time_one_way_is_half_the_time_both_ways() {
    let pong: Event = StreamingEvent::Pong(7, 1_000);
    assert_eq!(latency_from(&pong, "b", 7, "b", 301), Some(150));
    assert_eq!(latency_from(&pong, "c", 7, "b", 301), None);
    assert_eq!(latency_from(&pong, "b", 8, "b", 301), None);
    let ping: Event = StreamingEvent::Ping(7);
    assert_eq!(latency_from(&ping, "b", 7, "b", 301), None);
}

#[test]
fn the_clock_of_a_peer() {
    let pong: Event = StreamingEvent::Pong(7, 1_000);
    assert_eq!(offset_from(&pong, "b", 7, "b", 300, 900), Some(250));
    assert_eq!(offset_from(&pong, "b", 7, "b", 300, 2_000), Some(-850));
    assert_eq!(offset_from(&pong, "c", 7, "b", 300, 900), None);
    assert_eq!(offset_from(&pong, "b", 9, "b", 300, 900), None);
    let late: Event = StreamingEvent::Pong(7, i64::MAX);
    assert_eq!(offset_from(&late, "b", 7, "b", u64::MAX, -1), Some(i64::MAX));
    let early: Event = StreamingEvent::Pong(7, i64::MIN);
    assert_eq!(offset_from(&early, "b", 7, "b", 0, 1), Some(i64::MIN));
}

#[test]
fn a_call_of_another_is_answered() {
    let ping: Event = StreamingEvent::Ping(7);
    assert!(matches!(answer_to(&ping, "b", "a", 55), Some(StreamingEvent::Pong(7, 55))));
    assert!(answer_to(&ping, "a", "a", 55).is_none());
    let pong: Event = StreamingEvent::Pong(7, 1);
    assert!(answer_to(&pong, "b", "a", 55).is_none());
}

#[test]
fn peers_are_counted_once() {
    let mut peers: Vec<String> = Vec::new();
    add_peer(&mut peers, "b".to_owned(), "a");
    add_peer(&mut peers, "a".to_owned(), "a");
    add_peer(&mut peers, "c".to_owned(), "a");
    add_peer(&mut peers, "b".to_owned(), "a");
    assert_eq!(peers, vec!["b".to_owned(), "c".to_owned()]);
}

#[test]
fn the_states_of_a_game_are_told_apart() {
    assert_eq!(TaikoGameState::TimeSync, TaikoGameState::TimeSync);
    assert_ne!(TaikoGameState::GamePlay, TaikoGameState::GameEnd);
}
