//! Players far apart: what they send each other, and what a player makes of
//! what it receives.

use crate::taiko::state::InputState;
use crate::tja::chart::TJA;
use crate::tja::text::{chars_of, same_text};
use rand::Rng;
use vstd::prelude::*;

verus! {

/// Where a game of several players stands.
#[derive(Clone, Copy, Debug, PartialEq, Eq, Structural)]
pub enum TaikoGameState {
    /// The host picks a song.
    MenuSelectSong,
    /// The peers ask for what they lack of the song.
    MenuCheckResources,
    /// The host waits for the peers to be ready.
    MenuWaitForReady,
    /// Every player picks its course.
    Personization,
    /// The players set their clocks by each other.
    TimeSync,
    GamePlay,
    GameEnd,
    Finish,
}

/// What a player sends the others. `H` is a stroke, `P` is what a player
/// picked for itself.
#[derive(Clone, Debug)]
pub enum StreamingEvent<H, P> {
    /// A song was picked: its chart and the mark of its music.
    SongSelect(TJA, String),
    /// The music of this mark is asked for.
    SongRequest(String),
    /// The music of this mark.
    SongData(String, Vec<u8>),
    /// The song of this mark is ready to be played.
    SongReady(String),
    Personalized(P),
    Input(InputState<H>),
    /// A call that asks for an answer, with a number to tell it by.
    Ping(u32),
    /// The answer to the call of that number, with the instant it was given
    /// at, in nanoseconds since the start of 1970.
    Pong(u32, i64),
}

/// The number of the call, if the event is one.
pub open spec fn spec_ping<H, P>(event: StreamingEvent<H, P>) -> Option<u32> {
    match event {
        StreamingEvent::Ping(n) => Some(n),
        _ => None,
    }
}

/// The instant of the answer, if the event answers the call `id`.
pub open spec fn spec_pong<H, P>(event: StreamingEvent<H, P>, id: u32) -> Option<i64> {
    match event {
        StreamingEvent::Pong(n, at) => if n == id {
            Some(at)
        } else {
            None
        },
        _ => None,
    }
}

/// How long a message takes one way, where a call and its answer took
/// `elapsed` together: half of that.
pub open spec fn one_way(elapsed: u64) -> u64 {
    elapsed / 2
}

/// `x` as far as an `i64` holds it.
pub open spec fn within_i64(x: int) -> i64 {
    if x < i64::MIN {
        i64::MIN
    } else if x > i64::MAX {
        i64::MAX
    } else {
        x as i64
    }
}

/// By how much the clock of a peer is ahead: it answered at `at` by its
/// clock, the answer took [`one_way`] to arrive, and it is `local` by the
/// clock here.
pub open spec fn clock_offset(at: i64, elapsed: u64, local: i64) -> i64 {
    within_i64(at + one_way(elapsed) - local)
}

/// The peers with `from` among them, unless it is `me` or among them
/// already.
pub open spec fn with_peer(peers: Seq<Seq<char>>, from: Seq<char>, me: Seq<char>) -> Seq<Seq<char>> {
    if from == me || peers.contains(from) {
        peers
    } else {
        peers.push(from)
    }
}

/// The names of the peers.
pub open spec fn names(peers: Seq<String>) -> Seq<Seq<char>> {
    peers.map_values(|p: String| p@)
}

/// A number drawn by `Rng::gen_range` of rand from all the numbers of a
/// `u32`. Nothing is claimed of it.
#[verifier::external_body]
fn random_id() -> u32 {
    rand::thread_rng().gen_range(0..=u32::MAX)
}

/// A call with a number drawn for it. Whatever the number is, the event is
/// a call.
pub fn new_ping<H, P>() -> (r: StreamingEvent<H, P>)
    ensures
        spec_ping(r) is Some,
        r is Ping,
{
    StreamingEvent::Ping(random_id())
}

/// Whether the two names are one.
pub fn same_peer(a: &str, b: &str) -> (r: bool)
    ensures
        r == (a@ == b@),
{
    let x = chars_of(a);
    let y = chars_of(b);
    same_text(&x, &y)
}

/// The number of the call, if the event is one.
pub fn ping_of<H, P>(event: &StreamingEvent<H, P>) -> (r: Option<u32>)
    ensures
        r == spec_ping(*event),
{
    match event {
        StreamingEvent::Ping(n) => Some(*n),
        _ => None,
    }
}

/// The instant of the answer, if the event answers the call `id`.
pub fn pong_of<H, P>(event: &StreamingEvent<H, P>, id: u32) -> (r: Option<i64>)
    ensures
        r == spec_pong(*event, id),
{
    match event {
        StreamingEvent::Pong(n, at) => {
            if *n == id {
                Some(*at)
            } else {
                None
            }
        },
        _ => None,
    }
}

/// What is learnt of the way to `other` from an event that came from
/// `from`, `elapsed` nanoseconds after the call `id` went out: how long a
/// message takes one way, if the event is the answer of `other` to that
/// call.
pub fn latency_from<H, P>(
    event: &StreamingEvent<H, P>,
    from: &str,
    id: u32,
    other: &str,
    elapsed: u64,
) -> (r: Option<u64>)
    ensures
        r == if spec_pong(*event, id) is Some && from@ == other@ {
            Some(one_way(elapsed))
        } else {
            None
        },
{
    match pong_of(event, id) {
        Some(_) => {
            if same_peer(from, other) {
                Some(elapsed / 2)
            } else {
                None
            }
        },
        None => None,
    }
}

/// What is learnt of the clock of `other` from an event that came from
/// `from`, `elapsed` nanoseconds after the call `id` went out, at `local`
/// by the clock here: by how much the clock of `other` is ahead, if the
/// event is its answer to that call.
pub fn offset_from<H, P>(
    event: &StreamingEvent<H, P>,
    from: &str,
    id: u32,
    other: &str,
    elapsed: u64,
    local: i64,
) -> (r: Option<i64>)
    ensures
        r == match spec_pong(*event, id) {
            Some(at) => if from@ == other@ {
                Some(clock_offset(at, elapsed, local))
            } else {
                None
            },
            None => None,
        },
{
    match pong_of(event, id) {
        Some(at) => {
            if same_peer(from, other) {
                let ahead: i128 = (at as i128) + ((elapsed / 2) as i128) - (local as i128);
                if ahead < i64::MIN as i128 {
                    Some(i64::MIN)
                } else if ahead > i64::MAX as i128 {
                    Some(i64::MAX)
                } else {
                    Some(ahead as i64)
                }
            } else {
                None
            }
        },
        None => None,
    }
}

/// The answer that `me` gives at the instant `now` to an event that came
/// from `from`: the answer to its number, if the event is a call of
/// another.
pub fn answer_to<H, P>(event: &StreamingEvent<H, P>, from: &str, me: &str, now: i64) -> (r: Option<
    StreamingEvent<H, P>,
>)
    ensures
        r == match spec_ping(*event) {
            Some(n) => if from@ == me@ {
                None
            } else {
                Some(StreamingEvent::<H, P>::Pong(n, now))
            },
            None => None,
        },
{
    match ping_of(event) {
        Some(n) => {
            if same_peer(from, me) {
                None
            } else {
                Some(StreamingEvent::Pong(n, now))
            }
        },
        None => None,
    }
}

/// Counts `from` among the peers, unless it is `me` or among them already.
pub fn add_peer(peers: &mut Vec<String>, from: String, me: &str)
    ensures
        names(final(peers)@) == with_peer(names(old(peers)@), from@, me@),
{
    if same_peer(from.as_str(), me) {
        return ;
    }
    let n: usize = peers.len();
    let mut i: usize = 0;
    while i < n
        invariant
            n == peers.len(),
            i <= n,
            *peers == *old(peers),
            forall|j: int| 0 <= j < i ==> names(peers@)[j] != from@,
        decreases n - i,
    {
        if same_peer(peers[i].as_str(), from.as_str()) {
            proof {
                assert(names(peers@)[i as int] == from@);
            }
            return ;
        }
        i += 1;
    }
    proof {
        assert(names(peers@.push(from)) =~= names(peers@).push(from@));
    }
    peers.push(from);
}

} // verus!
