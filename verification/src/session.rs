//! The WebSocket side of the game: one game per session, and what the
//! server answers to each message.
use vstd::prelude::*;
use std::cmp::Ordering;
use std::collections::BTreeMap;
use vstd::utf8::{valid_utf8, decode_utf8};
use vstd::string::StringSliceAdditionalSpecFns;
use crate::game::{
    GameModel, GuessingGame, accepts_guess, fresh_game, guess_from_text, model_after_guess,
    model_reply,
};

verus! {

broadcast use {vstd::std_specs::btree::group_btree_axioms, vstd::laws_cmp::group_laws_cmp};

/// The longest message, in bytes, that a player may send.
pub const MAX_LEN: usize = 8;

/// A text that the server sends to a player.
#[derive(Clone, Copy, Debug, PartialEq, Eq)]
pub enum Notice {
    /// Greets a new session.
    Welcome,
    /// The message was longer than `MAX_LEN` bytes.
    RequestTooBig,
    /// The message was not UTF-8.
    Utf8Error,
    /// The message was not a number from 1 to 100.
    NotInRange,
    /// The `attempt`-th guess was above the secret.
    TooHigh { attempt: u32 },
    /// The `attempt`-th guess was below the secret.
    TooLow { attempt: u32 },
    /// The secret was found on the `attempt`-th guess.
    Won { secret: u32, attempt: u32 },
}

/// A WebSocket frame that the server sends.
#[derive(Clone, Copy, Debug, PartialEq, Eq)]
pub enum WsFrame {
    Text(Notice),
    Close,
}

/// How a guess compared with the secret.
#[derive(Clone, Copy, Debug, PartialEq, Eq)]
pub enum Verdict {
    TooHigh,
    TooLow,
    Correct,
}

/// What the board's panel and LED show after a guess was judged.
#[derive(Clone, Copy, Debug, PartialEq, Eq)]
pub struct PanelUpdate {
    pub number: u32,
    pub verdict: Verdict,
}

/// The server's answer to one message of a player.
#[derive(Debug)]
pub struct GuessResponse {
    pub frames: Vec<WsFrame>,
    pub panel: Option<PanelUpdate>,
}

/// The verdict that a comparison of the guess with the secret gives.
pub open spec fn verdict_of(o: Ordering) -> Verdict {
    match o {
        Ordering::Greater => Verdict::TooHigh,
        Ordering::Less => Verdict::TooLow,
        Ordering::Equal => Verdict::Correct,
    }
}

/// The frames that answer the guess `n` in the game `m`: one notice, and
/// on a right guess a close frame after it.
pub open spec fn reply_frames(m: GameModel, n: u32) -> Seq<WsFrame> {
    let attempt = model_reply(m, n).1;
    match model_reply(m, n).0 {
        Ordering::Greater => seq![WsFrame::Text(Notice::TooHigh { attempt })],
        Ordering::Less => seq![WsFrame::Text(Notice::TooLow { attempt })],
        Ordering::Equal => seq![
            WsFrame::Text(Notice::Won { secret: m.secret, attempt }),
            WsFrame::Close,
        ],
    }
}

/// The secret of a new session, from a pseudo-random number.
pub open spec fn secret_for(random: u32) -> u32 {
    (random % 100 + 1) as u32
}

/// Every new game's secret lies in the range of numbers that guesses are
/// accepted from, 1 to 100.
pub proof fn law_secrets_are_guessable(random: u32)
    ensures
        1 <= secret_for(random) <= 100,
        crate::game::guess_from_text(crate::text::decimal(secret_for(random) as nat)) == Some(
            secret_for(random),
        ),
{
    crate::game::law_accepted_guesses(Seq::empty(), secret_for(random));
}

/// Sessions do not interfere: opening, closing or playing one session
/// (each of which replaces or removes that session's entry) leaves every
/// other session's game as it was.
pub proof fn law_sessions_are_independent(
    games: Map<i32, GameModel>,
    session: i32,
    other: i32,
    game: GameModel,
)
    requires
        session != other,
    ensures
        games.insert(session, game).contains_key(other) == games.contains_key(other),
        games.remove(session).contains_key(other) == games.contains_key(other),
        games.contains_key(other) ==> games.insert(session, game)[other] == games[other]
            && games.remove(session)[other] == games[other],
{
}

/// The answer to a guess and the panel agree, and both follow the
/// ordinary order of numbers: in an unfinished game a guess above the
/// secret is told "too high" and shown as too high, one below is told "too
/// low" and shown as too low, and the secret itself is told it won, with the
/// connection closed, and shown as correct; each counts as one more guess.
/// A finished game answers every guess as won, with its final count.
pub proof fn law_answer_and_panel_agree(m: GameModel, n: u32)
    requires
        accepts_guess(m),
    ensures
        !m.done ==> ((verdict_of(model_reply(m, n).0) == Verdict::TooHigh) == (n > m.secret)),
        !m.done ==> ((verdict_of(model_reply(m, n).0) == Verdict::TooLow) == (n < m.secret)),
        !m.done ==> ((verdict_of(model_reply(m, n).0) == Verdict::Correct) == (n == m.secret)),
        !m.done && n > m.secret ==> {
            &&& reply_frames(m, n).len() == 1
            &&& reply_frames(m, n)[0] matches WsFrame::Text(Notice::TooHigh { attempt })
            &&& attempt == m.guesses + 1
        },
        !m.done && n < m.secret ==> {
            &&& reply_frames(m, n).len() == 1
            &&& reply_frames(m, n)[0] matches WsFrame::Text(Notice::TooLow { attempt })
            &&& attempt == m.guesses + 1
        },
        !m.done && n == m.secret ==> {
            &&& reply_frames(m, n).len() == 2
            &&& reply_frames(m, n)[1] == WsFrame::Close
            &&& reply_frames(m, n)[0] matches WsFrame::Text(Notice::Won { secret, attempt })
            &&& secret == n
            &&& attempt == m.guesses + 1
        },
        m.done ==> verdict_of(model_reply(m, n).0) == Verdict::Correct,
        m.done ==> {
            &&& reply_frames(m, n).len() == 2
            &&& reply_frames(m, n)[1] == WsFrame::Close
            &&& reply_frames(m, n)[0] matches WsFrame::Text(Notice::Won { secret, attempt })
            &&& secret == m.secret
            &&& attempt == m.guesses
        },
{
}

/// What can happen to the sessions: one opens, one closes, or one takes a
/// guess (messages that hold no guess change nothing).
#[derive(Clone, Copy, Debug, PartialEq, Eq)]
pub enum SessionEvent {
    Opened { session: i32, random: u32 },
    Closed { session: i32 },
    Guessed { session: i32, number: u32 },
}

/// The games after one event, as `open_session`, `close_session` and
/// `handle_payload` leave them.
pub open spec fn session_step(games: Map<i32, GameModel>, e: SessionEvent) -> Map<
    i32,
    GameModel,
> {
    match e {
        SessionEvent::Opened { session, random } => games.insert(
            session,
            fresh_game(secret_for(random)),
        ),
        SessionEvent::Closed { session } => games.remove(session),
        SessionEvent::Guessed { session, number } => if games.contains_key(session) {
            games.insert(session, model_after_guess(games[session], number))
        } else {
            games
        },
    }
}

/// The games after the events `events`, in order.
pub open spec fn replay(games: Map<i32, GameModel>, events: Seq<SessionEvent>) -> Map<
    i32,
    GameModel,
>
    decreases events.len(),
{
    if events.len() == 0 {
        games
    } else {
        session_step(replay(games, events.drop_last()), events.last())
    }
}

/// Whether, after `events`, the session `session` was last opened rather
/// than closed (never opened counts as closed).
pub open spec fn left_open(events: Seq<SessionEvent>, session: i32) -> bool
    decreases events.len(),
{
    if events.len() == 0 {
        false
    } else {
        match events.last() {
            SessionEvent::Opened { session: s, .. } => if s == session {
                true
            } else {
                left_open(events.drop_last(), session)
            },
            SessionEvent::Closed { session: s } => if s == session {
                false
            } else {
                left_open(events.drop_last(), session)
            },
            SessionEvent::Guessed { .. } => left_open(events.drop_last(), session),
        }
    }
}

/// Starting with no session, after any events the open sessions are those
/// that were opened and not closed since, and every open session's secret
/// lies in 1 to 100.
pub proof fn law_sessions_after_events(events: Seq<SessionEvent>, session: i32)
    ensures
        replay(Map::empty(), events).contains_key(session) == left_open(events, session),
        forall|s: i32|
            #[trigger] replay(Map::empty(), events).contains_key(s) ==> 1 <= replay(
                Map::empty(),
                events,
            )[s].secret <= 100,
    decreases events.len(),
{
    if events.len() > 0 {
        law_sessions_after_events(events.drop_last(), session);
        let before = replay(Map::empty(), events.drop_last());
        let after = replay(Map::empty(), events);
        assert forall|s: i32| #[trigger] after.contains_key(s) implies 1 <= after[s].secret
            <= 100 by {
            law_sessions_after_events(events.drop_last(), s);
            match events.last() {
                SessionEvent::Opened { session: o, random } => {
                    if o != s {
                        assert(before.contains_key(s));
                    }
                },
                SessionEvent::Closed { session: c } => {
                    assert(before.contains_key(s));
                },
                SessionEvent::Guessed { session: g, number } => {
                    assert(before.contains_key(s));
                },
            }
        }
    }
}

/// A rudimentary pseudo-random number: the sub-second part of the current
/// time in nanoseconds, divided by 65537.
pub fn rand(subsec_nanos: u32) -> (r: u32)
    ensures
        r == subsec_nanos / 65537,
{
    subsec_nanos / 65537
}

/// The frames that answer a message whose announced length is `len`:
/// a notice and a close frame when it is longer than `MAX_LEN`, and
/// nothing otherwise (the message is then read).
pub fn oversize_reply(len: usize) -> (r: Option<Vec<WsFrame>>)
    ensures
        len > MAX_LEN ==> (r matches Some(v) && v@ == seq![
            WsFrame::Text(Notice::RequestTooBig),
            WsFrame::Close,
        ]),
        len <= MAX_LEN ==> r is None,
{
    if len > MAX_LEN {
        let mut v: Vec<WsFrame> = Vec::new();
        v.push(WsFrame::Text(Notice::RequestTooBig));
        v.push(WsFrame::Close);
        Some(v)
    } else {
        None
    }
}

/// The text that `bytes` encode, through `std::str::from_utf8`: some text
/// exactly when the bytes are well-formed UTF-8, and then the text whose
/// UTF-8 encoding they are.
#[verifier::external_body]
fn utf8_text(bytes: &[u8]) -> (r: Option<&str>)
    ensures
        r is Some <==> valid_utf8(bytes@),
        r matches Some(s) ==> s.spec_bytes() == bytes@,
{
    std::str::from_utf8(bytes).ok()
}

/// The guess that the message `payload` holds: its text, when it is
/// UTF-8, read as `guess_from_text` does.
pub open spec fn message_guess(payload: Seq<u8>) -> Option<u32> {
    if valid_utf8(payload) {
        guess_from_text(decode_utf8(payload))
    } else {
        None
    }
}

/// The guess that the message `payload` holds, if any.
pub fn payload_guess(payload: &[u8]) -> (r: Option<u32>)
    ensures
        r == message_guess(payload@),
{
    match utf8_text(payload) {
        Some(text) => {
            proof {
                vstd::utf8::encode_utf8_decode_utf8(text@);
            }
            GuessingGame::parse_guess(text)
        },
        None => None,
    }
}

fn single_frame(n: Notice) -> (v: Vec<WsFrame>)
    ensures
        v@ == seq![WsFrame::Text(n)],
{
    let mut v: Vec<WsFrame> = Vec::new();
    v.push(WsFrame::Text(n));
    v
}

/// The games of all open sessions, by session id.
pub struct GuessingSessions {
    games: BTreeMap<i32, GuessingGame>,
}

impl View for GuessingSessions {
    type V = Map<i32, GameModel>;

    closed spec fn view(&self) -> Map<i32, GameModel> {
        self.games@.map_values(|g: GuessingGame| g@)
    }
}

impl GuessingSessions {
    /// No session open.
    pub fn new() -> (s: Self)
        ensures
            s@ == Map::<i32, GameModel>::empty(),
    {
        let s = GuessingSessions { games: BTreeMap::new() };
        assert(s@ =~= Map::<i32, GameModel>::empty());
        s
    }

    /// Whether the session `session` is open.
    pub fn has_session(&self, session: i32) -> (b: bool)
        ensures
            b == self@.contains_key(session),
    {
        self.games.contains_key(&session)
    }

    /// Whether the session `session` is open and its game can take a guess.
    pub fn can_take_guess(&self, session: i32) -> (b: bool)
        ensures
            b == (self@.contains_key(session) && accepts_guess(self@[session])),
    {
        match self.games.get(&session) {
            Some(g) => g.can_take_guess(),
            None => false,
        }
    }

    /// Opens the session `session` with a new game whose secret comes from
    /// `random`, and greets the player.
    pub fn open_session(&mut self, session: i32, random: u32) -> (frames: Vec<WsFrame>)
        ensures
            final(self)@ == old(self)@.insert(session, fresh_game(secret_for(random))),
            final(self)@ == session_step(old(self)@, (SessionEvent::Opened { session, random })),
            frames@ == seq![WsFrame::Text(Notice::Welcome)],
    {
        let secret = random % 100 + 1;
        self.games.insert(session, GuessingGame::new(secret));
        assert(self@ =~= old(self)@.insert(session, fresh_game(secret_for(random))));
        single_frame(Notice::Welcome)
    }

    /// Closes the session `session` and drops its game.
    pub fn close_session(&mut self, session: i32)
        ensures
            final(self)@ == old(self)@.remove(session),
            final(self)@ == session_step(old(self)@, (SessionEvent::Closed { session })),
    {
        self.games.remove(&session);
        assert(self@ =~= old(self)@.remove(session));
    }

    /// Answers the message `payload` of the session `session`: a message
    /// that is not UTF-8, or not a number from 1 to 100, is answered with a
    /// notice and changes nothing; a guess is taken by the session's game
    /// and answered with the game's verdict, which the panel also shows.
    pub fn handle_payload(&mut self, session: i32, payload: &[u8]) -> (r: GuessResponse)
        requires
            old(self)@.contains_key(session),
            message_guess(payload@) is Some ==> accepts_guess(old(self)@[session]),
        ensures
            !valid_utf8(payload@) ==> {
                &&& final(self)@ == old(self)@
                &&& r.frames@ == seq![WsFrame::Text(Notice::Utf8Error)]
                &&& r.panel is None
            },
            valid_utf8(payload@) && guess_from_text(decode_utf8(payload@)) is None ==> {
                &&& final(self)@ == old(self)@
                &&& r.frames@ == seq![WsFrame::Text(Notice::NotInRange)]
                &&& r.panel is None
            },
            valid_utf8(payload@) ==> (guess_from_text(decode_utf8(payload@)) matches Some(n) ==> {
                let m = old(self)@[session];
                &&& final(self)@ == old(self)@.insert(session, model_after_guess(m, n))
                &&& final(self)@ == session_step(old(self)@, (SessionEvent::Guessed { session, number: n }))
                &&& r.frames@ == reply_frames(m, n)
                &&& r.panel == Some((PanelUpdate { number: n, verdict: verdict_of(model_reply(m, n).0) }))
            }),
    {
        let text = match utf8_text(payload) {
            Some(t) => t,
            None => {
                return GuessResponse { frames: single_frame(Notice::Utf8Error), panel: None };
            },
        };
        proof {
            vstd::utf8::encode_utf8_decode_utf8(text@);
        }
        let n = match GuessingGame::parse_guess(text) {
            Some(n) => n,
            None => {
                return GuessResponse { frames: single_frame(Notice::NotInRange), panel: None };
            },
        };
        let ghost m = old(self)@[session];
        let mut game = self.games.remove(&session).unwrap();
        assert(game@ == m);
        let secret = game.secret();
        let (answer, attempt) = game.guess(n);
        self.games.insert(session, game);
        assert(self@ =~= old(self)@.insert(session, model_after_guess(m, n)));
        let (frames, verdict) = match answer {
            Ordering::Greater => (
                single_frame(Notice::TooHigh { attempt }),
                Verdict::TooHigh,
            ),
            Ordering::Less => (single_frame(Notice::TooLow { attempt }), Verdict::TooLow),
            Ordering::Equal => {
                let mut v = single_frame(Notice::Won { secret, attempt });
                v.push(WsFrame::Close);
                (v, Verdict::Correct)
            },
        };
        proof {
            assert(frames@ =~= reply_frames(m, n));
        }
        GuessResponse { frames, panel: Some(PanelUpdate { number: n, verdict }) }
    }
}

} // verus!
