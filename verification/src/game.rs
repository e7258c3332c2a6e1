//! The number-guessing game played over each WebSocket session.
use vstd::prelude::*;
use std::cmp::Ordering;
use crate::number::{parse_trimmed_u32, parse_u32_decimal, trim_padding};

verus! {

/// The state of one game, as plain values.
#[derive(Clone, Copy, Debug, PartialEq, Eq)]
pub struct GameModel {
    pub guesses: u32,
    pub secret: u32,
    pub done: bool,
}

/// How `a` compares with `b`.
pub open spec fn ordering_of(a: u32, b: u32) -> Ordering {
    if a < b {
        Ordering::Less
    } else if a == b {
        Ordering::Equal
    } else {
        Ordering::Greater
    }
}

/// A fresh game with the given secret.
pub open spec fn fresh_game(secret: u32) -> GameModel {
    GameModel { guesses: 0, secret, done: false }
}

/// Whether a guess can be taken without the guess counter overflowing.
pub open spec fn accepts_guess(m: GameModel) -> bool {
    m.done || m.guesses < u32::MAX
}

/// The game after the guess `n`: a finished game does not change;
/// otherwise the guess is counted, and the game is finished when the guess
/// is the secret.
pub open spec fn model_after_guess(m: GameModel, n: u32) -> GameModel {
    if m.done {
        m
    } else {
        GameModel { guesses: (m.guesses + 1) as u32, secret: m.secret, done: n == m.secret }
    }
}

/// The answer to the guess `guess`: how it compares with the secret and how
/// many guesses have been counted; a finished game answers `Equal` with
/// the count it finished with.
pub open spec fn model_reply(m: GameModel, guess: u32) -> (Ordering, u32) {
    if m.done {
        (Ordering::Equal, m.guesses)
    } else {
        (ordering_of(guess, m.secret), model_after_guess(m, guess).guesses)
    }
}

/// How many of the guesses `guesses` an unfinished game with the secret
/// `secret` counts: those up to and including the first right one, or all
/// of them when none is right.
pub open spec fn counted_guesses(guesses: Seq<u32>, secret: u32) -> nat
    decreases guesses.len(),
{
    if guesses.len() == 0 {
        0
    } else if guesses[0] == secret {
        1
    } else {
        1 + counted_guesses(guesses.drop_first(), secret)
    }
}

/// The game after the guesses `guesses`, in order.
pub open spec fn play(m: GameModel, guesses: Seq<u32>) -> GameModel
    decreases guesses.len(),
{
    if guesses.len() == 0 {
        m
    } else {
        play(model_after_guess(m, guesses[0]), guesses.drop_first())
    }
}

/// The answers to the guesses `guesses`, made one after the other.
pub open spec fn replies(m: GameModel, guesses: Seq<u32>) -> Seq<(Ordering, u32)>
    decreases guesses.len(),
{
    if guesses.len() == 0 {
        Seq::empty()
    } else {
        seq![model_reply(m, guesses[0])] + replies(
            model_after_guess(m, guesses[0]),
            guesses.drop_first(),
        )
    }
}

/// The guess that the text `s` holds: the text without padding at either
/// end, read as a base-10 `u32`, and only when it lies in `1..=100`.
pub open spec fn guess_from_text(s: Seq<char>) -> Option<u32> {
    match parse_u32_decimal(trim_padding(s)) {
        Some(n) => if 1 <= n && n <= 100 {
            Some(n)
        } else {
            None
        },
        None => None,
    }
}

/// A game of guessing a secret number.
pub struct GuessingGame {
    guesses: u32,
    secret: u32,
    done: bool,
}

impl View for GuessingGame {
    type V = GameModel;

    closed spec fn view(&self) -> GameModel {
        GameModel { guesses: self.guesses, secret: self.secret, done: self.done }
    }
}

impl GuessingGame {
    /// A new game whose number to guess is `secret`.
    pub fn new(secret: u32) -> (g: Self)
        ensures
            g@ == fresh_game(secret),
    {
        GuessingGame { guesses: 0, secret, done: false }
    }

    /// Whether the game can take a guess without its counter overflowing.
    pub fn can_take_guess(&self) -> (b: bool)
        ensures
            b == accepts_guess(self@),
    {
        self.done || self.guesses < u32::MAX
    }

    /// The number to guess.
    pub fn secret(&self) -> (s: u32)
        ensures
            s == self@.secret,
    {
        self.secret
    }

    /// Takes one guess and answers how it compares with the secret, with
    /// the number of guesses counted so far.
    pub fn guess(&mut self, guess: u32) -> (r: (Ordering, u32))
        requires
            accepts_guess(old(self)@),
        ensures
            final(self)@ == model_after_guess(old(self)@, guess),
            r == model_reply(old(self)@, guess),
    {
        if self.done {
            (Ordering::Equal, self.guesses)
        } else {
            self.guesses += 1;
            let answer = if guess < self.secret {
                Ordering::Less
            } else if guess == self.secret {
                Ordering::Equal
            } else {
                Ordering::Greater
            };
            if guess == self.secret {
                self.done = true;
            }
            (answer, self.guesses)
        }
    }

    /// Reads a guess typed by a player: control characters and white space
    /// are stripped from both ends, and the rest must be a base-10 number
    /// from 1 to 100.
    pub fn parse_guess(input: &str) -> (r: Option<u32>)
        ensures
            r == guess_from_text(input@),
    {
        match parse_trimmed_u32(input) {
            Some(number) => if 1 <= number && number <= 100 {
                Some(number)
            } else {
                None
            },
            None => None,
        }
    }
}

/// The comparison is the ordinary order of numbers: `Less` exactly when
/// `a < b`, `Equal` exactly when `a == b`, `Greater` exactly when `a > b`.
pub proof fn law_ordering_is_numeric_order(a: u32, b: u32)
    ensures
        (ordering_of(a, b) == Ordering::Less) == (a < b),
        (ordering_of(a, b) == Ordering::Equal) == (a == b),
        (ordering_of(a, b) == Ordering::Greater) == (a > b),
{
}

/// An unfinished game answers a guess by comparing it with the secret in
/// the ordinary order of numbers, counts it as one more guess, and is
/// finished afterwards exactly when the guess was the secret.
pub proof fn law_unfinished_game_answers(m: GameModel, n: u32)
    requires
        !m.done,
        m.guesses < u32::MAX,
    ensures
        (model_reply(m, n).0 == Ordering::Less) == (n < m.secret),
        (model_reply(m, n).0 == Ordering::Equal) == (n == m.secret),
        (model_reply(m, n).0 == Ordering::Greater) == (n > m.secret),
        model_reply(m, n).1 == m.guesses + 1,
        model_after_guess(m, n).guesses == m.guesses + 1,
        model_after_guess(m, n).secret == m.secret,
        model_after_guess(m, n).done == (n == m.secret),
{
}

/// A finished game no longer changes: every further guess is answered
/// `Equal` with the number of guesses it took.
pub proof fn law_finished_game_is_frozen(m: GameModel, guess: u32)
    requires
        m.done,
    ensures
        model_after_guess(m, guess) == m,
        model_reply(m, guess) == (Ordering::Equal, m.guesses),
{
}

/// The secret of a game never changes.
pub proof fn law_secret_is_kept(m: GameModel, guesses: Seq<u32>)
    ensures
        play(m, guesses).secret == m.secret,
    decreases guesses.len(),
{
    if guesses.len() > 0 {
        law_secret_is_kept(model_after_guess(m, guesses[0]), guesses.drop_first());
    }
}

/// Playing an unfinished game: it finishes exactly when some guess is the
/// secret; then it has counted the guesses up to and including the first
/// right one, and otherwise every guess.
pub proof fn law_play_counts_until_right(m: GameModel, guesses: Seq<u32>)
    requires
        !m.done,
        m.guesses + counted_guesses(guesses, m.secret) <= u32::MAX,
    ensures
        play(m, guesses).done == guesses.contains(m.secret),
        play(m, guesses).guesses == m.guesses + counted_guesses(guesses, m.secret),
        !guesses.contains(m.secret) ==> play(m, guesses).guesses == m.guesses + guesses.len(),
        forall|i: int|
            0 <= i < guesses.len() && guesses[i] == m.secret && (forall|j: int|
                0 <= j < i ==> guesses[j] != m.secret) ==> play(m, guesses).guesses == m.guesses
                + i + 1,
{
    lemma_play_count(m, guesses);
    lemma_counted_guesses(guesses, m.secret);
}

proof fn lemma_play_count(m: GameModel, guesses: Seq<u32>)
    requires
        !m.done,
        m.guesses + counted_guesses(guesses, m.secret) <= u32::MAX,
    ensures
        play(m, guesses).guesses == m.guesses + counted_guesses(guesses, m.secret),
        play(m, guesses).done == (exists|i: int| 0 <= i < guesses.len() && guesses[i] == m.secret),
    decreases guesses.len(),
{
    if guesses.len() > 0 {
        let next = model_after_guess(m, guesses[0]);
        let rest = guesses.drop_first();
        if guesses[0] == m.secret {
            lemma_finished_play(next, rest);
            assert(guesses[0] == m.secret);
        } else {
            lemma_play_count(next, rest);
            if exists|i: int| 0 <= i < rest.len() && rest[i] == m.secret {
                let k = choose|k: int| 0 <= k < rest.len() && rest[k] == m.secret;
                assert(guesses[k + 1] == m.secret);
            }
            if exists|i: int| 0 <= i < guesses.len() && guesses[i] == m.secret {
                let k = choose|k: int| 0 <= k < guesses.len() && guesses[k] == m.secret;
                assert(rest[k - 1] == m.secret);
            }
        }
    }
}

proof fn lemma_counted_guesses(guesses: Seq<u32>, secret: u32)
    ensures
        !guesses.contains(secret) ==> counted_guesses(guesses, secret) == guesses.len(),
        forall|i: int|
            0 <= i < guesses.len() && guesses[i] == secret && (forall|j: int|
                0 <= j < i ==> guesses[j] != secret) ==> counted_guesses(guesses, secret) == i
                + 1,
    decreases guesses.len(),
{
    if guesses.len() > 0 && guesses[0] != secret {
        let rest = guesses.drop_first();
        lemma_counted_guesses(rest, secret);
        if !guesses.contains(secret) {
            assert forall|k: int| 0 <= k < rest.len() implies rest[k] != secret by {
                assert(rest[k] == guesses[k + 1]);
            }
        }
        assert forall|i: int|
            0 <= i < guesses.len() && guesses[i] == secret && (forall|j: int|
                0 <= j < i ==> guesses[j] != secret) implies counted_guesses(guesses, secret) == i
            + 1 by {
            assert(rest[i - 1] == secret);
            assert forall|j: int| 0 <= j < i - 1 implies rest[j] != secret by {
                assert(guesses[j + 1] != secret);
            }
        }
    }
}

proof fn lemma_finished_replies(m: GameModel, guesses: Seq<u32>)
    requires
        m.done,
    ensures
        replies(m, guesses).len() == guesses.len(),
        forall|j: int|
            0 <= j < guesses.len() ==> #[trigger] replies(m, guesses)[j] == (
            Ordering::Equal,
            m.guesses,
        ),
    decreases guesses.len(),
{
    if guesses.len() > 0 {
        lemma_finished_replies(m, guesses.drop_first());
        let r = replies(m, guesses);
        assert forall|j: int| 0 <= j < guesses.len() implies #[trigger] r[j] == (
            Ordering::Equal,
            m.guesses,
        ) by {
            if j > 0 {
                assert(r[j] == replies(m, guesses.drop_first())[j - 1]);
            }
        }
    }
}

/// The answer to each guess of a sequence: until the secret is found the
/// `j`-th guess (counting from 0) is compared with the secret and counted
/// as guess number `j + 1` of this sequence; once the secret was found at
/// position `h`, every later guess is answered `Equal` with that count.
pub proof fn law_reply_to_each_guess(m: GameModel, guesses: Seq<u32>)
    requires
        !m.done,
        m.guesses + counted_guesses(guesses, m.secret) <= u32::MAX,
    ensures
        replies(m, guesses).len() == guesses.len(),
        forall|j: int|
            0 <= j < guesses.len() && (forall|i: int| 0 <= i < j ==> guesses[i] != m.secret)
                ==> #[trigger] replies(m, guesses)[j].0 == ordering_of(guesses[j], m.secret)
                && replies(m, guesses)[j].1 == m.guesses + j + 1,
        forall|h: int, j: int|
            #![trigger guesses[h], replies(m, guesses)[j]]
            0 <= h < j < guesses.len() && guesses[h] == m.secret && (forall|i: int|
                0 <= i < h ==> guesses[i] != m.secret) ==> replies(m, guesses)[j].0
                == Ordering::Equal && replies(m, guesses)[j].1 == m.guesses + h + 1,
    decreases guesses.len(),
{
    if guesses.len() > 0 {
        let next = model_after_guess(m, guesses[0]);
        let rest = guesses.drop_first();
        let r = replies(m, guesses);
        if guesses[0] == m.secret {
            lemma_finished_replies(next, rest);
            assert forall|h: int, j: int|
                #![trigger guesses[h], r[j]]
                0 <= h < j < guesses.len() && guesses[h] == m.secret && (forall|i: int|
                    0 <= i < h ==> guesses[i] != m.secret) implies r[j].0
                == Ordering::Equal && r[j].1 == m.guesses + h + 1 by {
                if h > 0 {
                    assert(guesses[0] != m.secret);
                }
                assert(r[j] == replies(next, rest)[j - 1]);
            }
            assert forall|j: int|
                0 <= j < guesses.len() && (forall|i: int| 0 <= i < j ==> guesses[i] != m.secret)
                    implies #[trigger] r[j].0 == ordering_of(guesses[j], m.secret) && r[j].1
                == m.guesses + j + 1 by {
                if j > 0 {
                    assert(guesses[0] != m.secret);
                }
            }
        } else {
            law_reply_to_each_guess(next, rest);
            assert forall|j: int|
                0 <= j < guesses.len() && (forall|i: int| 0 <= i < j ==> guesses[i] != m.secret)
                    implies #[trigger] r[j].0 == ordering_of(guesses[j], m.secret) && r[j].1
                == m.guesses + j + 1 by {
                if j > 0 {
                    assert(r[j] == replies(next, rest)[j - 1]);
                    assert(rest[j - 1] == guesses[j]);
                    assert forall|i: int| 0 <= i < j - 1 implies rest[i] != m.secret by {
                        assert(rest[i] == guesses[i + 1]);
                    }
                }
            }
            assert forall|h: int, j: int|
                #![trigger guesses[h], r[j]]
                0 <= h < j < guesses.len() && guesses[h] == m.secret && (forall|i: int|
                    0 <= i < h ==> guesses[i] != m.secret) implies r[j].0
                == Ordering::Equal && r[j].1 == m.guesses + h + 1 by {
                assert(h > 0);
                assert(r[j] == replies(next, rest)[j - 1]);
                assert(rest[h - 1] == m.secret);
                assert forall|i: int| 0 <= i < h - 1 implies rest[i] != m.secret by {
                    assert(rest[i] == guesses[i + 1]);
                }
            }
        }
    }
}

/// Further guesses leave a finished game as it is.
proof fn lemma_finished_play(m: GameModel, guesses: Seq<u32>)
    requires
        m.done,
    ensures
        play(m, guesses) == m,
    decreases guesses.len(),
{
    if guesses.len() > 0 {
        lemma_finished_play(m, guesses.drop_first());
    }
}

/// The guesses that are accepted are exactly the decimal numbers from 1
/// to 100: every accepted guess lies in that range, and the decimal form
/// of each number in it is accepted as that number.
pub proof fn law_accepted_guesses(s: Seq<char>, n: u32)
    ensures
        guess_from_text(s) matches Some(g) ==> 1 <= g <= 100,
        1 <= n <= 100 ==> guess_from_text(crate::text::decimal(n as nat)) == Some(n),
{
    crate::number::law_parse_reads_decimal(n);
}

} // verus!
