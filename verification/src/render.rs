//! The texts that the server sends and that the panel shows.
use vstd::prelude::*;
use vstd::string::StringExecFns;
use crate::session::{Notice, PanelUpdate, Verdict};
use crate::text::{decimal, decimal_string, nth, ordinal};

verus! {

/// The text of a notice sent to a player.
pub open spec fn notice_text(n: Notice) -> Seq<char> {
    match n {
        Notice::Welcome => "Welcome to the guessing game! Enter a number between 1 and 100"@,
        Notice::RequestTooBig => "Request too big"@,
        Notice::Utf8Error => "[UTF-8 Error]"@,
        Notice::NotInRange => "Please enter a number between 1 and 100"@,
        Notice::TooHigh { attempt } => "Your "@ + ordinal(attempt as nat) + " guess was too high"@,
        Notice::TooLow { attempt } => "Your "@ + ordinal(attempt as nat) + " guess was too low"@,
        Notice::Won { secret, attempt } => "You guessed "@ + decimal(secret as nat)
            + " on your "@ + ordinal(attempt as nat) + " try! Refresh to play again"@,
    }
}

/// The panel's second line after a judged guess.
pub open spec fn verdict_message(v: Verdict) -> Seq<char> {
    match v {
        Verdict::TooHigh => "guess too high"@,
        Verdict::TooLow => "guess too low"@,
        Verdict::Correct => "guess is correct!!"@,
    }
}

/// The panel's first line after a judged guess.
pub open spec fn guess_line(number: u32) -> Seq<char> {
    "user in: "@ + decimal(number as nat)
}

/// `needle` occurs in `hay` as a contiguous piece.
pub open spec fn contains_text(hay: Seq<char>, needle: Seq<char>) -> bool {
    exists|i: int| 0 <= i && i + needle.len() <= hay.len() && #[trigger] hay.subrange(i, i + needle.len()) == needle
}

/// The text of `notice`.
pub fn notice_string(notice: &Notice) -> (s: String)
    ensures
        s@ == notice_text(*notice),
{
    match notice {
        Notice::Welcome => "Welcome to the guessing game! Enter a number between 1 and 100".to_owned(),
        Notice::RequestTooBig => "Request too big".to_owned(),
        Notice::Utf8Error => "[UTF-8 Error]".to_owned(),
        Notice::NotInRange => "Please enter a number between 1 and 100".to_owned(),
        Notice::TooHigh { attempt } => {
            let mut s = "Your ".to_owned();
            s.append(nth(*attempt).as_str());
            s.append(" guess was too high");
            s
        },
        Notice::TooLow { attempt } => {
            let mut s = "Your ".to_owned();
            s.append(nth(*attempt).as_str());
            s.append(" guess was too low");
            s
        },
        Notice::Won { secret, attempt } => {
            let mut s = "You guessed ".to_owned();
            s.append(decimal_string(*secret as u128).as_str());
            s.append(" on your ");
            s.append(nth(*attempt).as_str());
            s.append(" try! Refresh to play again");
            s
        },
    }
}

/// The two lines that the panel shows after a judged guess: the guess, and
/// how it compared with the secret.
pub fn panel_lines(update: &PanelUpdate) -> (lines: (String, String))
    ensures
        lines.0@ == guess_line(update.number),
        lines.1@ == verdict_message(update.verdict),
{
    let mut first = "user in: ".to_owned();
    first.append(decimal_string(update.number as u128).as_str());
    let second = match update.verdict {
        Verdict::TooHigh => "guess too high".to_owned(),
        Verdict::TooLow => "guess too low".to_owned(),
        Verdict::Correct => "guess is correct!!".to_owned(),
    };
    (first, second)
}

/// Whether the LED is lit after a judged guess: only for a right one.
pub fn led_lit(update: &PanelUpdate) -> (on: bool)
    ensures
        on == (update.verdict == Verdict::Correct),
{
    match update.verdict {
        Verdict::Correct => true,
        _ => false,
    }
}

/// The LED is lit exactly when the panel's message contains the word
/// "correct".
pub proof fn law_led_follows_message(update: PanelUpdate)
    ensures
        (update.verdict == Verdict::Correct) <==> contains_text(
            verdict_message(update.verdict),
            "correct"@,
        ),
{
    reveal_strlit("correct");
    reveal_strlit("guess too high");
    reveal_strlit("guess too low");
    reveal_strlit("guess is correct!!");
    let msg = verdict_message(update.verdict);
    let word = "correct"@;
    if update.verdict == Verdict::Correct {
        assert(msg.subrange(9, 9int + word.len()) =~= word);
    } else {
        assert forall|i: int| 0 <= i && i + word.len() <= msg.len() implies #[trigger] msg.subrange(
            i,
            i + word.len(),
        ) != word by {
            assert(msg.subrange(i, i + word.len())[0] == msg[i]);
            assert(msg[i] != 'c');
        }
    }
}

} // verus!
