use esp_guessing::render::{led_lit, notice_string, panel_lines};
use esp_guessing::session::{
    oversize_reply, payload_guess, rand, GuessingSessions, Notice, PanelUpdate, Verdict, WsFrame, MAX_LEN,
};

#[test]
fn new_session_is_greeted() {
    let mut s = GuessingSessions::new();
    assert!(!s.has_session(3));
    let frames = s.open_session(3, 12345);
    assert_eq!(frames, vec![WsFrame::Text(Notice::Welcome)]);
    assert!(s.has_session(3));
    assert!(s.can_take_guess(3));
    assert!(!s.can_take_guess(4));
}

#[test]
fn secret_comes_from_random_number() {
    let mut s = GuessingSessions::new();
    s.open_session(1, 12345);
    let r = s.handle_payload(1, b"46");
    assert_eq!(
        r.frames,
        vec![WsFrame::Text(Notice::Won { secret: 46, attempt: 1 }), WsFrame::Close]
    );
    assert_eq!(r.panel, Some(PanelUpdate { number: 46, verdict: Verdict::Correct }));
}

#[test]
fn high_and_low_guesses() {
    let mut s = GuessingSessions::new();
    s.open_session(1, 149);
    let r = s.handle_payload(1, b"10");
    assert_eq!(r.frames, vec![WsFrame::Text(Notice::TooLow { attempt: 1 })]);
    assert_eq!(r.panel, Some(PanelUpdate { number: 10, verdict: Verdict::TooLow }));
    let r = s.handle_payload(1, b" 90\n");
    assert_eq!(r.frames, vec![WsFrame::Text(Notice::TooHigh { attempt: 2 })]);
    let r = s.handle_payload(1, b"50");
    assert_eq!(
        r.frames,
        vec![WsFrame::Text(Notice::Won { secret: 50, attempt: 3 }), WsFrame::Close]
    );
    let r = s.handle_payload(1, b"3");
    assert_eq!(
        r.frames,
        vec![WsFrame::Text(Notice::Won { secret: 50, attempt: 3 }), WsFrame::Close]
    );
    s.open_session(2, 99);
    let r = s.handle_payload(2, b"100");
    assert_eq!(
        r.frames,
        vec![WsFrame::Text(Notice::Won { secret: 100, attempt: 1 }), WsFrame::Close]
    );
}

#[test]
fn bad_payloads_change_nothing() {
    let mut s = GuessingSessions::new();
    s.open_session(1, 0);
    let r = s.handle_payload(1, &[0xff, 0x31]);
    assert_eq!(r.frames, vec![WsFrame::Text(Notice::Utf8Error)]);
    assert_eq!(r.panel, None);
    let r = s.handle_payload(1, b"abc");
    assert_eq!(r.frames, vec![WsFrame::Text(Notice::NotInRange)]);
    assert_eq!(r.panel, None);
    let r = s.handle_payload(1, b"1");
    assert_eq!(
        r.frames,
        vec![WsFrame::Text(Notice::Won { secret: 1, attempt: 1 }), WsFrame::Close]
    );
}

#[test]
fn sessions_are_independent() {
    let mut s = GuessingSessions::new();
    s.open_session(1, 49);
    s.open_session(2, 9);
    let r = s.handle_payload(2, b"10");
    assert_eq!(
        r.frames,
        vec![WsFrame::Text(Notice::Won { secret: 10, attempt: 1 }), WsFrame::Close]
    );
    let r = s.handle_payload(1, b"10");
    assert_eq!(r.frames, vec![WsFrame::Text(Notice::TooLow { attempt: 1 })]);
    s.close_session(2);
    assert!(!s.has_session(2));
    assert!(s.has_session(1));
}

#[test]
fn oversize_messages() {
    assert_eq!(oversize_reply(MAX_LEN), None);
    assert_eq!(oversize_reply(0), None);
    assert_eq!(
        oversize_reply(MAX_LEN + 1),
        Some(vec![WsFrame::Text(Notice::RequestTooBig), WsFrame::Close])
    );
}

#[test]
fn rand_divides_nanoseconds() {
    assert_eq!(rand(0), 0);
    assert_eq!(rand(65536), 0);
    assert_eq!(rand(65537), 1);
    assert_eq!(rand(999_999_999), 15258);
}

#[test]
fn notice_texts() {
    assert_eq!(
        notice_string(&Notice::Welcome),
        "Welcome to the guessing game! Enter a number between 1 and 100"
    );
    assert_eq!(notice_string(&Notice::RequestTooBig), "Request too big");
    assert_eq!(notice_string(&Notice::Utf8Error), "[UTF-8 Error]");
    assert_eq!(notice_string(&Notice::NotInRange), "Please enter a number between 1 and 100");
    assert_eq!(notice_string(&Notice::TooHigh { attempt: 2 }), "Your second guess was too high");
    assert_eq!(notice_string(&Notice::TooLow { attempt: 22 }), "Your 22nd guess was too low");
    assert_eq!(
        notice_string(&Notice::Won { secret: 46, attempt: 3 }),
        "You guessed 46 on your third try! Refresh to play again"
    );
}

#[test]
fn panel_and_led() {
    let hit = PanelUpdate { number: 46, verdict: Verdict::Correct };
    let (a, b) = panel_lines(&hit);
    assert_eq!(a, "user in: 46");
    assert_eq!(b, "guess is correct!!");
    assert!(led_lit(&hit));
    assert!(b.contains("correct"));
    for v in [Verdict::TooHigh, Verdict::TooLow] {
        let miss = PanelUpdate { number: 7, verdict: v };
        let (a, b) = panel_lines(&miss);
        assert_eq!(a, "user in: 7");
        assert!(!led_lit(&miss));
        assert!(!b.contains("correct"));
    }
    let (_, b) = panel_lines(&PanelUpdate { number: 1, verdict: Verdict::TooHigh });
    assert_eq!(b, "guess too high");
    let (_, b) = panel_lines(&PanelUpdate { number: 1, verdict: Verdict::TooLow });
    assert_eq!(b, "guess too low");
}

#[test]
fn payload_guesses() {
    assert_eq!(payload_guess(b"42"), Some(42));
    assert_eq!(payload_guess(b" 7\n"), Some(7));
    assert_eq!(payload_guess(b"0"), None);
    assert_eq!(payload_guess(b"abc"), None);
    assert_eq!(payload_guess(&[0xff]), None);
    assert_eq!(payload_guess(&[0xc0, 0xb1]), None);
}
