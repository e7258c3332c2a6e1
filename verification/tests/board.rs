use esp_guessing::monitor::{
    access_point_channel, find_channel, signed_decimal_string, status_line, AccessPoint,
    MonitorState,
};
use esp_guessing::page::{fill_ip, replace_text};
use esp_guessing::sensor::{
    adc_percent, distance_cm_from_echoes, echo_to_cm, median_echo_micros, sort_echoes,
};

#[test]
fn echoes_sort_ascending() {
    let v = vec![5u128, 3, 9, 1, 3, 7];
    assert_eq!(sort_echoes(&v), vec![1, 3, 3, 5, 7, 9]);
    assert_eq!(sort_echoes(&Vec::new()), Vec::<u128>::new());
}

#[test]
fn median_is_sixth_shortest() {
    let v = vec![900u128, 100, 800, 200, 700, 300, 600, 400, 500, 1000];
    assert_eq!(median_echo_micros(&v), 600);
    let mut w = v.clone();
    w.reverse();
    assert_eq!(median_echo_micros(&w), 600);
}

#[test]
fn distance_formula() {
    assert_eq!(echo_to_cm(0), 0);
    assert_eq!(echo_to_cm(5800), 62);
    assert_eq!(echo_to_cm(928), 10);
    let v = vec![5800u128; 10];
    assert_eq!(distance_cm_from_echoes(&v), 62);
    let noisy = vec![1u128, 5800, 5800, 5800, 5800, 5800, 5800, 5800, 5800, 9_000_000];
    assert_eq!(distance_cm_from_echoes(&noisy), 62);
}

#[test]
fn adc_scaling() {
    assert_eq!(adc_percent(0), 0);
    assert_eq!(adc_percent(4095), 100);
    assert_eq!(adc_percent(2048), 50);
    assert_eq!(adc_percent(u16::MAX), 1600);
}

#[test]
fn status_lines() {
    assert_eq!(status_line(62, 50), "dis: 62, adc: 50");
    assert_eq!(status_line(0, 0), "dis: 0, adc: 0");
    assert_eq!(signed_decimal_string(-5), "-5");
    assert_eq!(signed_decimal_string(i32::MIN), "-2147483648");
}

#[test]
fn ip_banner_shown_once() {
    let mut m = MonitorState::new();
    let p = m.tick("");
    assert!(!p.measure);
    assert!(p.banner.is_none());
    let p = m.tick("192.168.1.47");
    assert!(p.measure);
    assert_eq!(p.banner.as_deref(), Some("IP: 192.168.1.47"));
    let p = m.tick("192.168.1.47");
    assert!(p.measure);
    assert!(p.banner.is_none());
}

#[test]
fn channel_choice() {
    let aps = vec![
        AccessPoint { ssid: "other".to_string(), channel: 3 },
        AccessPoint { ssid: "home".to_string(), channel: 6 },
        AccessPoint { ssid: "home".to_string(), channel: 11 },
    ];
    assert_eq!(find_channel(&aps, &"home".to_string()), Some(6));
    assert_eq!(find_channel(&aps, &"none".to_string()), None);
    assert_eq!(access_point_channel(Some(6)), 6);
    assert_eq!(access_point_channel(None), 1);
}

#[test]
fn page_gets_address() {
    assert_eq!(
        fill_ip("<a href=\"http://%%IP%%/\">%%IP%%</a>", "10.0.0.1"),
        "<a href=\"http://10.0.0.1/\">10.0.0.1</a>"
    );
    assert_eq!(fill_ip("no mark", "1.2.3.4"), "no mark");
}

#[test]
fn replace_matches_std() {
    let cases = [
        ("%%%IP%%%", "%%IP%%", "x"),
        ("aaaa", "aa", "b"),
        ("aaa", "aa", "b"),
        ("", "a", "b"),
        ("héllo wörld", "ö", "oe"),
        ("%%IP%%%%IP%%", "%%IP%%", ""),
    ];
    for (t, p, r) in cases.iter() {
        assert_eq!(replace_text(t, p, r), t.replace(p, r), "{:?}", (t, p, r));
    }
}

#[test]
fn longer_echoes_give_no_shorter_distance() {
    let a = vec![100u128, 5000, 5200, 5100, 90, 5300, 5400, 5000, 6000, 7000];
    let b: Vec<u128> = a.iter().map(|x| x + 700).collect();
    assert!(distance_cm_from_echoes(&a) <= distance_cm_from_echoes(&b));
    assert_eq!(distance_cm_from_echoes(&a), 56);
}
