//! What the board does each second, and which radio channel it joins.
use vstd::prelude::*;
use vstd::string::StringExecFns;
use crate::text::{decimal, decimal_string};

verus! {

/// `n` in decimal, with a leading `-` when it is negative.
pub open spec fn signed_decimal(n: int) -> Seq<char> {
    if n < 0 {
        "-"@ + decimal((-n) as nat)
    } else {
        decimal(n as nat)
    }
}

/// The status line that the board sends and shows each second.
pub open spec fn status_text(distance_cm: u128, adc: i32) -> Seq<char> {
    "dis: "@ + decimal(distance_cm as nat) + ", adc: "@ + signed_decimal(adc as int)
}

/// The line that shows the board's address once it is known.
pub open spec fn ip_banner_text(ip: Seq<char>) -> Seq<char> {
    "IP: "@ + ip
}

/// `n` in decimal, with a leading `-` when it is negative.
pub fn signed_decimal_string(n: i32) -> (s: String)
    ensures
        s@ == signed_decimal(n as int),
{
    if n < 0 {
        let magnitude: i64 = -(n as i64);
        let mut s = "-".to_owned();
        s.append(decimal_string(magnitude as u128).as_str());
        s
    } else {
        decimal_string(n as u128)
    }
}

/// The status line with the measured distance and slider position.
pub fn status_line(distance_cm: u128, adc: i32) -> (s: String)
    ensures
        s@ == status_text(distance_cm, adc),
{
    let mut s = "dis: ".to_owned();
    s.append(decimal_string(distance_cm).as_str());
    s.append(", adc: ");
    s.append(signed_decimal_string(adc).as_str());
    s
}

/// What to do in one pass of the board's main loop.
#[derive(Debug)]
pub struct TickPlan {
    /// A line to show first, with the board's address.
    pub banner: Option<String>,
    /// Whether to measure and report distance and slider position.
    pub measure: bool,
}

/// The main loop's memory: whether the address has been shown.
pub struct MonitorState {
    ip_shown: bool,
}

impl View for MonitorState {
    type V = bool;

    closed spec fn view(&self) -> bool {
        self.ip_shown
    }
}

impl MonitorState {
    /// Nothing shown yet.
    pub fn new() -> (s: Self)
        ensures
            !s@,
    {
        MonitorState { ip_shown: false }
    }

    /// Plans one pass of the main loop, given the board's address (empty
    /// while the network is not up): nothing happens before the address is
    /// known; then the address is shown once, and every pass measures.
    pub fn tick(&mut self, ip: &str) -> (plan: TickPlan)
        ensures
            ip@.len() == 0 ==> !plan.measure && plan.banner is None && final(self)@ == old(self)@,
            ip@.len() > 0 ==> plan.measure && final(self)@,
            ip@.len() > 0 && old(self)@ ==> plan.banner is None,
            ip@.len() > 0 && !old(self)@ ==> (plan.banner matches Some(b) && b@ == ip_banner_text(
                ip@,
            )),
    {
        if ip.is_empty() {
            return TickPlan { banner: None, measure: false };
        }
        if self.ip_shown {
            TickPlan { banner: None, measure: true }
        } else {
            self.ip_shown = true;
            let mut b = "IP: ".to_owned();
            b.append(ip);
            TickPlan { banner: Some(b), measure: true }
        }
    }
}

/// A network seen by a scan.
#[derive(Debug)]
pub struct AccessPoint {
    pub ssid: String,
    pub channel: u8,
}

/// The channel of the first network in `aps` named `ssid`.
pub open spec fn first_channel(aps: Seq<AccessPoint>, ssid: Seq<char>) -> Option<u8>
    decreases aps.len(),
{
    if aps.len() == 0 {
        None
    } else if aps[0].ssid@ == ssid {
        Some(aps[0].channel)
    } else {
        first_channel(aps.drop_first(), ssid)
    }
}

/// The channel choice finds the first network with the name: when the
/// `i`-th scanned network is named `ssid` and none before it is, its channel
/// is chosen; and no channel is chosen exactly when no scanned network is
/// named `ssid`.
pub proof fn law_first_named_network(aps: Seq<AccessPoint>, ssid: Seq<char>)
    ensures
        forall|i: int|
            0 <= i < aps.len() && aps[i].ssid@ == ssid && (forall|j: int|
                0 <= j < i ==> aps[j].ssid@ != ssid) ==> first_channel(aps, ssid) == Some(
                aps[i].channel,
            ),
        first_channel(aps, ssid) is None <==> (forall|i: int|
            0 <= i < aps.len() ==> aps[i].ssid@ != ssid),
    decreases aps.len(),
{
    if aps.len() > 0 {
        let rest = aps.drop_first();
        law_first_named_network(rest, ssid);
        if aps[0].ssid@ != ssid {
            assert forall|i: int|
                0 <= i < aps.len() && aps[i].ssid@ == ssid && (forall|j: int|
                    0 <= j < i ==> aps[j].ssid@ != ssid) implies first_channel(aps, ssid) == Some(
                aps[i].channel,
            ) by {
                assert(rest[i - 1] == aps[i]);
                assert forall|j: int| 0 <= j < i - 1 implies rest[j].ssid@ != ssid by {
                    assert(rest[j] == aps[j + 1]);
                }
            }
            if first_channel(aps, ssid) is None {
                assert forall|i: int| 0 <= i < aps.len() implies aps[i].ssid@ != ssid by {
                    if i > 0 {
                        assert(rest[i - 1] == aps[i]);
                    }
                }
            } else {
                let k = choose|k: int| 0 <= k < rest.len() && rest[k].ssid@ == ssid;
                assert(aps[k + 1] == rest[k]);
            }
        } else {
            assert forall|i: int|
                0 <= i < aps.len() && aps[i].ssid@ == ssid && (forall|j: int|
                    0 <= j < i ==> aps[j].ssid@ != ssid) implies first_channel(aps, ssid) == Some(
                aps[i].channel,
            ) by {
                if i > 0 {
                    assert(aps[0].ssid@ != ssid);
                }
            }
        }
    }
}

/// The channel of the first scanned network named `ssid`, if any.
pub fn find_channel(aps: &Vec<AccessPoint>, ssid: &String) -> (r: Option<u8>)
    ensures
        r == first_channel(aps@, ssid@),
{
    let mut i: usize = 0;
    assert(aps@.subrange(0, aps@.len() as int) =~= aps@);
    while i < aps.len()
        invariant
            i <= aps@.len(),
            first_channel(aps@.subrange(i as int, aps@.len() as int), ssid@) == first_channel(
                aps@,
                ssid@,
            ),
        decreases aps.len() - i,
    {
        let ghost rest = aps@.subrange(i as int, aps@.len() as int);
        assert(rest[0] == aps@[i as int]);
        if aps[i].ssid == *ssid {
            return Some(aps[i].channel);
        }
        assert(rest.drop_first() =~= aps@.subrange(i + 1, aps@.len() as int));
        i = i + 1;
    }
    None
}

/// The channel of the board's own access point: the network's channel when
/// it was found, and channel 1 otherwise.
pub fn access_point_channel(found: Option<u8>) -> (c: u8)
    ensures
        c == match found {
            Some(ch) => ch,
            None => 1u8,
        },
{
    match found {
        Some(ch) => ch,
        None => 1,
    }
}

} // verus!
