//! Ultrasonic distance and slider readings.
use vstd::prelude::*;
use vstd::relations::{sorted_by, total_ordering};

verus! {

broadcast use vstd::seq_lib::group_to_multiset_ensures;

/// How many echo durations one distance reading takes.
pub const ECHO_SAMPLES: usize = 10;

/// The position, in ascending order, of the echo duration that a distance
/// reading uses.
pub const MEDIAN_INDEX: usize = 5;

/// The order in which echo durations are sorted.
pub open spec fn echo_leq() -> spec_fn(u128, u128) -> bool {
    |a: u128, b: u128| a <= b
}

/// The echo durations `s` in ascending order.
pub open spec fn sorted_echoes(s: Seq<u128>) -> Seq<u128> {
    s.sort_by(echo_leq())
}

/// The distance in centimetres that an echo of `micros` microseconds
/// stands for, in integer steps as the firmware computes it.
pub open spec fn echo_distance_cm(micros: nat) -> nat {
    micros * 10 / 16 / 58
}

/// The distance that the echo durations `s` give.
pub open spec fn echo_reading_cm(s: Seq<u128>) -> nat {
    echo_distance_cm(sorted_echoes(s)[MEDIAN_INDEX as int] as nat)
}

/// How many of the durations `s` are at most `y`.
pub open spec fn count_at_most(s: Seq<u128>, y: u128) -> nat
    decreases s.len(),
{
    if s.len() == 0 {
        0
    } else {
        count_at_most(s.drop_last(), y) + if s.last() <= y {
            1nat
        } else {
            0nat
        }
    }
}

proof fn lemma_count_bounded(s: Seq<u128>, y: u128)
    ensures
        count_at_most(s, y) <= s.len(),
    decreases s.len(),
{
    if s.len() > 0 {
        lemma_count_bounded(s.drop_last(), y);
    }
}

proof fn lemma_count_all(s: Seq<u128>, y: u128)
    requires
        forall|i: int| 0 <= i < s.len() ==> s[i] <= y,
    ensures
        count_at_most(s, y) == s.len(),
    decreases s.len(),
{
    if s.len() > 0 {
        lemma_count_all(s.drop_last(), y);
    }
}

proof fn lemma_count_none(s: Seq<u128>, y: u128)
    requires
        forall|i: int| 0 <= i < s.len() ==> s[i] > y,
    ensures
        count_at_most(s, y) == 0,
    decreases s.len(),
{
    if s.len() > 0 {
        lemma_count_none(s.drop_last(), y);
    }
}

proof fn lemma_count_split(s: Seq<u128>, m: int, y: u128)
    requires
        0 <= m <= s.len(),
    ensures
        count_at_most(s, y) == count_at_most(s.take(m), y) + count_at_most(s.skip(m), y),
    decreases s.len(),
{
    if m == s.len() {
        assert(s.take(m) =~= s);
        assert(s.skip(m) =~= Seq::<u128>::empty());
    } else {
        lemma_count_split(s.drop_last(), m, y);
        assert(s.drop_last().take(m) =~= s.take(m));
        assert(s.drop_last().skip(m) =~= s.skip(m).drop_last());
        assert(s.skip(m).last() == s.last());
    }
}

proof fn lemma_count_pointwise(a: Seq<u128>, b: Seq<u128>, y: u128)
    requires
        a.len() == b.len(),
        forall|i: int| 0 <= i < a.len() ==> a[i] <= b[i],
    ensures
        count_at_most(b, y) <= count_at_most(a, y),
    decreases a.len(),
{
    if a.len() > 0 {
        lemma_count_pointwise(a.drop_last(), b.drop_last(), y);
    }
}

proof fn lemma_count_remove(t: Seq<u128>, j: int, y: u128)
    requires
        0 <= j < t.len(),
    ensures
        count_at_most(t, y) == count_at_most(t.remove(j), y) + if t[j] <= y {
            1nat
        } else {
            0nat
        },
    decreases t.len(),
{
    if j == t.len() - 1 {
        assert(t.remove(j) =~= t.drop_last());
    } else {
        lemma_count_remove(t.drop_last(), j, y);
        assert(t.remove(j).drop_last() =~= t.drop_last().remove(j));
        assert(t.remove(j).last() == t.last());
    }
}

proof fn lemma_count_permutation(s: Seq<u128>, t: Seq<u128>, y: u128)
    requires
        s.to_multiset() == t.to_multiset(),
    ensures
        count_at_most(s, y) == count_at_most(t, y),
    decreases s.len(),
{
    broadcast use vstd::multiset::group_multiset_axioms;

    vstd::seq_lib::to_multiset_len(s);
    vstd::seq_lib::to_multiset_len(t);
    if s.len() > 0 {
        let x = s.last();
        let rest = s.drop_last();
        assert(s =~= rest.push(x));
        vstd::seq_lib::to_multiset_build(rest, x);
        assert(t.to_multiset().count(x) > 0);
        vstd::seq_lib::to_multiset_contains(t, x);
        let j = choose|j: int| 0 <= j < t.len() && t[j] == x;
        vstd::seq_lib::to_multiset_remove(t, j);
        assert(rest.to_multiset() =~= t.remove(j).to_multiset());
        lemma_count_permutation(rest, t.remove(j), y);
        lemma_count_remove(t, j, y);
    } else {
        assert(t.len() == 0);
    }
}

/// The conversion is the plain one, with no ceiling: `micros`
/// microseconds give the largest whole number of centimetres `d` with
/// `d * 928 <= micros * 10` (sound travels 2 cm out and back in about
/// 58 us, and the firmware scales by 10 / 16 / 58 = 10 / 928).
pub proof fn law_distance_conversion(micros: nat)
    ensures
        echo_distance_cm(micros) * 928 <= micros * 10,
        micros * 10 < (echo_distance_cm(micros) + 1) * 928,
{
    let x = (micros * 10) as int;
    vstd::arithmetic::div_mod::lemma_div_denominator(x, 16, 58);
    vstd::arithmetic::div_mod::lemma_fundamental_div_mod(x, 928);
    let q = x / 928;
    let r = x % 928;
    assert(0 <= r < 928) by {
        vstd::arithmetic::div_mod::lemma_mod_bound(x, 928);
    }
    assert(echo_distance_cm(micros) == q);
    assert(q * 928 <= x) by (nonlinear_arith)
        requires
            x == 928 * q + r,
            0 <= r,
    ;
    assert(x < (q + 1) * 928) by (nonlinear_arith)
        requires
            x == 928 * q + r,
            r < 928,
    ;
}

proof fn lemma_echo_leq_total()
    ensures
        total_ordering(echo_leq()),
{
}

/// Sorting only depends on which durations were measured, not on the order
/// in which they came: the same readings in any order sort the same way.
pub proof fn law_sorting_ignores_arrival_order(s1: Seq<u128>, s2: Seq<u128>)
    requires
        s1.to_multiset() == s2.to_multiset(),
    ensures
        sorted_echoes(s1) == sorted_echoes(s2),
{
    lemma_echo_leq_total();
    s1.lemma_sort_by_ensures(echo_leq());
    s2.lemma_sort_by_ensures(echo_leq());
    vstd::seq_lib::lemma_sorted_unique(sorted_echoes(s1), sorted_echoes(s2), echo_leq());
}

/// The distance depends only on which durations were measured, not on the
/// order in which they came.
pub proof fn law_distance_ignores_arrival_order(s1: Seq<u128>, s2: Seq<u128>)
    requires
        s1.to_multiset() == s2.to_multiset(),
    ensures
        echo_reading_cm(s1) == echo_reading_cm(s2),
{
    law_sorting_ignores_arrival_order(s1, s2);
}

/// Longer echoes never give a shorter distance: when every duration of one
/// reading is at most the duration at the same place of another, its
/// `k`-th shortest duration, and so its distance, is at most the other's.
pub proof fn law_distance_grows_with_echoes(a: Seq<u128>, b: Seq<u128>, k: int)
    requires
        a.len() == b.len(),
        0 <= k < a.len(),
        forall|i: int| 0 <= i < a.len() ==> a[i] <= b[i],
    ensures
        sorted_echoes(a)[k] <= sorted_echoes(b)[k],
        a.len() > MEDIAN_INDEX ==> echo_reading_cm(a) <= echo_reading_cm(b),
{
    lemma_order_statistic_grows(a, b, k);
    if a.len() > MEDIAN_INDEX {
        lemma_order_statistic_grows(a, b, MEDIAN_INDEX as int);
        let p = sorted_echoes(a)[MEDIAN_INDEX as int] as nat;
        let q = sorted_echoes(b)[MEDIAN_INDEX as int] as nat;
        assert(p * 10 / 16 / 58 <= q * 10 / 16 / 58) by (nonlinear_arith)
            requires
                p <= q,
        ;
    }
}

proof fn lemma_order_statistic_grows(a: Seq<u128>, b: Seq<u128>, k: int)
    requires
        a.len() == b.len(),
        0 <= k < a.len(),
        forall|i: int| 0 <= i < a.len() ==> a[i] <= b[i],
    ensures
        sorted_echoes(a)[k] <= sorted_echoes(b)[k],
{
    lemma_echo_leq_total();
    a.lemma_sort_by_ensures(echo_leq());
    b.lemma_sort_by_ensures(echo_leq());
    let sa = sorted_echoes(a);
    let sb = sorted_echoes(b);
    vstd::seq_lib::to_multiset_len(a);
    vstd::seq_lib::to_multiset_len(sa);
    vstd::seq_lib::to_multiset_len(b);
    vstd::seq_lib::to_multiset_len(sb);
    let y = sb[k];
    let front = sb.take(k + 1);
    assert forall|i: int| 0 <= i < front.len() implies #[trigger] front[i] <= y by {
        if i < k {
            assert(echo_leq()(sb[i], sb[k]));
        }
    }
    lemma_count_all(sb.take(k + 1), y);
    lemma_count_split(sb, k + 1, y);
    lemma_count_permutation(b, sb, y);
    lemma_count_pointwise(a, b, y);
    lemma_count_permutation(a, sa, y);
    if sa[k] > y {
        let back = sa.skip(k);
        assert forall|i: int| 0 <= i < back.len() implies #[trigger] back[i] > y by {
            if i > 0 {
                assert(echo_leq()(sa[k], sa[k + i]));
            }
        }
        lemma_count_none(sa.skip(k), y);
        lemma_count_split(sa, k, y);
        lemma_count_bounded(sa.take(k), y);
        assert(false);
    }
}

/// The echo durations in ascending order.
pub fn sort_echoes(samples: &Vec<u128>) -> (v: Vec<u128>)
    ensures
        v@ == sorted_echoes(samples@),
{
    let mut v: Vec<u128> = Vec::new();
    let mut k: usize = 0;
    while k < samples.len()
        invariant
            k <= samples.len(),
            sorted_by(v@, echo_leq()),
            v@.to_multiset() == samples@.take(k as int).to_multiset(),
        decreases samples.len() - k,
    {
        let x = samples[k];
        let mut p: usize = 0;
        while p < v.len() && v[p] <= x
            invariant
                p <= v.len(),
                forall|i: int| 0 <= i < p ==> v@[i] <= x,
            decreases v.len() - p,
        {
            p = p + 1;
        }
        let ghost before = v@;
        v.insert(p, x);
        assert(sorted_by(v@, echo_leq())) by {
            assert forall|i: int, j: int| 0 <= i < j < v@.len() implies #[trigger] echo_leq()(
                v@[i],
                v@[j],
            ) by {
                if j > p {
                    assert(v@[j] == before[j - 1]);
                    if p < before.len() {
                        assert(echo_leq()(before[p as int], before[j - 1]));
                    }
                }
                if i > p {
                    assert(v@[i] == before[i - 1]);
                    assert(echo_leq()(before[i - 1], before[j - 1]));
                }
                if i < p && j < p {
                    assert(echo_leq()(before[i], before[j]));
                }
            }
        }
        assert(samples@.take(k + 1) =~= samples@.take(k as int).push(x));
        k = k + 1;
    }
    proof {
        assert(samples@.take(k as int) =~= samples@);
        lemma_echo_leq_total();
        samples@.lemma_sort_by_ensures(echo_leq());
        vstd::seq_lib::lemma_sorted_unique(v@, sorted_echoes(samples@), echo_leq());
    }
    v
}

/// The echo duration that a distance reading uses: the sixth shortest.
pub fn median_echo_micros(samples: &Vec<u128>) -> (m: u128)
    requires
        samples@.len() > MEDIAN_INDEX,
    ensures
        m == sorted_echoes(samples@)[MEDIAN_INDEX as int],
{
    let v = sort_echoes(samples);
    assert(v@.len() == samples@.len()) by {
        lemma_echo_leq_total();
        samples@.lemma_sort_by_ensures(echo_leq());
        vstd::seq_lib::to_multiset_len(v@);
        vstd::seq_lib::to_multiset_len(samples@);
    }
    v[MEDIAN_INDEX]
}

/// Converts an echo duration in microseconds to centimetres.
pub fn echo_to_cm(micros: u128) -> (cm: u128)
    requires
        micros <= u128::MAX / 10,
    ensures
        cm == echo_distance_cm(micros as nat),
{
    micros * 10 / 16 / 58
}

/// The distance in centimetres that a set of echo durations gives: the
/// sixth shortest duration, converted.
pub fn distance_cm_from_echoes(samples: &Vec<u128>) -> (cm: u128)
    requires
        samples@.len() > MEDIAN_INDEX,
        sorted_echoes(samples@)[MEDIAN_INDEX as int] <= u128::MAX / 10,
    ensures
        cm == echo_distance_cm(sorted_echoes(samples@)[MEDIAN_INDEX as int] as nat),
        cm == echo_reading_cm(samples@),
{
    let m = median_echo_micros(samples);
    echo_to_cm(m)
}

/// The slider position in percent of the ADC's 12-bit range, rounded down
/// (`4095` reads as `100`).
pub fn adc_percent(raw: u16) -> (p: i32)
    ensures
        p == raw * 100 / 4095,
{
    let wide: i32 = raw as i32;
    wide * 100 / 4095
}

} // verus!
