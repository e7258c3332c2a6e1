//! The web page that the board serves, with its address filled in.
use vstd::prelude::*;
use vstd::string::StringExecFns;
use crate::text::push_char;

verus! {

/// `s` with every occurrence of `pat` replaced by `rep`, scanning from the
/// left; occurrences do not overlap.
pub open spec fn replace_all(s: Seq<char>, pat: Seq<char>, rep: Seq<char>) -> Seq<char>
    recommends
        pat.len() > 0,
    decreases s.len(),
{
    if pat.len() == 0 || s.len() < pat.len() {
        s
    } else if s.subrange(0, pat.len() as int) == pat {
        rep + replace_all(s.skip(pat.len() as int), pat, rep)
    } else {
        seq![s[0]] + replace_all(s.drop_first(), pat, rep)
    }
}

/// The mark in the page template that stands for the board's address.
pub open spec fn ip_placeholder() -> Seq<char> {
    "%%IP%%"@
}

/// The characters of `s`, in order.
fn chars_of(s: &str) -> (v: Vec<char>)
    ensures
        v@ == s@,
{
    let mut v: Vec<char> = Vec::new();
    for c in it: s.chars()
        invariant
            it.seq() == s@,
            v@ == it.seq().take(it.index() as int),
    {
        assert(it.seq().take(it.index() + 1) =~= v@.push(c));
        v.push(c);
    }
    v
}

fn occurs_at(text: &Vec<char>, i: usize, pat: &Vec<char>) -> (b: bool)
    requires
        i + pat@.len() <= text@.len(),
    ensures
        b == (text@.subrange(i as int, i + pat@.len()) == pat@),
{
    let mut j: usize = 0;
    while j < pat.len()
        invariant
            j <= pat@.len(),
            i + pat.len() <= text.len(),
            forall|k: int| 0 <= k < j ==> text@[i + k] == pat@[k],
        decreases pat.len() - j,
    {
        if text[i + j] != pat[j] {
            assert(text@.subrange(i as int, i + pat@.len())[j as int] != pat@[j as int]);
            return false;
        }
        j = j + 1;
    }
    assert(text@.subrange(i as int, i + pat@.len()) =~= pat@);
    true
}

/// `text` with every occurrence of `pat` replaced by `rep`, as `str::replace`
/// does it for a non-empty pattern.
pub fn replace_text(text: &str, pat: &str, rep: &str) -> (r: String)
    requires
        pat@.len() > 0,
    ensures
        r@ == replace_all(text@, pat@, rep@),
{
    let t = chars_of(text);
    let p = chars_of(pat);
    let mut out = String::new();
    let mut i: usize = 0;
    assert(t@.skip(0) =~= t@);
    while i < t.len()
        invariant
            i <= t@.len(),
            p@.len() > 0,
            out@ + replace_all(t@.skip(i as int), p@, rep@) == replace_all(t@, p@, rep@),
        decreases t.len() - i,
    {
        let ghost rest = t@.skip(i as int);
        if p.len() <= t.len() - i && occurs_at(&t, i, &p) {
            assert(rest.subrange(0, p@.len() as int) =~= t@.subrange(i as int, i + p@.len()));
            assert(rest.skip(p@.len() as int) =~= t@.skip(i + p@.len()));
            let ghost before = out@;
            out.append(rep);
            assert(out@ + replace_all(t@.skip(i + p@.len()), p@, rep@) =~= before + replace_all(
                rest,
                p@,
                rep@,
            ));
            i = i + p.len();
        } else {
            proof {
                if i + p@.len() <= t@.len() {
                    assert(rest.subrange(0, p@.len() as int) =~= t@.subrange(i as int, i + p@.len()));
                }
            }
            assert(rest.drop_first() =~= t@.skip(i + 1));
            let ghost before = out@;
            push_char(&mut out, t[i]);
            proof {
                if rest.len() < p@.len() {
                    assert(replace_all(rest.drop_first(), p@, rep@) == rest.drop_first());
                    assert(rest =~= seq![rest[0]] + rest.drop_first());
                }
            }
            assert(out@ + replace_all(t@.skip(i + 1), p@, rep@) =~= before + replace_all(
                rest,
                p@,
                rep@,
            ));
            i = i + 1;
        }
    }
    assert(t@.skip(i as int) =~= Seq::<char>::empty());
    assert(out@ + Seq::<char>::empty() =~= out@);
    out
}

/// The page template with the board's address put in place of every
/// `%%IP%%` mark.
pub fn fill_ip(template: &str, ip: &str) -> (page: String)
    ensures
        page@ == replace_all(template@, ip_placeholder(), ip@),
{
    proof {
        reveal_strlit("%%IP%%");
    }
    replace_text(template, "%%IP%%", ip)
}

} // verus!
