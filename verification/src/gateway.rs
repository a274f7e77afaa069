//! The gateway's decisions: turning a summary query string into an
//! inclusive range with the documented defaults, and spreading payment
//! frames over the dispatcher instances round-robin.

use vstd::prelude::*;
use vstd::string::*;

use crate::text::{match_at, matches_at};
use crate::types::DBRead;

verus! {

/// No ampersand anywhere in the segment.
pub open spec fn no_amp(s: Seq<char>) -> bool {
    forall|i: int| 0 <= i < s.len() ==> s[i] != '&'
}

/// Joins segments with `&` — the inverse of splitting a query string.
pub open spec fn spec_join_amp(parts: Seq<Seq<char>>) -> Seq<char>
    decreases parts.len(),
{
    if parts.len() == 0 {
        Seq::empty()
    } else if parts.len() == 1 {
        parts[0]
    } else {
        parts[0] + seq!['&'] + spec_join_amp(parts.skip(1))
    }
}

proof fn lemma_join_push(parts: Seq<Seq<char>>, q: Seq<char>)
    ensures
        parts.len() == 0 ==> spec_join_amp(parts.push(q)) == q,
        parts.len() > 0 ==> spec_join_amp(parts.push(q)) == spec_join_amp(parts) + seq!['&'] + q,
    decreases parts.len(),
{
    if parts.len() == 0 {
        assert(parts.push(q)[0] == q);
    } else {
        let p2 = parts.push(q);
        assert(p2.skip(1) =~= parts.skip(1).push(q));
        lemma_join_push(parts.skip(1), q);
        if parts.len() == 1 {
            assert(spec_join_amp(p2) == p2[0] + seq!['&'] + spec_join_amp(p2.skip(1)));
            assert(p2[0] == parts[0]);
            assert(spec_join_amp(p2.skip(1)) == q);
        } else {
            assert(spec_join_amp(p2) == p2[0] + seq!['&'] + spec_join_amp(p2.skip(1)));
            assert(spec_join_amp(parts) + seq!['&'] + q == parts[0] + seq!['&'] + (spec_join_amp(
                parts.skip(1),
            ) + seq!['&'] + q)) by {
                assert(spec_join_amp(parts) == parts[0] + seq!['&'] + spec_join_amp(parts.skip(1)));
                assert((parts[0] + seq!['&'] + spec_join_amp(parts.skip(1))) + seq!['&'] + q =~= parts[0]
                    + seq!['&'] + (spec_join_amp(parts.skip(1)) + seq!['&'] + q));
            }
        }
    }
}

/// Returns the position of the next `&` at or after `i`, or the end.
fn scan_to_amp(s: &str, i: usize) -> (j: usize)
    requires
        i <= s@.len(),
    ensures
        i <= j <= s@.len(),
        forall|k: int| i <= k < j ==> s@[k] != '&',
        j < s@.len() ==> s@[j as int] == '&',
{
    let n = s.unicode_len();
    let mut j: usize = i;
    while j < n
        invariant
            i <= j <= n,
            n == s@.len(),
            forall|k: int| i <= k < j ==> s@[k] != '&',
        decreases n - j,
    {
        if s.get_char(j) == '&' {
            return j;
        }
        j = j + 1;
    }
    j
}

/// Splits a query string on `&`. Joining the segments back with `&`
/// restores the input, and no segment holds an ampersand.
pub fn split_amp(s: &str) -> (parts: Vec<String>)
    ensures
        parts@.len() >= 1,
        spec_join_amp(parts@.map_values(|p: String| p@)) == s@,
        forall|i: int| 0 <= i < parts@.len() ==> no_amp(#[trigger] parts@[i]@),
{
    let n = s.unicode_len();
    let mut parts: Vec<String> = Vec::new();
    let mut start: usize = 0;
    loop
        invariant
            start <= n,
            n == s@.len(),
            parts@.len() == 0 ==> start == 0,
            parts@.len() > 0 ==> start >= 1 && spec_join_amp(parts@.map_values(|p: String| p@))
                + seq!['&'] == s@.subrange(0, start as int),
            forall|i: int| 0 <= i < parts@.len() ==> no_amp(#[trigger] parts@[i]@),
        decreases n - start + 1,
    {
        let i = scan_to_amp(s, start);
        let ghost old_parts = parts@;
        let seg = String::from_str(s.substring_char(start, i));
        parts.push(seg);
        proof {
            lemma_join_push(old_parts.map_values(|p: String| p@), seg@);
            assert(parts@.map_values(|p: String| p@) =~= old_parts.map_values(|p: String| p@).push(
                seg@,
            ));
            assert(seg@ == s@.subrange(start as int, i as int));
            assert forall|k: int| 0 <= k < parts@.len() implies no_amp(#[trigger] parts@[k]@) by {
                if k < old_parts.len() {
                    assert(parts@[k] == old_parts[k]);
                } else {
                    assert(parts@[k] == seg);
                }
            }
        }
        if i == n {
            proof {
                let views = parts@.map_values(|p: String| p@);
                if old_parts.len() == 0 {
                    assert(spec_join_amp(views) == seg@);
                    assert(seg@ =~= s@);
                } else {
                    assert(spec_join_amp(views) == spec_join_amp(
                        old_parts.map_values(|p: String| p@),
                    ) + seq!['&'] + seg@);
                    assert(spec_join_amp(old_parts.map_values(|p: String| p@)) + seq!['&']
                        == s@.subrange(0, start as int));
                    assert(spec_join_amp(views) =~= s@.subrange(0, start as int) + s@.subrange(
                        start as int,
                        n as int,
                    ));
                    assert(s@.subrange(0, start as int) + s@.subrange(start as int, n as int)
                        =~= s@);
                }
            }
            return parts;
        }
        proof {
            let views = parts@.map_values(|p: String| p@);
            assert(s@[i as int] == '&');
            if old_parts.len() == 0 {
                assert(spec_join_amp(views) == seg@);
                assert(seg@ + seq!['&'] =~= s@.subrange(0, (i + 1) as int));
            } else {
                assert(spec_join_amp(views) == spec_join_amp(old_parts.map_values(|p: String| p@))
                    + seq!['&'] + seg@);
                assert(spec_join_amp(views) + seq!['&'] =~= (s@.subrange(0, start as int)
                    + s@.subrange(start as int, i as int)) + seq!['&']);
                assert((s@.subrange(0, start as int) + s@.subrange(start as int, i as int)) + seq![
                    '&',
                ] =~= s@.subrange(0, (i + 1) as int));
            }
        }
        start = i + 1;
    }
}

/// The value of the first segment that starts with `key`, with the key
/// stripped.
pub open spec fn spec_first_value(segs: Seq<Seq<char>>, key: Seq<char>) -> Option<Seq<char>>
    decreases segs.len(),
{
    if segs.len() == 0 {
        Option::None
    } else if matches_at(segs[0], 0, key) {
        Option::Some(segs[0].skip(key.len() as int))
    } else {
        spec_first_value(segs.skip(1), key)
    }
}

/// Finds the first segment that starts with `key` and returns the rest
/// of that segment.
pub fn first_value(parts: &Vec<String>, key: &str) -> (r: Option<String>)
    ensures
        match r {
            Option::Some(v) => spec_first_value(parts@.map_values(|p: String| p@), key@)
                == Option::Some(v@),
            Option::None => spec_first_value(parts@.map_values(|p: String| p@), key@)
                is None,
        },
{
    let ghost views = parts@.map_values(|p: String| p@);
    let m = key.unicode_len();
    let n = parts.len();
    let mut i: usize = 0;
    proof {
        assert(views.skip(0) =~= views);
    }
    while i < n
        invariant
            0 <= i <= n,
            n == parts@.len(),
            m == key@.len(),
            views == parts@.map_values(|p: String| p@),
            spec_first_value(views, key@) == spec_first_value(views.skip(i as int), key@),
        decreases n - i,
    {
        let seg = &parts[i];
        proof {
            assert(views.skip(i as int)[0] == views[i as int]);
            assert(views.skip(i as int).skip(1) =~= views.skip(i as int + 1));
        }
        if match_at(seg.as_str(), 0, key) {
            let sn = seg.as_str().unicode_len();
            let v = String::from_str(seg.as_str().substring_char(m, sn));
            proof {
                assert(v@ =~= views[i as int].skip(m as int));
            }
            return Some(v);
        }
        i = i + 1;
    }
    proof {
        assert(views.skip(n as int) =~= Seq::<Seq<char>>::empty());
    }
    None
}

/// The whole representable span of timestamps, used when a bound is
/// missing: the summary then covers the entire store.
pub fn resolve_range(from: Option<String>, to: Option<String>) -> (r: DBRead)
    ensures
        match from {
            Option::Some(f) => r.from@ == f@,
            Option::None => r.from@ == "0000-01-01T00:00:00Z"@,
        },
        match to {
            Option::Some(t) => r.to@ == t@,
            Option::None => r.to@ == "9999-12-31T23:59:59Z"@,
        },
{
    let f = match from {
        Some(f) => f,
        None => String::from_str("0000-01-01T00:00:00Z"),
    };
    let t = match to {
        Some(t) => t,
        None => String::from_str("9999-12-31T23:59:59Z"),
    };
    DBRead { from: f, to: t }
}

/// Turns a raw summary query string into the inclusive range to read:
/// the first `from=` and `to=` parameters, or the documented defaults.
pub fn resolve_summary_query(q: &str) -> (r: DBRead)
    ensures
        exists|parts: Seq<Seq<char>>|
            {
                &&& #[trigger] spec_join_amp(parts) == q@
                &&& parts.len() >= 1
                &&& forall|i: int| 0 <= i < parts.len() ==> no_amp(#[trigger] parts[i])
                &&& r.from@ == match spec_first_value(parts, "from="@) {
                    Option::Some(v) => v,
                    Option::None => "0000-01-01T00:00:00Z"@,
                }
                &&& r.to@ == match spec_first_value(parts, "to="@) {
                    Option::Some(v) => v,
                    Option::None => "9999-12-31T23:59:59Z"@,
                }
            },
{
    let parts = split_amp(q);
    let from = first_value(&parts, "from=");
    let to = first_value(&parts, "to=");
    let r = resolve_range(from, to);
    proof {
        let views = parts@.map_values(|p: String| p@);
        assert(spec_join_amp(views) == q@);
    }
    r
}

/// The round-robin pick: the counter's value modulo the number of
/// dispatcher instances.
pub fn pick_backend(counter: u64, n: u64) -> (r: u64)
    requires
        n > 0,
    ensures
        r == counter % n,
        r < n,
{
    counter % n
}

/// With two instances, consecutive counters land on different ones:
/// writes alternate.
pub proof fn lemma_round_robin_alternates(c: int)
    requires
        c >= 0,
    ensures
        c % 2 != (c + 1) % 2,
{
    assert(c % 2 != (c + 1) % 2) by (nonlinear_arith)
        requires
            c >= 0,
    ;
}

} // verus!

verus! {

/// Splitting on `&` is unambiguous: two ampersand-free segmentations
/// that join to the same query string are the same segmentation. The
/// range `resolve_summary_query` returns is therefore determined by the
/// query string alone.
pub proof fn lemma_split_unique(p1: Seq<Seq<char>>, p2: Seq<Seq<char>>)
    requires
        p1.len() >= 1,
        p2.len() >= 1,
        forall|i: int| 0 <= i < p1.len() ==> no_amp(#[trigger] p1[i]),
        forall|i: int| 0 <= i < p2.len() ==> no_amp(#[trigger] p2[i]),
        spec_join_amp(p1) == spec_join_amp(p2),
    ensures
        p1 == p2,
    decreases p1.len(),
{
    let s = spec_join_amp(p1);
    if p1.len() == 1 && p2.len() == 1 {
        assert(p1 =~= p2);
    } else if p1.len() == 1 {
        let b = p2[0];
        assert(s == b + seq!['&'] + spec_join_amp(p2.skip(1)));
        assert(s[b.len() as int] == '&');
        assert(s == p1[0]);
        assert(no_amp(p1[0]));
        assert(false);
    } else if p2.len() == 1 {
        let a = p1[0];
        assert(s == a + seq!['&'] + spec_join_amp(p1.skip(1)));
        assert(s[a.len() as int] == '&');
        assert(s == p2[0]);
        assert(no_amp(p2[0]));
        assert(false);
    } else {
        let a = p1[0];
        let b = p2[0];
        let ja = spec_join_amp(p1.skip(1));
        let jb = spec_join_amp(p2.skip(1));
        assert(s == a + seq!['&'] + ja);
        assert(s == b + seq!['&'] + jb);
        assert(s[a.len() as int] == '&');
        assert(s[b.len() as int] == '&');
        assert forall|k: int| 0 <= k < a.len() implies s[k] == a[k] by {}
        assert forall|k: int| 0 <= k < b.len() implies s[k] == b[k] by {}
        if a.len() < b.len() {
            assert(s[a.len() as int] == b[a.len() as int]);
            assert(false);
        }
        if b.len() < a.len() {
            assert(s[b.len() as int] == a[b.len() as int]);
            assert(false);
        }
        assert(a =~= b);
        assert(ja =~= s.skip(a.len() as int + 1));
        assert(jb =~= s.skip(b.len() as int + 1));
        assert forall|i: int| 0 <= i < p1.skip(1).len() implies no_amp(
            #[trigger] p1.skip(1)[i],
        ) by {
            assert(p1.skip(1)[i] == p1[i + 1]);
        }
        assert forall|i: int| 0 <= i < p2.skip(1).len() implies no_amp(
            #[trigger] p2.skip(1)[i],
        ) by {
            assert(p2.skip(1)[i] == p2[i + 1]);
        }
        lemma_split_unique(p1.skip(1), p2.skip(1));
        assert forall|i: int| 0 <= i < p1.len() implies p1[i] == p2[i] by {
            if i > 0 {
                assert(p1.skip(1)[i - 1] == p1[i]);
                assert(p2.skip(1)[i - 1] == p2[i]);
            }
        }
        assert(p1 =~= p2);
    }
}

} // verus!
