//! An in-memory variant of the summary store: per-provider buckets keyed
//! by the minute a payment landed in, kept sorted, queried over inclusive
//! bucket ranges. Amounts are held as 64-bit patterns, appended in
//! arrival order within each bucket.

use vstd::prelude::*;

verus! {

/// Which provider a record belongs to.
#[derive(Debug, Clone, Copy, PartialEq, Eq, Hash, Structural)]
pub enum ProviderName {
    Default,
    Fallback,
}

/// One bucket's totals: how many payments and their amount patterns.
#[derive(Debug, Clone)]
pub struct Stats {
    pub total_requests: u64,
    pub amounts: Vec<u64>,
}

impl Stats {
    /// The request count is exactly the number of recorded amounts.
    pub open spec fn wf(&self) -> bool {
        self.total_requests == self.amounts@.len()
    }
}

/// The bucket list of one provider, abstracted to its keys and amount
/// sequences.
pub open spec fn buckets_view(bs: Seq<(u64, Stats)>) -> Seq<(u64, Seq<u64>)> {
    bs.map_values(|p: (u64, Stats)| (p.0, p.1.amounts@))
}

/// Every bucket key is the start of a minute and the keys ascend
/// strictly; every bucket's count matches its amounts.
pub open spec fn buckets_wf(bs: Seq<(u64, Stats)>) -> bool {
    &&& forall|i: int| 0 <= i < bs.len() ==> (#[trigger] bs[i].0) % 60 == 0
    &&& forall|i: int, j: int| 0 <= i < j < bs.len() ==> (#[trigger] bs[i].0) < (#[trigger] bs[j].0)
    &&& forall|i: int| 0 <= i < bs.len() ==> (#[trigger] bs[i].1).wf()
}

/// Inserting an amount into a bucket list: a new bucket appears at its
/// sorted place, an existing one grows by the amount.
pub open spec fn spec_bucket_insert(v: Seq<(u64, Seq<u64>)>, b: u64, bits: u64) -> Seq<
    (u64, Seq<u64>),
>
    decreases v.len(),
{
    if v.len() == 0 {
        seq![(b, seq![bits])]
    } else if v[0].0 == b {
        seq![(b, v[0].1.push(bits))] + v.skip(1)
    } else if b < v[0].0 {
        seq![(b, seq![bits])] + v
    } else {
        seq![v[0]] + spec_bucket_insert(v.skip(1), b, bits)
    }
}

/// The amounts of the buckets whose keys lie in the inclusive range, in
/// bucket order.
pub open spec fn spec_range_amounts(v: Seq<(u64, Seq<u64>)>, from: u64, to: u64) -> Seq<u64>
    decreases v.len(),
{
    if v.len() == 0 {
        Seq::empty()
    } else {
        (if from <= v[0].0 && v[0].0 <= to {
            v[0].1
        } else {
            Seq::empty()
        }) + spec_range_amounts(v.skip(1), from, to)
    }
}

/// The start of the minute `secs` falls in.
pub fn minute_bucket(secs: u64) -> (r: u64)
    ensures
        r == 60 * ((secs as int) / 60),
        r % 60 == 0,
        r <= secs < r + 60,
{
    proof {
        vstd::arithmetic::div_mod::lemma_fundamental_div_mod(secs as int, 60);
        assert((60 * ((secs as int) / 60)) % 60 == 0) by (nonlinear_arith);
    }
    (secs / 60) * 60
}

/// A sorted bucket store for the two providers.
#[derive(Debug, Clone)]
pub struct SummaryStore {
    default_buckets: Vec<(u64, Stats)>,
    fallback_buckets: Vec<(u64, Stats)>,
}

impl SummaryStore {
    /// The buckets of one provider.
    pub closed spec fn buckets_of(&self, p: ProviderName) -> Seq<(u64, Stats)> {
        match p {
            ProviderName::Default => self.default_buckets@,
            ProviderName::Fallback => self.fallback_buckets@,
        }
    }

    /// Both providers' bucket lists are well formed.
    pub open spec fn wf(&self) -> bool {
        buckets_wf(self.buckets_of(ProviderName::Default)) && buckets_wf(
            self.buckets_of(ProviderName::Fallback),
        )
    }

    /// A store with no records.
    pub fn new() -> (r: SummaryStore)
        ensures
            r.wf(),
            r.buckets_of(ProviderName::Default).len() == 0,
            r.buckets_of(ProviderName::Fallback).len() == 0,
    {
        SummaryStore { default_buckets: Vec::new(), fallback_buckets: Vec::new() }
    }

    /// Records one amount for a provider at a moment in time: it lands
    /// in the bucket of that minute, which is created at its sorted
    /// place if new.
    pub fn insert(&mut self, provider: ProviderName, time_secs: u64, amount_bits: u64)
        requires
            old(self).wf(),
        ensures
            final(self).wf(),
            buckets_view(final(self).buckets_of(provider)) == spec_bucket_insert(
                buckets_view(old(self).buckets_of(provider)),
                (60 * ((time_secs as int) / 60)) as u64,
                amount_bits,
            ),
            forall|q: ProviderName|
                q != provider ==> final(self).buckets_of(q) == old(self).buckets_of(q),
    {
        let b = minute_bucket(time_secs);
        match provider {
            ProviderName::Default => bucket_insert(&mut self.default_buckets, b, amount_bits),
            ProviderName::Fallback => bucket_insert(&mut self.fallback_buckets, b, amount_bits),
        }
    }

    /// Sums each provider over the inclusive bucket range: the count and
    /// the amounts of every bucket whose minute lies within it.
    pub fn query(&self, from_secs: u64, to_secs: u64) -> (r: (Stats, Stats))
        ensures
            r.0.wf(),
            r.1.wf(),
            r.0.amounts@ == spec_range_amounts(
                buckets_view(self.buckets_of(ProviderName::Default)),
                from_secs,
                to_secs,
            ),
            r.1.amounts@ == spec_range_amounts(
                buckets_view(self.buckets_of(ProviderName::Fallback)),
                from_secs,
                to_secs,
            ),
    {
        let d = concat_range(&self.default_buckets, from_secs, to_secs);
        let f = concat_range(&self.fallback_buckets, from_secs, to_secs);
        (d, f)
    }
}

/// Where `b` belongs in a sorted bucket list: the first position whose
/// key is not below `b`.
fn find_slot(bs: &Vec<(u64, Stats)>, b: u64) -> (pos: usize)
    requires
        buckets_wf(bs@),
    ensures
        0 <= pos <= bs@.len(),
        forall|k: int| 0 <= k < pos ==> (#[trigger] bs@[k].0) < b,
        pos < bs@.len() ==> bs@[pos as int].0 >= b,
{
    let n = bs.len();
    let mut pos: usize = 0;
    while pos < n
        invariant
            0 <= pos <= n,
            n == bs@.len(),
            forall|k: int| 0 <= k < pos ==> (#[trigger] bs@[k].0) < b,
        decreases n - pos,
    {
        if bs[pos].0 >= b {
            return pos;
        }
        pos = pos + 1;
    }
    pos
}

/// The recursive insertion, located: at `pos`, it either grows the
/// matching bucket or splices a fresh one in.
proof fn lemma_bucket_insert_at(v: Seq<(u64, Seq<u64>)>, b: u64, bits: u64, pos: int)
    requires
        0 <= pos <= v.len(),
        forall|k: int| 0 <= k < pos ==> (#[trigger] v[k].0) < b,
        pos < v.len() ==> v[pos].0 >= b,
    ensures
        pos < v.len() && v[pos].0 == b ==> spec_bucket_insert(v, b, bits) == v.update(
            pos,
            (b, v[pos].1.push(bits)),
        ),
        !(pos < v.len() && v[pos].0 == b) ==> spec_bucket_insert(v, b, bits) == v.subrange(0, pos)
            + seq![(b, seq![bits])] + v.subrange(pos, v.len() as int),
    decreases v.len(),
{
    if v.len() == 0 {
        assert(spec_bucket_insert(v, b, bits) =~= v.subrange(0, 0) + seq![(b, seq![bits])]
            + v.subrange(0, 0));
    } else if pos == 0 {
        if v[0].0 == b {
            assert(spec_bucket_insert(v, b, bits) == seq![(b, v[0].1.push(bits))] + v.skip(1));
            assert(seq![(b, v[0].1.push(bits))] + v.skip(1) =~= v.update(
                0,
                (b, v[0].1.push(bits)),
            ));
        } else {
            assert(b < v[0].0);
            assert(spec_bucket_insert(v, b, bits) == seq![(b, seq![bits])] + v);
            assert(seq![(b, seq![bits])] + v =~= v.subrange(0, 0) + seq![(b, seq![bits])]
                + v.subrange(0, v.len() as int));
        }
    } else {
        assert(v[0].0 < b);
        assert forall|k: int| 0 <= k < pos - 1 implies (#[trigger] v.skip(1)[k].0) < b by {
            assert(v.skip(1)[k] == v[k + 1]);
        }
        assert(pos - 1 < v.skip(1).len() ==> v.skip(1)[pos - 1].0 >= b);
        lemma_bucket_insert_at(v.skip(1), b, bits, pos - 1);
        assert(spec_bucket_insert(v, b, bits) == seq![v[0]] + spec_bucket_insert(
            v.skip(1),
            b,
            bits,
        ));
        if pos < v.len() && v[pos].0 == b {
            assert(v.skip(1)[pos - 1] == v[pos]);
            assert(seq![v[0]] + v.skip(1).update(pos - 1, (b, v[pos].1.push(bits))) =~= v.update(
                pos,
                (b, v[pos].1.push(bits)),
            ));
        } else {
            assert(seq![v[0]] + (v.skip(1).subrange(0, pos - 1) + seq![(b, seq![bits])]
                + v.skip(1).subrange(pos - 1, v.skip(1).len() as int)) =~= v.subrange(0, pos)
                + seq![(b, seq![bits])] + v.subrange(pos, v.len() as int));
        }
    }
}

/// Inserts one amount into a sorted bucket list.
fn bucket_insert(bs: &mut Vec<(u64, Stats)>, b: u64, bits: u64)
    requires
        buckets_wf(old(bs)@),
        b % 60 == 0,
    ensures
        buckets_wf(final(bs)@),
        buckets_view(final(bs)@) == spec_bucket_insert(buckets_view(old(bs)@), b, bits),
{
    let ghost v = buckets_view(bs@);
    let pos = find_slot(bs, b);
    proof {
        assert forall|k: int| 0 <= k < pos implies (#[trigger] v[k].0) < b by {
            assert(v[k] == (bs@[k].0, bs@[k].1.amounts@));
        }
        assert(pos < v.len() ==> v[pos as int].0 >= b);
        lemma_bucket_insert_at(v, b, bits, pos as int);
    }
    if pos < bs.len() && bs[pos].0 == b {
        let (k, mut st) = bs.remove(pos);
        st.amounts.push(bits);
        let n = st.amounts.len();
        st.total_requests = n as u64;
        bs.insert(pos, (k, st));
        proof {
            assert(buckets_view(bs@) =~= v.update(pos as int, (b, v[pos as int].1.push(bits))));
            assert forall|i: int, j: int|
                0 <= i < j < bs@.len() implies (#[trigger] bs@[i].0) < (#[trigger] bs@[j].0) by {
                assert(bs@[i].0 == old(bs)@[i].0);
                assert(bs@[j].0 == old(bs)@[j].0);
            }
        }
    } else {
        let st = Stats { total_requests: 1, amounts: new_single(bits) };
        bs.insert(pos, (b, st));
        proof {
            assert(buckets_view(bs@) =~= v.subrange(0, pos as int) + seq![(b, seq![bits])]
                + v.subrange(pos as int, v.len() as int));
            assert forall|i: int, j: int|
                0 <= i < j < bs@.len() implies (#[trigger] bs@[i].0) < (#[trigger] bs@[j].0) by {
                if i < pos && j > pos {
                    assert(bs@[i].0 == old(bs)@[i].0);
                    assert(bs@[j].0 == old(bs)@[j - 1].0);
                    assert(old(bs)@[i].0 < b);
                    assert(old(bs)@[j - 1].0 >= b);
                    assert(old(bs)@[j - 1].0 != b);
                } else if i < pos && j == pos {
                    assert(bs@[i].0 == old(bs)@[i].0);
                } else if i == pos && j > pos {
                    assert(bs@[j].0 == old(bs)@[j - 1].0);
                    assert(old(bs)@[j - 1].0 >= b);
                    assert(old(bs)@[j - 1].0 != b);
                } else if j < pos {
                    assert(bs@[i].0 == old(bs)@[i].0);
                    assert(bs@[j].0 == old(bs)@[j].0);
                } else {
                    assert(bs@[i].0 == old(bs)@[i - 1].0);
                    assert(bs@[j].0 == old(bs)@[j - 1].0);
                }
            }
        }
    }
}

/// A vector holding one value.
fn new_single(bits: u64) -> (r: Vec<u64>)
    ensures
        r@ == seq![bits],
{
    let mut r: Vec<u64> = Vec::new();
    r.push(bits);
    proof {
        assert(r@ =~= seq![bits]);
    }
    r
}

/// Collects the amounts of every bucket within the inclusive range.
fn concat_range(bs: &Vec<(u64, Stats)>, from: u64, to: u64) -> (r: Stats)
    ensures
        r.wf(),
        r.amounts@ == spec_range_amounts(buckets_view(bs@), from, to),
{
    let ghost v = buckets_view(bs@);
    let n = bs.len();
    let mut acc: Vec<u64> = Vec::new();
    let mut i: usize = 0;
    proof {
        assert(v.skip(0) =~= v);
    }
    while i < n
        invariant
            0 <= i <= n,
            n == bs@.len(),
            v == buckets_view(bs@),
            acc@ + spec_range_amounts(v.skip(i as int), from, to) == spec_range_amounts(
                v,
                from,
                to,
            ),
        decreases n - i,
    {
        proof {
            assert(v.skip(i as int)[0] == v[i as int]);
            assert(v.skip(i as int).skip(1) =~= v.skip(i as int + 1));
        }
        let key = bs[i].0;
        if from <= key && key <= to {
            let ghost pre = acc@;
            let m = bs[i].1.amounts.len();
            let mut j: usize = 0;
            while j < m
                invariant
                    0 <= j <= m,
                    i < bs@.len(),
                    m == bs@[i as int].1.amounts@.len(),
                    acc@ == pre + bs@[i as int].1.amounts@.subrange(0, j as int),
                decreases m - j,
            {
                let x = bs[i].1.amounts[j];
                acc.push(x);
                proof {
                    assert(acc@ =~= pre + bs@[i as int].1.amounts@.subrange(0, j as int + 1));
                }
                j = j + 1;
            }
            proof {
                assert(bs@[i as int].1.amounts@.subrange(0, m as int) =~= bs@[i as int].1.amounts@);
                assert(v[i as int].1 == bs@[i as int].1.amounts@);
                assert(acc@ + spec_range_amounts(v.skip(i as int + 1), from, to) =~= (pre
                    + v[i as int].1) + spec_range_amounts(v.skip(i as int + 1), from, to));
                assert((pre + v[i as int].1) + spec_range_amounts(v.skip(i as int + 1), from, to)
                    =~= pre + (v[i as int].1 + spec_range_amounts(v.skip(i as int + 1), from, to)));
            }
        } else {
            proof {
                assert(spec_range_amounts(v.skip(i as int), from, to) =~= Seq::<u64>::empty()
                    + spec_range_amounts(v.skip(i as int + 1), from, to));
                assert(Seq::<u64>::empty() + spec_range_amounts(v.skip(i as int + 1), from, to)
                    =~= spec_range_amounts(v.skip(i as int + 1), from, to));
            }
        }
        i = i + 1;
    }
    proof {
        assert(v.skip(n as int) =~= Seq::<(u64, Seq<u64>)>::empty());
        assert(acc@ + Seq::<u64>::empty() =~= acc@);
    }
    let count = acc.len();
    Stats { total_requests: count as u64, amounts: acc }
}

} // verus!
