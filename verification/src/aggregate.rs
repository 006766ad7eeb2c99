//! Grouping measurements by interval start and trimming the
//! trailing run of all-zero intervals.

use vstd::prelude::*;

use crate::measurement::Measurement;

verus! {

/// One timestamp bucket: every measurement whose interval starts at
/// this timestamp, in arrival order.
#[derive(Clone, Debug)]
pub struct Bucket {
    pub timestamp: i64,
    pub measurements: Vec<Measurement>,
}

/// The aggregation: buckets ordered by strictly ascending
/// timestamp.
#[derive(Clone, Debug)]
pub struct Aggregation {
    pub buckets: Vec<Bucket>,
}

/// The predicate grouping measurements into the bucket at `ts`.
pub open spec fn at_ts(ts: i64) -> spec_fn(Measurement) -> bool {
    |m: Measurement| m.timestamp == ts
}

/// Whether every measurement of a bucket has a numerically zero
/// field value.
pub open spec fn bucket_all_zero(b: Bucket) -> bool {
    forall|i: int|
        0 <= i < b.measurements@.len() ==> #[trigger] b.measurements@[i].field_value.spec_is_zero()
}

/// Bucket timestamps are strictly ascending.
pub open spec fn sorted_buckets(buckets: Seq<Bucket>) -> bool {
    forall|i: int, j: int|
        0 <= i < j < buckets.len() ==> #[trigger] buckets[i].timestamp
            < #[trigger] buckets[j].timestamp
}

/// Whether some bucket carries the given timestamp.
pub open spec fn spec_has_bucket(buckets: Seq<Bucket>, ts: i64) -> bool {
    exists|j: int| 0 <= j < buckets.len() && #[trigger] buckets[j].timestamp == ts
}

/// The buckets hold exactly the measurements of `source`: each
/// bucket carries the measurements of its timestamp in arrival
/// order, and every measurement's timestamp has a bucket.
pub open spec fn buckets_group(buckets: Seq<Bucket>, source: Seq<Measurement>) -> bool {
    &&& forall|j: int|
        0 <= j < buckets.len() ==> (#[trigger] buckets[j]).measurements@ == source.filter(
            at_ts(buckets[j].timestamp),
        )
    &&& forall|i: int|
        0 <= i < source.len() ==> spec_has_bucket(buckets, (#[trigger] source[i]).timestamp)
}

impl Aggregation {
    /// Bucket timestamps are strictly ascending.
    pub open spec fn wf(self) -> bool {
        sorted_buckets(self.buckets@)
    }

    /// The aggregation holds exactly the measurements of `source`.
    pub open spec fn groups(self, source: Seq<Measurement>) -> bool {
        buckets_group(self.buckets@, source)
    }
}

/// Filtering a sequence extended by one element keeps the old
/// filtering, extended by the element when it matches.
proof fn lemma_filter_push<A>(s: Seq<A>, pred: spec_fn(A) -> bool, x: A)
    ensures
        s.push(x).filter(pred) == (if pred(x) {
            s.filter(pred).push(x)
        } else {
            s.filter(pred)
        }),
{
    reveal(Seq::filter);
    assert(s.push(x).drop_last() =~= s);
    assert(s.push(x).last() == x);
}

/// A sequence none of whose elements matches filters to the empty
/// sequence.
proof fn lemma_filter_none_empty<A>(s: Seq<A>, pred: spec_fn(A) -> bool)
    requires
        forall|i: int| 0 <= i < s.len() ==> !pred(s[i]),
    ensures
        s.filter(pred) == Seq::<A>::empty(),
    decreases s.len(),
{
    reveal(Seq::filter);
    if s.len() > 0 {
        assert(forall|i: int| 0 <= i < s.drop_last().len() ==> s.drop_last()[i] == s[i]);
        lemma_filter_none_empty(s.drop_last(), pred);
    }
}

/// Extending a grouped source with a measurement of an already
/// bucketed timestamp keeps the grouping, once that bucket is
/// extended in place.
proof fn lemma_group_step_existing(
    old_b: Seq<Bucket>,
    new_b: Seq<Bucket>,
    nb: Bucket,
    prefix: Seq<Measurement>,
    m: Measurement,
    idx: int,
)
    requires
        0 <= idx < old_b.len(),
        old_b[idx].timestamp == m.timestamp,
        nb.timestamp == m.timestamp,
        nb.measurements@ == old_b[idx].measurements@.push(m),
        new_b == old_b.update(idx, nb),
        sorted_buckets(old_b),
        buckets_group(old_b, prefix),
    ensures
        sorted_buckets(new_b),
        buckets_group(new_b, prefix.push(m)),
{
    let extended = prefix.push(m);
    assert forall|a: int, b: int| 0 <= a < b < new_b.len() implies #[trigger] new_b[a].timestamp
        < #[trigger] new_b[b].timestamp by {
        assert(old_b[a].timestamp < old_b[b].timestamp);
    }
    assert forall|j: int| 0 <= j < new_b.len() implies (#[trigger] new_b[j]).measurements@
        == extended.filter(at_ts(new_b[j].timestamp)) by {
        assert(old_b[j].measurements@ == prefix.filter(at_ts(old_b[j].timestamp)));
        lemma_filter_push(prefix, at_ts(new_b[j].timestamp), m);
        if j != idx {
            if j < idx {
                assert(old_b[j].timestamp < old_b[idx].timestamp);
            } else {
                assert(old_b[idx].timestamp < old_b[j].timestamp);
            }
            assert(!(at_ts(new_b[j].timestamp)(m)));
        } else {
            assert(at_ts(new_b[j].timestamp)(m));
        }
    }
    assert forall|i: int| 0 <= i < extended.len() implies spec_has_bucket(
        new_b,
        (#[trigger] extended[i]).timestamp,
    ) by {
        if i < prefix.len() {
            assert(extended[i] == prefix[i]);
            assert(spec_has_bucket(old_b, prefix[i].timestamp));
            let j = choose|j: int|
                0 <= j < old_b.len() && #[trigger] old_b[j].timestamp == prefix[i].timestamp;
            assert(new_b[j].timestamp == extended[i].timestamp);
        } else {
            assert(extended[i] == m);
            assert(new_b[idx].timestamp == m.timestamp);
        }
    }
}

/// Extending a grouped source with a measurement of a fresh
/// timestamp keeps the grouping, once a bucket of that one
/// measurement is inserted at its ordered position.
proof fn lemma_group_step_new(
    old_b: Seq<Bucket>,
    new_b: Seq<Bucket>,
    nb: Bucket,
    prefix: Seq<Measurement>,
    m: Measurement,
    idx: int,
)
    requires
        0 <= idx <= old_b.len(),
        forall|l: int| 0 <= l < idx ==> #[trigger] old_b[l].timestamp < m.timestamp,
        idx < old_b.len() ==> old_b[idx].timestamp > m.timestamp,
        nb.timestamp == m.timestamp,
        nb.measurements@ == seq![m],
        new_b == old_b.insert(idx, nb),
        sorted_buckets(old_b),
        buckets_group(old_b, prefix),
    ensures
        sorted_buckets(new_b),
        buckets_group(new_b, prefix.push(m)),
{
    let extended = prefix.push(m);
    assert(forall|k: int| 0 <= k < idx ==> #[trigger] new_b[k] == old_b[k]);
    assert(forall|k: int| idx < k < new_b.len() ==> #[trigger] new_b[k] == old_b[k - 1]);
    assert(new_b[idx] == nb);
    // no old bucket carries the fresh timestamp
    assert forall|k: int| 0 <= k < old_b.len() implies #[trigger] old_b[k].timestamp
        != m.timestamp by {
        if k >= idx {
            if k > idx {
                assert(old_b[idx].timestamp < old_b[k].timestamp);
            }
        }
    }
    assert forall|a: int, b: int| 0 <= a < b < new_b.len() implies #[trigger] new_b[a].timestamp
        < #[trigger] new_b[b].timestamp by {
        if a != idx && b != idx {
            let aa: int = if a < idx {
                a
            } else {
                a - 1
            };
            let bb: int = if b < idx {
                b
            } else {
                b - 1
            };
            assert(old_b[aa].timestamp < old_b[bb].timestamp);
        } else if b == idx {
            assert(old_b[a].timestamp < m.timestamp);
        } else {
            // a == idx, so b lands past the insertion point
            if b - 1 > idx {
                assert(old_b[idx].timestamp < old_b[b - 1].timestamp);
            }
        }
    }
    // no measurement of the prefix carries the fresh timestamp
    assert forall|i: int| 0 <= i < prefix.len() implies !(at_ts(m.timestamp)(
        #[trigger] prefix[i],
    )) by {
        if prefix[i].timestamp == m.timestamp {
            assert(spec_has_bucket(old_b, prefix[i].timestamp));
            let j = choose|j: int|
                0 <= j < old_b.len() && #[trigger] old_b[j].timestamp == prefix[i].timestamp;
            assert(old_b[j].timestamp != m.timestamp);
        }
    }
    lemma_filter_none_empty(prefix, at_ts(m.timestamp));
    assert forall|j: int| 0 <= j < new_b.len() implies (#[trigger] new_b[j]).measurements@
        == extended.filter(at_ts(new_b[j].timestamp)) by {
        lemma_filter_push(prefix, at_ts(new_b[j].timestamp), m);
        if j == idx {
            assert(at_ts(m.timestamp)(m));
            assert(nb.measurements@ =~= Seq::<Measurement>::empty().push(m));
        } else {
            let jj: int = if j < idx {
                j
            } else {
                j - 1
            };
            assert(new_b[j] == old_b[jj]);
            assert(old_b[jj].measurements@ == prefix.filter(at_ts(old_b[jj].timestamp)));
            assert(old_b[jj].timestamp != m.timestamp);
            assert(!(at_ts(new_b[j].timestamp)(m)));
        }
    }
    assert forall|i: int| 0 <= i < extended.len() implies spec_has_bucket(
        new_b,
        (#[trigger] extended[i]).timestamp,
    ) by {
        if i < prefix.len() {
            assert(extended[i] == prefix[i]);
            assert(spec_has_bucket(old_b, prefix[i].timestamp));
            let j = choose|j: int|
                0 <= j < old_b.len() && #[trigger] old_b[j].timestamp == prefix[i].timestamp;
            let jj: int = if j < idx {
                j
            } else {
                j + 1
            };
            assert(new_b[jj].timestamp == extended[i].timestamp);
        } else {
            assert(extended[i] == m);
            assert(new_b[idx].timestamp == m.timestamp);
        }
    }
}

/// The position a timestamp belongs at: the index of the first
/// bucket whose timestamp is not below `ts`.
fn find_slot(buckets: &Vec<Bucket>, ts: i64) -> (idx: usize)
    ensures
        idx <= buckets@.len(),
        forall|l: int| 0 <= l < idx ==> #[trigger] buckets@[l].timestamp < ts,
        idx < buckets@.len() ==> buckets@[idx as int].timestamp >= ts,
{
    let n = buckets.len();
    let mut j: usize = 0;
    while j < n
        invariant
            j <= n,
            n == buckets@.len(),
            forall|l: int| 0 <= l < j ==> #[trigger] buckets@[l].timestamp < ts,
        decreases n - j,
    {
        if buckets[j].timestamp >= ts {
            return j;
        }
        j += 1;
    }
    n
}

/// Groups measurements by their timestamp: the result's buckets are
/// ordered by ascending timestamp, and each holds the measurements
/// of its timestamp in arrival order.
pub fn aggregate(measurements: Vec<Measurement>) -> (r: Aggregation)
    ensures
        r.wf(),
        r.groups(measurements@),
{
    let ghost all = measurements@;
    // reverse once so that popping yields the measurements in
    // arrival order without cloning them
    let mut stack = measurements;
    let mut rev: Vec<Measurement> = Vec::new();
    while stack.len() > 0
        invariant
            rev@.len() + stack@.len() == all.len(),
            forall|k: int| 0 <= k < rev@.len() ==> rev@[k] == all[all.len() - 1 - k],
            forall|k: int| 0 <= k < stack@.len() ==> stack@[k] == all[k],
        decreases stack@.len(),
    {
        let m = stack.pop().unwrap();
        rev.push(m);
    }
    let mut agg = Aggregation { buckets: Vec::new() };
    proof {
        assert(all.take(0) =~= Seq::<Measurement>::empty());
    }
    let ghost done = 0int;
    while rev.len() > 0
        invariant
            0 <= done <= all.len(),
            rev@.len() == all.len() - done,
            forall|k: int| 0 <= k < rev@.len() ==> rev@[k] == all[all.len() - 1 - k],
            agg.wf(),
            agg.groups(all.take(done)),
        decreases rev@.len(),
    {
        let ghost prefix = all.take(done);
        let ghost extended = all.take(done + 1);
        let m = rev.pop().unwrap();
        proof {
            assert(m == all[done]);
            assert(extended =~= prefix.push(all[done]));
        }
        let ts = m.timestamp;
        let len = agg.buckets.len();
        let idx = find_slot(&agg.buckets, ts);
        let ghost old_buckets = agg.buckets@;
        let ghost mspec = m;
        if idx < len && agg.buckets[idx].timestamp == ts {
            // an existing bucket takes the measurement
            let mut bucket = agg.buckets.remove(idx);
            bucket.measurements.push(m);
            let ghost nb = bucket;
            agg.buckets.insert(idx, bucket);
            proof {
                assert(agg.buckets@ =~= old_buckets.update(idx as int, nb));
                lemma_group_step_existing(
                    old_buckets,
                    agg.buckets@,
                    nb,
                    prefix,
                    mspec,
                    idx as int,
                );
            }
        } else {
            // no bucket carries this timestamp yet
            let bucket = Bucket { timestamp: ts, measurements: vec![m] };
            let ghost nb = bucket;
            agg.buckets.insert(idx, bucket);
            proof {
                assert(nb.measurements@ =~= seq![mspec]);
                if idx < len {
                    assert(old_buckets[idx as int].timestamp > ts);
                }
                lemma_group_step_new(old_buckets, agg.buckets@, nb, prefix, mspec, idx as int);
            }
        }
        proof {
            done = done + 1;
        }
    }
    proof {
        assert(all.take(all.len() as int) =~= all);
    }
    agg
}

/// Aggregation is timestamp-stable: two measurements of the source
/// with equal timestamps land in one and the same bucket, whatever
/// resources they came from.  (That iteration yields strictly
/// ascending timestamps is `wf` itself.)
pub proof fn lemma_aggregation_timestamp_stable(
    agg: Aggregation,
    source: Seq<Measurement>,
    i1: int,
    i2: int,
)
    requires
        agg.wf(),
        agg.groups(source),
        0 <= i1 < source.len(),
        0 <= i2 < source.len(),
        source[i1].timestamp == source[i2].timestamp,
    ensures
        exists|j: int|
            0 <= j < agg.buckets@.len() && (#[trigger] agg.buckets@[j]).measurements@.contains(
                source[i1],
            ) && agg.buckets@[j].measurements@.contains(source[i2]),
{
    let ts = source[i1].timestamp;
    assert(spec_has_bucket(agg.buckets@, ts));
    let j = choose|j: int|
        0 <= j < agg.buckets@.len() && #[trigger] agg.buckets@[j].timestamp == ts;
    assert(agg.buckets@[j].measurements@ == source.filter(at_ts(ts)));
    assert(at_ts(ts)(source[i1]));
    assert(at_ts(ts)(source[i2]));
    source.lemma_filter_contains(at_ts(ts), i1);
    source.lemma_filter_contains(at_ts(ts), i2);
    assert(0 <= j < agg.buckets@.len() && agg.buckets@[j].measurements@.contains(source[i1])
        && agg.buckets@[j].measurements@.contains(source[i2]));
}

/// How many buckets survive trimming: the length of the longest
/// prefix that excludes exactly the trailing run of all-zero
/// buckets.
pub open spec fn spec_trimmed_len(s: Seq<Bucket>) -> int
    decreases s.len(),
{
    if s.len() == 0 {
        0
    } else if bucket_all_zero(s.last()) {
        spec_trimmed_len(s.drop_last())
    } else {
        s.len() as int
    }
}

/// What survives trimming is a prefix; everything removed was
/// all-zero; and the last surviving bucket, if any, is not.
pub proof fn lemma_trimmed_len_props(s: Seq<Bucket>)
    ensures
        0 <= spec_trimmed_len(s) <= s.len(),
        forall|i: int| spec_trimmed_len(s) <= i < s.len() ==> bucket_all_zero(#[trigger] s[i]),
        spec_trimmed_len(s) > 0 ==> !bucket_all_zero(s[spec_trimmed_len(s) - 1]),
    decreases s.len(),
{
    if s.len() > 0 && bucket_all_zero(s.last()) {
        lemma_trimmed_len_props(s.drop_last());
        assert(forall|i: int| 0 <= i < s.len() - 1 ==> s.drop_last()[i] == s[i]);
    }
}

/// Whether every measurement of the bucket is numerically zero.
fn is_all_zero(bucket: &Bucket) -> (r: bool)
    ensures
        r == bucket_all_zero(*bucket),
{
    let n = bucket.measurements.len();
    let mut i: usize = 0;
    while i < n
        invariant
            i <= n,
            n == bucket.measurements@.len(),
            forall|j: int|
                0 <= j < i ==> #[trigger] bucket.measurements@[j].field_value.spec_is_zero(),
        decreases n - i,
    {
        if !bucket.measurements[i].field_value.is_zero() {
            return false;
        }
        i += 1;
    }
    true
}

/// Removes the most recent contiguous run of buckets whose every
/// measurement is zero, leaving earlier zero buckets untouched.
pub fn trim_trailing_zeros(agg: Aggregation) -> (r: Aggregation)
    ensures
        r.buckets@ == agg.buckets@.take(spec_trimmed_len(agg.buckets@)),
        agg.wf() ==> r.wf(),
{
    let ghost orig = agg.buckets@;
    let mut buckets = agg.buckets;
    proof {
        assert(orig.take(orig.len() as int) =~= orig);
    }
    while buckets.len() > 0 && is_all_zero(&buckets[buckets.len() - 1])
        invariant
            buckets@.len() <= orig.len(),
            buckets@ == orig.take(buckets@.len() as int),
            spec_trimmed_len(buckets@) == spec_trimmed_len(orig),
        decreases buckets@.len(),
    {
        let ghost before = buckets@;
        buckets.pop();
        proof {
            assert forall|k: int| 0 <= k < buckets@.len() implies buckets@[k] == orig[k] by {
                assert(buckets@[k] == before[k]);
                assert(before[k] == orig.take(before.len() as int)[k]);
            }
            assert(buckets@ =~= orig.take(buckets@.len() as int));
            assert(before.drop_last() =~= buckets@);
        }
    }
    proof {
        lemma_trimmed_len_props(orig);
        if buckets@.len() > 0 {
            assert(!bucket_all_zero(buckets@.last()));
            assert(spec_trimmed_len(buckets@) == buckets@.len());
        }
        assert forall|a: int, b: int|
            sorted_buckets(orig) && 0 <= a < b < buckets@.len() implies #[trigger] buckets@[a].timestamp
            < #[trigger] buckets@[b].timestamp by {
            assert(buckets@[a] == orig[a] && buckets@[b] == orig[b]);
        }
    }
    Aggregation { buckets }
}

} // verus!
