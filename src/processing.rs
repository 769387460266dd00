//! The record-level steps of the processing pipeline: grouping by tag,
//! ordering by time, per-tag downsampling, the per-series chart shape, and the
//! index plans (time windows, smoothing spans) that the numeric stages use.

use vstd::prelude::*;
use vstd::multiset::Multiset;
use crate::models::{ChartSeriesData, HistoryRecord};
use crate::order::{TextKeyed, sort_by_key, sorted_by_key, stably_sorted_from, sort_by_int_key, sorted_by_int_key, keys_of};
use crate::time::{local_epoch_ms, local_text_of_millis, naive_ms_of, parse_naive_ms};

verus! {

broadcast use vstd::seq_lib::to_multiset_contains;

impl TextKeyed for HistoryRecord {
    open spec fn key_of(&self) -> Seq<char> {
        self.date_time@
    }

    fn key_text(&self) -> (r: &str) {
        self.date_time.as_str()
    }
}

impl TextKeyed for ChartSeriesData {
    open spec fn key_of(&self) -> Seq<char> {
        self.tag_name@
    }

    fn key_text(&self) -> (r: &str) {
        self.tag_name.as_str()
    }
}

/// The milliseconds of a record timestamp: `%Y-%m-%dT%H:%M:%S%.3f`, or else
/// `%Y-%m-%dT%H:%M:%S`.
pub open spec fn timestamp_ms_of(s: Seq<char>) -> Option<i64> {
    match naive_ms_of(s, "%Y-%m-%dT%H:%M:%S%.3f"@) {
        Some(ms) => Some(ms),
        None => naive_ms_of(s, "%Y-%m-%dT%H:%M:%S"@),
    }
}

/// Reads a record timestamp as milliseconds, with or without the
/// millisecond part.
pub fn parse_timestamp_ms(date_time: &str) -> (r: Option<i64>)
    ensures
        r == timestamp_ms_of(date_time@),
{
    match parse_naive_ms(date_time, "%Y-%m-%dT%H:%M:%S%.3f") {
        Some(ms) => Some(ms),
        None => parse_naive_ms(date_time, "%Y-%m-%dT%H:%M:%S"),
    }
}

/// A value that belongs to a tag.
pub trait Tagged: Sized {
    spec fn tag_of(&self) -> Seq<char>;

    fn tag(&self) -> (r: &String)
        ensures
            r@ == self.tag_of(),
    ;

    fn copy(&self) -> (r: Self)
        ensures
            r == *self,
    ;
}

impl Tagged for HistoryRecord {
    open spec fn tag_of(&self) -> Seq<char> {
        self.tag_name@
    }

    fn tag(&self) -> (r: &String) {
        &self.tag_name
    }

    fn copy(&self) -> (r: Self) {
        self.duplicate()
    }
}

/// The value has tag `t`.
pub open spec fn tag_is<T: Tagged>(t: Seq<char>) -> spec_fn(T) -> bool {
    |x: T| x.tag_of() == t
}

/// The records of one tag, in input order.
pub open spec fn with_tag<T: Tagged>(s: Seq<T>, t: Seq<char>) -> Seq<T> {
    s.filter(tag_is::<T>(t))
}

/// The distinct tags, in order of first appearance.
pub open spec fn tag_order<T: Tagged>(s: Seq<T>) -> Seq<Seq<char>>
    decreases s.len(),
{
    if s.len() == 0 {
        Seq::empty()
    } else {
        let pre = tag_order(s.drop_last());
        if pre.contains(s.last().tag_of()) {
            pre
        } else {
            pre.push(s.last().tag_of())
        }
    }
}

pub proof fn lemma_with_tag_push<T: Tagged>(s: Seq<T>, x: T, t: Seq<char>)
    ensures
        with_tag(s.push(x), t) == (if x.tag_of() == t { with_tag(s, t).push(x) } else { with_tag(s, t) }),
{
    reveal_with_fuel(Seq::filter, 1);
    assert(s.push(x).drop_last() =~= s);
}

/// Every tag of `tag_order(s)` occurs once.
pub proof fn lemma_tag_order_distinct<T: Tagged>(s: Seq<T>)
    ensures
        tag_order(s).no_duplicates(),
        forall|t: Seq<char>| tag_order(s).contains(t) <==> exists|i: int| 0 <= i < s.len() && (#[trigger] s[i]).tag_of() == t,
    decreases s.len(),
{
    if s.len() > 0 {
        let pre = s.drop_last();
        lemma_tag_order_distinct(pre);
        let tp = tag_order(pre);
        let ts = tag_order(s);
        let last = s.last().tag_of();
        assert(s[s.len() - 1] == s.last());
        assert forall|t: Seq<char>| ts.contains(t) <==> exists|i: int| 0 <= i < s.len() && (#[trigger] s[i]).tag_of() == t by {
            if ts.contains(t) {
                let m = choose|m: int| 0 <= m < ts.len() && ts[m] == t;
                if m < tp.len() {
                    assert(tp[m] == t);
                    assert(tp.contains(t));
                    let i = choose|i: int| 0 <= i < pre.len() && (#[trigger] pre[i]).tag_of() == t;
                    assert(s[i] == pre[i]);
                } else {
                    assert(t == last);
                    assert(s[s.len() - 1].tag_of() == t);
                }
            }
            if exists|i: int| 0 <= i < s.len() && (#[trigger] s[i]).tag_of() == t {
                let i = choose|i: int| 0 <= i < s.len() && (#[trigger] s[i]).tag_of() == t;
                if i < s.len() - 1 {
                    assert(pre[i] == s[i]);
                    assert(tp.contains(t));
                } else {
                    assert(t == last);
                }
                if tp.contains(t) {
                    let m = choose|m: int| 0 <= m < tp.len() && tp[m] == t;
                    assert(ts[m] == tp[m]);
                } else {
                    assert(t == last);
                    assert(ts[ts.len() - 1] == t);
                }
            }
        }
        if !tp.contains(last) {
            assert forall|a: int, b: int| 0 <= a < ts.len() && 0 <= b < ts.len() && a != b implies ts[a] != ts[b] by {
                if a < tp.len() && b < tp.len() {
                } else if a < tp.len() {
                    assert(tp[a] == ts[a]);
                } else {
                    assert(tp[b] == ts[b]);
                }
            }
        }
    }
}

/// Splits records by tag: one group per tag in order of first appearance,
/// each holding that tag's records in input order.
pub fn group_by_tag<T: Tagged>(records: &Vec<T>) -> (r: Vec<Vec<T>>)
    ensures
        r@.len() == tag_order(records@).len(),
        forall|k: int| 0 <= k < r@.len() ==> (#[trigger] r@[k])@ == with_tag(records@, tag_order(records@)[k]),
{
    let mut names: Vec<String> = Vec::new();
    let mut groups: Vec<Vec<T>> = Vec::new();
    let mut i: usize = 0;
    while i < records.len()
        invariant
            0 <= i <= records@.len(),
            names@.len() == groups@.len(),
            keys_of(names@) == tag_order(records@.subrange(0, i as int)),
            forall|k: int| 0 <= k < groups@.len() ==> (#[trigger] groups@[k])@ == with_tag(records@.subrange(0, i as int), names@[k]@),
        decreases records@.len() - i,
    {
        let ghost pre = records@.subrange(0, i as int);
        let ghost next = records@.subrange(0, i + 1);
        let x = records[i].copy();
        proof {
            assert(next =~= pre.push(x));
            assert(next.drop_last() =~= pre);
        }
        let mut k: usize = 0;
        let mut found = false;
        while !found && k < names.len()
            invariant
                0 <= k <= names@.len(),
                found ==> k < names@.len() && names@[k as int]@ == x.tag_of(),
                !found ==> forall|m: int| 0 <= m < k ==> (#[trigger] names@[m])@ != x.tag_of(),
            decreases names@.len() - k + (if found { 0int } else { 1int }),
        {
            if names[k] == *x.tag() {
                found = true;
            } else {
                k = k + 1;
            }
        }
        proof {
            assert forall|t: Seq<char>| #[trigger] with_tag(next, t) == (if x.tag_of() == t { with_tag(pre, t).push(x) } else { with_tag(pre, t) }) by {
                lemma_with_tag_push(pre, x, t);
            }
        }
        if found {
            let ghost old_groups = groups@;
            let mut g = groups.remove(k);
            g.push(x);
            groups.insert(k, g);
            proof {
                assert(keys_of(names@)[k as int] == x.tag_of());
                assert(tag_order(pre).contains(x.tag_of()));
                assert forall|m: int| 0 <= m < groups@.len() implies (#[trigger] groups@[m])@ == with_tag(next, names@[m]@) by {
                    if m != k {
                        assert(groups@[m] == old_groups[m]);
                        assert(names@[m]@ != x.tag_of()) by {
                            lemma_tag_order_distinct(pre);
                            assert(keys_of(names@)[m] == names@[m]@);
                        }
                    }
                }
            }
        } else {
            let ghost old_groups = groups@;
            let ghost old_names = names@;
            let tag = x.tag().clone();
            let mut g: Vec<T> = Vec::new();
            g.push(x);
            groups.push(g);
            names.push(tag);
            proof {
                assert(!tag_order(pre).contains(x.tag_of())) by {
                    if tag_order(pre).contains(x.tag_of()) {
                        let m = choose|m: int| 0 <= m < tag_order(pre).len() && tag_order(pre)[m] == x.tag_of();
                        assert(keys_of(old_names)[m] == old_names[m]@);
                    }
                }
                assert(names@ =~= old_names.push(tag));
                assert(keys_of(names@) =~= keys_of(old_names).push(x.tag_of()));
                assert(with_tag(pre, x.tag_of()).len() == 0) by {
                    if with_tag(pre, x.tag_of()).len() > 0 {
                        let f = tag_is::<T>(x.tag_of());
                        pre.lemma_filter_pred(f, 0);
                        pre.lemma_filter_contains_rev(f, with_tag(pre, x.tag_of())[0]);
                        let j = choose|j: int| 0 <= j < pre.len() && pre[j] == with_tag(pre, x.tag_of())[0];
                        lemma_tag_order_distinct(pre);
                    }
                }
                assert(with_tag(next, x.tag_of()) =~= seq![x]);
                assert forall|m: int| 0 <= m < groups@.len() implies (#[trigger] groups@[m])@ == with_tag(next, names@[m]@) by {
                    if m < groups@.len() - 1 {
                        assert(groups@[m] == old_groups[m]);
                        assert(names@[m] == old_names[m]);
                    }
                }
            }
        }
        i = i + 1;
    }
    assert(records@.subrange(0, records@.len() as int) =~= records@);
    proof {
        assert forall|k: int| 0 <= k < groups@.len() implies (#[trigger] groups@[k])@ == with_tag(records@, tag_order(records@)[k]) by {
            assert(keys_of(names@)[k] == names@[k]@);
        }
    }
    groups
}

/// The first `n` records of `g` at positions that are multiples of `step`.
pub open spec fn every_nth(g: Seq<HistoryRecord>, step: nat, n: nat) -> Seq<HistoryRecord>
    decreases n,
{
    if n == 0 || n > g.len() {
        Seq::empty()
    } else {
        every_nth(g, step, (n - 1) as nat) + (if (n - 1) % (step as int) == 0 { seq![g[n - 1]] } else { Seq::empty() })
    }
}

/// One tag's records after downsampling to at most about `cap` points: kept
/// whole when within the cap, else every `len / cap`-th record.
pub open spec fn thinned(g: Seq<HistoryRecord>, cap: nat) -> Seq<HistoryRecord> {
    if g.len() <= cap {
        g
    } else {
        every_nth(g, g.len() / cap, g.len())
    }
}

/// The downsampled records of the first `m` tags, tag after tag.
pub open spec fn thinned_groups(s: Seq<HistoryRecord>, cap: nat, m: nat) -> Seq<HistoryRecord>
    decreases m,
{
    if m == 0 || m > tag_order(s).len() {
        Seq::empty()
    } else {
        thinned_groups(s, cap, (m - 1) as nat) + thinned(with_tag(s, tag_order(s)[m - 1]), cap)
    }
}

/// Every tag's records, downsampled.
pub open spec fn downsampled(s: Seq<HistoryRecord>, cap: nat) -> Seq<HistoryRecord> {
    thinned_groups(s, cap, tag_order(s).len())
}

/// The records of the first `m` tags of `order`, tag after tag.
pub open spec fn grouped(s: Seq<HistoryRecord>, order: Seq<Seq<char>>, m: nat) -> Seq<HistoryRecord>
    decreases m,
{
    if m == 0 || m > order.len() {
        Seq::empty()
    } else {
        grouped(s, order, (m - 1) as nat) + with_tag(s, order[m - 1])
    }
}

proof fn lemma_thinned_is_grouped(s: Seq<HistoryRecord>, cap: nat, m: nat)
    requires
        m <= tag_order(s).len(),
        forall|t: Seq<char>| #[trigger] with_tag(s, t).len() <= cap,
    ensures
        thinned_groups(s, cap, m) == grouped(s, tag_order(s), m),
    decreases m,
{
    if m > 0 {
        lemma_thinned_is_grouped(s, cap, (m - 1) as nat);
        assert(with_tag(s, tag_order(s)[m - 1]).len() <= cap);
    }
}

proof fn lemma_grouped_empty(order: Seq<Seq<char>>, m: nat)
    ensures
        grouped(Seq::<HistoryRecord>::empty(), order, m).to_multiset() =~= Multiset::<HistoryRecord>::empty(),
    decreases m,
{
    broadcast use vstd::seq_lib::lemma_multiset_commutative, vstd::multiset::group_multiset_axioms;

    reveal_with_fuel(Seq::filter, 1);
    if m > 0 && m <= order.len() {
        lemma_grouped_empty(order, (m - 1) as nat);
        assert(with_tag(Seq::<HistoryRecord>::empty(), order[m - 1]) =~= Seq::<HistoryRecord>::empty());
        assert(Seq::<HistoryRecord>::empty().to_multiset() =~= Multiset::<HistoryRecord>::empty());
    }
}

proof fn lemma_grouped_push(pre: Seq<HistoryRecord>, x: HistoryRecord, order: Seq<Seq<char>>, q: int, m: nat)
    requires
        order.no_duplicates(),
        0 <= q < order.len(),
        order[q] == x.tag_name@,
        m <= order.len(),
    ensures
        grouped(pre.push(x), order, m).to_multiset() =~= (if q < m {
            grouped(pre, order, m).to_multiset().insert(x)
        } else {
            grouped(pre, order, m).to_multiset()
        }),
    decreases m,
{
    broadcast use vstd::seq_lib::lemma_multiset_commutative, vstd::multiset::group_multiset_axioms;

    if m > 0 {
        lemma_grouped_push(pre, x, order, q, (m - 1) as nat);
        let t = order[m - 1];
        lemma_with_tag_push(pre, x, t);
        if t == x.tag_name@ {
            assert(m - 1 == q);
            vstd::seq_lib::to_multiset_build(with_tag(pre, t), x);
        } else {
            assert(m - 1 != q);
        }
    }
}

proof fn lemma_grouped_covers(s: Seq<HistoryRecord>, order: Seq<Seq<char>>)
    requires
        order.no_duplicates(),
        forall|i: int| 0 <= i < s.len() ==> order.contains(#[trigger] s[i].tag_name@),
    ensures
        grouped(s, order, order.len()).to_multiset() =~= s.to_multiset(),
    decreases s.len(),
{
    broadcast use vstd::multiset::group_multiset_axioms;

    if s.len() == 0 {
        lemma_grouped_empty(order, order.len());
        assert(s =~= Seq::<HistoryRecord>::empty());
        assert(s.to_multiset() =~= Multiset::<HistoryRecord>::empty());
    } else {
        let pre = s.drop_last();
        let x = s.last();
        assert forall|i: int| 0 <= i < pre.len() implies order.contains(#[trigger] pre[i].tag_name@) by {
            assert(pre[i] == s[i]);
        }
        lemma_grouped_covers(pre, order);
        assert(s[s.len() - 1] == x);
        assert(order.contains(x.tag_name@));
        let q = choose|q: int| 0 <= q < order.len() && order[q] == x.tag_name@;
        assert(s =~= pre.push(x));
        lemma_grouped_push(pre, x, order, q, order.len());
        vstd::seq_lib::to_multiset_build(pre, x);
    }
}

/// When no tag has more records than the cap, downsampling keeps every record
/// (it only orders them by time).
pub proof fn lemma_downsample_keeps_small_series(s: Seq<HistoryRecord>, cap: nat)
    requires
        forall|t: Seq<char>| #[trigger] with_tag(s, t).len() <= cap,
    ensures
        downsampled(s, cap).to_multiset() == s.to_multiset(),
{
    lemma_thinned_is_grouped(s, cap, tag_order(s).len());
    lemma_tag_order_distinct(s);
    assert forall|i: int| 0 <= i < s.len() implies tag_order(s).contains(#[trigger] s[i].tag_name@) by {}
    lemma_grouped_covers(s, tag_order(s));
}

/// Appends one tag's records thinned to about `cap` points.
fn push_thinned(out: &mut Vec<HistoryRecord>, g: &Vec<HistoryRecord>, cap: usize)
    requires
        cap > 0,
    ensures
        final(out)@ == old(out)@ + thinned(g@, cap as nat),
{
    let count = g.len();
    if count <= cap {
        let mut i: usize = 0;
        while i < count
            invariant
                count == g@.len(),
                0 <= i <= count,
                out@ == old(out)@ + g@.subrange(0, i as int),
            decreases count - i,
        {
            out.push(g[i].duplicate());
            i = i + 1;
            assert(out@ =~= old(out)@ + g@.subrange(0, i as int));
        }
        assert(g@.subrange(0, count as int) =~= g@);
    } else {
        let step = count / cap;
        assert(step > 0) by (nonlinear_arith)
            requires count > cap, cap > 0, step == count / cap;
        let mut i: usize = 0;
        while i < count
            invariant
                count == g@.len(),
                count > cap,
                step == count / cap,
                step > 0,
                0 <= i <= count,
                out@ == old(out)@ + every_nth(g@, step as nat, i as nat),
            decreases count - i,
        {
            if i % step == 0 {
                out.push(g[i].duplicate());
            }
            i = i + 1;
            assert(out@ =~= old(out)@ + every_nth(g@, step as nat, i as nat));
        }
    }
}

/// Downsamples each tag to about `max_points_per_tag` points by keeping every
/// `count / max_points_per_tag`-th record of a tag that has more, then orders
/// all records by timestamp, records with equal timestamps kept in the order
/// of their tags' first appearance and then their input order.
pub fn downsample(records: Vec<HistoryRecord>, max_points_per_tag: usize) -> (r: Vec<HistoryRecord>)
    requires
        max_points_per_tag > 0,
    ensures
        sorted_by_key(r@),
        stably_sorted_from(r@, downsampled(records@, max_points_per_tag as nat)),
        r@.to_multiset() == downsampled(records@, max_points_per_tag as nat).to_multiset(),
{
    let groups = group_by_tag(&records);
    let mut out: Vec<HistoryRecord> = Vec::new();
    let mut k: usize = 0;
    while k < groups.len()
        invariant
            0 <= k <= groups@.len(),
            max_points_per_tag > 0,
            groups@.len() == tag_order(records@).len(),
            forall|m: int| 0 <= m < groups@.len() ==> (#[trigger] groups@[m])@ == with_tag(records@, tag_order(records@)[m]),
            out@ == thinned_groups(records@, max_points_per_tag as nat, k as nat),
        decreases groups@.len() - k,
    {
        push_thinned(&mut out, &groups[k], max_points_per_tag);
        k = k + 1;
    }
    sort_by_key(&mut out);
    out
}

/// A chart point with the tag it belongs to.
pub struct StampedPoint {
    pub tag_name: String,
    pub timestamp_ms: i64,
    pub value_bits: u64,
}

impl Tagged for StampedPoint {
    open spec fn tag_of(&self) -> Seq<char> {
        self.tag_name@
    }

    fn tag(&self) -> (r: &String) {
        &self.tag_name
    }

    fn copy(&self) -> (r: Self) {
        StampedPoint { tag_name: self.tag_name.clone(), timestamp_ms: self.timestamp_ms, value_bits: self.value_bits }
    }
}

/// A timestamp in milliseconds, zero when there is none.
pub open spec fn stamp_or_zero(o: Option<i64>) -> i64 {
    match o {
        Some(ms) => ms,
        None => 0,
    }
}

/// Each record as a chart point: its timestamp (zero when it has none) and
/// its value, under its tag.
pub open spec fn stamped_of(records: Seq<HistoryRecord>, stamps: Seq<Option<i64>>) -> Seq<StampedPoint> {
    Seq::new(records.len(), |i: int| StampedPoint {
        tag_name: records[i].tag_name,
        timestamp_ms: stamp_or_zero(stamps[i]),
        value_bits: records[i].tag_val_bits,
    })
}

pub open spec fn points_of(s: Seq<StampedPoint>) -> Seq<(i64, u64)> {
    s.map_values(|x: StampedPoint| (x.timestamp_ms, x.value_bits))
}

/// `c` is the chart series of tag `c.tag_name` among the points `s`: it
/// holds that tag's points, ordered by time.
pub open spec fn series_of(c: ChartSeriesData, s: Seq<StampedPoint>) -> bool {
    &&& tag_order(s).contains(c.tag_name@)
    &&& sorted_by_int_key(c.data@)
    &&& c.data@.to_multiset() == points_of(with_tag(s, c.tag_name@)).to_multiset()
}

/// `r` is the per-series shape of `records` with the given timestamps: one
/// series per tag, ordered by tag name, each holding exactly that tag's
/// points ordered by time.
pub open spec fn series_for(r: Seq<ChartSeriesData>, records: Seq<HistoryRecord>, stamps: Seq<Option<i64>>) -> bool {
    &&& r.len() == tag_order(records).len()
    &&& sorted_by_key(r)
    &&& forall|k: int| 0 <= k < r.len() ==> series_of(#[trigger] r[k], stamped_of(records, stamps))
    &&& forall|t: Seq<char>| tag_order(records).contains(t) ==> exists|k: int| 0 <= k < r.len() && (#[trigger] r[k]).tag_name@ == t
}

/// `stamps` gives one timestamp per record, and none for a record whose
/// text does not read.
pub open spec fn stamps_fit(records: Seq<HistoryRecord>, stamps: Seq<Option<i64>>) -> bool {
    &&& stamps.len() == records.len()
    &&& forall|i: int| 0 <= i < stamps.len() && timestamp_ms_of((#[trigger] records[i]).date_time@).is_none() ==> stamps[i].is_none()
}

/// `r` is the per-series shape of `records` for some fitting timestamps
/// (the ones the machine's time zone gives).
pub open spec fn series_for_some_stamps(r: Seq<ChartSeriesData>, records: Seq<HistoryRecord>) -> bool {
    exists|stamps: Seq<Option<i64>>| #[trigger] stamps_fit(records, stamps) && series_for(r, records, stamps)
}

/// Two sequences with the same tags, position by position, have the same
/// tag order.
proof fn lemma_tag_order_same_tags<A: Tagged, B: Tagged>(a: Seq<A>, b: Seq<B>)
    requires
        a.len() == b.len(),
        forall|i: int| 0 <= i < a.len() ==> (#[trigger] a[i]).tag_of() == b[i].tag_of(),
    ensures
        tag_order(a) == tag_order(b),
    decreases a.len(),
{
    if a.len() > 0 {
        assert forall|i: int| 0 <= i < a.drop_last().len() implies (#[trigger] a.drop_last()[i]).tag_of() == b.drop_last()[i].tag_of() by {
            assert(a.drop_last()[i] == a[i] && b.drop_last()[i] == b[i]);
        }
        lemma_tag_order_same_tags(a.drop_last(), b.drop_last());
        assert(a.last().tag_of() == b.last().tag_of()) by {
            assert(a[a.len() - 1] == a.last() && b[b.len() - 1] == b.last());
        }
    }
}

proof fn lemma_tag_has_records<T: Tagged>(s: Seq<T>, k: int)
    requires
        0 <= k < tag_order(s).len(),
    ensures
        with_tag(s, tag_order(s)[k]).len() > 0,
        with_tag(s, tag_order(s)[k])[0].tag_of() == tag_order(s)[k],
{
    let t = tag_order(s)[k];
    lemma_tag_order_distinct(s);
    assert(tag_order(s).contains(t));
    let i = choose|i: int| 0 <= i < s.len() && (#[trigger] s[i]).tag_of() == t;
    let f = tag_is::<T>(t);
    s.lemma_filter_contains(f, i);
    assert(s.filter(f).contains(s[i]));
    let j = choose|j: int| 0 <= j < s.filter(f).len() && s.filter(f)[j] == s[i];
    s.lemma_filter_pred(f, 0);
}

/// Regroups tagged points into one series per tag, ordered by tag name, each
/// holding its points ordered by time.
fn series_of_points(records: &Vec<StampedPoint>) -> (r: Vec<ChartSeriesData>)
    ensures
        r@.len() == tag_order(records@).len(),
        sorted_by_key(r@),
        forall|k: int| 0 <= k < r@.len() ==> series_of(#[trigger] r@[k], records@),
        forall|t: Seq<char>| tag_order(records@).contains(t) ==> exists|k: int| 0 <= k < r@.len() && (#[trigger] r@[k]).tag_name@ == t,
{
    let groups = group_by_tag(records);
    let mut series: Vec<ChartSeriesData> = Vec::new();
    let mut k: usize = 0;
    while k < groups.len()
        invariant
            0 <= k <= groups@.len(),
            groups@.len() == tag_order(records@).len(),
            forall|m: int| 0 <= m < groups@.len() ==> (#[trigger] groups@[m])@ == with_tag(records@, tag_order(records@)[m]),
            series@.len() == k,
            forall|m: int| 0 <= m < k ==> series_of(#[trigger] series@[m], records@) && series@[m].tag_name@ == tag_order(records@)[m],
        decreases groups@.len() - k,
    {
        let g = &groups[k];
        proof {
            lemma_tag_has_records(records@, k as int);
            lemma_tag_order_distinct(records@);
            assert(tag_order(records@).contains(tag_order(records@)[k as int]));
        }
        let tag_name = g[0].tag_name.clone();
        let mut data: Vec<(i64, u64)> = Vec::new();
        let mut i: usize = 0;
        while i < g.len()
            invariant
                0 <= i <= g@.len(),
                data@ == points_of(g@.subrange(0, i as int)),
            decreases g@.len() - i,
        {
            data.push((g[i].timestamp_ms, g[i].value_bits));
            i = i + 1;
            assert(data@ =~= points_of(g@.subrange(0, i as int)));
        }
        assert(g@.subrange(0, g@.len() as int) =~= g@);
        sort_by_int_key(&mut data);
        let c = ChartSeriesData { tag_name, data };
        series.push(c);
        proof {
            assert(series@[k as int] == c);
        }
        k = k + 1;
    }
    let ghost unsorted = series@;
    proof {
        lemma_tag_order_distinct(records@);
        assert forall|t: Seq<char>| tag_order(records@).contains(t) implies unsorted.to_multiset().count(
            unsorted[tag_order(records@).index_of(t)],
        ) > 0 && unsorted[tag_order(records@).index_of(t)].tag_name@ == t by {
            let m = tag_order(records@).index_of(t);
            assert(unsorted.contains(unsorted[m]));
        }
    }
    sort_by_key(&mut series);
    proof {
        assert forall|k: int| 0 <= k < series@.len() implies series_of(#[trigger] series@[k], records@) by {
            assert(series@.contains(series@[k]));
            assert(series@.to_multiset().count(series@[k]) > 0);
            assert(unsorted.contains(series@[k]));
            let m = choose|m: int| 0 <= m < unsorted.len() && unsorted[m] == series@[k];
        }
        assert forall|t: Seq<char>| tag_order(records@).contains(t) implies exists|k: int| 0 <= k < series@.len() && (#[trigger] series@[k]).tag_name@ == t by {
            let m = tag_order(records@).index_of(t);
            let c = unsorted[m];
            assert(series@.to_multiset().count(c) > 0);
            assert(series@.contains(c));
            let k = choose|k: int| 0 <= k < series@.len() && series@[k] == c;
            assert(series@[k].tag_name@ == t);
        }
    }
    series
}

/// The per-series shape of records whose timestamps (in milliseconds, or
/// none) are given one per record.
pub fn records_to_series_with(records: &Vec<HistoryRecord>, stamps: &Vec<Option<i64>>) -> (r: Vec<ChartSeriesData>)
    requires
        stamps@.len() == records@.len(),
    ensures
        series_for(r@, records@, stamps@),
{
    let mut points: Vec<StampedPoint> = Vec::new();
    let mut i: usize = 0;
    while i < records.len()
        invariant
            0 <= i <= records@.len(),
            stamps@.len() == records@.len(),
            points@ =~= stamped_of(records@, stamps@).subrange(0, i as int),
        decreases records@.len() - i,
    {
        let ms = match stamps[i] {
            Some(ms) => ms,
            None => 0,
        };
        points.push(StampedPoint { tag_name: records[i].tag_name.clone(), timestamp_ms: ms, value_bits: records[i].tag_val_bits });
        i = i + 1;
    }
    let ghost sp = stamped_of(records@, stamps@);
    assert(points@ =~= sp);
    proof {
        lemma_tag_order_same_tags(sp, records@);
    }
    series_of_points(&points)
}

/// Each record's timestamp as milliseconds since the epoch, reading its
/// wall-clock text in the machine's time zone; none when the text does not
/// read (or names no single local instant).
pub fn local_stamps(records: &Vec<HistoryRecord>) -> (r: Vec<Option<i64>>)
    ensures
        stamps_fit(records@, r@),
{
    let mut r: Vec<Option<i64>> = Vec::new();
    let mut i: usize = 0;
    while i < records.len()
        invariant
            0 <= i <= records@.len(),
            r@.len() == i,
            forall|j: int| 0 <= j < i && timestamp_ms_of((#[trigger] records@[j]).date_time@).is_none() ==> r@[j].is_none(),
        decreases records@.len() - i,
    {
        let stamp = match parse_timestamp_ms(records[i].date_time.as_str()) {
            Some(naive) => local_epoch_ms(naive),
            None => None,
        };
        r.push(stamp);
        i = i + 1;
    }
    r
}

/// Regroups records into one series per tag, ordered by tag name, each
/// holding `(timestamp_ms, value)` points ordered by time; timestamps are the
/// records' wall-clock times in the machine's time zone, zero when unreadable.
pub fn records_to_series(records: &Vec<HistoryRecord>) -> (r: Vec<ChartSeriesData>)
    ensures
        series_for_some_stamps(r@, records@),
{
    let stamps = local_stamps(records);
    records_to_series_with(records, &stamps)
}

/// The span `[start, end)` of points averaged around point `i` by a centred
/// moving average: `window / 2` points on each side, clipped to the sequence.
pub open spec fn smoothing_span(n: nat, window: nat, i: nat) -> (nat, nat) {
    let h = window / 2;
    (
        if i >= h { (i - h) as nat } else { 0 },
        if i + h + 1 <= n { (i + h + 1) as nat } else { n },
    )
}

/// The averaging span of each of `n` points, or no spans when smoothing does
/// not apply (a window under two points, or fewer points than the window).
pub fn smoothing_windows(n: usize, window: usize) -> (r: Vec<(usize, usize)>)
    ensures
        (window < 2 || n < window) ==> r@.len() == 0,
        !(window < 2 || n < window) ==> r@.len() == n,
        forall|i: int| 0 <= i < r@.len() ==> ((#[trigger] r@[i]).0 as nat, r@[i].1 as nat) == smoothing_span(n as nat, window as nat, i as nat),
{
    let mut r: Vec<(usize, usize)> = Vec::new();
    if window < 2 || n < window {
        return r;
    }
    let h = window / 2;
    let mut i: usize = 0;
    while i < n
        invariant
            0 <= i <= n,
            h == window / 2,
            r@.len() == i,
            forall|j: int| 0 <= j < i ==> ((#[trigger] r@[j]).0 as nat, r@[j].1 as nat) == smoothing_span(n as nat, window as nat, j as nat),
        decreases n - i,
    {
        let start = if i >= h { i - h } else { 0 };
        let end = if h < n - i { i + h + 1 } else { n };
        r.push((start, end));
        i = i + 1;
    }
    r
}

/// Replaces each record's value, keeping its timestamp, tag and quality.
pub fn with_values(records: Vec<HistoryRecord>, values: &Vec<u64>) -> (r: Vec<HistoryRecord>)
    requires
        values@.len() == records@.len(),
    ensures
        r@.len() == records@.len(),
        forall|i: int| 0 <= i < r@.len() ==> (#[trigger] r@[i]).date_time == records@[i].date_time
            && r@[i].tag_name == records@[i].tag_name
            && r@[i].tag_quality == records@[i].tag_quality
            && r@[i].tag_val_bits == values@[i],
{
    let mut r: Vec<HistoryRecord> = Vec::new();
    let mut i: usize = 0;
    while i < records.len()
        invariant
            0 <= i <= records@.len(),
            values@.len() == records@.len(),
            r@.len() == i,
            forall|j: int| 0 <= j < i ==> (#[trigger] r@[j]).date_time == records@[j].date_time
                && r@[j].tag_name == records@[j].tag_name
                && r@[j].tag_quality == records@[j].tag_quality
                && r@[j].tag_val_bits == values@[j],
        decreases records@.len() - i,
    {
        let x = records[i].duplicate();
        r.push(HistoryRecord::new(x.date_time, x.tag_name, values[i], x.tag_quality));
        i = i + 1;
    }
    r
}

/// Start of the epoch-aligned window of width `interval_ms` that holds `ts`.
pub open spec fn floor_window(ts: int, interval_ms: int) -> int {
    (ts / interval_ms) * interval_ms
}

/// The window start of a timestamp, when there is one and the start is
/// representable.
pub open spec fn window_of(st: Option<i64>, interval_ms: int) -> Option<i64> {
    match st {
        Some(ts) => if floor_window(ts as int, interval_ms) >= i64::MIN { Some(floor_window(ts as int, interval_ms) as i64) } else { None },
        None => None,
    }
}

/// The window start of a timestamp, `None` when it is below the `i64` range.
pub fn window_start(ts: i64, interval_ms: i64) -> (r: Option<i64>)
    requires
        interval_ms > 0,
    ensures
        r == (if floor_window(ts as int, interval_ms as int) >= i64::MIN {
            Some(floor_window(ts as int, interval_ms as int) as i64)
        } else {
            None
        }),
{
    let iv = interval_ms as u64;
    if ts >= 0 {
        let q = (ts as u64) / iv;
        assert(q * iv <= ts) by (nonlinear_arith)
            requires q == ts as u64 / iv, iv > 0, ts >= 0;
        Some((q * iv) as i64)
    } else {
        let m: u64 = (-(ts + 1)) as u64;
        let q: u64 = m / iv;
        proof {
            vstd::arithmetic::div_mod::lemma_fundamental_div_mod(m as int, iv as int);
            let qq = -(q as int) - 1;
            let rr = iv as int - 1 - (m as int % iv as int);
            assert(ts as int == qq * (iv as int) + rr) by (nonlinear_arith)
                requires
                    m as int == iv as int * q as int + m as int % iv as int,
                    ts as int == -(m as int) - 1,
                    qq == -(q as int) - 1,
                    rr == iv as int - 1 - (m as int % iv as int);
            vstd::arithmetic::div_mod::lemma_fundamental_div_mod_converse(ts as int, iv as int, qq, rr);
            assert(q <= m);
            assert((q as int + 1) * (iv as int) <= (m as int + 1) * (iv as int)) by (nonlinear_arith)
                requires q as int <= m as int, iv > 0;
        }
        let start: i128 = -((q as i128) + 1) * (iv as i128);
        if start >= i64::MIN as i128 {
            Some(start as i64)
        } else {
            None
        }
    }
}

/// The records of one time window: their indices, ascending.
#[derive(Debug, Clone)]
pub struct ResampleBucket {
    pub start_ms: i64,
    pub members: Vec<usize>,
}

/// Indices below `n` of the records whose window starts at `w`, ascending.
pub open spec fn window_members(s: Seq<Option<i64>>, interval_ms: int, w: i64, n: nat) -> Seq<usize>
    decreases n,
{
    if n == 0 || n > s.len() {
        Seq::empty()
    } else {
        window_members(s, interval_ms, w, (n - 1) as nat) + (if window_of(s[n - 1], interval_ms) == Some(w) {
            seq![(n - 1) as usize]
        } else {
            Seq::empty()
        })
    }
}

/// `b` is a well-formed plan of windows over the first `n` records: starts
/// strictly increasing, each window with its members, every placed record in
/// its window.
pub open spec fn plan_covers(plan: Seq<ResampleBucket>, s: Seq<Option<i64>>, interval_ms: int, n: nat) -> bool {
    &&& forall|a: int, b: int| 0 <= a < b < plan.len() ==> (#[trigger] plan[a]).start_ms < (#[trigger] plan[b]).start_ms
    &&& forall|a: int| 0 <= a < plan.len() ==> (#[trigger] plan[a]).members@ == window_members(s, interval_ms, plan[a].start_ms, n)
        && plan[a].members@.len() > 0
        && plan[a].start_ms as int % interval_ms == 0
    &&& forall|i: int| 0 <= i < n ==> match #[trigger] window_of(s[i], interval_ms) {
        Some(w) => exists|a: int| 0 <= a < plan.len() && (#[trigger] plan[a]).start_ms == w,
        None => true,
    }
}

proof fn lemma_window_aligned(ts: int, interval_ms: int)
    requires
        interval_ms > 0,
    ensures
        floor_window(ts, interval_ms) % interval_ms == 0,
        floor_window(ts, interval_ms) <= ts,
{
    vstd::arithmetic::div_mod::lemma_mod_multiples_basic(ts / interval_ms, interval_ms);
    vstd::arithmetic::div_mod::lemma_fundamental_div_mod(ts, interval_ms);
    assert(floor_window(ts, interval_ms) == interval_ms * (ts / interval_ms)) by (nonlinear_arith);
}

/// Groups records, given by their timestamps in milliseconds, into
/// epoch-aligned windows of `interval_seconds`, ordered by window start.
/// Records without a timestamp are left out.
pub fn resample_plan_with(records: &Vec<Option<i64>>, interval_seconds: u32) -> (r: Vec<ResampleBucket>)
    requires
        interval_seconds > 0,
    ensures
        plan_covers(r@, records@, interval_seconds as int * 1000, records@.len()),
{
    let interval_ms: i64 = (interval_seconds as i64) * 1000;
    let ghost iv = interval_ms as int;
    let mut plan: Vec<ResampleBucket> = Vec::new();
    let mut i: usize = 0;
    while i < records.len()
        invariant
            0 <= i <= records@.len(),
            interval_ms as int == interval_seconds as int * 1000,
            iv == interval_ms as int,
            interval_ms > 0,
            plan_covers(plan@, records@, iv, i as nat),
        decreases records@.len() - i,
    {
        let ghost before = plan@;
        let w_opt = match records[i] {
            Some(ts) => window_start(ts, interval_ms),
            None => None,
        };
        assert(w_opt == window_of(records@[i as int], iv));
        proof {
            assert forall|w: i64| #[trigger] window_members(records@, iv, w, (i + 1) as nat)
                == window_members(records@, iv, w, i as nat) + (if window_of(records@[i as int], iv) == Some(w) {
                    seq![i]
                } else {
                    Seq::empty()
                }) by {}
        }
        match w_opt {
            None => {
                proof {
                    assert forall|a: int| 0 <= a < plan@.len() implies (#[trigger] plan@[a]).members@ == window_members(records@, iv, plan@[a].start_ms, (i + 1) as nat) by {
                        assert(window_members(records@, iv, plan@[a].start_ms, (i + 1) as nat) =~= window_members(records@, iv, plan@[a].start_ms, i as nat));
                    }
                }
            },
            Some(w) => {
                proof {
                    match records@[i as int] {
                        Some(ts) => lemma_window_aligned(ts as int, iv),
                        None => {},
                    }
                }
                let mut k: usize = 0;
                while k < plan.len() && plan[k].start_ms < w
                    invariant
                        0 <= k <= plan@.len(),
                        plan@ == before,
                        forall|a: int| 0 <= a < k ==> (#[trigger] plan@[a]).start_ms < w,
                    decreases plan@.len() - k,
                {
                    k = k + 1;
                }
                if k < plan.len() && plan[k].start_ms == w {
                    let mut b = plan.remove(k);
                    b.members.push(i);
                    plan.insert(k, b);
                    proof {
                        assert(plan@ =~= before.update(k as int, b));
                        assert forall|a: int| 0 <= a < plan@.len() implies (#[trigger] plan@[a]).members@ == window_members(records@, iv, plan@[a].start_ms, (i + 1) as nat) by {
                            if a != k {
                                assert(plan@[a] == before[a]);
                                assert(before[a].start_ms != w);
                                assert(window_members(records@, iv, plan@[a].start_ms, (i + 1) as nat) =~= window_members(records@, iv, plan@[a].start_ms, i as nat));
                            } else {
                                assert(b.members@ =~= window_members(records@, iv, w, (i + 1) as nat));
                            }
                        }
                        assert forall|j: int| 0 <= j < i + 1 implies match #[trigger] window_of(records@[j], iv) {
                            Some(v) => exists|a: int| 0 <= a < plan@.len() && (#[trigger] plan@[a]).start_ms == v,
                            None => true,
                        } by {
                            if j < i {
                                match window_of(records@[j], iv) {
                                    Some(v) => {
                                        let a = choose|a: int| 0 <= a < before.len() && (#[trigger] before[a]).start_ms == v;
                                        assert(plan@[a].start_ms == v);
                                    },
                                    None => {},
                                }
                            } else {
                                assert(plan@[k as int].start_ms == w);
                            }
                        }
                    }
                } else {
                    let mut members: Vec<usize> = Vec::new();
                    members.push(i);
                    let b = ResampleBucket { start_ms: w, members };
                    plan.insert(k, b);
                    proof {
                        assert(plan@ =~= before.insert(k as int, b));
                        assert(window_members(records@, iv, w, i as nat) =~= Seq::<usize>::empty()) by {
                            if window_members(records@, iv, w, i as nat).len() > 0 {
                                lemma_members_placed(records@, iv, w, i as nat);
                                let a = choose|a: int| 0 <= a < before.len() && (#[trigger] before[a]).start_ms == w;
                                if a < k {
                                } else {
                                    assert(before[k as int].start_ms <= before[a].start_ms);
                                }
                            }
                        }
                        assert(b.members@ =~= window_members(records@, iv, w, (i + 1) as nat));
                        assert forall|a: int| 0 <= a < plan@.len() implies (#[trigger] plan@[a]).members@ == window_members(records@, iv, plan@[a].start_ms, (i + 1) as nat)
                            && plan@[a].members@.len() > 0 && plan@[a].start_ms as int % iv == 0 by {
                            if a == k {
                                assert(plan@[a] == b);
                                assert(w as int % iv == 0);
                            } else if a < k {
                                assert(plan@[a] == before[a]);
                                assert(window_members(records@, iv, plan@[a].start_ms, (i + 1) as nat) =~= window_members(records@, iv, plan@[a].start_ms, i as nat));
                            } else if a > k {
                                assert(plan@[a] == before[a - 1]);
                                assert(window_members(records@, iv, plan@[a].start_ms, (i + 1) as nat) =~= window_members(records@, iv, plan@[a].start_ms, i as nat));
                            }
                        }
                        assert forall|a: int, c: int| 0 <= a < c < plan@.len() implies (#[trigger] plan@[a]).start_ms < (#[trigger] plan@[c]).start_ms by {
                            if c < k {
                                assert(plan@[a] == before[a] && plan@[c] == before[c]);
                            } else if c == k {
                                assert(plan@[a] == before[a]);
                            } else if a < k {
                                assert(plan@[a] == before[a] && plan@[c] == before[c - 1]);
                                assert(before[k as int].start_ms > w);
                                if c - 1 > k {
                                    assert(before[k as int].start_ms < before[c - 1].start_ms);
                                }
                            } else if a == k {
                                assert(plan@[c] == before[c - 1]);
                                assert(before[k as int].start_ms > w);
                                if c - 1 > k {
                                    assert(before[k as int].start_ms < before[c - 1].start_ms);
                                }
                            } else {
                                assert(plan@[a] == before[a - 1] && plan@[c] == before[c - 1]);
                            }
                        }
                        assert forall|j: int| 0 <= j < i + 1 implies match #[trigger] window_of(records@[j], iv) {
                            Some(v) => exists|a: int| 0 <= a < plan@.len() && (#[trigger] plan@[a]).start_ms == v,
                            None => true,
                        } by {
                            if j < i {
                                match window_of(records@[j], iv) {
                                    Some(v) => {
                                        let a = choose|a: int| 0 <= a < before.len() && (#[trigger] before[a]).start_ms == v;
                                        if a < k {
                                            assert(plan@[a] == before[a]);
                                        } else {
                                            assert(plan@[a + 1] == before[a]);
                                        }
                                    },
                                    None => {},
                                }
                            } else {
                                assert(plan@[k as int].start_ms == w);
                            }
                        }
                    }
                }
            },
        }
        i = i + 1;
    }
    plan
}

/// A record below `n` in window `w` has a member list that is not empty; and
/// when the plan covers the first `n` records, some window of it starts at `w`.
proof fn lemma_members_placed(s: Seq<Option<i64>>, interval_ms: int, w: i64, n: nat)
    requires
        window_members(s, interval_ms, w, n).len() > 0,
    ensures
        exists|j: int| 0 <= j < n && j < s.len() && window_of(s[j], interval_ms) == Some(w),
    decreases n,
{
    if n > 0 && n <= s.len() {
        if window_of(s[n - 1], interval_ms) == Some(w) {
        } else {
            lemma_members_placed(s, interval_ms, w, (n - 1) as nat);
        }
    }
}

/// `plan` is a window plan of `records` for some fitting timestamps (the
/// ones the machine's time zone gives).
pub open spec fn plan_for_some_stamps(plan: Seq<ResampleBucket>, records: Seq<HistoryRecord>, interval_ms: int) -> bool {
    exists|stamps: Seq<Option<i64>>| #[trigger] stamps_fit(records, stamps) && plan_covers(plan, stamps, interval_ms, stamps.len())
}

/// Groups records into epoch-aligned windows of `interval_seconds` by their
/// wall-clock times in the machine's time zone, ordered by window start.
/// Records whose time does not read are left out.
pub fn resample_plan(records: &Vec<HistoryRecord>, interval_seconds: u32) -> (r: Vec<ResampleBucket>)
    requires
        interval_seconds > 0,
    ensures
        plan_for_some_stamps(r@, records@, interval_seconds as int * 1000),
{
    let stamps = local_stamps(records);
    resample_plan_with(&stamps, interval_seconds)
}

/// The local wall-clock text of each window's start, one per window.
pub fn window_labels(plan: &Vec<ResampleBucket>) -> (r: Vec<String>)
    ensures
        r@.len() == plan@.len(),
{
    let mut r: Vec<String> = Vec::new();
    let mut a: usize = 0;
    while a < plan.len()
        invariant
            0 <= a <= plan@.len(),
            r@.len() == a,
        decreases plan@.len() - a,
    {
        r.push(local_text_of_millis(plan[a].start_ms));
        a = a + 1;
    }
    r
}

/// One record per window: stamped with the window's label, with the tag and
/// quality of the window's first record and the given value.
pub fn resampled_records(records: &Vec<HistoryRecord>, plan: &Vec<ResampleBucket>, values: &Vec<u64>, labels: &Vec<String>) -> (r: Vec<HistoryRecord>)
    requires
        values@.len() == plan@.len(),
        labels@.len() == plan@.len(),
        forall|a: int| 0 <= a < plan@.len() ==> (#[trigger] plan@[a]).members@.len() > 0 && plan@[a].members@[0] < records@.len(),
    ensures
        r@.len() == plan@.len(),
        forall|a: int| 0 <= a < r@.len() ==> (#[trigger] r@[a]).date_time == labels@[a]
            && r@[a].tag_name == records@[plan@[a].members@[0] as int].tag_name
            && r@[a].tag_quality == records@[plan@[a].members@[0] as int].tag_quality
            && r@[a].tag_val_bits == values@[a],
{
    let mut r: Vec<HistoryRecord> = Vec::new();
    let mut a: usize = 0;
    while a < plan.len()
        invariant
            0 <= a <= plan@.len(),
            values@.len() == plan@.len(),
            labels@.len() == plan@.len(),
            forall|b: int| 0 <= b < plan@.len() ==> (#[trigger] plan@[b]).members@.len() > 0 && plan@[b].members@[0] < records@.len(),
            r@.len() == a,
            forall|b: int| 0 <= b < a ==> (#[trigger] r@[b]).date_time == labels@[b]
                && r@[b].tag_name == records@[plan@[b].members@[0] as int].tag_name
                && r@[b].tag_quality == records@[plan@[b].members@[0] as int].tag_quality
                && r@[b].tag_val_bits == values@[b],
        decreases plan@.len() - a,
    {
        let bucket = &plan[a];
        let first = bucket.members[0];
        let stamp = labels[a].clone();
        let x = &records[first];
        r.push(HistoryRecord::new(stamp, x.tag_name.clone(), values[a], x.tag_quality.clone()));
        a = a + 1;
    }
    r
}

/// Records of exactly two tags give exactly two series, the smaller tag name
/// first, each ordered by time (what `series_for` states).
pub proof fn lemma_two_tags_two_series(r: Seq<ChartSeriesData>, records: Seq<StampedPoint>)
    requires
        tag_order(records).len() == 2,
        r.len() == tag_order(records).len(),
        sorted_by_key(r),
        forall|k: int| 0 <= k < r.len() ==> series_of(#[trigger] r[k], records),
        forall|t: Seq<char>| tag_order(records).contains(t) ==> exists|k: int| 0 <= k < r.len() && (#[trigger] r[k]).tag_name@ == t,
    ensures
        r.len() == 2,
        crate::text::text_lt(r[0].tag_name@, r[1].tag_name@),
        sorted_by_int_key(r[0].data@),
        sorted_by_int_key(r[1].data@),
        tag_order(records).contains(r[0].tag_name@),
        tag_order(records).contains(r[1].tag_name@),
{
    lemma_tag_order_distinct(records);
    let o = tag_order(records);
    assert(series_of(r[0], records));
    assert(series_of(r[1], records));
    assert(o.contains(o[0]));
    assert(o.contains(o[1]));
    assert(o[0] != o[1]);
    if r[0].tag_name@ == r[1].tag_name@ {
        let k0 = choose|k: int| 0 <= k < r.len() && (#[trigger] r[k]).tag_name@ == o[0];
        let k1 = choose|k: int| 0 <= k < r.len() && (#[trigger] r[k]).tag_name@ == o[1];
        assert(false);
    }
    assert(crate::text::text_le(r[0].key_of(), r[1].key_of()));
    assert(crate::text::text_le(r[0].tag_name@, r[1].tag_name@));
    crate::text::lemma_text_order(r[0].tag_name@, r[1].tag_name@, r[0].tag_name@);
}

proof fn lemma_every_nth_len(g: Seq<HistoryRecord>, step: nat, n: nat)
    requires
        step > 0,
        1 <= n <= g.len(),
    ensures
        every_nth(g, step, n).len() == (n - 1) as int / step as int + 1,
    decreases n,
{
    let m = n - 1;
    assert(every_nth(g, step, n) == every_nth(g, step, (n - 1) as nat) + (if (n - 1) % (step as int) == 0 {
        seq![g[n - 1]]
    } else {
        Seq::empty()
    }));
    if n == 1 {
        assert(every_nth(g, step, 0).len() == 0);
        assert(0int % (step as int) == 0);
        assert(0int / (step as int) == 0);
    }
    if n > 1 {
        lemma_every_nth_len(g, step, (n - 1) as nat);
        let q = (m - 1) / step as int;
        let r = (m - 1) % step as int;
        vstd::arithmetic::div_mod::lemma_fundamental_div_mod(m - 1, step as int);
        assert(0 <= r < step);
        if r + 1 < step {
            assert(m == q * step + (r + 1)) by (nonlinear_arith)
                requires m - 1 == step * q + r;
            vstd::arithmetic::div_mod::lemma_fundamental_div_mod_converse(m, step as int, q, r + 1);
        } else {
            assert(m == (q + 1) * step + 0) by (nonlinear_arith)
                requires m - 1 == step * q + r, r + 1 == step;
            vstd::arithmetic::div_mod::lemma_fundamental_div_mod_converse(m, step as int, q + 1, 0);
        }
    }
}

/// One tag's downsampled records: when the count is a multiple of the cap
/// (and above it), exactly the cap; otherwise never more than the count.
pub proof fn lemma_thinned_count(g: Seq<HistoryRecord>, cap: nat)
    requires
        cap > 0,
    ensures
        thinned(g, cap).len() <= g.len(),
        g.len() <= cap ==> thinned(g, cap).len() == g.len(),
        g.len() > cap && g.len() as int % cap as int == 0 ==> thinned(g, cap).len() == cap,
{
    if g.len() > cap {
        let n = g.len();
        let step = n / cap;
        vstd::arithmetic::div_mod::lemma_fundamental_div_mod(n as int, cap as int);
        assert(step >= 1) by (nonlinear_arith)
            requires n > cap, cap > 0, step == n / cap;
        lemma_every_nth_len(g, step, n);
        vstd::arithmetic::div_mod::lemma_fundamental_div_mod(n - 1, step as int);
        assert((n - 1) as int / step as int + 1 <= n) by (nonlinear_arith)
            requires step >= 1, n >= 1, (n - 1) == step * ((n - 1) as int / step as int) + (n - 1) as int % step as int,
                (n - 1) as int % step as int >= 0;
        if n as int % cap as int == 0 {
            assert(n == step * cap) by (nonlinear_arith)
                requires n == cap * (n as int / cap as int) + n as int % cap as int, n as int % cap as int == 0, step == n as int / cap as int;
            assert(n - 1 == (cap - 1) * step + (step - 1)) by (nonlinear_arith)
                requires n == step * cap;
            vstd::arithmetic::div_mod::lemma_fundamental_div_mod_converse(n - 1, step as int, cap - 1, step - 1);
        }
    }
}

proof fn lemma_with_tag_all(s: Seq<HistoryRecord>, t: Seq<char>)
    requires
        forall|i: int| 0 <= i < s.len() ==> (#[trigger] s[i]).tag_name@ == t,
    ensures
        with_tag(s, t) == s,
    decreases s.len(),
{
    reveal_with_fuel(Seq::filter, 1);
    if s.len() > 0 {
        let pre = s.drop_last();
        assert forall|i: int| 0 <= i < pre.len() implies (#[trigger] pre[i]).tag_name@ == t by {
            assert(pre[i] == s[i]);
        }
        lemma_with_tag_all(pre, t);
        assert(s[s.len() - 1] == s.last());
        assert(s =~= pre.push(s.last()));
    } else {
        assert(with_tag(s, t) =~= s);
    }
}

/// A single series is downsampled to at most the cap when its length is a
/// multiple of the cap (exactly the cap when above it), and kept whole when
/// within the cap.
pub proof fn lemma_single_series_downsample_count(s: Seq<HistoryRecord>, cap: nat)
    requires
        cap > 0,
        tag_order(s).len() == 1,
    ensures
        s.len() <= cap ==> downsampled(s, cap).len() == s.len(),
        s.len() > cap && s.len() as int % cap as int == 0 ==> downsampled(s, cap).len() == cap,
{
    lemma_tag_order_distinct(s);
    let t = tag_order(s)[0];
    assert forall|i: int| 0 <= i < s.len() implies (#[trigger] s[i]).tag_name@ == t by {
        assert(tag_order(s).contains(s[i].tag_name@));
    }
    lemma_with_tag_all(s, t);
    assert(thinned_groups(s, cap, 0) =~= Seq::<HistoryRecord>::empty());
    assert(downsampled(s, cap) =~= thinned(s, cap));
    lemma_thinned_count(s, cap);
}

} // verus!
