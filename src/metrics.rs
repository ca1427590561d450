//! Request counters and latency histograms, keyed by method, matched route
//! and status class, rendered in the Prometheus text exposition format.

use vstd::prelude::*;
use crate::text::chars_of;

verus! {

/// Upper bounds of the latency buckets, in microseconds.
pub open spec fn bucket_bounds() -> Seq<u64> {
    seq![1000, 5000, 10000, 25000, 50000, 100000, 250000, 500000, 1000000, 2500000, 5000000, 10000000]
}

fn bucket_bounds_vec() -> (r: Vec<u64>)
    ensures
        r@ == bucket_bounds(),
{
    let r: Vec<u64> = vec![1000, 5000, 10000, 25000, 50000, 100000, 250000, 500000, 1000000, 2500000, 5000000, 10000000];
    assert(r@ =~= bucket_bounds());
    r
}

/// `a + b`, or the largest `u64` where the sum does not fit.
pub open spec fn sat_add(a: u64, b: u64) -> u64 {
    if a + b > u64::MAX {
        u64::MAX
    } else {
        (a + b) as u64
    }
}

/// The class of a status code: its hundreds digit.
pub open spec fn status_class(status: u16) -> u16 {
    status / 100
}

/// One series: the requests of one method, route and status class.
pub struct Series {
    method: String,
    route: String,
    class: u16,
    count: u64,
    latency_sum: u64,
    buckets: Vec<u64>,
}

/// A series as mathematical values. `buckets[b]` counts the requests whose
/// latency was at most `bucket_bounds()[b]`.
pub struct SeriesModel {
    pub method: Seq<char>,
    pub route: Seq<char>,
    pub class: u16,
    pub count: u64,
    pub latency_sum: u64,
    pub buckets: Seq<u64>,
}

impl View for Series {
    type V = SeriesModel;

    closed spec fn view(&self) -> SeriesModel {
        SeriesModel {
            method: self.method@,
            route: self.route@,
            class: self.class,
            count: self.count,
            latency_sum: self.latency_sum,
            buckets: self.buckets@,
        }
    }
}

/// Whether a series is the one of this method, route and status.
pub open spec fn same_key(s: SeriesModel, method: Seq<char>, route: Seq<char>, status: u16) -> bool {
    s.method == method && s.route == route && s.class == status_class(status)
}

/// A series after one more request with the given latency.
pub open spec fn bumped(s: SeriesModel, latency: u64) -> SeriesModel {
    SeriesModel {
        count: sat_add(s.count, 1),
        latency_sum: sat_add(s.latency_sum, latency),
        buckets: Seq::new(
            s.buckets.len(),
            |b: int|
                if latency <= bucket_bounds()[b] {
                    sat_add(s.buckets[b], 1)
                } else {
                    s.buckets[b]
                },
        ),
        ..s
    }
}

/// Counters never go down: one more request leaves the count, the latency
/// sum and every bucket at least where they were.
pub proof fn lemma_bumped_monotonic(s: SeriesModel, latency: u64)
    ensures
        bumped(s, latency).count >= s.count,
        bumped(s, latency).latency_sum >= s.latency_sum,
        bumped(s, latency).buckets.len() == s.buckets.len(),
        forall|b: int| 0 <= b < s.buckets.len() ==> #[trigger] bumped(s, latency).buckets[b] >= s.buckets[b],
        s.count < u64::MAX ==> bumped(s, latency).count == s.count + 1,
{
}

/// The series of a first request with the given key and latency.
pub open spec fn fresh(method: Seq<char>, route: Seq<char>, status: u16, latency: u64) -> SeriesModel {
    bumped(
        SeriesModel {
            method,
            route,
            class: status_class(status),
            count: 0,
            latency_sum: 0,
            buckets: Seq::new(bucket_bounds().len(), |b: int| 0u64),
        },
        latency,
    )
}

/// The counters of all requests seen so far.
pub struct MetricsRegistry {
    series: Vec<Series>,
}

impl View for MetricsRegistry {
    type V = Seq<SeriesModel>;

    closed spec fn view(&self) -> Seq<SeriesModel> {
        self.series@.map_values(|s: Series| s@)
    }
}

/// The series of a registry have distinct keys and one count per bucket.
pub open spec fn series_wf(v: Seq<SeriesModel>) -> bool {
    &&& forall|i: int| 0 <= i < v.len() ==> (#[trigger] v[i]).buckets.len() == bucket_bounds().len()
    &&& forall|i: int, j: int|
        0 <= i < j < v.len() ==> !same_key_pair(#[trigger] v[i], #[trigger] v[j])
}

/// Whether two series have the same key.
pub open spec fn same_key_pair(a: SeriesModel, b: SeriesModel) -> bool {
    a.method == b.method && a.route == b.route && a.class == b.class
}

impl Series {
    fn bump(&mut self, latency: u64)
        requires
            old(self)@.buckets.len() == bucket_bounds().len(),
        ensures
            final(self)@ == bumped(old(self)@, latency),
    {
        let bounds = bucket_bounds_vec();
        self.count = self.count.saturating_add(1);
        self.latency_sum = self.latency_sum.saturating_add(latency);
        let ghost old_buckets = self.buckets@;
        let mut b: usize = 0;
        while b < self.buckets.len()
            invariant
                bounds@ == bucket_bounds(),
                self.method == old(self).method,
                self.route == old(self).route,
                self.class == old(self).class,
                self.count == sat_add(old(self).count, 1),
                self.latency_sum == sat_add(old(self).latency_sum, latency),
                old_buckets == old(self).buckets@,
                old_buckets.len() == bucket_bounds().len(),
                self.buckets@.len() == old_buckets.len(),
                b <= old_buckets.len(),
                forall|k: int|
                    0 <= k < b ==> #[trigger] self.buckets@[k] == (if latency <= bucket_bounds()[k] {
                        sat_add(old_buckets[k], 1)
                    } else {
                        old_buckets[k]
                    }),
                forall|k: int| b <= k < old_buckets.len() ==> #[trigger] self.buckets@[k] == old_buckets[k],
            decreases old_buckets.len() - b,
        {
            if latency <= bounds[b] {
                let v = self.buckets[b].saturating_add(1);
                self.buckets.set(b, v);
            }
            b = b + 1;
        }
        assert(self.buckets@ =~= bumped(old(self)@, latency).buckets);
        assert(self@ == bumped(old(self)@, latency));
    }
}

impl MetricsRegistry {
    /// A registry that has seen no request.
    pub fn new() -> (r: Self)
        ensures
            r.wf(),
            r@ == Seq::<SeriesModel>::empty(),
    {
        let r = MetricsRegistry { series: Vec::new() };
        assert(r@ =~= Seq::<SeriesModel>::empty());
        r
    }

    /// Whether the series are well formed.
    pub open spec fn wf(&self) -> bool {
        series_wf(self@)
    }

    /// Counts one request: the series of its method, route and status class
    /// gets one more request and its latency, and is created where it did not
    /// exist yet. Counters stop at the largest `u64`.
    pub fn record(&mut self, method: &str, route: &str, status: u16, latency: u64)
        requires
            old(self).wf(),
        ensures
            final(self).wf(),
            (exists|i: int|
                0 <= i < old(self)@.len() && same_key(old(self)@[i], method@, route@, status))
                ==> exists|i: int|
                0 <= i < old(self)@.len() && same_key(old(self)@[i], method@, route@, status)
                    && final(self)@ == old(self)@.update(i, bumped(old(self)@[i], latency)),
            !(exists|i: int|
                0 <= i < old(self)@.len() && same_key(old(self)@[i], method@, route@, status))
                ==> final(self)@ == old(self)@.push(fresh(method@, route@, status, latency)),
    {
        let ghost v = self@;
        let m = method.to_owned();
        let r = route.to_owned();
        let class = status / 100;
        let mut i: usize = 0;
        while i < self.series.len()
            invariant
                v == self@,
                v == old(self)@,
                self.series@ == old(self).series@,
                series_wf(v),
                m@ == method@,
                r@ == route@,
                class == status_class(status),
                i <= v.len(),
                forall|j: int| 0 <= j < i ==> !same_key(#[trigger] v[j], method@, route@, status),
            decreases v.len() - i,
        {
            assert(v[i as int] == self.series@[i as int]@);
            if self.series[i].method == m && self.series[i].route == r && self.series[i].class
                == class {
                let mut s = self.series.remove(i);
                s.bump(latency);
                self.series.insert(i, s);
                proof {
                    let w = v.update(i as int, bumped(v[i as int], latency));
                    assert(self@ =~= w) by {
                        assert forall|k: int| 0 <= k < w.len() implies self@[k] == w[k] by {
                            assert(self.series@ =~= old(self).series@.update(i as int, s));
                            if k != i {
                                assert(self.series@[k] == old(self).series@[k]);
                            }
                        }
                    }
                    assert forall|a: int, b: int| 0 <= a < b < w.len() implies !same_key_pair(
                        #[trigger] w[a],
                        #[trigger] w[b],
                    ) by {
                        assert(same_key_pair(w[a], v[a]) && same_key_pair(w[b], v[b]));
                    }
                    assert forall|k: int| 0 <= k < w.len() implies (#[trigger] w[k]).buckets.len()
                        == bucket_bounds().len() by {
                        assert(v[k].buckets.len() == bucket_bounds().len());
                    }
                }
                return;
            }
            i = i + 1;
        }
        let bounds = bucket_bounds_vec();
        let mut zeros: Vec<u64> = Vec::new();
        let mut b: usize = 0;
        while b < bounds.len()
            invariant
                b <= bounds@.len(),
                zeros@ == Seq::new(b as nat, |k: int| 0u64),
            decreases bounds@.len() - b,
        {
            zeros.push(0);
            assert(zeros@ =~= Seq::new(b as nat + 1, |k: int| 0u64));
            b = b + 1;
        }
        let mut s = Series { method: m, route: r, class, count: 0, latency_sum: 0, buckets: zeros };
        assert(s@.buckets =~= Seq::new(bucket_bounds().len(), |k: int| 0u64));
        s.bump(latency);
        self.series.push(s);
        proof {
            let w = v.push(fresh(method@, route@, status, latency));
            assert(self@ =~= w);
            assert forall|a: int, c: int| 0 <= a < c < w.len() implies !same_key_pair(
                #[trigger] w[a],
                #[trigger] w[c],
            ) by {
                if c == v.len() {
                    assert(!same_key(v[a], method@, route@, status));
                }
            }
            assert forall|k: int| 0 <= k < w.len() implies (#[trigger] w[k]).buckets.len()
                == bucket_bounds().len() by {
                if k < v.len() {
                    assert(v[k].buckets.len() == bucket_bounds().len());
                }
            }
        }
    }
}

/// The decimal digit of `d`.
pub open spec fn digit_char(d: int) -> char {
    if d == 0 { '0' }
    else if d == 1 { '1' }
    else if d == 2 { '2' }
    else if d == 3 { '3' }
    else if d == 4 { '4' }
    else if d == 5 { '5' }
    else if d == 6 { '6' }
    else if d == 7 { '7' }
    else if d == 8 { '8' }
    else { '9' }
}

/// The decimal text of `n`, without leading zeros.
pub open spec fn decimal(n: nat) -> Seq<char>
    decreases n,
{
    if n < 10 {
        seq![digit_char(n as int)]
    } else {
        decimal(n / 10).push(digit_char((n % 10) as int))
    }
}

/// The text of a character inside a label value: backslash, double quote
/// and line feed are escaped with a backslash.
pub open spec fn escaped_char(c: char) -> Seq<char> {
    if c == '\\' {
        seq!['\\', '\\']
    } else if c == '"' {
        seq!['\\', '"']
    } else if c == '\n' {
        seq!['\\', 'n']
    } else {
        seq![c]
    }
}

/// The text of a label value.
pub open spec fn escaped(s: Seq<char>) -> Seq<char>
    decreases s.len(),
{
    if s.len() == 0 {
        seq![]
    } else {
        escaped(s.drop_last()) + escaped_char(s.last())
    }
}

fn digit(d: u64) -> (c: char)
    requires
        d < 10,
    ensures
        c == digit_char(d as int),
{
    if d == 0 { '0' }
    else if d == 1 { '1' }
    else if d == 2 { '2' }
    else if d == 3 { '3' }
    else if d == 4 { '4' }
    else if d == 5 { '5' }
    else if d == 6 { '6' }
    else if d == 7 { '7' }
    else if d == 8 { '8' }
    else { '9' }
}

/// Appends the decimal text of `n`.
fn push_decimal(out: &mut Vec<char>, n: u64)
    ensures
        final(out)@ == old(out)@ + decimal(n as nat),
    decreases n,
{
    if n >= 10 {
        push_decimal(out, n / 10);
    }
    out.push(digit(n % 10));
    assert(final(out)@ =~= old(out)@ + decimal(n as nat));
}

/// Appends the characters of `s`.
fn push_text(out: &mut Vec<char>, s: &str)
    ensures
        final(out)@ == old(out)@ + s@,
{
    let cs = chars_of(s);
    let mut i: usize = 0;
    while i < cs.len()
        invariant
            i <= cs@.len(),
            out@ == old(out)@ + cs@.take(i as int),
        decreases cs@.len() - i,
    {
        out.push(cs[i]);
        assert(out@ =~= old(out)@ + cs@.take(i as int + 1));
        i = i + 1;
    }
    assert(cs@.take(cs@.len() as int) =~= cs@);
}

/// Appends `s` as a label value.
fn push_escaped(out: &mut Vec<char>, s: &str)
    ensures
        final(out)@ == old(out)@ + escaped(s@),
{
    let cs = chars_of(s);
    let mut i: usize = 0;
    while i < cs.len()
        invariant
            i <= cs@.len(),
            out@ == old(out)@ + escaped(cs@.take(i as int)),
        decreases cs@.len() - i,
    {
        let c = cs[i];
        let ghost before = out@;
        if c == '\\' {
            out.push('\\');
            out.push('\\');
        } else if c == '"' {
            out.push('\\');
            out.push('"');
        } else if c == '\n' {
            out.push('\\');
            out.push('n');
        } else {
            out.push(c);
        }
        assert(out@ =~= before + escaped_char(c));
        assert(cs@.take(i as int + 1).drop_last() =~= cs@.take(i as int));
        assert(out@ =~= old(out)@ + escaped(cs@.take(i as int + 1)));
        i = i + 1;
    }
    assert(cs@.take(cs@.len() as int) =~= cs@);
}

/// The labels of a series.
pub open spec fn labels(s: SeriesModel) -> Seq<char> {
    "method=\""@ + escaped(s.method) + "\",route=\""@ + escaped(s.route) + "\",status=\""@
        + decimal(s.class as nat) + "xx\""@
}

/// The counter line of a series.
pub open spec fn counter_line(s: SeriesModel) -> Seq<char> {
    "http_requests_total{"@ + labels(s) + "} "@ + decimal(s.count as nat) + "\n"@
}

/// The line of bucket `b` of a series.
pub open spec fn bucket_line(s: SeriesModel, b: int) -> Seq<char> {
    "http_request_duration_microseconds_bucket{"@ + labels(s) + ",le=\""@ + decimal(
        bucket_bounds()[b] as nat,
    ) + "\"} "@ + decimal(s.buckets[b] as nat) + "\n"@
}

/// The lines of the first `n` buckets of a series.
pub open spec fn bucket_lines(s: SeriesModel, n: nat) -> Seq<char>
    decreases n,
{
    if n == 0 {
        seq![]
    } else {
        bucket_lines(s, (n - 1) as nat) + bucket_line(s, n - 1)
    }
}

/// The histogram lines of a series: its buckets, the bucket of all
/// requests, the sum of latencies and the count.
pub open spec fn histogram_block(s: SeriesModel) -> Seq<char> {
    bucket_lines(s, bucket_bounds().len()) + "http_request_duration_microseconds_bucket{"@
        + labels(s) + ",le=\"+Inf\"} "@ + decimal(s.count as nat) + "\n"@
        + "http_request_duration_microseconds_sum{"@ + labels(s) + "} "@ + decimal(
        s.latency_sum as nat,
    ) + "\n"@ + "http_request_duration_microseconds_count{"@ + labels(s) + "} "@ + decimal(
        s.count as nat,
    ) + "\n"@
}

/// The counter lines of all series, in order.
pub open spec fn counter_lines(v: Seq<SeriesModel>) -> Seq<char>
    decreases v.len(),
{
    if v.len() == 0 {
        seq![]
    } else {
        counter_lines(v.drop_last()) + counter_line(v.last())
    }
}

/// The histogram lines of all series, in order.
pub open spec fn histogram_lines(v: Seq<SeriesModel>) -> Seq<char>
    decreases v.len(),
{
    if v.len() == 0 {
        seq![]
    } else {
        histogram_lines(v.drop_last()) + histogram_block(v.last())
    }
}

/// The exposition text of a registry.
pub open spec fn exposition(v: Seq<SeriesModel>) -> Seq<char> {
    "# TYPE http_requests_total counter\n"@ + counter_lines(v)
        + "# TYPE http_request_duration_microseconds histogram\n"@ + histogram_lines(v)
}

impl Series {
    fn push_labels(&self, out: &mut Vec<char>)
        ensures
            final(out)@ == old(out)@ + labels(self@),
    {
        push_text(out, "method=\"");
        push_escaped(out, self.method.as_str());
        push_text(out, "\",route=\"");
        push_escaped(out, self.route.as_str());
        push_text(out, "\",status=\"");
        push_decimal(out, self.class as u64);
        push_text(out, "xx\"");
        assert(final(out)@ =~= old(out)@ + labels(self@));
    }

    fn push_counter(&self, out: &mut Vec<char>)
        ensures
            final(out)@ == old(out)@ + counter_line(self@),
    {
        push_text(out, "http_requests_total{");
        self.push_labels(out);
        push_text(out, "} ");
        push_decimal(out, self.count);
        push_text(out, "\n");
        assert(final(out)@ =~= old(out)@ + counter_line(self@));
    }

    fn push_histogram(&self, out: &mut Vec<char>)
        requires
            self@.buckets.len() == bucket_bounds().len(),
        ensures
            final(out)@ == old(out)@ + histogram_block(self@),
    {
        let bounds = bucket_bounds_vec();
        let mut b: usize = 0;
        while b < bounds.len()
            invariant
                bounds@ == bucket_bounds(),
                self@.buckets.len() == bucket_bounds().len(),
                b <= bounds@.len(),
                out@ == old(out)@ + bucket_lines(self@, b as nat),
            decreases bounds@.len() - b,
        {
            let ghost before = out@;
            push_text(out, "http_request_duration_microseconds_bucket{");
            self.push_labels(out);
            push_text(out, ",le=\"");
            push_decimal(out, bounds[b]);
            push_text(out, "\"} ");
            push_decimal(out, self.buckets[b]);
            push_text(out, "\n");
            assert(out@ =~= before + bucket_line(self@, b as int));
            assert(out@ =~= old(out)@ + bucket_lines(self@, b as nat + 1));
            b = b + 1;
        }
        push_text(out, "http_request_duration_microseconds_bucket{");
        self.push_labels(out);
        push_text(out, ",le=\"+Inf\"} ");
        push_decimal(out, self.count);
        push_text(out, "\n");
        push_text(out, "http_request_duration_microseconds_sum{");
        self.push_labels(out);
        push_text(out, "} ");
        push_decimal(out, self.latency_sum);
        push_text(out, "\n");
        push_text(out, "http_request_duration_microseconds_count{");
        self.push_labels(out);
        push_text(out, "} ");
        push_decimal(out, self.count);
        push_text(out, "\n");
        assert(final(out)@ =~= old(out)@ + histogram_block(self@));
    }
}

impl MetricsRegistry {
    /// The counters in the Prometheus text exposition format: one counter
    /// line per series, then the histogram lines of each series.
    pub fn render(&self) -> (r: String)
        requires
            self.wf(),
        ensures
            r@ == exposition(self@),
    {
        let mut out: Vec<char> = Vec::new();
        push_text(&mut out, "# TYPE http_requests_total counter\n");
        let ghost head = out@;
        let mut i: usize = 0;
        while i < self.series.len()
            invariant
                i <= self@.len(),
                out@ == head + counter_lines(self@.take(i as int)),
            decreases self@.len() - i,
        {
            self.series[i].push_counter(&mut out);
            assert(self@[i as int] == self.series@[i as int]@);
            assert(self@.take(i as int + 1).drop_last() =~= self@.take(i as int));
            assert(out@ =~= head + counter_lines(self@.take(i as int + 1)));
            i = i + 1;
        }
        assert(self@.take(self@.len() as int) =~= self@);
        push_text(&mut out, "# TYPE http_request_duration_microseconds histogram\n");
        let ghost mid = out@;
        let mut i: usize = 0;
        while i < self.series.len()
            invariant
                i <= self@.len(),
                series_wf(self@),
                out@ == mid + histogram_lines(self@.take(i as int)),
            decreases self@.len() - i,
        {
            assert(self@[i as int] == self.series@[i as int]@);
            assert(self@[i as int].buckets.len() == bucket_bounds().len());
            self.series[i].push_histogram(&mut out);
            assert(self@.take(i as int + 1).drop_last() =~= self@.take(i as int));
            assert(out@ =~= mid + histogram_lines(self@.take(i as int + 1)));
            i = i + 1;
        }
        assert(out@ =~= exposition(self@));
        crate::text::string_from_chars(out.as_slice(), 0, out.len())
    }
}

} // verus!
