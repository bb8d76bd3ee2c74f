//! Labelled counters in the order of their labels.
use crate::text;
use vstd::prelude::*;
use vstd::string::*;
use vstd::utf8::*;

verus! {

/// How long a series is kept without an event: 24 hours, in nanoseconds.
pub const IDLE_TTL: u64 = 86_400_000_000_000;

/// How often idle series are looked for at most: once a minute, in nanoseconds.
pub const PRUNE_INTERVAL: u64 = 60_000_000_000;

/// The counter of one combination of labels. The time is in nanoseconds since some
/// fixed instant.
#[derive(Debug, Clone)]
pub struct Series {
    pub labels: Vec<String>,
    pub count: u64,
    /// When it last counted.
    pub seen: u64,
}

/// What a `Series` holds.
#[verifier::ext_equal]
pub struct SeriesView {
    pub labels: Seq<Seq<char>>,
    pub count: u64,
    pub seen: u64,
}

/// The texts of labels.
pub open spec fn label_views(labels: Seq<String>) -> Seq<Seq<char>> {
    labels.map_values(|l: String| l@)
}

impl View for Series {
    type V = SeriesView;

    open spec fn view(&self) -> SeriesView {
        SeriesView { labels: label_views(self.labels@), count: self.count, seen: self.seen }
    }
}

/// What many series hold.
pub open spec fn views(series: Seq<Series>) -> Seq<SeriesView> {
    series.map_values(|s: Series| s@)
}

/// Copies series.
pub fn copy(series: &Vec<Series>) -> (copies: Vec<Series>)
    ensures
        views(copies@) == views(series@),
{
    let mut copies: Vec<Series> = Vec::new();
    for i in 0..series.len()
        invariant
            copies@.len() == i,
            forall|j: int| 0 <= j < i ==> (#[trigger] copies@[j])@ == series@[j]@,
    {
        let one: &Series = &series[i];
        let mut labels: Vec<String> = Vec::new();
        for k in 0..one.labels.len()
            invariant
                labels@ == one.labels@.take(k as int),
        {
            labels.push(one.labels[k].clone());
            assert(one.labels@.take(k + 1) =~= one.labels@.take(k as int).push(one.labels@[k as int]));
        }
        assert(labels@ =~= one.labels@);
        copies.push(Series { labels, count: one.count, seen: one.seen });
    }
    assert(views(copies@) =~= views(series@));
    copies
}

// ---------------------------------------------------------------------------
// Order

/// Whether `a` comes before `b` in the order of their bytes.
pub open spec fn bytes_before(a: Seq<u8>, b: Seq<u8>) -> bool
    decreases b.len(),
{
    if b.len() == 0 {
        false
    } else if a.len() == 0 {
        true
    } else {
        a[0] < b[0] || a[0] == b[0] && bytes_before(a.skip(1), b.skip(1))
    }
}

/// Whether `a` comes before `b`: the first label in which they differ decides.
pub open spec fn before(a: Seq<Seq<char>>, b: Seq<Seq<char>>) -> bool
    decreases b.len(),
{
    if b.len() == 0 {
        false
    } else if a.len() == 0 {
        true
    } else {
        bytes_before(encode_utf8(a[0]), encode_utf8(b[0])) || a[0] == b[0] && before(
            a.skip(1),
            b.skip(1),
        )
    }
}

proof fn lemma_bytes_before_total(a: Seq<u8>, b: Seq<u8>)
    ensures
        bytes_before(a, b) || bytes_before(b, a) || a == b,
        !(bytes_before(a, b) && bytes_before(b, a)),
        a == b ==> !bytes_before(a, b),
    decreases a.len(),
{
    if a.len() == 0 || b.len() == 0 {
        if a.len() == b.len() {
            assert(a =~= b);
        }
    } else {
        lemma_bytes_before_total(a.skip(1), b.skip(1));
        if a[0] == b[0] && a.skip(1) == b.skip(1) {
            assert(a =~= seq![a[0]] + a.skip(1));
            assert(b =~= seq![b[0]] + b.skip(1));
        }
    }
}

proof fn lemma_bytes_before_transitive(a: Seq<u8>, b: Seq<u8>, c: Seq<u8>)
    requires
        bytes_before(a, b),
        bytes_before(b, c),
    ensures
        bytes_before(a, c),
    decreases a.len(),
{
    if a.len() > 0 && a[0] == b[0] && b[0] == c[0] {
        lemma_bytes_before_transitive(a.skip(1), b.skip(1), c.skip(1));
    }
}

/// Of two different lists of labels exactly one comes before the other.
pub proof fn lemma_before_total(a: Seq<Seq<char>>, b: Seq<Seq<char>>)
    ensures
        before(a, b) || before(b, a) || a == b,
        !(before(a, b) && before(b, a)),
        a == b ==> !before(a, b),
    decreases a.len(),
{
    if a.len() == 0 || b.len() == 0 {
        if a.len() == b.len() {
            assert(a =~= b);
        }
    } else {
        lemma_bytes_before_total(encode_utf8(a[0]), encode_utf8(b[0]));
        if encode_utf8(a[0]) == encode_utf8(b[0]) {
            text::lemma_encode_utf8_injective(a[0], b[0]);
        }
        lemma_before_total(a.skip(1), b.skip(1));
        if a[0] == b[0] && a.skip(1) == b.skip(1) {
            assert(a =~= seq![a[0]] + a.skip(1));
            assert(b =~= seq![b[0]] + b.skip(1));
        }
    }
}

pub proof fn lemma_before_transitive(a: Seq<Seq<char>>, b: Seq<Seq<char>>, c: Seq<Seq<char>>)
    requires
        before(a, b),
        before(b, c),
    ensures
        before(a, c),
    decreases a.len(),
{
    if a.len() > 0 {
        let (x, y, z) = (encode_utf8(a[0]), encode_utf8(b[0]), encode_utf8(c[0]));
        if bytes_before(x, y) && bytes_before(y, z) {
            lemma_bytes_before_transitive(x, y, z);
        } else if a[0] == b[0] && b[0] == c[0] {
            if !bytes_before(x, y) && !bytes_before(y, z) {
                lemma_before_transitive(a.skip(1), b.skip(1), c.skip(1));
            }
        }
        lemma_bytes_before_total(x, y);
        lemma_bytes_before_total(y, z);
    }
}

/// How two values compare.
#[derive(Debug, Clone, Copy, PartialEq, Eq, Structural)]
pub enum Relation {
    Before,
    Same,
    Behind,
}

fn relate_bytes(a: &[u8], b: &[u8]) -> (relation: Relation)
    ensures
        relation == Relation::Before <==> bytes_before(a@, b@),
        relation == Relation::Same <==> a@ == b@,
        relation == Relation::Behind <==> bytes_before(b@, a@),
{
    let mut i: usize = 0;
    assert(a@.skip(0) =~= a@);
    assert(b@.skip(0) =~= b@);
    while i < a.len() && i < b.len() && a[i] == b[i]
        invariant
            i <= a@.len(),
            i <= b@.len(),
            bytes_before(a@.skip(i as int), b@.skip(i as int)) == bytes_before(a@, b@),
            a@.skip(i as int) == b@.skip(i as int) <==> a@ == b@,
            bytes_before(b@.skip(i as int), a@.skip(i as int)) == bytes_before(b@, a@),
        decreases a.len() - i,
    {
        proof {
            let (x, y) = (a@.skip(i as int), b@.skip(i as int));
            assert(x.skip(1) =~= a@.skip(i + 1));
            assert(y.skip(1) =~= b@.skip(i + 1));
            assert(x =~= seq![x[0]] + x.skip(1));
            assert(y =~= seq![y[0]] + y.skip(1));
        }
        i = i + 1;
    }
    proof {
        lemma_bytes_before_total(a@, b@);
        lemma_bytes_before_total(a@.skip(i as int), b@.skip(i as int));
    }
    if i == a.len() && i == b.len() {
        assert(a@.skip(i as int) =~= b@.skip(i as int));
        Relation::Same
    } else if i == b.len() {
        Relation::Behind
    } else if i == a.len() || a[i] < b[i] {
        Relation::Before
    } else {
        Relation::Behind
    }
}

fn relate(a: &Vec<String>, b: &Vec<String>) -> (relation: Relation)
    ensures
        relation == Relation::Before <==> before(label_views(a@), label_views(b@)),
        relation == Relation::Same <==> label_views(a@) == label_views(b@),
        relation == Relation::Behind <==> before(label_views(b@), label_views(a@)),
{
    let ghost x = label_views(a@);
    let ghost y = label_views(b@);
    let mut i: usize = 0;
    assert(x.skip(0) =~= x);
    assert(y.skip(0) =~= y);
    while i < a.len() && i < b.len()
        invariant
            i <= a@.len(),
            i <= b@.len(),
            x == label_views(a@),
            y == label_views(b@),
            before(x.skip(i as int), y.skip(i as int)) == before(x, y),
            x.skip(i as int) == y.skip(i as int) <==> x == y,
            before(y.skip(i as int), x.skip(i as int)) == before(y, x),
        decreases a.len() - i,
    {
        let ghost u = x.skip(i as int);
        let ghost v = y.skip(i as int);
        let relation = relate_bytes(a[i].as_str().as_bytes(), b[i].as_str().as_bytes());
        proof {
            lemma_before_total(u, v);
            lemma_before_total(x, y);
            lemma_bytes_before_total(encode_utf8(u[0]), encode_utf8(v[0]));
            assert(u.skip(1) =~= x.skip(i + 1));
            assert(v.skip(1) =~= y.skip(i + 1));
            assert(u =~= seq![u[0]] + u.skip(1));
            assert(v =~= seq![v[0]] + v.skip(1));
            if relation == Relation::Same {
                text::lemma_encode_utf8_injective(u[0], v[0]);
            }
        }
        if relation != Relation::Same {
            return relation;
        }
        i = i + 1;
    }
    proof {
        lemma_before_total(x, y);
        lemma_before_total(x.skip(i as int), y.skip(i as int));
    }
    if i == a.len() && i == b.len() {
        assert(x.skip(i as int) =~= y.skip(i as int));
        Relation::Same
    } else if i == b.len() {
        Relation::Behind
    } else {
        Relation::Before
    }
}

// ---------------------------------------------------------------------------
// Counting

/// The series with one more event of these labels at that time: the counter is
/// raised, or a new one is put in at its place.
pub open spec fn counted(series: Seq<SeriesView>, labels: Seq<Seq<char>>, now: u64) -> Seq<
    SeriesView,
>
    decreases series.len(),
{
    let fresh = SeriesView { labels, count: 1, seen: now };
    if series.len() == 0 {
        seq![fresh]
    } else if series[0].labels == labels {
        seq![SeriesView { labels, count: raised(series[0].count), seen: now }] + series.skip(1)
    } else if before(labels, series[0].labels) {
        seq![fresh] + series
    } else {
        seq![series[0]] + counted(series.skip(1), labels, now)
    }
}

/// One more, and zero behind the largest number.
pub open spec fn raised(n: u64) -> u64 {
    if n == u64::MAX {
        0
    } else {
        (n + 1) as u64
    }
}

/// Whether the labels are in order and none occur twice.
pub open spec fn sorted(series: Seq<SeriesView>) -> bool {
    forall|i: int, j: int|
        0 <= i < j < series.len() ==> before(
            (#[trigger] series[i]).labels,
            (#[trigger] series[j]).labels,
        )
}

/// Adds one event of these labels.
pub fn count(series: &mut Vec<Series>, labels: Vec<String>, now: u64)
    ensures
        views(final(series)@) == counted(views(old(series)@), label_views(labels@), now),
{
    let ghost all = views(series@);
    let ghost key = label_views(labels@);
    let mut i: usize = 0;
    assert(all.skip(0) =~= all);
    assert(all.take(0) + counted(all, key, now) =~= counted(all, key, now));
    while i < series.len()
        invariant
            i <= series@.len(),
            *series == *old(series),
            all == views(series@),
            key == label_views(labels@),
            all.take(i as int) + counted(all.skip(i as int), key, now) =~= counted(all, key, now),
        decreases series.len() - i,
    {
        let ghost rest = all.skip(i as int);
        assert(rest[0] == series@[i as int]@);
        let relation = relate(&labels, &series[i].labels);
        proof {
            lemma_before_total(key, rest[0].labels);
        }
        match relation {
            Relation::Same => {
                let raised: u64 = series[i].count.wrapping_add(1);
                series.set(i, Series { labels, count: raised, seen: now });
                proof {
                    let new = SeriesView { labels: key, count: raised, seen: now };
                    assert(views(series@) =~= all.update(i as int, new));
                    assert(views(series@) =~= all.take(i as int) + (seq![new] + rest.skip(1)));
                }
                return;
            },
            Relation::Before => {
                series.insert(i, Series { labels, count: 1, seen: now });
                proof {
                    let new = SeriesView { labels: key, count: 1, seen: now };
                    assert(views(series@) =~= all.insert(i as int, new));
                    assert(views(series@) =~= all.take(i as int) + (seq![new] + rest));
                }
                return;
            },
            Relation::Behind => {},
        }
        assert(rest.skip(1) =~= all.skip(i + 1));
        assert(all.take(i + 1) + counted(all.skip(i + 1), key, now) =~= all.take(i as int) + (
        seq![rest[0]] + counted(rest.skip(1), key, now)));
        i = i + 1;
    }
    series.push(Series { labels, count: 1, seen: now });
    proof {
        let new = SeriesView { labels: key, count: 1, seen: now };
        assert(views(series@) =~= all.push(new));
        assert(all.skip(i as int).len() == 0);
        assert(views(series@) =~= all.take(i as int) + seq![new]);
    }
}

/// The counter of these labels; a series that is not there counts zero.
pub open spec fn count_of(series: Seq<SeriesView>, labels: Seq<Seq<char>>) -> u64
    decreases series.len(),
{
    if series.len() == 0 {
        0
    } else if series[0].labels == labels {
        series[0].count
    } else {
        count_of(series.skip(1), labels)
    }
}

/// Whether there is a series of these labels.
pub open spec fn present(series: Seq<SeriesView>, labels: Seq<Seq<char>>) -> bool {
    exists|i: int| 0 <= i < series.len() && (#[trigger] series[i]).labels == labels
}

proof fn lemma_count_of_absent(series: Seq<SeriesView>, labels: Seq<Seq<char>>)
    requires
        !present(series, labels),
    ensures
        count_of(series, labels) == 0,
    decreases series.len(),
{
    if series.len() > 0 {
        assert forall|i: int| 0 <= i < series.skip(1).len() implies (#[trigger] series.skip(
            1,
        )[i]).labels != labels by {
            assert(series[i + 1].labels != labels);
        }
        lemma_count_of_absent(series.skip(1), labels);
    }
}

pub proof fn lemma_skip_sorted(series: Seq<SeriesView>)
    requires
        sorted(series),
        series.len() > 0,
    ensures
        sorted(series.skip(1)),
{
    assert forall|i: int, j: int| 0 <= i < j < series.skip(1).len() implies before(
        (#[trigger] series.skip(1)[i]).labels,
        (#[trigger] series.skip(1)[j]).labels,
    ) by {
        assert(before(series[i + 1].labels, series[j + 1].labels));
    }
}

/// Where the counted labels stand: they are new or were there, and nothing else is new.
proof fn lemma_counted_labels(
    series: Seq<SeriesView>,
    labels: Seq<Seq<char>>,
    now: u64,
    i: int,
)
    requires
        0 <= i < counted(series, labels, now).len(),
    ensures
        counted(series, labels, now)[i].labels == labels || present(
            series,
            counted(series, labels, now)[i].labels,
        ),
    decreases series.len(),
{
    let all = counted(series, labels, now);
    if series.len() == 0 {
    } else if series[0].labels == labels {
        if i > 0 {
            assert(series[i].labels == all[i].labels);
        }
    } else if before(labels, series[0].labels) {
        if i > 0 {
            assert(series[i - 1].labels == all[i].labels);
        }
    } else {
        if i == 0 {
            assert(series[0].labels == all[0].labels);
        } else {
            lemma_counted_labels(series.skip(1), labels, now, i - 1);
            if all[i].labels != labels {
                let k = choose|k: int|
                    0 <= k < series.skip(1).len() && (#[trigger] series.skip(1)[k]).labels
                        == all[i].labels;
                assert(series[k + 1].labels == all[i].labels);
            }
        }
    }
}

/// Counting keeps the order of the labels and lets none occur twice.
pub proof fn law_counting_keeps_order(series: Seq<SeriesView>, labels: Seq<Seq<char>>, now: u64)
    requires
        sorted(series),
    ensures
        sorted(counted(series, labels, now)),
    decreases series.len(),
{
    let all = counted(series, labels, now);
    if series.len() == 0 {
    } else if series[0].labels == labels {
        assert forall|i: int, j: int| 0 <= i < j < all.len() implies before(
            (#[trigger] all[i]).labels,
            (#[trigger] all[j]).labels,
        ) by {
            assert(before(series[i].labels, series[j].labels));
        }
    } else if before(labels, series[0].labels) {
        assert forall|i: int, j: int| 0 <= i < j < all.len() implies before(
            (#[trigger] all[i]).labels,
            (#[trigger] all[j]).labels,
        ) by {
            if i > 0 {
                assert(before(series[i - 1].labels, series[j - 1].labels));
            } else if j > 1 {
                assert(before(series[0].labels, series[j - 1].labels));
                lemma_before_transitive(labels, series[0].labels, series[j - 1].labels);
            }
        }
    } else {
        let rest = counted(series.skip(1), labels, now);
        lemma_skip_sorted(series);
        law_counting_keeps_order(series.skip(1), labels, now);
        lemma_before_total(labels, series[0].labels);
        assert forall|i: int, j: int| 0 <= i < j < all.len() implies before(
            (#[trigger] all[i]).labels,
            (#[trigger] all[j]).labels,
        ) by {
            if i > 0 {
                assert(before(rest[i - 1].labels, rest[j - 1].labels));
            } else {
                lemma_counted_labels(series.skip(1), labels, now, j - 1);
                if rest[j - 1].labels != labels {
                    let k = choose|k: int|
                        0 <= k < series.skip(1).len() && (#[trigger] series.skip(1)[k]).labels
                            == rest[j - 1].labels;
                    assert(before(series[0].labels, series[k + 1].labels));
                }
            }
        }
    }
}

/// An event is counted once, and only under its own labels.
pub proof fn law_counting(
    series: Seq<SeriesView>,
    labels: Seq<Seq<char>>,
    now: u64,
    other: Seq<Seq<char>>,
)
    requires
        sorted(series),
    ensures
        count_of(counted(series, labels, now), labels) == raised(count_of(series, labels)),
        other != labels ==> count_of(counted(series, labels, now), other) == count_of(
            series,
            other,
        ),
    decreases series.len(),
{
    let all = counted(series, labels, now);
    if series.len() == 0 {
        assert(all.skip(1) =~= series);
    } else if series[0].labels == labels {
        assert(all.skip(1) =~= series.skip(1));
    } else if before(labels, series[0].labels) {
        assert(all.skip(1) =~= series);
        if present(series, labels) {
            let k = choose|k: int| 0 <= k < series.len() && (#[trigger] series[k]).labels == labels;
            lemma_before_total(labels, series[0].labels);
            if k > 0 {
                assert(before(series[0].labels, series[k].labels));
            }
        }
        lemma_count_of_absent(series, labels);
    } else {
        assert(all.skip(1) =~= counted(series.skip(1), labels, now));
        lemma_skip_sorted(series);
        law_counting(series.skip(1), labels, now, other);
    }
}

// ---------------------------------------------------------------------------
// Expiry

/// How long ago something was; nothing was in the future.
pub open spec fn elapsed(now: u64, then: u64) -> int {
    if now >= then {
        now - then
    } else {
        0
    }
}

/// The series that had an event in the last 24 hours.
pub open spec fn recent(series: Seq<SeriesView>, now: u64) -> Seq<SeriesView> {
    series.filter(|s: SeriesView| elapsed(now, s.seen) < IDLE_TTL)
}

/// The client series.
#[derive(Debug)]
pub struct RequestMetrics {
    pub series: Vec<Series>,
    pub last_pruned: Option<u64>,
}

/// What a `RequestMetrics` holds.
#[verifier::ext_equal]
pub struct RequestMetricsView {
    pub series: Seq<SeriesView>,
    pub last_pruned: Option<u64>,
}

impl View for RequestMetrics {
    type V = RequestMetricsView;

    open spec fn view(&self) -> RequestMetricsView {
        RequestMetricsView { series: views(self.series@), last_pruned: self.last_pruned }
    }
}

/// The series after idle ones were looked for, which happens at most once a minute.
pub open spec fn pruned(metrics: RequestMetricsView, now: u64) -> RequestMetricsView {
    if metrics.last_pruned is None || elapsed(now, metrics.last_pruned->0) >= PRUNE_INTERVAL {
        RequestMetricsView { series: recent(metrics.series, now), last_pruned: Some(now) }
    } else {
        metrics
    }
}

impl Default for RequestMetrics {
    fn default() -> (metrics: Self)
        ensures
            metrics@ == (RequestMetricsView { series: Seq::empty(), last_pruned: None }),
    {
        let metrics = RequestMetrics { series: Vec::new(), last_pruned: None };
        assert(metrics@.series =~= Seq::empty());
        metrics
    }
}

impl RequestMetrics {
    /// Forgets idle series, if a minute has passed since that was last done.
    pub fn prune(&mut self, now: u64)
        ensures
            final(self)@ == pruned(old(self)@, now),
    {
        let due: bool = match self.last_pruned {
            Some(last) => now.saturating_sub(last) >= PRUNE_INTERVAL,
            None => true,
        };
        if !due {
            return;
        }
        let ghost all = views(self.series@);
        let mut series: Vec<Series> = Vec::new();
        std::mem::swap(&mut series, &mut self.series);
        let ghost fresh = |s: SeriesView| elapsed(now, s.seen) < IDLE_TTL;
        let ghost taken = series@;
        reveal(Seq::filter);
        assert(views(self.series@) =~= all.take(0).filter(fresh));
        for s in it: series
            invariant
                it.seq() == taken,
                all == views(taken),
                fresh == (|s: SeriesView| elapsed(now, s.seen) < IDLE_TTL),
                views(self.series@) == all.take(it.index() as int).filter(fresh),
        {
            let ghost i = it.index() as int;
            let ghost kept = self.series@;
            reveal(Seq::filter);
            assert(all.take(i + 1).drop_last() =~= all.take(i));
            assert(all.take(i + 1).last() == s@);
            if now.saturating_sub(s.seen) < IDLE_TTL {
                self.series.push(s);
                assert(views(self.series@) =~= views(kept).push(s@));
            }
        }
        assert(all.take(all.len() as int) =~= all);
        self.last_pruned = Some(now);
    }
}

/// Looking for idle series keeps the order.
pub proof fn law_pruning_keeps_order(series: Seq<SeriesView>, now: u64)
    requires
        sorted(series),
    ensures
        sorted(recent(series, now)),
    decreases series.len(),
{
    let fresh = |s: SeriesView| elapsed(now, s.seen) < IDLE_TTL;
    reveal(Seq::filter);
    if series.len() > 0 {
        let front = series.drop_last();
        assert forall|i: int, j: int| 0 <= i < j < front.len() implies before(
            (#[trigger] front[i]).labels,
            (#[trigger] front[j]).labels,
        ) by {
            assert(before(series[i].labels, series[j].labels));
        }
        law_pruning_keeps_order(front, now);
        let kept = front.filter(fresh);
        assert(recent(front, now) == kept);
        assert forall|i: int, j: int| 0 <= i < j < recent(series, now).len() implies before(
            (#[trigger] recent(series, now)[i]).labels,
            (#[trigger] recent(series, now)[j]).labels,
        ) by {
            if j < kept.len() {
                assert(before(kept[i].labels, kept[j].labels));
            } else {
                front.lemma_filter_contains_rev(fresh, kept[i]);
                assert(kept.contains(kept[i]));
                let k = choose|k: int| 0 <= k < front.len() && front[k] == kept[i];
                assert(before(series[k].labels, series.last().labels));
            }
        }
    }
}

/// A series stays just as it was if it had an event in the last 24 hours, and goes if
/// it had none.
pub proof fn law_idle_series_expire(series: Seq<SeriesView>, now: u64, s: SeriesView)
    ensures
        recent(series, now).contains(s) <==> series.contains(s) && elapsed(now, s.seen) < IDLE_TTL,
{
    let fresh = |s: SeriesView| elapsed(now, s.seen) < IDLE_TTL;
    if recent(series, now).contains(s) {
        let i = choose|i: int| 0 <= i < recent(series, now).len() && recent(series, now)[i] == s;
        series.lemma_filter_pred(fresh, i);
        series.lemma_filter_contains_rev(fresh, s);
    }
    if series.contains(s) && fresh(s) {
        let i = choose|i: int| 0 <= i < series.len() && series[i] == s;
        series.lemma_filter_contains(fresh, i);
    }
}

/// A series that comes back after it was idle for 24 hours starts again at one.
pub proof fn law_returning_series_start_again(
    series: Seq<SeriesView>,
    labels: Seq<Seq<char>>,
    now: u64,
)
    requires
        sorted(series),
        forall|i: int|
            0 <= i < series.len() && (#[trigger] series[i]).labels == labels ==> elapsed(
                now,
                series[i].seen,
            ) >= IDLE_TTL,
    ensures
        count_of(counted(recent(series, now), labels, now), labels) == 1,
{
    let kept = recent(series, now);
    law_pruning_keeps_order(series, now);
    if present(kept, labels) {
        let i = choose|i: int| 0 <= i < kept.len() && (#[trigger] kept[i]).labels == labels;
        assert(kept.contains(kept[i]));
        law_idle_series_expire(series, now, kept[i]);
        let k = choose|k: int| 0 <= k < series.len() && series[k] == kept[i];
        assert(series[k].labels == labels);
    }
    lemma_count_of_absent(kept, labels);
    law_counting(kept, labels, now, labels);
}

} // verus!
