//! The reconciliation driver: delivers, for one subscription, the exact set
//! of events with sequence number at or above the requested start, each
//! exactly once, in increasing order.
//!
//! The driver attaches to the notification bus first, replays durable
//! history up to the tip observed at attach time, then drains the live
//! feed. A watermark (`Reconciler::next`) guards the splice: live events
//! below it were already delivered by the replay and are discarded as
//! duplicates. If the bus drops the subscriber for lagging, the driver
//! bridges the lost window with a bounded re-read of history and resumes.

use vstd::prelude::*;
use crate::history::HistorySource;
use crate::history::StoredBlock;
use crate::types::BlockHeader;

verus! {

/// What a subscriber observes from the notification bus: a published
/// header, or the explicit signal that it fell behind the bus's bounded
/// buffer and events were dropped.
#[derive(Clone, Copy, PartialEq, Eq, Structural, Debug)]
pub enum BusEvent {
    Header(BlockHeader),
    Lagged,
}

/// A bus event the driver can process without its watermark overflowing.
pub open spec fn ev_ok(ev: BusEvent) -> bool {
    match ev {
        BusEvent::Header(h) => h.number < u64::MAX,
        BusEvent::Lagged => true,
    }
}

pub open spec fn evs_ok(evs: Seq<BusEvent>) -> bool {
    forall|i: int| 0 <= i < evs.len() ==> ev_ok(#[trigger] evs[i])
}

/// The event is a published header carrying sequence number `n`.
pub open spec fn is_header_numbered(ev: BusEvent, n: u64) -> bool {
    match ev {
        BusEvent::Header(h) => h.number == n,
        BusEvent::Lagged => false,
    }
}

/// A live feed segment in publish order: headers numbered `p`, `p + 1`, ...
/// with no lag signal. The bus delivers every event published after attach,
/// in publish order, so an uninterrupted stretch of the feed has this shape.
pub open spec fn contiguous_headers(evs: Seq<BusEvent>, p: u64) -> bool {
    forall|i: int| 0 <= i < evs.len() ==> is_header_numbered(#[trigger] evs[i], (p + i) as u64)
}

pub open spec fn max_u64(a: u64, b: u64) -> u64 {
    if a >= b {
        a
    } else {
        b
    }
}

/// The ascending run of sequence numbers `lo, lo + 1, ..., hi - 1`; empty
/// when `lo >= hi`.
pub open spec fn range_seq(lo: u64, hi: u64) -> Seq<u64> {
    if lo >= hi {
        Seq::empty()
    } else {
        Seq::new((hi - lo) as nat, |i: int| (lo + i) as u64)
    }
}

/// The sequence numbers of a stream of headers.
pub open spec fn numbers_of(s: Seq<BlockHeader>) -> Seq<u64> {
    s.map_values(|h: BlockHeader| h.number)
}

/// The watermark after the driver handles one bus event, starting from
/// watermark `next` with `hl` blocks durable.
pub open spec fn step_next(next: u64, hl: u64, ev: BusEvent) -> u64 {
    match ev {
        BusEvent::Header(h) => if h.number >= next {
            (h.number + 1) as u64
        } else {
            next
        },
        BusEvent::Lagged => max_u64(next, hl),
    }
}

/// The sequence numbers the driver forwards for one bus event: a fresh
/// header is forwarded, a stale one is dropped as a duplicate, and a lag
/// signal is bridged by replaying history up to its current tip.
pub open spec fn step_out(next: u64, hl: u64, ev: BusEvent) -> Seq<u64> {
    match ev {
        BusEvent::Header(h) => if h.number >= next {
            seq![h.number]
        } else {
            Seq::empty()
        },
        BusEvent::Lagged => range_seq(next, hl),
    }
}

/// The watermark after the driver drains a whole live feed.
pub open spec fn live_next(next: u64, hl: u64, evs: Seq<BusEvent>) -> u64
    decreases evs.len(),
{
    if evs.len() == 0 {
        next
    } else {
        live_next(step_next(next, hl, evs[0]), hl, evs.subrange(1, evs.len() as int))
    }
}

/// The sequence numbers the driver forwards while draining a live feed.
pub open spec fn live_out(next: u64, hl: u64, evs: Seq<BusEvent>) -> Seq<u64>
    decreases evs.len(),
{
    if evs.len() == 0 {
        Seq::empty()
    } else {
        step_out(next, hl, evs[0])
            + live_out(step_next(next, hl, evs[0]), hl, evs.subrange(1, evs.len() as int))
    }
}

/// The sequence numbers a whole subscription run forwards: the catch-up
/// replay of `[from, attach_tip)`, then the drained live feed, starting
/// from the watermark the replay leaves behind.
pub open spec fn run_model(from: u64, attach_tip: u64, hl: u64, evs: Seq<BusEvent>) -> Seq<u64> {
    range_seq(from, attach_tip) + live_out(max_u64(from, attach_tip), hl, evs)
}

/// A forwarded header is either the durable record bearing its number or a
/// header the bus published.
pub open spec fn from_history_or_live(h: BlockHeader, hist: Seq<StoredBlock>, evs: Seq<BusEvent>) -> bool {
    ||| ((h.number as nat) < hist.len() && h == hist[h.number as int].header)
    ||| evs.contains(BusEvent::Header(h))
}

proof fn lemma_range_snoc(lo: u64, hi: u64)
    requires
        lo <= hi,
        hi < u64::MAX,
    ensures
        range_seq(lo, (hi + 1) as u64) == range_seq(lo, hi).push(hi),
{
    assert(range_seq(lo, (hi + 1) as u64) =~= range_seq(lo, hi).push(hi));
}

proof fn lemma_range_unfold_left(lo: u64, hi: u64)
    requires
        lo < hi,
    ensures
        range_seq(lo, hi) == seq![lo] + range_seq((lo + 1) as u64, hi),
{
    assert(range_seq(lo, hi) =~= seq![lo] + range_seq((lo + 1) as u64, hi));
}

proof fn lemma_range_concat(lo: u64, mid: u64, hi: u64)
    requires
        lo <= mid <= hi,
    ensures
        range_seq(lo, mid) + range_seq(mid, hi) == range_seq(lo, hi),
{
    assert(range_seq(lo, mid) + range_seq(mid, hi) =~= range_seq(lo, hi));
}

/// Gluing one more forwarded segment onto an already-exact stream: if the
/// stream so far is exactly `[from, m)` and the watermark is
/// `max(from, m)`, then forwarding the fresh part of a segment that starts
/// at or below `m` extends the stream to exactly `[from, max(m, q))`.
proof fn lemma_extend(from: u64, m: u64, p: u64, q: u64)
    requires
        p <= m,
    ensures
        range_seq(from, m) + range_seq(max_u64(max_u64(from, m), p), q)
            == range_seq(from, max_u64(m, q)),
{
    let s = max_u64(max_u64(from, m), p);
    assert(s == max_u64(from, m));
    if from <= m {
        if m <= q {
            lemma_range_concat(from, m, q);
        } else {
            assert(range_seq(s, q) =~= Seq::<u64>::empty());
            assert(range_seq(from, m) + range_seq(s, q) =~= range_seq(from, max_u64(m, q)));
        }
    } else {
        assert(range_seq(from, m) =~= Seq::<u64>::empty());
        assert(range_seq(from, m) + range_seq(s, q) =~= range_seq(from, q));
        if q < m {
            assert(range_seq(from, q) =~= Seq::<u64>::empty());
            assert(range_seq(from, max_u64(m, q)) =~= Seq::<u64>::empty());
        }
    }
}

proof fn lemma_live_next_snoc(next: u64, hl: u64, evs: Seq<BusEvent>, ev: BusEvent)
    ensures
        live_next(next, hl, evs.push(ev)) == step_next(live_next(next, hl, evs), hl, ev),
    decreases evs.len(),
{
    reveal_with_fuel(live_next, 2);
    if evs.len() == 0 {
        assert(evs.push(ev)[0] == ev);
        assert(evs.push(ev).subrange(1, evs.push(ev).len() as int) =~= Seq::<BusEvent>::empty());
    } else {
        assert(evs.push(ev)[0] == evs[0]);
        assert(evs.push(ev).subrange(1, evs.push(ev).len() as int)
            =~= evs.subrange(1, evs.len() as int).push(ev));
        lemma_live_next_snoc(step_next(next, hl, evs[0]), hl, evs.subrange(1, evs.len() as int), ev);
    }
}

proof fn lemma_live_out_snoc(next: u64, hl: u64, evs: Seq<BusEvent>, ev: BusEvent)
    ensures
        live_out(next, hl, evs.push(ev))
            == live_out(next, hl, evs) + step_out(live_next(next, hl, evs), hl, ev),
    decreases evs.len(),
{
    reveal_with_fuel(live_next, 2);
    reveal_with_fuel(live_out, 2);
    lemma_live_next_snoc(next, hl, evs, ev);
    if evs.len() == 0 {
        assert(evs.push(ev)[0] == ev);
        assert(evs.push(ev).subrange(1, evs.push(ev).len() as int) =~= Seq::<BusEvent>::empty());
        assert(live_out(next, hl, evs.push(ev))
            =~= live_out(next, hl, evs) + step_out(live_next(next, hl, evs), hl, ev));
    } else {
        let n1 = step_next(next, hl, evs[0]);
        let rest = evs.subrange(1, evs.len() as int);
        assert(evs.push(ev)[0] == evs[0]);
        assert(evs.push(ev).subrange(1, evs.push(ev).len() as int) =~= rest.push(ev));
        lemma_live_out_snoc(n1, hl, rest, ev);
        lemma_live_next_snoc(n1, hl, rest, ev);
        assert(live_out(next, hl, evs.push(ev))
            =~= live_out(next, hl, evs) + step_out(live_next(next, hl, evs), hl, ev));
    }
}

/// Draining a feed split in two is draining the first part, then the
/// second from the watermark the first part leaves behind.
proof fn lemma_live_decompose(next: u64, hl: u64, e1: Seq<BusEvent>, e2: Seq<BusEvent>)
    ensures
        live_next(next, hl, e1 + e2) == live_next(live_next(next, hl, e1), hl, e2),
        live_out(next, hl, e1 + e2)
            == live_out(next, hl, e1) + live_out(live_next(next, hl, e1), hl, e2),
    decreases e1.len(),
{
    if e1.len() == 0 {
        assert(e1 + e2 =~= e2);
        assert(live_out(next, hl, e1) + live_out(next, hl, e2) =~= live_out(next, hl, e2));
    } else {
        let n1 = step_next(next, hl, e1[0]);
        let rest = e1.subrange(1, e1.len() as int);
        assert((e1 + e2)[0] == e1[0]);
        assert((e1 + e2).subrange(1, (e1 + e2).len() as int) =~= rest + e2);
        lemma_live_decompose(n1, hl, rest, e2);
        assert(live_out(next, hl, e1 + e2)
            =~= live_out(next, hl, e1) + live_out(live_next(next, hl, e1), hl, e2));
    }
}

/// Whatever the bus delivers, the forwarded stream never repeats and never
/// goes backwards: every forwarded number is at or above the watermark it
/// was forwarded at, and strictly below the watermark left behind.
pub proof fn lemma_live_monotonic(next: u64, hl: u64, evs: Seq<BusEvent>)
    requires
        evs_ok(evs),
    ensures
        next <= live_next(next, hl, evs),
        forall|k: int| 0 <= k < live_out(next, hl, evs).len() ==>
            next <= #[trigger] live_out(next, hl, evs)[k]
            && live_out(next, hl, evs)[k] < live_next(next, hl, evs),
        forall|i: int, j: int| 0 <= i < j < live_out(next, hl, evs).len() ==>
            live_out(next, hl, evs)[i] < live_out(next, hl, evs)[j],
    decreases evs.len(),
{
    if evs.len() == 0 {
    } else {
        let ev = evs[0];
        let n1 = step_next(next, hl, ev);
        let rest = evs.subrange(1, evs.len() as int);
        let a = step_out(next, hl, ev);
        let b = live_out(n1, hl, rest);
        assert(evs_ok(rest)) by {
            assert(forall|i: int| 0 <= i < rest.len() ==> #[trigger] rest[i] == evs[i + 1]);
        }
        lemma_live_monotonic(n1, hl, rest);
        assert(next <= n1);
        assert(forall|k: int| 0 <= k < a.len() ==> next <= #[trigger] a[k] && a[k] < n1);
        assert(forall|i: int, j: int| 0 <= i < j < a.len() ==> a[i] < a[j]);
        assert(live_out(next, hl, evs) == a + b);
        let nf = live_next(next, hl, evs);
        assert(nf == live_next(n1, hl, rest));
        assert forall|k: int| 0 <= k < (a + b).len() implies
            next <= #[trigger] (a + b)[k] && (a + b)[k] < nf by {
            if k < a.len() {
                assert((a + b)[k] == a[k]);
                assert(a[k] < n1 <= nf);
            } else {
                assert((a + b)[k] == b[k - a.len()]);
            }
        }
        assert forall|i: int, j: int| 0 <= i < j < (a + b).len() implies
            (a + b)[i] < (a + b)[j] by {
            if j < a.len() {
            } else if i < a.len() {
                assert((a + b)[i] == a[i] && a[i] < n1);
                assert((a + b)[j] == b[j - a.len()] && n1 <= b[j - a.len()]);
            } else {
                assert((a + b)[i] == b[i - a.len()] && (a + b)[j] == b[j - a.len()]);
            }
        }
    }
}

/// Draining an uninterrupted live segment numbered from `p`: everything
/// below the watermark is dropped as a duplicate, everything at or above
/// it is forwarded, so the forwarded part is exactly
/// `[max(next, p), p + |evs|)`.
pub proof fn lemma_live_contiguous(next: u64, hl: u64, evs: Seq<BusEvent>, p: u64)
    requires
        contiguous_headers(evs, p),
        p + evs.len() <= u64::MAX,
    ensures
        live_out(next, hl, evs) == range_seq(max_u64(next, p), (p + evs.len()) as u64),
        live_next(next, hl, evs) == if evs.len() == 0 {
            next
        } else {
            max_u64(next, (p + evs.len()) as u64)
        },
    decreases evs.len(),
{
    let q = (p + evs.len()) as u64;
    if evs.len() == 0 {
        assert(range_seq(max_u64(next, p), q) =~= Seq::<u64>::empty());
    } else {
        assert(is_header_numbered(evs[0], p));
        let rest = evs.subrange(1, evs.len() as int);
        assert(contiguous_headers(rest, (p + 1) as u64)) by {
            assert(forall|i: int| 0 <= i < rest.len() ==> #[trigger] rest[i] == evs[i + 1]);
        }
        let n1 = step_next(next, hl, evs[0]);
        lemma_live_contiguous(n1, hl, rest, (p + 1) as u64);
        if p >= next {
            // the head is fresh: forwarded, watermark moves to p + 1
            assert(n1 == p + 1);
            assert(live_out(n1, hl, rest) == range_seq((p + 1) as u64, q));
            lemma_range_unfold_left(p, q) ;
            assert(step_out(next, hl, evs[0]) =~= seq![p]);
            assert(max_u64(next, p) == p);
            if rest.len() == 0 {
                assert(live_next(next, hl, evs) == n1);
                assert(max_u64(next, q) == q);
            }
        } else {
            // the head duplicates the replay: dropped, watermark unchanged
            assert(n1 == next);
            assert(step_out(next, hl, evs[0]) =~= Seq::<u64>::empty());
            assert(max_u64(next, (p + 1) as u64) == max_u64(next, p)) by {
                assert(p + 1 <= next);
            }
            assert(live_out(next, hl, evs)
                =~= live_out(n1, hl, rest));
            if rest.len() == 0 {
                assert(max_u64(next, q) == next);
            }
        }
    }
}

/// The full reconciliation guarantee (catch-up race included): replaying
/// history up to the attach-time tip and splicing on a live feed that
/// starts at or below that tip delivers exactly the events numbered `from`
/// and above, each exactly once, in ascending order with no gap — even
/// when the feed republishes events the replay already delivered.
pub proof fn lemma_reconciliation_exact(
    from: u64,
    attach_tip: u64,
    hl: u64,
    evs: Seq<BusEvent>,
    p: u64,
)
    requires
        contiguous_headers(evs, p),
        p <= attach_tip,
        p + evs.len() <= u64::MAX,
    ensures
        run_model(from, attach_tip, hl, evs)
            == range_seq(from, max_u64(attach_tip, (p + evs.len()) as u64)),
{
    let next0 = max_u64(from, attach_tip);
    lemma_live_contiguous(next0, hl, evs, p);
    assert(max_u64(next0, p) == max_u64(max_u64(from, attach_tip), p));
    lemma_extend(from, attach_tip, p, (p + evs.len()) as u64);
}

/// Lag recovery: if the bus drops the subscriber after an uninterrupted
/// segment from `p`, and by recovery time history holds `hl` blocks while
/// the feed resumes at `r <= hl`, the final stream is still exactly the
/// events numbered `from` and above, each exactly once — every event past
/// the lag window is delivered and nothing before it is repeated.
pub proof fn lemma_lag_recovery(
    from: u64,
    attach_tip: u64,
    hl: u64,
    a: Seq<BusEvent>,
    p: u64,
    b: Seq<BusEvent>,
    r: u64,
)
    requires
        contiguous_headers(a, p),
        p <= attach_tip,
        attach_tip <= hl,
        contiguous_headers(b, r),
        r <= hl,
        p + a.len() <= u64::MAX,
        r + b.len() <= u64::MAX,
    ensures
        run_model(from, attach_tip, hl, a + seq![BusEvent::Lagged] + b)
            == range_seq(
                from,
                max_u64(max_u64(hl, (p + a.len()) as u64), (r + b.len()) as u64),
            ),
{
    reveal_with_fuel(live_next, 2);
    reveal_with_fuel(live_out, 2);
    let next0 = max_u64(from, attach_tip);
    let lag = seq![BusEvent::Lagged];
    let evs = a + lag + b;
    assert(evs =~= (a + lag) + b);

    lemma_live_decompose(next0, hl, a + lag, b);
    lemma_live_decompose(next0, hl, a, lag);
    let n1 = live_next(next0, hl, a);
    assert(lag[0] == BusEvent::Lagged);
    assert(lag.subrange(1, 1) =~= Seq::<BusEvent>::empty());
    assert(live_out(n1, hl, lag) =~= range_seq(n1, hl));
    assert(live_next(n1, hl, lag) == max_u64(n1, hl));
    let n2 = live_next(next0, hl, a + lag);
    assert(n2 == max_u64(n1, hl));

    lemma_live_contiguous(next0, hl, a, p);
    lemma_live_contiguous(n2, hl, b, r);

    let m1 = max_u64(attach_tip, (p + a.len()) as u64);
    // after the replay and segment `a`, the stream is exactly [from, m1)
    lemma_extend(from, attach_tip, p, (p + a.len()) as u64);
    assert(n1 == max_u64(from, m1)) by {
        if a.len() == 0 {
            assert(m1 == attach_tip);
        }
    }
    // the lag bridge reads history up to its current tip
    let m2 = max_u64(m1, hl);
    lemma_extend(from, m1, 0, hl);
    assert(max_u64(max_u64(from, m1), 0) == n1);
    assert(n2 == max_u64(from, m2));
    // the resumed feed continues from r <= hl
    let m3 = max_u64(m2, (r + b.len()) as u64);
    lemma_extend(from, m2, r, (r + b.len()) as u64);
    assert(max_u64(max_u64(from, m2), r) == max_u64(n2, r));

    assert(run_model(from, attach_tip, hl, evs)
        =~= ((range_seq(from, attach_tip) + live_out(next0, hl, a)) + live_out(n1, hl, lag))
            + live_out(n2, hl, b));
    assert(m3 == max_u64(max_u64(hl, (p + a.len()) as u64), (r + b.len()) as u64));
}

/// Safety of the whole run, with no assumption on the feed: the forwarded
/// numbers all lie at or above the requested start and are strictly
/// ascending, so nothing is ever delivered twice.
pub proof fn lemma_run_model_monotonic(from: u64, attach_tip: u64, hl: u64, evs: Seq<BusEvent>)
    requires
        evs_ok(evs),
    ensures
        forall|k: int| 0 <= k < run_model(from, attach_tip, hl, evs).len() ==>
            from <= #[trigger] run_model(from, attach_tip, hl, evs)[k],
        forall|i: int, j: int|
            0 <= i < j < run_model(from, attach_tip, hl, evs).len() ==>
                run_model(from, attach_tip, hl, evs)[i] < run_model(from, attach_tip, hl, evs)[j],
{
    let next0 = max_u64(from, attach_tip);
    let a = range_seq(from, attach_tip);
    let b = live_out(next0, hl, evs);
    lemma_live_monotonic(next0, hl, evs);
    assert(forall|k: int| 0 <= k < a.len() ==> from <= #[trigger] a[k] && a[k] < next0);
    assert(forall|i: int, j: int| 0 <= i < j < a.len() ==> a[i] < a[j]);
    assert forall|k: int| 0 <= k < (a + b).len() implies from <= #[trigger] (a + b)[k] by {
        if k < a.len() {
        } else {
            assert((a + b)[k] == b[k - a.len()]);
            assert(next0 <= b[k - a.len()]);
        }
    }
    assert forall|i: int, j: int| 0 <= i < j < (a + b).len() implies
        (a + b)[i] < (a + b)[j] by {
        if j < a.len() {
        } else if i < a.len() {
            assert((a + b)[i] == a[i] && a[i] < next0);
            assert((a + b)[j] == b[j - a.len()] && next0 <= b[j - a.len()]);
        } else {
            assert((a + b)[i] == b[i - a.len()] && (a + b)[j] == b[j - a.len()]);
        }
    }
}

/// The catch-up batch size: one bounded storage read per batch, so a long
/// replay never holds a storage transaction open indefinitely.
pub const CATCH_UP_BATCH: u64 = 128;

/// The splice guard. `next` is the least sequence number still owed to the
/// subscriber: everything below it has already been forwarded (or was
/// skipped by the requested start) and must never be forwarded again.
pub struct Reconciler {
    pub next: u64,
}

impl Reconciler {
    pub fn new(start: u64) -> (r: Self)
        ensures
            r.next == start,
    {
        Reconciler { next: start }
    }

    /// The live-phase decision: forward a header only if its sequence
    /// number is not below the watermark; otherwise it is a duplicate of
    /// something the replay (or an earlier bus event) already delivered.
    pub fn offer(&mut self, h: &BlockHeader) -> (forwarded: bool)
        requires
            h.number < u64::MAX,
        ensures
            forwarded == (h.number >= old(self).next),
            forwarded ==> final(self).next == h.number + 1,
            !forwarded ==> final(self).next == old(self).next,
    {
        if h.number >= self.next {
            self.next = h.number + 1;
            true
        } else {
            false
        }
    }
}

/// Replays history from the watermark up to (not including) sequence
/// number `upto`, in bounded batches, forwarding every record in order and
/// advancing the watermark past what was forwarded.
pub fn catch_up_phase(
    history: &HistorySource,
    rec: &mut Reconciler,
    upto: u64,
    out: &mut Vec<BlockHeader>,
)
    requires
        history.wf(),
        upto as nat <= history@.len(),
    ensures
        final(rec).next == max_u64(old(rec).next, upto),
        numbers_of(final(out)@) == numbers_of(old(out)@) + range_seq(old(rec).next, upto),
        final(out)@.len() >= old(out)@.len(),
        final(out)@.subrange(0, old(out)@.len() as int) == old(out)@,
        forall|k: int| old(out)@.len() <= k < final(out)@.len() ==>
            ((#[trigger] final(out)@[k]).number as nat) < history@.len()
            && final(out)@[k] == history@[final(out)@[k].number as int].header,
{
    let ghost next0 = rec.next;
    let ghost out0 = out@;
    if rec.next >= upto {
        proof {
            assert(range_seq(next0, upto) =~= Seq::<u64>::empty());
            assert(numbers_of(out@) =~= numbers_of(out0) + range_seq(next0, upto));
            assert(out@.subrange(0, out0.len() as int) =~= out0);
        }
        return;
    }
    let mut cur: u64 = rec.next;
    while cur < upto
        invariant
            history.wf(),
            upto as nat <= history@.len(),
            next0 <= cur <= upto,
            rec.next == cur,
            numbers_of(out@) == numbers_of(out0) + range_seq(next0, cur),
            out@.len() >= out0.len(),
            out@.subrange(0, out0.len() as int) == out0,
            forall|k: int| out0.len() <= k < out@.len() ==>
                ((#[trigger] out@[k]).number as nat) < history@.len()
                && out@[k] == history@[out@[k].number as int].header,
        decreases upto - cur,
    {
        let remaining = upto - cur;
        let batch_end = if remaining > CATCH_UP_BATCH {
            cur + CATCH_UP_BATCH
        } else {
            upto
        };
        let batch = history.range_query(cur, batch_end - 1);
        let mut j: usize = 0;
        while j < batch.len()
            invariant
                history.wf(),
                upto as nat <= history@.len(),
                next0 <= cur < batch_end <= upto,
                batch@.len() == batch_end - cur,
                forall|k: int| 0 <= k < batch@.len() ==>
                    #[trigger] batch@[k] == history@[cur + k].header,
                j <= batch.len(),
                numbers_of(out@) == numbers_of(out0) + range_seq(next0, (cur + j) as u64),
                out@.len() >= out0.len(),
                out@.subrange(0, out0.len() as int) == out0,
                forall|k: int| out0.len() <= k < out@.len() ==>
                    ((#[trigger] out@[k]).number as nat) < history@.len()
                    && out@[k] == history@[out@[k].number as int].header,
            decreases batch.len() - j,
        {
            let h = batch[j];
            proof {
                assert(h == history@[cur + j].header);
                assert(h.number == (cur + j) as u64);
                lemma_range_snoc(next0, (cur + j) as u64);
                assert(numbers_of(out@.push(h)) =~= numbers_of(out@).push(h.number));
                assert(out@.push(h).subrange(0, out0.len() as int) =~= out0);
            }
            out.push(h);
            j = j + 1;
        }
        rec.next = batch_end;
        cur = batch_end;
    }
    proof {
        assert(max_u64(next0, upto) == upto);
    }
}

/// One whole subscription run, the central correctness-critical path:
/// attach to the bus (fixing the feed `live`), snapshot the durable tip
/// (`attach_tip` blocks), replay `[from, attach_tip)` from history in
/// bounded batches, then drain the live feed — discarding duplicates below
/// the watermark and bridging any lag drop from history.
///
/// The result is pinned exactly by `run_model`; on top of that, the
/// forwarded stream is strictly ascending, starts no lower than `from`,
/// and every forwarded header is a durable record or a published one.
pub fn run_subscription(
    history: &HistorySource,
    attach_tip: u64,
    live: &Vec<BusEvent>,
    from: u64,
) -> (out: Vec<BlockHeader>)
    requires
        history.wf(),
        attach_tip as nat <= history@.len(),
        evs_ok(live@),
    ensures
        numbers_of(out@) == run_model(from, attach_tip, history@.len() as u64, live@),
        forall|k: int| 0 <= k < out@.len() ==> from <= (#[trigger] out@[k]).number,
        forall|i: int, j: int| 0 <= i < j < out@.len() ==> out@[i].number < out@[j].number,
        forall|k: int| 0 <= k < out@.len() ==>
            from_history_or_live(#[trigger] out@[k], history@, live@),
{
    let ghost hl: u64 = history@.len() as u64;
    let ghost next0 = max_u64(from, attach_tip);
    let hist_len = history.block_count();
    let mut out: Vec<BlockHeader> = Vec::new();
    let mut rec = Reconciler::new(from);

    // catch-up phase: replay everything durable at attach time
    catch_up_phase(history, &mut rec, attach_tip, &mut out);
    proof {
        assert(numbers_of(out@) =~= range_seq(from, attach_tip));
        assert(live@.take(0) =~= Seq::<BusEvent>::empty());
        assert(numbers_of(out@) =~= range_seq(from, attach_tip) + live_out(next0, hl, live@.take(0)));
    }

    // live phase: drain the bus feed through the splice guard
    let mut i: usize = 0;
    while i < live.len()
        invariant
            history.wf(),
            attach_tip as nat <= history@.len(),
            evs_ok(live@),
            hl == history@.len() as u64,
            next0 == max_u64(from, attach_tip),
            hist_len == hl,
            i <= live.len(),
            rec.next == live_next(next0, hl, live@.take(i as int)),
            numbers_of(out@) == range_seq(from, attach_tip) + live_out(next0, hl, live@.take(i as int)),
            forall|k: int| 0 <= k < out@.len() ==>
                from_history_or_live(#[trigger] out@[k], history@, live@),
        decreases live.len() - i,
    {
        let ghost prefix = live@.take(i as int);
        let ghost wm = rec.next;
        let ev = live[i];
        proof {
            assert(live@[i as int] == ev);
            assert(ev_ok(ev));
        }
        match ev {
            BusEvent::Header(h) => {
                let forwarded = rec.offer(&h);
                if forwarded {
                    proof {
                        assert(numbers_of(out@.push(h)) =~= numbers_of(out@).push(h.number));
                        assert(numbers_of(out@).push(h.number)
                            =~= numbers_of(out@) + step_out(wm, hl, ev));
                        assert(live@.contains(BusEvent::Header(h))) by {
                            assert(live@[i as int] == BusEvent::Header(h));
                        }
                    }
                    out.push(h);
                } else {
                    proof {
                        assert(step_out(wm, hl, ev) =~= Seq::<u64>::empty());
                        assert(numbers_of(out@) =~= numbers_of(out@) + step_out(wm, hl, ev));
                    }
                }
            }
            BusEvent::Lagged => {
                let ghost outpre = out@;
                catch_up_phase(history, &mut rec, hist_len, &mut out);
                proof {
                    assert(numbers_of(out@) == numbers_of(outpre) + step_out(wm, hl, ev));
                    assert forall|k: int| 0 <= k < out@.len() implies
                        from_history_or_live(#[trigger] out@[k], history@, live@) by {
                        if k < outpre.len() {
                            assert(out@[k] == out@.subrange(0, outpre.len() as int)[k]);
                            assert(out@[k] == outpre[k]);
                        }
                    }
                }
            }
        }
        proof {
            assert(live@.take(i + 1) =~= prefix.push(ev));
            lemma_live_next_snoc(next0, hl, prefix, ev);
            lemma_live_out_snoc(next0, hl, prefix, ev);
            assert(rec.next == step_next(wm, hl, ev));
            assert(numbers_of(out@)
                =~= range_seq(from, attach_tip)
                    + (live_out(next0, hl, prefix) + step_out(wm, hl, ev)));
        }
        i = i + 1;
    }
    proof {
        assert(live@.take(live@.len() as int) =~= live@);
        assert(numbers_of(out@) == run_model(from, attach_tip, hl, live@));
        lemma_run_model_monotonic(from, attach_tip, hl, live@);
        assert(numbers_of(out@).len() == out@.len());
        assert forall|k: int| 0 <= k < out@.len() implies from <= (#[trigger] out@[k]).number by {
            assert(run_model(from, attach_tip, hl, live@)[k] == numbers_of(out@)[k]);
            assert(out@[k].number == numbers_of(out@)[k]);
        }
        assert forall|i2: int, j2: int| 0 <= i2 < j2 < out@.len() implies
            out@[i2].number < out@[j2].number by {
            assert(run_model(from, attach_tip, hl, live@)[i2] == numbers_of(out@)[i2]);
            assert(run_model(from, attach_tip, hl, live@)[j2] == numbers_of(out@)[j2]);
            assert(out@[i2].number == numbers_of(out@)[i2]);
            assert(out@[j2].number == numbers_of(out@)[j2]);
        }
    }
    out
}

} // verus!
