use subfeed::flow::Message;
use subfeed::flow::Request;
use subfeed::flow::SubscribeNewHeads;
use subfeed::history::HistorySource;
use subfeed::history::StoredBlock;
use subfeed::reconcile::run_subscription;
use subfeed::reconcile::BusEvent;
use subfeed::reconcile::Reconciler;
use subfeed::types::BlockHeader;
use subfeed::types::BlockId;
use subfeed::types::PendingHeader;

fn sample_header(n: u64) -> BlockHeader {
    BlockHeader { number: n, hash: n, parent_hash: 0 }
}

fn sample_history(num_blocks: u64) -> HistorySource {
    let mut h = HistorySource::new();
    for i in 0..num_blocks {
        h.insert_block(StoredBlock { header: sample_header(i), transactions: vec![i] });
    }
    h
}

/// Replays `num_blocks` pre-existing events from sequence 0, then takes
/// live events published after attach; the client must see 0, 1, 2, ...
/// in order with nothing skipped and nothing repeated.
fn happy_path_test(num_blocks: u64) {
    let history = sample_history(num_blocks);
    let live: Vec<BusEvent> = (num_blocks..num_blocks + 10)
        .map(|n| BusEvent::Header(sample_header(n)))
        .collect();
    let request = Request { block: if num_blocks == 0 { BlockId::Latest } else { BlockId::Number(0) } };
    let from = SubscribeNewHeads::starting_sequence(&request, num_blocks).unwrap();
    let out = run_subscription(&history, num_blocks, &live, from);
    assert_eq!(out.len(), (num_blocks + 10) as usize);
    for (k, h) in out.iter().enumerate() {
        assert_eq!(*h, sample_header(k as u64));
    }
}

#[test]
fn happy_path_with_historic_blocks() {
    happy_path_test(1000);
}

#[test]
fn happy_path_with_historic_blocks_no_batching() {
    happy_path_test(10);
}

#[test]
fn happy_path_with_historic_blocks_batching_edge_case() {
    happy_path_test(128);
}

/// Subscribing from the current tip with nothing durable: the first
/// notification is the first event published after subscribe, and no
/// historical replay frame is ever sent.
#[test]
fn happy_path_with_no_historic_blocks() {
    let history = sample_history(0);
    let live: Vec<BusEvent> = (0..10).map(|n| BusEvent::Header(sample_header(n))).collect();
    let request = Request { block: BlockId::Latest };
    let from = SubscribeNewHeads::starting_sequence(&request, 0).unwrap();
    assert_eq!(from, 0);
    let out = run_subscription(&history, 0, &live, from);
    assert_eq!(out.len(), 10);
    assert_eq!(out[0], sample_header(0));
    for (k, h) in out.iter().enumerate() {
        assert_eq!(*h, sample_header(k as u64));
    }
}

/// The catch-up race: while the replay of blocks 0..999 runs, the
/// producer inserts blocks 1000..1999 and publishes them, and the bus
/// also redelivers 998 and 999, which the replay already returned. The
/// merged stream must hold every sequence number 0..=2009 exactly once.
#[test]
fn race_condition_with_historic_blocks() {
    let num_blocks: u64 = 1000;
    let history = sample_history(2 * num_blocks);
    let live: Vec<BusEvent> = (num_blocks - 2..2 * num_blocks + 10)
        .map(|n| BusEvent::Header(sample_header(n)))
        .collect();
    let out = run_subscription(&history, num_blocks, &live, 0);
    assert_eq!(out.len(), (2 * num_blocks + 10) as usize);
    for (k, h) in out.iter().enumerate() {
        assert_eq!(*h, sample_header(k as u64));
    }
}

/// Lag recovery: the bus drops the subscriber after sequence 119; by
/// recovery time history holds blocks up to 179 and the feed resumes at
/// 180. The eventual stream still holds every event, each exactly once.
#[test]
fn lag_recovery_bridges_gap() {
    let history = sample_history(180);
    let mut live: Vec<BusEvent> = (100..120).map(|n| BusEvent::Header(sample_header(n))).collect();
    live.push(BusEvent::Lagged);
    for n in 180..190 {
        live.push(BusEvent::Header(sample_header(n)));
    }
    let out = run_subscription(&history, 100, &live, 0);
    assert_eq!(out.len(), 190);
    for (k, h) in out.iter().enumerate() {
        assert_eq!(*h, sample_header(k as u64));
    }
}

/// A start above everything durable: the replay is skipped and only live
/// events at or above the requested start are delivered.
#[test]
fn start_beyond_tip_skips_replay() {
    let history = sample_history(10);
    let live: Vec<BusEvent> = (10..15).map(|n| BusEvent::Header(sample_header(n))).collect();
    let out = run_subscription(&history, 10, &live, 12);
    assert_eq!(out.len(), 3);
    assert_eq!(out[0], sample_header(12));
    assert_eq!(out[1], sample_header(13));
    assert_eq!(out[2], sample_header(14));
}

/// The live-phase splice decision on its own: a stale header is refused
/// and leaves the watermark alone; a fresh one advances it.
#[test]
fn reconciler_discards_duplicates() {
    let mut rec = Reconciler::new(5);
    assert!(!rec.offer(&sample_header(4)));
    assert!(rec.offer(&sample_header(5)));
    assert!(!rec.offer(&sample_header(5)));
    assert!(rec.offer(&sample_header(7)));
    assert!(!rec.offer(&sample_header(6)));
}

#[test]
fn catch_up_returns_range_with_numbers() {
    let history = sample_history(10);
    let req = Request { block: BlockId::Number(0) };
    let got = SubscribeNewHeads::catch_up(&history, &req, 3, 6).unwrap();
    assert_eq!(got.len(), 4);
    for (k, (msg, n)) in got.iter().enumerate() {
        assert_eq!(*n, 3 + k as u64);
        assert_eq!(*msg, Message(sample_header(3 + k as u64)));
    }
    // clamped to what is durable
    let clamped = SubscribeNewHeads::catch_up(&history, &req, 8, 20).unwrap();
    assert_eq!(clamped.len(), 2);
    assert_eq!(clamped[0].1, 8);
    assert_eq!(clamped[1].1, 9);
    // nothing durable in range
    let empty = SubscribeNewHeads::catch_up(&history, &req, 12, 20).unwrap();
    assert!(empty.is_empty());
}

#[test]
fn starting_sequence_resolution() {
    assert_eq!(
        SubscribeNewHeads::starting_sequence(&Request { block: BlockId::Number(7) }, 100),
        Some(7)
    );
    assert_eq!(
        SubscribeNewHeads::starting_sequence(&Request { block: BlockId::Latest }, 100),
        Some(100)
    );
    assert_eq!(
        SubscribeNewHeads::starting_sequence(&Request { block: BlockId::Pending }, 100),
        None
    );
}

#[test]
fn subscription_name_is_stable() {
    assert_eq!(SubscribeNewHeads::subscription_name(), "starknet_subscriptionNewHeads");
}

/// Nothing durable, nothing published: nothing delivered.
#[test]
fn empty_history_and_feed_delivers_nothing() {
    let history = sample_history(0);
    let live: Vec<BusEvent> = Vec::new();
    let out = run_subscription(&history, 0, &live, 0);
    assert!(out.is_empty());
}

/// Sequence numbers near the top of the range are still spliced exactly.
#[test]
fn near_max_sequence_numbers() {
    let history = sample_history(0);
    let live = vec![
        BusEvent::Header(sample_header(u64::MAX - 2)),
        BusEvent::Header(sample_header(u64::MAX - 1)),
    ];
    let out = run_subscription(&history, 0, &live, u64::MAX - 2);
    assert_eq!(out.len(), 2);
    assert_eq!(out[0], sample_header(u64::MAX - 2));
    assert_eq!(out[1], sample_header(u64::MAX - 1));
}

/// The pending substream forwards the current snapshot and then every
/// replacement as observed, without any deduplication.
#[test]
fn pending_substream_forwards_every_snapshot() {
    let reps = vec![
        PendingHeader { parent_hash: 1 },
        PendingHeader { parent_hash: 1 },
        PendingHeader { parent_hash: 2 },
    ];
    let out = SubscribeNewHeads::pending_substream(Some(PendingHeader { parent_hash: 0 }), &reps);
    assert_eq!(out.len(), 4);
    assert_eq!(out[0], PendingHeader { parent_hash: 0 });
    assert_eq!(out[1], PendingHeader { parent_hash: 1 });
    assert_eq!(out[2], PendingHeader { parent_hash: 1 });
    assert_eq!(out[3], PendingHeader { parent_hash: 2 });
    let none = SubscribeNewHeads::pending_substream(None, &reps);
    assert_eq!(none.len(), 3);
}

#[test]
fn history_tip_and_range() {
    let history = sample_history(5);
    assert_eq!(history.tip(), Some(4));
    assert_eq!(history.block_count(), 5);
    let range = history.range_query(1, 3);
    assert_eq!(range.len(), 3);
    assert_eq!(range[0], sample_header(1));
    assert_eq!(range[2], sample_header(3));
    let empty = HistorySource::new();
    assert_eq!(empty.tip(), None);
}
