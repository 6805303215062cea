use subfeed::context::PendingBlock;
use subfeed::context::RpcContext;
use subfeed::flow::Message;
use subfeed::flow::Request;
use subfeed::get_block_with_tx_hashes::Error;
use subfeed::get_block_with_tx_hashes::Input;
use subfeed::get_block_with_tx_hashes::Output;
use subfeed::history::HistorySource;
use subfeed::history::StoredBlock;
use subfeed::mux::Connection;
use subfeed::mux::RequestCall;
use subfeed::mux::RequestFrame;
use subfeed::mux::ResponsePayload;
use subfeed::mux::TerminalFrame;
use subfeed::types::BlockHeader;
use subfeed::types::BlockId;
use subfeed::types::PendingHeader;
use subfeed::types::RpcError;
use subfeed::types::SubscriptionId;

fn sample_header(n: u64) -> BlockHeader {
    BlockHeader { number: n, hash: n, parent_hash: 0 }
}

fn sample_context(num_blocks: u64) -> RpcContext {
    let mut history = HistorySource::new();
    for i in 0..num_blocks {
        history.insert_block(StoredBlock { header: sample_header(i), transactions: vec![i, i + 1] });
    }
    RpcContext { history, l1_accepted_count: 0, pending: None }
}

fn subscribe(conn: &mut Connection, ctx: &RpcContext, id: u64) -> SubscriptionId {
    let frame = RequestFrame {
        id,
        call: RequestCall::SubscribeNewHeads(Request { block: BlockId::Number(0) }),
    };
    let (resp, spawn) = conn.handle_request(ctx, &frame);
    assert_eq!(resp.id, id);
    let sid = match resp.payload {
        ResponsePayload::Subscribed(sid) => sid,
        other => panic!("expected a subscribe ack, got {:?}", other),
    };
    let spawn = spawn.expect("a subscribe must spawn a driver");
    assert_eq!(spawn.subscription_id, sid);
    assert_eq!(spawn.starting_point, BlockId::Number(0));
    sid
}

/// Unsubscribe after the subscribe ack: the ack answers `true`, no
/// notification frame is ever emitted for the identifier afterwards, and
/// a second unsubscribe answers `false` without complaint.
#[test]
fn unsubscribe() {
    let ctx = sample_context(0);
    let mut conn = Connection::new();
    let sid = subscribe(&mut conn, &ctx, 1);

    let frame = RequestFrame { id: 100, call: RequestCall::Unsubscribe(sid) };
    let (resp, spawn) = conn.handle_request(&ctx, &frame);
    assert_eq!(resp.id, 100);
    assert!(spawn.is_none());
    assert_eq!(resp.payload, ResponsePayload::Unsubscribed(true));

    // no notification is ever delivered for the cancelled identifier
    let pending_messages = vec![Message(sample_header(10))];
    let frames = conn.emit_notifications(sid, &pending_messages);
    assert!(frames.is_empty());

    // a second unsubscribe finds nothing and answers false
    let (resp2, _) = conn.handle_request(&ctx, &frame);
    assert_eq!(resp2.payload, ResponsePayload::Unsubscribed(false));
}

#[test]
fn unsubscribe_unknown_id_is_false_not_error() {
    let ctx = sample_context(0);
    let mut conn = Connection::new();
    let frame = RequestFrame { id: 7, call: RequestCall::Unsubscribe(SubscriptionId(42)) };
    let (resp, spawn) = conn.handle_request(&ctx, &frame);
    assert_eq!(resp.payload, ResponsePayload::Unsubscribed(false));
    assert!(spawn.is_none());
}

#[test]
fn subscription_ids_are_never_reused() {
    let ctx = sample_context(0);
    let mut conn = Connection::new();
    let a = subscribe(&mut conn, &ctx, 1);
    let b = subscribe(&mut conn, &ctx, 2);
    assert_ne!(a, b);
    // even after unsubscribing, the identifier is not handed out again
    let frame = RequestFrame { id: 3, call: RequestCall::Unsubscribe(a) };
    conn.handle_request(&ctx, &frame);
    let c = subscribe(&mut conn, &ctx, 4);
    assert_ne!(c, a);
    assert_ne!(c, b);
}

#[test]
fn notifications_flow_while_registered() {
    let ctx = sample_context(0);
    let mut conn = Connection::new();
    let sid = subscribe(&mut conn, &ctx, 1);
    let messages = vec![Message(sample_header(0)), Message(sample_header(1))];
    let frames = conn.emit_notifications(sid, &messages);
    assert_eq!(frames.len(), 2);
    assert_eq!(frames[0].subscription_id, sid);
    assert_eq!(frames[0].message, Message(sample_header(0)));
    assert_eq!(frames[1].message, Message(sample_header(1)));
}

#[test]
fn batch_preserves_correlation() {
    let ctx = sample_context(3);
    let mut conn = Connection::new();
    let frames = vec![
        RequestFrame {
            id: 10,
            call: RequestCall::GetBlockWithTxHashes(Input { block_id: BlockId::Number(1) }),
        },
        RequestFrame {
            id: 11,
            call: RequestCall::SubscribeNewHeads(Request { block: BlockId::Latest }),
        },
        RequestFrame { id: 12, call: RequestCall::Unknown },
        RequestFrame { id: 13, call: RequestCall::Unsubscribe(SubscriptionId(999)) },
    ];
    let (responses, spawns) = conn.handle_batch(&ctx, &frames);
    assert_eq!(responses.len(), 4);
    assert_eq!(responses[0].id, 10);
    assert!(matches!(responses[0].payload, ResponsePayload::Block(_)));
    assert_eq!(responses[1].id, 11);
    assert!(matches!(responses[1].payload, ResponsePayload::Subscribed(_)));
    assert_eq!(responses[2].id, 12);
    assert_eq!(responses[2].payload, ResponsePayload::Error(RpcError::InvalidRequest));
    assert_eq!(responses[3].id, 13);
    assert_eq!(responses[3].payload, ResponsePayload::Unsubscribed(false));
    assert_eq!(spawns.len(), 1);
}

#[test]
fn unknown_call_is_rejected_before_spawning() {
    let ctx = sample_context(0);
    let mut conn = Connection::new();
    let frame = RequestFrame { id: 5, call: RequestCall::Unknown };
    let (resp, spawn) = conn.handle_request(&ctx, &frame);
    assert_eq!(resp.payload, ResponsePayload::Error(RpcError::InvalidRequest));
    assert!(spawn.is_none());
}

/// A terminal failure produces exactly one explanatory frame; never a
/// second one after termination.
#[test]
fn terminal_failure_emits_one_frame() {
    let ctx = sample_context(0);
    let mut conn = Connection::new();
    let sid = subscribe(&mut conn, &ctx, 1);
    let first = conn.fail_subscription(sid, RpcError::HistoryUnavailable);
    assert_eq!(
        first,
        Some(TerminalFrame { subscription_id: sid, error: RpcError::HistoryUnavailable })
    );
    let second = conn.fail_subscription(sid, RpcError::HistoryUnavailable);
    assert!(second.is_none());
    // and no notifications either
    let frames = conn.emit_notifications(sid, &vec![Message(sample_header(0))]);
    assert!(frames.is_empty());
}

#[test]
fn close_cancels_every_subscription() {
    let ctx = sample_context(0);
    let mut conn = Connection::new();
    let a = subscribe(&mut conn, &ctx, 1);
    let b = subscribe(&mut conn, &ctx, 2);
    conn.close();
    assert!(conn.emit_notifications(a, &vec![Message(sample_header(0))]).is_empty());
    assert!(conn.emit_notifications(b, &vec![Message(sample_header(0))]).is_empty());
}

#[test]
fn get_block_by_number() {
    let ctx = sample_context(3);
    let got = subfeed::get_block_with_tx_hashes::get_block_with_tx_hashes(
        &ctx,
        &Input { block_id: BlockId::Number(1) },
    );
    match got {
        Ok(Output::Full { header, transactions, l1_accepted }) => {
            assert_eq!(header, sample_header(1));
            assert_eq!(transactions, vec![1, 2]);
            assert!(!l1_accepted);
        }
        other => panic!("expected a full block, got {:?}", other),
    }
}

#[test]
fn get_block_latest_and_l1_status() {
    let mut ctx = sample_context(3);
    ctx.l1_accepted_count = 3;
    let got = subfeed::get_block_with_tx_hashes::get_block_with_tx_hashes(
        &ctx,
        &Input { block_id: BlockId::Latest },
    );
    match got {
        Ok(Output::Full { header, l1_accepted, .. }) => {
            assert_eq!(header, sample_header(2));
            assert!(l1_accepted);
        }
        other => panic!("expected a full block, got {:?}", other),
    }
}

#[test]
fn get_block_not_found() {
    let ctx = sample_context(3);
    let got = subfeed::get_block_with_tx_hashes::get_block_with_tx_hashes(
        &ctx,
        &Input { block_id: BlockId::Number(3) },
    );
    assert_eq!(got, Err(Error::BlockNotFound));
    let empty = sample_context(0);
    let got = subfeed::get_block_with_tx_hashes::get_block_with_tx_hashes(
        &empty,
        &Input { block_id: BlockId::Latest },
    );
    assert_eq!(got, Err(Error::BlockNotFound));
}

#[test]
fn get_block_pending() {
    let mut ctx = sample_context(3);
    ctx.pending = Some(PendingBlock {
        header: PendingHeader { parent_hash: 2 },
        transactions: vec![40, 41],
    });
    let got = subfeed::get_block_with_tx_hashes::get_block_with_tx_hashes(
        &ctx,
        &Input { block_id: BlockId::Pending },
    );
    match got {
        Ok(Output::Pending { header, transactions }) => {
            assert_eq!(header, PendingHeader { parent_hash: 2 });
            assert_eq!(transactions, vec![40, 41]);
        }
        other => panic!("expected the pending block, got {:?}", other),
    }
}

#[test]
fn get_block_pending_missing_is_internal() {
    let ctx = sample_context(3);
    let got = subfeed::get_block_with_tx_hashes::get_block_with_tx_hashes(
        &ctx,
        &Input { block_id: BlockId::Pending },
    );
    assert_eq!(got, Err(Error::Internal));
}
