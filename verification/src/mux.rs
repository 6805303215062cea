//! The connection multiplexer: decodes each inbound request frame (single
//! or batched) into a method call, a subscribe, or an unsubscribe; owns
//! the per-connection subscription registry; and frames everything bound
//! for the one shared outbound sink.

use vstd::prelude::*;
use crate::context::RpcContext;
use crate::flow::Message;
use crate::flow::Request;
use crate::flow::SubscribeNewHeads;
use crate::get_block_with_tx_hashes::get_block_post;
use crate::get_block_with_tx_hashes::get_block_with_tx_hashes;
use crate::get_block_with_tx_hashes::Error;
use crate::get_block_with_tx_hashes::Input;
use crate::get_block_with_tx_hashes::Output;
use crate::registry::remove_id;
use crate::registry::Registry;
use crate::types::BlockId;
use crate::types::RpcError;
use crate::types::SubscriptionId;

verus! {

/// One decoded inbound request. Anything that fails decoding arrives as
/// `Unknown` and is rejected without any task being spawned.
#[derive(Clone, Copy, PartialEq, Eq, Structural, Debug)]
pub enum RequestCall {
    GetBlockWithTxHashes(Input),
    SubscribeNewHeads(Request),
    Unsubscribe(SubscriptionId),
    Unknown,
}

/// An inbound request frame: a correlation id and the call it addresses.
#[derive(Clone, Copy, PartialEq, Eq, Structural, Debug)]
pub struct RequestFrame {
    pub id: u64,
    pub call: RequestCall,
}

/// What a response frame answers with.
#[derive(PartialEq, Eq, Debug)]
pub enum ResponsePayload {
    Block(Output),
    BlockError(Error),
    Subscribed(SubscriptionId),
    Unsubscribed(bool),
    Error(RpcError),
}

/// An outbound response, correlated to the request that caused it.
#[derive(PartialEq, Eq, Debug)]
pub struct ResponseFrame {
    pub id: u64,
    pub payload: ResponsePayload,
}

/// An unsolicited outbound frame carrying one subscription notification;
/// it has no correlation id and is never answered.
#[derive(Clone, Copy, PartialEq, Eq, Structural, Debug)]
pub struct NotificationFrame {
    pub subscription_id: SubscriptionId,
    pub message: Message,
}

/// The single explanatory frame emitted when a subscription fails
/// terminally.
#[derive(Clone, Copy, PartialEq, Eq, Structural, Debug)]
pub struct TerminalFrame {
    pub subscription_id: SubscriptionId,
    pub error: RpcError,
}

/// The instruction to start one reconciliation driver, handed outward on
/// a successful subscribe.
#[derive(Clone, Copy, PartialEq, Eq, Structural, Debug)]
pub struct SpawnRequest {
    pub subscription_id: SubscriptionId,
    pub starting_point: BlockId,
}

/// The response kind each call kind is owed.
pub open spec fn payload_matches(call: RequestCall, payload: ResponsePayload) -> bool {
    match call {
        RequestCall::GetBlockWithTxHashes(_) => payload is Block || payload is BlockError,
        RequestCall::SubscribeNewHeads(_) => payload is Subscribed,
        RequestCall::Unsubscribe(_) => payload is Unsubscribed,
        RequestCall::Unknown => payload == ResponsePayload::Error(RpcError::InvalidRequest),
    }
}

/// The response a block query is owed, per the method's own contract.
pub open spec fn block_payload_post(ctx: RpcContext, input: Input, payload: ResponsePayload) -> bool {
    match payload {
        ResponsePayload::Block(o) => get_block_post(ctx, input, Ok(o)),
        ResponsePayload::BlockError(e) => get_block_post(ctx, input, Err(e)),
        _ => false,
    }
}

/// One connection's multiplexing state: the registry of its live
/// subscriptions.
pub struct Connection {
    pub registry: Registry,
}

impl Connection {
    pub fn new() -> (r: Self)
        ensures
            r.registry.wf(),
            r.registry.ids_seq() == Seq::<u64>::empty(),
            r.registry.next_id_spec() == 0,
    {
        Connection { registry: Registry::new() }
    }

    /// Dispatches one decoded request frame. The response carries the
    /// request's correlation id. A subscribe answers with a fresh
    /// identifier and hands back the spawn instruction for its driver; an
    /// unsubscribe cancels and answers whether the identifier was live
    /// (`false` is an answer, never an error); an unknown call is
    /// rejected with `InvalidRequest` before any task is spawned.
    pub fn handle_request(&mut self, ctx: &RpcContext, frame: &RequestFrame)
        -> (r: (ResponseFrame, Option<SpawnRequest>))
        requires
            old(self).registry.wf(),
            old(self).registry.next_id_spec() < u64::MAX,
            ctx.wf(),
        ensures
            final(self).registry.wf(),
            r.0.id == frame.id,
            payload_matches(frame.call, r.0.payload),
            frame.call matches RequestCall::GetBlockWithTxHashes(input) ==> {
                &&& block_payload_post(*ctx, input, r.0.payload)
                &&& r.1 is None
                &&& final(self).registry.ids_seq() == old(self).registry.ids_seq()
                &&& final(self).registry.next_id_spec() == old(self).registry.next_id_spec()
            },
            frame.call matches RequestCall::SubscribeNewHeads(req) ==> {
                &&& r.1 matches Some(sp)
                    && sp.subscription_id.0 == old(self).registry.next_id_spec()
                    && sp.starting_point == req.block
                    && r.0.payload == ResponsePayload::Subscribed(sp.subscription_id)
                &&& !old(self).registry.contains_id(old(self).registry.next_id_spec())
                &&& final(self).registry.ids_seq()
                    == old(self).registry.ids_seq().push(old(self).registry.next_id_spec())
                &&& final(self).registry.next_id_spec() == old(self).registry.next_id_spec() + 1
            },
            frame.call matches RequestCall::Unsubscribe(sid) ==> {
                &&& r.0.payload == ResponsePayload::Unsubscribed(old(self).registry.contains_id(sid.0))
                &&& r.1 is None
                &&& final(self).registry.ids_seq() == remove_id(old(self).registry.ids_seq(), sid.0)
                &&& !final(self).registry.contains_id(sid.0)
                &&& final(self).registry.next_id_spec() == old(self).registry.next_id_spec()
            },
            frame.call is Unknown ==> {
                &&& r.1 is None
                &&& final(self).registry.ids_seq() == old(self).registry.ids_seq()
                &&& final(self).registry.next_id_spec() == old(self).registry.next_id_spec()
            },
    {
        match frame.call {
            RequestCall::GetBlockWithTxHashes(input) => {
                let payload = match get_block_with_tx_hashes(ctx, &input) {
                    Ok(o) => ResponsePayload::Block(o),
                    Err(e) => ResponsePayload::BlockError(e),
                };
                (ResponseFrame { id: frame.id, payload }, None)
            }
            RequestCall::SubscribeNewHeads(req) => {
                let id = self.registry.insert();
                let sid = SubscriptionId(id);
                let starting_point = SubscribeNewHeads::starting_block(&req);
                (
                    ResponseFrame { id: frame.id, payload: ResponsePayload::Subscribed(sid) },
                    Some(SpawnRequest { subscription_id: sid, starting_point }),
                )
            }
            RequestCall::Unsubscribe(sid) => {
                let found = self.registry.remove(sid.0);
                (
                    ResponseFrame { id: frame.id, payload: ResponsePayload::Unsubscribed(found) },
                    None,
                )
            }
            RequestCall::Unknown => {
                (
                    ResponseFrame {
                        id: frame.id,
                        payload: ResponsePayload::Error(RpcError::InvalidRequest),
                    },
                    None,
                )
            }
        }
    }

    /// Dispatches an ordered batch. Every request gets exactly one
    /// response carrying its own correlation id, of the kind its call is
    /// owed; subscribe acks hand their spawn instructions outward in
    /// batch order.
    pub fn handle_batch(&mut self, ctx: &RpcContext, frames: &Vec<RequestFrame>)
        -> (r: (Vec<ResponseFrame>, Vec<SpawnRequest>))
        requires
            old(self).registry.wf(),
            old(self).registry.next_id_spec() + frames@.len() <= u64::MAX,
            ctx.wf(),
        ensures
            final(self).registry.wf(),
            r.0@.len() == frames@.len(),
            forall|i: int| 0 <= i < frames@.len() ==>
                (#[trigger] r.0@[i]).id == frames@[i].id
                && payload_matches(frames@[i].call, r.0@[i].payload),
            r.1@.len() <= frames@.len(),
            // one driver per subscribe ack, under consecutive fresh identifiers
            final(self).registry.next_id_spec()
                == old(self).registry.next_id_spec() + r.1@.len(),
            forall|k: int| 0 <= k < r.1@.len() ==>
                (#[trigger] r.1@[k]).subscription_id.0
                    == old(self).registry.next_id_spec() + k,
    {
        let mut responses: Vec<ResponseFrame> = Vec::new();
        let mut spawns: Vec<SpawnRequest> = Vec::new();
        let mut i: usize = 0;
        while i < frames.len()
            invariant
                self.registry.wf(),
                ctx.wf(),
                i <= frames@.len(),
                self.registry.next_id_spec() as int
                    <= old(self).registry.next_id_spec() + i,
                old(self).registry.next_id_spec() + frames@.len() <= u64::MAX,
                responses@.len() == i,
                forall|k: int| 0 <= k < i ==>
                    (#[trigger] responses@[k]).id == frames@[k].id
                    && payload_matches(frames@[k].call, responses@[k].payload),
                spawns@.len() <= i,
                self.registry.next_id_spec()
                    == old(self).registry.next_id_spec() + spawns@.len(),
                forall|k: int| 0 <= k < spawns@.len() ==>
                    (#[trigger] spawns@[k]).subscription_id.0
                        == old(self).registry.next_id_spec() + k,
            decreases frames@.len() - i,
        {
            let frame = frames[i];
            let (resp, spawn) = self.handle_request(ctx, &frame);
            responses.push(resp);
            if let Some(sp) = spawn {
                spawns.push(sp);
            }
            i = i + 1;
        }
        (responses, spawns)
    }

    /// Frames a run of notification payloads for one subscription onto
    /// the outbound sink — but only while that subscription is still
    /// registered. After an unsubscribe ack, zero notification frames are
    /// ever emitted for the identifier.
    pub fn emit_notifications(&self, id: SubscriptionId, messages: &Vec<Message>)
        -> (out: Vec<NotificationFrame>)
        ensures
            self.registry.contains_id(id.0) ==> out@.len() == messages@.len()
                && forall|k: int| 0 <= k < out@.len() ==>
                    #[trigger] out@[k]
                        == (NotificationFrame { subscription_id: id, message: messages@[k] }),
            !self.registry.contains_id(id.0) ==> out@.len() == 0,
    {
        let mut out: Vec<NotificationFrame> = Vec::new();
        if !self.registry.is_active(id.0) {
            return out;
        }
        let mut i: usize = 0;
        while i < messages.len()
            invariant
                i <= messages@.len(),
                out@.len() == i,
                forall|k: int| 0 <= k < i ==>
                    #[trigger] out@[k]
                        == (NotificationFrame { subscription_id: id, message: messages@[k] }),
            decreases messages@.len() - i,
        {
            out.push(NotificationFrame { subscription_id: id, message: messages[i] });
            i = i + 1;
        }
        out
    }

    /// Reports a terminal failure of one subscription. The first report
    /// of a live identifier deregisters it and yields its one explanatory
    /// frame; any later report of the same identifier yields nothing, so
    /// no second frame ever follows termination.
    pub fn fail_subscription(&mut self, id: SubscriptionId, error: RpcError)
        -> (r: Option<TerminalFrame>)
        requires
            old(self).registry.wf(),
        ensures
            final(self).registry.wf(),
            old(self).registry.contains_id(id.0)
                ==> r == Some(TerminalFrame { subscription_id: id, error }),
            !old(self).registry.contains_id(id.0) ==> r is None,
            final(self).registry.ids_seq() == remove_id(old(self).registry.ids_seq(), id.0),
            final(self).registry.next_id_spec() == old(self).registry.next_id_spec(),
    {
        let found = self.registry.remove(id.0);
        if found {
            Some(TerminalFrame { subscription_id: id, error })
        } else {
            None
        }
    }

    /// Transport close: every registered subscription is deregistered (and
    /// its driver cancelled); nothing further is emitted on this
    /// connection.
    pub fn close(&mut self)
        requires
            old(self).registry.wf(),
        ensures
            final(self).registry.wf(),
            final(self).registry.ids_seq() == Seq::<u64>::empty(),
    {
        self.registry.clear();
    }
}

} // verus!
