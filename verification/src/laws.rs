//! What holds of all operations alike.
use vstd::prelude::*;

use crate::blob::HostBlob;
use crate::cache::ImageKey;
use crate::channel::Channel;
use crate::connect::{law_connection_gets_both_rings_or_none, Connect};
use crate::context::{law_rings_go_together, CreateContext};
use crate::identify::{FdAnalysis, Identifier};
use crate::metadata::{
    law_query_touches_one_image, spec_conclude, spec_pick, FixMetadata, Plane,
};
use crate::name::GetName;
use crate::receive::{Interrupted, Receiving, ReceivingStep};
use crate::request::{left_behind, over, run, Fault, Reply, Step};
use crate::ring::{CreateRing, Ring};
use crate::send::Sending;
use crate::submit::Submit;

verus! {

/// An operation has ended with an error of the system.
pub open spec fn ends_with<S, T>(step: Step<S, T, Seq<u8>>, code: i32) -> bool {
    step matches Step::Abort(fault) && fault == Fault::System(code)
}

/// Receiving has ended with an error of the system.
pub open spec fn receiving_ends_with(step: ReceivingStep, code: i32) -> bool {
    step matches Step::Abort(left) && left.fault == Fault::System(code)
}

/// A request that the system refuses ends the operation that asked for it, with
/// the error that the system gave, wherever the operation is, and leaves the
/// channel as it was. The one exception is the read of an event when there is
/// none.
pub proof fn law_refusal_ends_the_operation(
    channel: Channel,
    code: i32,
    name: GetName,
    ring: CreateRing,
    blob: HostBlob,
    analysis: FdAnalysis,
    submit: Submit,
    context: CreateContext,
    connect: Connect,
    query: FixMetadata,
    sending: Sending,
    receiving: Receiving,
)
    requires
        receiving is AwaitingEvent ==> code != channel.platform.eagain,
    ensures
        ends_with(name.spec_step(Reply::Failed(code)), code),
        ends_with(ring.spec_step(Reply::Failed(code)), code),
        ends_with(blob.spec_step(channel.platform, Reply::Failed(code)), code),
        ends_with(analysis.spec_step(Reply::Failed(code)), code),
        ends_with(submit.spec_step(channel.platform, Reply::Failed(code)), code),
        ends_with(context.spec_step(channel, Reply::Failed(code)).1, code),
        ends_with(connect.spec_step(channel, Reply::Failed(code)).1, code),
        ends_with(query.spec_step(channel, Reply::Failed(code)).1, code),
        ends_with(sending.step(channel.platform, Reply::Failed(code)), code),
        receiving_ends_with(receiving.step(channel, Reply::Failed(code)), code),
        context.spec_step(channel, Reply::Failed(code)).0 == channel,
        connect.spec_step(channel, Reply::Failed(code)).0 == channel,
        query.spec_step(channel, Reply::Failed(code)).0 == channel,
{
}

/// An operation has ended because a reply does not belong to the request.
pub open spec fn ends_astray<S, T>(step: Step<S, T, Seq<u8>>) -> bool {
    step matches Step::Abort(fault) && fault == Fault::UnexpectedReply
}

/// A reply that does not belong to what was asked for ends the operation, wherever
/// it is.
pub proof fn law_stray_reply_ends_the_operation(
    channel: Channel,
    reply: Reply,
    name: GetName,
    ring: CreateRing,
    blob: HostBlob,
    analysis: FdAnalysis,
    submit: Submit,
    context: CreateContext,
    query: FixMetadata,
    receiving: Receiving,
)
    requires
        !(reply is Failed),
    ensures
        (name is Measuring && !(reply is NameLength)) || (name is Reading && !(reply is Name))
            ==> ends_astray(name.spec_step(reply)),
        (ring is Creating && !(reply is Blob)) || (ring is Locating && !(reply is Offset)) || (
        ring is Mapping && !(reply is Address)) ==> ends_astray(ring.spec_step(reply)),
        (blob is Creating && !(reply is Blob)) || (blob is Exporting && !(reply is Fd)) || (
        blob is Closing && !(reply is Done)) ==> ends_astray(
            blob.spec_step(channel.platform, reply),
        ),
        (analysis is Finding && !(reply is Handle)) || (analysis is Describing && !(
        reply is Resource)) ==> ends_astray(analysis.spec_step(reply)),
        (submit is Executing && !(reply is Done)) || (submit is Waiting && !(reply is Status))
            ==> ends_astray(submit.spec_step(channel.platform, reply)),
        (context is AskingCaps || context is Initialising) && !(reply is Done) ==> ends_astray(
            context.spec_step(channel, reply).1,
        ) && context.spec_step(channel, reply).0 == channel,
        query is Reading && !(reply matches Reply::Bytes(page) && page@.len() == 4096)
            ==> ends_astray(query.spec_step(channel, reply).1) && query.spec_step(
            channel,
            reply,
        ).0 == channel,
        receiving is AwaitingEvent && !(reply is Bytes) ==> (receiving.step(
            channel,
            reply,
        ) matches Step::Abort(left) && left.fault == Fault::UnexpectedReply),
        receiving is ReadingRing && !(reply matches Reply::Bytes(page) && page@.len() == 4096)
            ==> (receiving.step(channel, reply) matches Step::Abort(left) && left.fault
            == Fault::UnexpectedReply),
{
}

/// A large operation ends with the fault of the small one that it is in the middle
/// of, and leaves the channel as it was.
pub proof fn law_fault_is_passed_on(
    channel: Channel,
    reply: Reply,
    fault: Fault,
    name: GetName,
    ring: CreateRing,
    query: Ring,
    blob: HostBlob,
    analysis: FdAnalysis,
    submit: Submit,
    context: CreateContext,
    key: ImageKey,
    plane_idx: usize,
    plane: Option<Plane>,
    data: Seq<u8>,
    fds: Seq<i32>,
    ids: Seq<Identifier>,
    len: usize,
    page: Seq<u8>,
    lens: Seq<usize>,
    chunks: Seq<Seq<u8>>,
)
    ensures
        name.spec_step(reply) == Step::<GetName, Seq<u8>, Seq<u8>>::Abort(fault)
            ==> Connect::Naming(name).spec_step(channel, reply) == (
            channel,
            Step::<Connect, (), Seq<u8>>::Abort(fault),
        ),
        context.spec_step(channel, reply) == (
            channel,
            Step::<CreateContext, (), Seq<u8>>::Abort(fault),
        ) ==> Connect::Creating(context).spec_step(channel, reply) == (
            channel,
            Step::<Connect, (), Seq<u8>>::Abort(fault),
        ),
        ring.spec_step(reply) == Step::<CreateRing, Ring, Seq<u8>>::Abort(fault) ==> {
            let broken = (channel, Step::<CreateContext, (), Seq<u8>>::Abort(fault));
            &&& CreateContext::QueryRing(ring).spec_step(channel, reply) == broken
            &&& (CreateContext::ChannelRing { query, making: ring }).spec_step(channel, reply)
                == broken
        },
        submit.spec_step(channel.platform, reply) == Step::<Submit, (), Seq<u8>>::Abort(fault)
            ==> {
            let broken = (channel, Step::<CreateContext, (), Seq<u8>>::Abort(fault));
            &&& CreateContext::Announcing(submit).spec_step(channel, reply) == broken
            &&& CreateContext::Polling(submit).spec_step(channel, reply) == broken
            &&& (FixMetadata::Querying { key, plane_idx, submit }).spec_step(channel, reply) == (
                channel,
                Step::<FixMetadata, Option<Plane>, Seq<u8>>::Abort(fault),
            )
            &&& (Sending::Submitting { len, submit }).step(channel.platform, reply) == Step::<
                Sending,
                usize,
                Seq<u8>,
            >::Abort(fault)
            &&& (Receiving::Polling { len, chunks, fds, submit }).step(channel, reply)
                == ReceivingStep::Abort(Interrupted { fault, chunks, fds })
        },
        blob.spec_step(channel.platform, reply) == Step::<HostBlob, i32, Seq<u8>>::Abort(fault)
            ==> {
            &&& (FixMetadata::Allocating { plane, blob }).spec_step(channel, reply) == (
                channel,
                Step::<FixMetadata, Option<Plane>, Seq<u8>>::Abort(fault),
            )
            &&& (Receiving::TakingOver { page, lens, fds, blob }).step(channel, reply)
                == ReceivingStep::Abort(Interrupted { fault, chunks: Seq::empty(), fds })
        },
        analysis.spec_step(reply) == Step::<FdAnalysis, Identifier, Seq<u8>>::Abort(fault) ==> (
        Sending::Identifying { data, fds, ids, analysis }).step(channel.platform, reply) == Step::<
            Sending,
            usize,
            Seq<u8>,
        >::Abort(fault),
{
}

/// A call that works on a channel and may change it. Sending and receiving are
/// not among them: they read the channel only.
pub enum Call {
    FixMetadata { plane_idx: usize, key: ImageKey },
    CreateContext,
    Connect,
}

impl Channel {
    /// The channel that a call leaves behind when it gets these replies, however
    /// far they take it and however it ends.
    pub open spec fn after_call(self, call: Call, replies: Seq<Reply>) -> Channel {
        match call {
            Call::FixMetadata { plane_idx, key } => left_behind(
                run(
                    FixMetadata::steps(),
                    over((self, FixMetadata::spec_start(self, plane_idx, key))),
                    replies,
                ).end,
            ),
            Call::CreateContext => left_behind(
                run(CreateContext::steps(), over((self, CreateContext::spec_start())), replies).end,
            ),
            Call::Connect => left_behind(
                run(Connect::steps(), over((self, Connect::spec_start())), replies).end,
            ),
        }
    }

    /// The channel that calls leave behind, one after the other, each with its
    /// replies.
    pub open spec fn after_calls(self, calls: Seq<(Call, Seq<Reply>)>) -> Channel
        decreases calls.len(),
    {
        if calls.len() == 0 {
            self
        } else {
            self.after_call(calls[0].0, calls[0].1).after_calls(calls.skip(1))
        }
    }

    /// What was known of an image before is known unchanged.
    pub open spec fn keeps_answers(self, before: Channel) -> bool {
        forall|key: ImageKey| #[trigger]
            before.image_query_cache.contains_key(key) ==> self.image_query_cache.contains_key(key)
                && self.image_query_cache[key] == before.image_query_cache[key]
    }
}

/// A query that asks is about an image that was not known.
proof fn lemma_query_keeps_answers(
    channel: Channel,
    plane_idx: usize,
    key: ImageKey,
    replies: Seq<Reply>,
)
    ensures
        channel.after_call(Call::FixMetadata { plane_idx, key }, replies).keeps_answers(channel),
{
    let after = channel.after_call(Call::FixMetadata { plane_idx, key }, replies);
    match FixMetadata::spec_start(channel, plane_idx, key) {
        Step::Ask(state, request) => {
            law_query_touches_one_image(channel, state, request, key, replies);
            assert forall|other: ImageKey| #[trigger]
                channel.image_query_cache.contains_key(
                    other,
                ) implies after.image_query_cache.contains_key(other)
                && after.image_query_cache[other] == channel.image_query_cache[other] by {
                let kept = channel.image_query_cache.remove(key);
                assert(kept.contains_key(other) && kept[other]
                    == channel.image_query_cache[other]);
                assert(after.image_query_cache.remove(key) == kept);
            }
        },
        _ => {},
    }
}

/// No call replaces or drops an answer, whatever the card replies and however the
/// call ends.
pub proof fn law_call_keeps_answers(channel: Channel, call: Call, replies: Seq<Reply>)
    ensures
        channel.after_call(call, replies).keeps_answers(channel),
{
    match call {
        Call::FixMetadata { plane_idx, key } => {
            lemma_query_keeps_answers(channel, plane_idx, key, replies);
        },
        Call::CreateContext => {
            law_rings_go_together(channel, replies);
        },
        Call::Connect => {
            law_connection_gets_both_rings_or_none(channel, replies);
        },
    }
}

/// An answer lasts: after any further calls, failed ones among them, what was
/// known of an image is given for it still, without asking the host.
pub proof fn law_answers_last(
    channel: Channel,
    calls: Seq<(Call, Seq<Reply>)>,
    plane_idx: usize,
    key: ImageKey,
)
    requires
        channel.image_query_cache.contains_key(key),
    ensures
        ({
            let after = channel.after_calls(calls);
            &&& after.keeps_answers(channel)
            &&& FixMetadata::spec_start(after, plane_idx, key) == spec_conclude(
                spec_pick(channel.image_query_cache[key], plane_idx),
            )
        }),
    decreases calls.len(),
{
    if calls.len() > 0 {
        law_call_keeps_answers(channel, calls[0].0, calls[0].1);
        let next = channel.after_call(calls[0].0, calls[0].1);
        law_answers_last(next, calls.skip(1), plane_idx, key);
    }
}

} // verus!
