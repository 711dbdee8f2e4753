//! Creating the context: two rings and a channel over them.
use vstd::prelude::*;

use crate::bytes::ByteOrder;
use crate::channel::{spec_channel_poll, submit_poll, Channel, VirtgpuChannel};
use crate::protocol::{
    CrossDomainCmd, CrossDomainInit, CrossDomainPoll, CAPABILITIES_SIZE, CROSS_DOMAIN_CHANNEL_RING,
    CROSS_DOMAIN_RING_NONE,
};
use crate::request::{
    fault, over, run, spec_fault, ContextParam, Fault, Over, Reply, Request, Step, PAGE_SIZE,
    VIRTGPU_CONTEXT_PARAM_CAPSET_ID, VIRTGPU_CONTEXT_PARAM_NUM_RINGS,
    VIRTGPU_CONTEXT_PARAM_POLL_RINGS_MASK, VIRTIO_GPU_CAPSET_CROSS_DOMAIN,
};
use crate::ring::{ring_blob_request, spec_signed, CreateRing, Ring};
use crate::submit::{exec_request, spec_submit_cmd, submit_cmd, Submit};

verus! {

/// A context in the making.
#[derive(Clone, Copy, Debug, PartialEq, Eq, Structural)]
pub enum CreateContext {
    /// The capabilities were asked for.
    AskingCaps,
    /// The context was asked for.
    Initialising,
    /// The query ring is being made.
    QueryRing(CreateRing),
    /// The channel ring is being made.
    ChannelRing { query: Ring, making: CreateRing },
    /// The host is being told of both rings.
    Announcing(Submit),
    /// The host is being let put its first message into the channel ring.
    Polling(Submit),
}

impl View for CreateContext {
    type V = CreateContext;

    open spec fn view(&self) -> CreateContext {
        *self
    }
}

/// The request for the capabilities of a cross-domain context.
pub open spec fn caps_request() -> Request<Seq<u8>> {
    Request::GetCaps { cap_set_id: VIRTIO_GPU_CAPSET_CROSS_DOMAIN, size: CAPABILITIES_SIZE }
}

/// The request for a cross-domain context with two rings, of which the channel
/// ring, the second bit of the mask, can be polled.
pub open spec fn context_request() -> Request<Seq<u8>> {
    Request::ContextInit {
        first: ContextParam {
            param: VIRTGPU_CONTEXT_PARAM_CAPSET_ID,
            value: VIRTIO_GPU_CAPSET_CROSS_DOMAIN as u64,
        },
        second: ContextParam { param: VIRTGPU_CONTEXT_PARAM_NUM_RINGS, value: 2 },
        third: ContextParam {
            param: VIRTGPU_CONTEXT_PARAM_POLL_RINGS_MASK,
            value: 2,
        },
    }
}

/// The init command on its way to the host.
pub open spec fn announcement(order: ByteOrder, query: Ring, channel: Ring) -> Step<
    Submit,
    (),
    Seq<u8>,
> {
    spec_submit_cmd(
        CrossDomainInit::spec_wayland(query.resource, channel.resource).wire(order),
        CROSS_DOMAIN_RING_NONE,
        0,
        false,
    )
}

impl Channel {
    /// The channel with its two rings.
    pub open spec fn with_rings(self, query: Ring, channel: Ring) -> Channel {
        Channel {
            query_ring_addr: query.addr,
            query_ring_handle: query.handle,
            channel_ring_addr: channel.addr,
            channel_ring_handle: channel.handle,
            ..self
        }
    }
}

impl CreateContext {
    /// The first step.
    pub open spec fn spec_start() -> Step<CreateContext, (), Seq<u8>> {
        Step::Ask(CreateContext::AskingCaps, caps_request())
    }

    /// Goes on with the query ring.
    pub open spec fn spec_query(order: ByteOrder, step: Step<CreateRing, Ring, Seq<u8>>) -> Step<
        CreateContext,
        (),
        Seq<u8>,
    > {
        match step {
            Step::Ask(making, request) => Step::Ask(CreateContext::QueryRing(making), request),
            Step::Finished(query) => Self::spec_channel_ring(
                order,
                query,
                CreateRing::spec_start(),
            ),
            Step::Abort(fault) => Step::Abort(fault),
        }
    }

    /// Goes on with the channel ring, as long as it is being made.
    pub open spec fn spec_channel_ring(
        order: ByteOrder,
        query: Ring,
        step: Step<CreateRing, Ring, Seq<u8>>,
    ) -> Step<CreateContext, (), Seq<u8>> {
        match step {
            Step::Ask(making, request) => Step::Ask(
                CreateContext::ChannelRing { query, making },
                request,
            ),
            Step::Finished(channel) => Self::spec_announce(
                order,
                announcement(order, query, channel),
            ),
            Step::Abort(fault) => Step::Abort(fault),
        }
    }

    /// Goes on with the announcement.
    pub open spec fn spec_announce(order: ByteOrder, step: Step<Submit, (), Seq<u8>>) -> Step<
        CreateContext,
        (),
        Seq<u8>,
    > {
        match step {
            Step::Ask(submit, request) => Step::Ask(CreateContext::Announcing(submit), request),
            Step::Finished(done) => Self::spec_poll(spec_channel_poll(order)),
            Step::Abort(fault) => Step::Abort(fault),
        }
    }

    /// Goes on with the poll.
    pub open spec fn spec_poll(step: Step<Submit, (), Seq<u8>>) -> Step<
        CreateContext,
        (),
        Seq<u8>,
    > {
        match step {
            Step::Ask(submit, request) => Step::Ask(CreateContext::Polling(submit), request),
            Step::Finished(done) => Step::Finished(()),
            Step::Abort(fault) => Step::Abort(fault),
        }
    }

    /// Where a reply leads, and what becomes of the channel: it has its rings
    /// as soon as both are made.
    pub open spec fn spec_step(self, channel: Channel, reply: Reply) -> (
        Channel,
        Step<CreateContext, (), Seq<u8>>,
    ) {
        match self {
            CreateContext::AskingCaps => (
                channel,
                if reply is Done {
                    Step::Ask(CreateContext::Initialising, context_request())
                } else {
                    Step::Abort(spec_fault(reply))
                },
            ),
            CreateContext::Initialising => (
                channel,
                if reply is Done {
                    Self::spec_query(channel.order(), CreateRing::spec_start())
                } else {
                    Step::Abort(spec_fault(reply))
                },
            ),
            CreateContext::QueryRing(making) => (
                channel,
                Self::spec_query(channel.order(), making.spec_step(reply)),
            ),
            CreateContext::ChannelRing { query, making } => {
                let step = making.spec_step(reply);
                (
                    match step {
                        Step::Finished(ring) => channel.with_rings(query, ring),
                        _ => channel,
                    },
                    Self::spec_channel_ring(channel.order(), query, step),
                )
            },
            CreateContext::Announcing(submit) => (
                channel,
                Self::spec_announce(
                    channel.order(),
                    submit.spec_step(channel.platform, reply),
                ),
            ),
            CreateContext::Polling(submit) => (
                channel,
                Self::spec_poll(submit.spec_step(channel.platform, reply)),
            ),
        }
    }

    /// All steps, together with what becomes of the channel.
    pub open spec fn steps() -> spec_fn((Channel, CreateContext), Reply) -> Over<
        Channel,
        CreateContext,
        (),
    > {
        |s: (Channel, CreateContext), r: Reply| over(s.1.spec_step(s.0, r))
    }

    fn query(order: ByteOrder, step: Step<CreateRing, Ring, Vec<u8>>) -> (next: Step<
        CreateContext,
        (),
        Vec<u8>,
    >)
        ensures
            next@ == Self::spec_query(order, step@),
    {
        match step {
            Step::Ask(making, request) => Step::Ask(CreateContext::QueryRing(making), request),
            Step::Finished(query) => Self::channel_ring(order, query, CreateRing::start()),
            Step::Abort(fault) => Step::Abort(fault),
        }
    }

    fn channel_ring(
        order: ByteOrder,
        query: Ring,
        step: Step<CreateRing, Ring, Vec<u8>>,
    ) -> (next: Step<CreateContext, (), Vec<u8>>)
        ensures
            next@ == Self::spec_channel_ring(order, query, step@),
    {
        match step {
            Step::Ask(making, request) => Step::Ask(
                CreateContext::ChannelRing { query, making },
                request,
            ),
            Step::Finished(channel) => {
                let cmd = CrossDomainInit::wayland(query.resource, channel.resource);
                let nothing: Vec<u8> = Vec::new();
                assert(cmd.wire(order) + nothing@ =~= cmd.wire(order));
                Self::announce(
                    order,
                    submit_cmd(order, &cmd, &nothing, CROSS_DOMAIN_RING_NONE, 0, false),
                )
            },
            Step::Abort(fault) => Step::Abort(fault),
        }
    }

    fn announce(order: ByteOrder, step: Step<Submit, (), Vec<u8>>) -> (next: Step<
        CreateContext,
        (),
        Vec<u8>,
    >)
        ensures
            next@ == Self::spec_announce(order, step@),
    {
        match step {
            Step::Ask(submit, request) => Step::Ask(CreateContext::Announcing(submit), request),
            Step::Finished(_) => Self::poll(submit_poll(order)),
            Step::Abort(fault) => Step::Abort(fault),
        }
    }

    fn poll(step: Step<Submit, (), Vec<u8>>) -> (next: Step<CreateContext, (), Vec<u8>>)
        ensures
            next@ == Self::spec_poll(step@),
    {
        match step {
            Step::Ask(submit, request) => Step::Ask(CreateContext::Polling(submit), request),
            Step::Finished(_) => Step::Finished(()),
            Step::Abort(fault) => Step::Abort(fault),
        }
    }

    /// Goes on with a reply.
    pub fn step(self, channel: &mut VirtgpuChannel, reply: Reply) -> (step: Step<
        CreateContext,
        (),
        Vec<u8>,
    >)
        ensures
            (final(channel)@, step@) == self.spec_step(old(channel)@, reply),
    {
        assert(1u64 << 1u32 == 2) by (bit_vector);
        let order: ByteOrder = channel.platform.byte_order;
        match self {
            CreateContext::AskingCaps => match reply {
                Reply::Done => Step::Ask(
                    CreateContext::Initialising,
                    Request::ContextInit {
                        first: ContextParam {
                            param: VIRTGPU_CONTEXT_PARAM_CAPSET_ID,
                            value: VIRTIO_GPU_CAPSET_CROSS_DOMAIN as u64,
                        },
                        second: ContextParam { param: VIRTGPU_CONTEXT_PARAM_NUM_RINGS, value: 2 },
                        third: ContextParam {
                            param: VIRTGPU_CONTEXT_PARAM_POLL_RINGS_MASK,
                            value: 1u64 << CROSS_DOMAIN_CHANNEL_RING,
                        },
                    },
                ),
                other => Step::Abort(fault(other)),
            },
            CreateContext::Initialising => match reply {
                Reply::Done => Self::query(order, CreateRing::start()),
                other => Step::Abort(fault(other)),
            },
            CreateContext::QueryRing(making) => Self::query(order, making.step(reply)),
            CreateContext::ChannelRing { query, making } => {
                let step = making.step(reply);
                if let Step::Finished(ring) = &step {
                    channel.query_ring_addr = query.addr;
                    channel.query_ring_handle = query.handle;
                    channel.channel_ring_addr = ring.addr;
                    channel.channel_ring_handle = ring.handle;
                }
                Self::channel_ring(order, query, step)
            },
            CreateContext::Announcing(submit) => Self::announce(
                order,
                submit.step(&channel.platform, reply),
            ),
            CreateContext::Polling(submit) => Self::poll(submit.step(&channel.platform, reply)),
        }
    }
}

impl VirtgpuChannel {
    /// Asks for a cross-domain context, in order: its capabilities, the
    /// context, the query ring, the channel ring, the announcement of both to
    /// the host, and the first poll.
    pub fn create_context(&self) -> (step: Step<CreateContext, (), Vec<u8>>)
        ensures
            step@ == CreateContext::spec_start(),
    {
        Step::Ask(
            CreateContext::AskingCaps,
            Request::GetCaps {
                cap_set_id: VIRTIO_GPU_CAPSET_CROSS_DOMAIN,
                size: CAPABILITIES_SIZE,
            },
        )
    }
}

/// The replies of a card that makes the context and both rings.
pub open spec fn context_replies(query: Ring, channel: Ring, offsets: (u64, u64)) -> Seq<Reply> {
    seq![
        Reply::Done,
        Reply::Done,
        Reply::Blob { bo_handle: query.handle, res_handle: query.resource },
        Reply::Offset(offsets.0),
        Reply::Address(query.addr),
        Reply::Blob { bo_handle: channel.handle, res_handle: channel.resource },
        Reply::Offset(offsets.1),
        Reply::Address(channel.addr),
        Reply::Done,
        Reply::Done,
    ]
}

/// What is asked for when the card makes the context and both rings.
pub open spec fn context_script(
    order: ByteOrder,
    query: Ring,
    channel: Ring,
    offsets: (u64, u64),
) -> Seq<Request<Seq<u8>>> {
    seq![
        caps_request(),
        context_request(),
        ring_blob_request(),
        Request::MapBlob { handle: query.handle },
        Request::MapMemory { length: PAGE_SIZE, offset: spec_signed(offsets.0) },
        ring_blob_request(),
        Request::MapBlob { handle: channel.handle },
        Request::MapMemory { length: PAGE_SIZE, offset: spec_signed(offsets.1) },
        exec_request(
            CrossDomainInit::spec_wayland(query.resource, channel.resource).wire(order),
            CROSS_DOMAIN_RING_NONE,
            0,
        ),
        exec_request(CrossDomainPoll::spec_next().wire(order), CROSS_DOMAIN_CHANNEL_RING, 0),
    ]
}

/// A context is made in one fixed order: the host hears of the rings only after
/// both exist, under the resources that the card gave them, and is polled only
/// after that. The channel then holds both rings, and is otherwise unchanged.
pub proof fn law_context_is_announced_before_it_is_polled(
    before: Channel,
    query: Ring,
    channel: Ring,
    offsets: (u64, u64),
)
    ensures
        ({
            let t = run(
                CreateContext::steps(),
                over((before, CreateContext::spec_start())),
                context_replies(query, channel, offsets),
            );
            &&& t.asked == context_script(before.order(), query, channel, offsets)
            &&& t.end == Over::<Channel, CreateContext, ()>::Finished(
                (before.with_rings(query, channel), ()),
            )
        }),
{
    reveal_with_fuel(run, 11);
    let t = run(
        CreateContext::steps(),
        over((before, CreateContext::spec_start())),
        context_replies(query, channel, offsets),
    );
    assert(t.asked =~= context_script(before.order(), query, channel, offsets));
}

/// How far a context is, by what the channel holds: no new ring before both are
/// made, and both from then on.
pub open spec fn rings_go_together(
    before: Channel,
    step: Over<Channel, CreateContext, ()>,
) -> bool {
    match step {
        Step::Ask(at, request) => match at.1 {
            CreateContext::Announcing(submit) => has_new_rings(before, at.0),
            CreateContext::Polling(submit) => has_new_rings(before, at.0),
            _ => at.0 == before,
        },
        Step::Finished(done) => has_new_rings(before, done.0),
        Step::Abort(broken) => broken.0 == before || has_new_rings(before, broken.0),
    }
}

/// The channel as it was, but for two rings.
pub open spec fn has_new_rings(before: Channel, after: Channel) -> bool {
    exists|query: Ring, channel: Ring| after == #[trigger] before.with_rings(query, channel)
}

proof fn lemma_rings_go_together(
    before: Channel,
    now: Over<Channel, CreateContext, ()>,
    replies: Seq<Reply>,
)
    requires
        rings_go_together(before, now),
    ensures
        rings_go_together(before, run(CreateContext::steps(), now, replies).end),
    decreases replies.len(),
{
    match now {
        Step::Ask(at, request) => if replies.len() > 0 {
            lemma_rings_go_together(
                before,
                over(at.1.spec_step(at.0, replies[0])),
                replies.skip(1),
            );
        },
        _ => {},
    }
}

/// Whatever the card replies, and however the creation ends, the channel gets
/// both its rings at once or none, and nothing else of it changes.
pub proof fn law_rings_go_together(before: Channel, replies: Seq<Reply>)
    ensures
        rings_go_together(
            before,
            run(
                CreateContext::steps(),
                over((before, CreateContext::spec_start())),
                replies,
            ).end,
        ),
{
    lemma_rings_go_together(before, over((before, CreateContext::spec_start())), replies);
}

} // verus!
