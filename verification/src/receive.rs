//! Receiving bytes and descriptors from the host.
use vstd::prelude::*;
use vstd::seq_lib::lemma_concat_associative;
use vstd::slice::{slice_subrange, slice_to_vec};

use crate::blob::{host_blob_replies, host_blob_script, HostBlob};
use crate::bytes::{number_at, read_number, ByteOrder};
use crate::channel::{spec_channel_poll, submit_poll, Channel, VirtgpuChannel};
use crate::iov::{contents, joined, law_scatter_keeps_bytes, parts, room, scatter};
use crate::layout::record;
use crate::platform::Platform;
use crate::protocol::{
    law_message_roundtrip, CrossDomainCmd, CrossDomainHeader, CrossDomainPoll,
    CrossDomainSendReceive, SendReceive, CROSS_DOMAIN_CHANNEL_RING, CROSS_DOMAIN_CMD_READ,
    CROSS_DOMAIN_CMD_RECEIVE, CROSS_DOMAIN_ID_TYPE_VIRTGPU_BLOB, CROSS_DOMAIN_MAX_IDENTIFIERS,
    SEND_RECEIVE_SIZE,
};
use crate::request::{
    fault, lemma_run_on, lemma_run_on_thrice, run, spec_fault, Fault, Reply, Request, Step,
    EVENT_SIZE, PAGE_SIZE, VIRTGPU_EVENT_FENCE_SIGNALED,
};
use crate::submit::{exec_request, Submit};

verus! {

/// Whether receiving may wait for a message.
#[derive(Clone, Copy, Debug, PartialEq, Eq, Structural)]
pub enum IoMode {
    /// It waits until there is one.
    Blocking,
    /// It gives up if there is none.
    NonBlocking,
}

/// What came of receiving. `C` is the type of the parts for the buffers, `F`
/// that of the descriptors.
#[derive(Debug)]
pub enum Delivery<C, F> {
    /// There is no message, and waiting was not wanted.
    WouldBlock,
    /// A message with `len` bytes, the part of them for each buffer, and the
    /// descriptors.
    Message { len: usize, chunks: C, fds: F },
}

impl View for Delivery<Vec<Vec<u8>>, Vec<i32>> {
    type V = Delivery<Seq<Seq<u8>>, Seq<i32>>;

    open spec fn view(&self) -> Delivery<Seq<Seq<u8>>, Seq<i32>> {
        match *self {
            Delivery::WouldBlock => Delivery::WouldBlock,
            Delivery::Message { len, chunks, fds } => Delivery::Message {
                len,
                chunks: contents(chunks@),
                fds: fds@,
            },
        }
    }
}

/// What is left when receiving cannot go on: the fault, the part of the message
/// for each buffer, if the message had come that far, and the descriptors that
/// had been made. `C` is the type of the parts, `F` that of the descriptors.
#[verifier::ext_equal]
#[derive(Debug)]
pub struct Interrupted<C, F> {
    pub fault: Fault,
    pub chunks: C,
    pub fds: F,
}

impl View for Interrupted<Vec<Vec<u8>>, Vec<i32>> {
    type V = Interrupted<Seq<Seq<u8>>, Seq<i32>>;

    open spec fn view(&self) -> Interrupted<Seq<Seq<u8>>, Seq<i32>> {
        Interrupted { fault: self.fault, chunks: contents(self.chunks@), fds: self.fds@ }
    }
}

/// A fault before the message was spread over the buffers, when some descriptors
/// had been made.
pub open spec fn spec_holding(fault: Fault, fds: Seq<i32>) -> Interrupted<Seq<Seq<u8>>, Seq<i32>> {
    Interrupted { fault, chunks: Seq::empty(), fds }
}

fn holding(fault: Fault, fds: Vec<i32>) -> (left: Interrupted<Vec<Vec<u8>>, Vec<i32>>)
    ensures
        left@ == spec_holding(fault, fds@),
{
    Interrupted { fault, chunks: Vec::new(), fds }
}

/// A fault before anything of the message was taken.
pub open spec fn spec_untouched(fault: Fault) -> Interrupted<Seq<Seq<u8>>, Seq<i32>> {
    spec_holding(fault, Seq::empty())
}

fn untouched(fault: Fault) -> (left: Interrupted<Vec<Vec<u8>>, Vec<i32>>)
    ensures
        left@ == spec_untouched(fault),
{
    holding(fault, Vec::new())
}

/// A message on its way from the host.
#[derive(Debug)]
pub enum ReceiveMessage {
    /// The event that there is a message is being read.
    AwaitingEvent { mode: IoMode, lens: Vec<usize> },
    /// The message is being read from the channel ring.
    ReadingRing { lens: Vec<usize> },
    /// The message's resources are being turned into descriptors, one after the
    /// other; `fds` are the descriptors of the first ones.
    TakingOver { page: Vec<u8>, lens: Vec<usize>, fds: Vec<i32>, blob: HostBlob },
    /// The host is being let put its next message into the channel ring.
    Polling { len: usize, chunks: Vec<Vec<u8>>, fds: Vec<i32>, submit: Submit },
}

/// The mathematical value of a [`ReceiveMessage`].
#[verifier::ext_equal]
pub enum Receiving {
    AwaitingEvent { mode: IoMode, lens: Seq<usize> },
    ReadingRing { lens: Seq<usize> },
    TakingOver { page: Seq<u8>, lens: Seq<usize>, fds: Seq<i32>, blob: HostBlob },
    Polling { len: usize, chunks: Seq<Seq<u8>>, fds: Seq<i32>, submit: Submit },
}

impl View for ReceiveMessage {
    type V = Receiving;

    open spec fn view(&self) -> Receiving {
        match *self {
            ReceiveMessage::AwaitingEvent { mode, lens } => Receiving::AwaitingEvent {
                mode,
                lens: lens@,
            },
            ReceiveMessage::ReadingRing { lens } => Receiving::ReadingRing { lens: lens@ },
            ReceiveMessage::TakingOver { page, lens, fds, blob } => Receiving::TakingOver {
                page: page@,
                lens: lens@,
                fds: fds@,
                blob,
            },
            ReceiveMessage::Polling { len, chunks, fds, submit } => Receiving::Polling {
                len,
                chunks: contents(chunks@),
                fds: fds@,
                submit,
            },
        }
    }
}

/// A step of receiving, in mathematical values.
pub type ReceivingStep = Step<
    Receiving,
    Delivery<Seq<Seq<u8>>, Seq<i32>>,
    Seq<u8>,
    Interrupted<Seq<Seq<u8>>, Seq<i32>>,
>;

/// A step of receiving.
pub type ReceiveStep = Step<
    ReceiveMessage,
    Delivery<Vec<Vec<u8>>, Vec<i32>>,
    Vec<u8>,
    Interrupted<Vec<Vec<u8>>, Vec<i32>>,
>;

/// Begins to turn an identifier of the host into a descriptor. Only resources
/// of the GPU can be turned.
pub fn create_fd(idx: u32, idx_type: u32, idx_size: u64) -> (first: Result<
    (HostBlob, Request<Vec<u8>>),
    Fault,
>)
    ensures
        match first {
            Ok(begun) => idx_type == CROSS_DOMAIN_ID_TYPE_VIRTGPU_BLOB && begun@
                == HostBlob::spec_create_host_blob(idx, idx_size),
            Err(fault) => idx_type != CROSS_DOMAIN_ID_TYPE_VIRTGPU_BLOB && fault
                == Fault::UnsupportedIdentifier(idx_type),
        },
{
    if idx_type == CROSS_DOMAIN_ID_TYPE_VIRTGPU_BLOB {
        Ok(HostBlob::create_host_blob(idx, idx_size))
    } else {
        Err(Fault::UnsupportedIdentifier(idx_type))
    }
}

/// The payload of the message at the start of a page.
pub open spec fn payload(order: ByteOrder, page: Seq<u8>) -> Seq<u8> {
    page.subrange(
        SEND_RECEIVE_SIZE as int,
        SEND_RECEIVE_SIZE + SendReceive::read(order, page).opaque_data_size,
    )
}

impl Receiving {
    /// The first step: the event that there is a message is read.
    pub open spec fn start(mode: IoMode, lens: Seq<usize>) -> ReceivingStep {
        Step::Ask(
            Receiving::AwaitingEvent { mode, lens },
            Request::ReadEvent { capacity: EVENT_SIZE },
        )
    }

    /// How receiving on a channel begins. Without a context there is no ring that
    /// a message could come in: that is found before anything is asked for.
    pub open spec fn begin(channel: Channel, mode: IoMode, lens: Seq<usize>) -> ReceivingStep {
        if channel.channel_ring_addr == 0 {
            Step::Abort(spec_untouched(Fault::RingNotMapped))
        } else {
            Self::start(mode, lens)
        }
    }

    /// What comes after what was read of the events. If there was none, mode
    /// decides; what was read has to be the event that a fence was signalled.
    pub open spec fn after_event(
        channel: Channel,
        mode: IoMode,
        lens: Seq<usize>,
        reply: Reply,
    ) -> ReceivingStep {
        match reply {
            Reply::Failed(code) => if code != channel.platform.eagain {
                Step::Abort(spec_untouched(Fault::System(code)))
            } else if mode == IoMode::NonBlocking {
                Step::Finished(Delivery::WouldBlock)
            } else {
                Self::start(mode, lens)
            },
            Reply::Bytes(event) => if event@.len() != EVENT_SIZE {
                Step::Abort(spec_untouched(Fault::InvalidEventSize))
            } else if number_at(channel.order(), event@, 0, 4) != VIRTGPU_EVENT_FENCE_SIGNALED {
                Step::Abort(spec_untouched(Fault::InvalidEventType))
            } else {
                Step::Ask(
                    Receiving::ReadingRing { lens },
                    Request::ReadRing { addr: channel.channel_ring_addr, len: PAGE_SIZE },
                )
            },
            _ => Step::Abort(spec_untouched(Fault::UnexpectedReply)),
        }
    }

    /// What comes after the channel ring was read: its command decides.
    pub open spec fn after_ring(order: ByteOrder, lens: Seq<usize>, reply: Reply) -> ReceivingStep {
        match reply {
            Reply::Bytes(page) => if page@.len() != PAGE_SIZE {
                Step::Abort(spec_untouched(Fault::UnexpectedReply))
            } else {
                let cmd = CrossDomainHeader::spec_read(order, page@).cmd;
                if cmd == CROSS_DOMAIN_CMD_RECEIVE {
                    Self::next(order, page@, lens, Seq::empty())
                } else if cmd == CROSS_DOMAIN_CMD_READ {
                    Step::Abort(spec_untouched(Fault::UnsupportedRead))
                } else {
                    Step::Abort(spec_untouched(Fault::UnexpectedCommand(cmd as u32)))
                }
            },
            _ => Step::Abort(spec_untouched(spec_fault(reply))),
        }
    }

    /// What comes after the first identifiers of the message have become
    /// descriptors: the next identifier, if the message has a slot for it and it
    /// is a resource; after the last one, the payload is spread over the buffers
    /// and the host is polled.
    pub open spec fn next(
        order: ByteOrder,
        page: Seq<u8>,
        lens: Seq<usize>,
        fds: Seq<i32>,
    ) -> ReceivingStep {
        let msg = SendReceive::read(order, page);
        let i = fds.len() as int;
        if i >= msg.num_identifiers {
            if SEND_RECEIVE_SIZE + msg.opaque_data_size > PAGE_SIZE {
                Step::Abort(spec_holding(Fault::RingOverrun, fds))
            } else {
                Self::polling(
                    msg.opaque_data_size as usize,
                    parts(payload(order, page), lens),
                    fds,
                    spec_channel_poll(order),
                )
            }
        } else if i >= CROSS_DOMAIN_MAX_IDENTIFIERS {
            Step::Abort(spec_holding(Fault::TooManyIdentifiers, fds))
        } else if msg.identifier_types[i] != CROSS_DOMAIN_ID_TYPE_VIRTGPU_BLOB {
            Step::Abort(spec_holding(Fault::UnsupportedIdentifier(msg.identifier_types[i]), fds))
        } else {
            let (blob, request) = HostBlob::spec_create_host_blob(
                msg.identifiers[i],
                msg.identifier_sizes[i] as u64,
            );
            Step::Ask(Receiving::TakingOver { page, lens, fds, blob }, request)
        }
    }

    /// Goes on with the poll.
    pub open spec fn polling(
        len: usize,
        chunks: Seq<Seq<u8>>,
        fds: Seq<i32>,
        step: Step<Submit, (), Seq<u8>>,
    ) -> ReceivingStep {
        match step {
            Step::Ask(submit, request) => Step::Ask(
                Receiving::Polling { len, chunks, fds, submit },
                request,
            ),
            Step::Finished(done) => Step::Finished(Delivery::Message { len, chunks, fds }),
            Step::Abort(fault) => Step::Abort(Interrupted { fault, chunks, fds }),
        }
    }

    /// Where a reply leads.
    pub open spec fn step(self, channel: Channel, reply: Reply) -> ReceivingStep {
        match self {
            Receiving::AwaitingEvent { mode, lens } => Self::after_event(
                channel,
                mode,
                lens,
                reply,
            ),
            Receiving::ReadingRing { lens } => Self::after_ring(
                channel.order(),
                lens,
                reply,
            ),
            Receiving::TakingOver { page, lens, fds, blob } => match blob.spec_step(
                channel.platform,
                reply,
            ) {
                Step::Ask(blob, request) => Step::Ask(
                    Receiving::TakingOver { page, lens, fds, blob },
                    request,
                ),
                Step::Finished(fd) => Self::next(
                    channel.order(),
                    page,
                    lens,
                    fds.push(fd),
                ),
                Step::Abort(fault) => Step::Abort(spec_holding(fault, fds)),
            },
            Receiving::Polling { len, chunks, fds, submit } => Self::polling(
                len,
                chunks,
                fds,
                submit.spec_step(channel.platform, reply),
            ),
        }
    }

    /// All steps on one channel.
    pub open spec fn steps(channel: Channel) -> spec_fn(Receiving, Reply) -> ReceivingStep {
        |s: Receiving, r: Reply| s.step(channel, r)
    }

    /// What holds of every message that is being taken over: the page is whole.
    pub open spec fn wf(self) -> bool {
        self matches Receiving::TakingOver { page, lens, fds, blob } ==> page.len() == PAGE_SIZE
    }
}

impl ReceiveMessage {
    fn start(mode: IoMode, lens: Vec<usize>) -> (step: ReceiveStep)
        ensures
            step@ == Receiving::start(mode, lens@),
            step matches Step::Ask(state, request) ==> state@.wf(),
    {
        Step::Ask(
            ReceiveMessage::AwaitingEvent { mode, lens },
            Request::ReadEvent { capacity: EVENT_SIZE },
        )
    }

    fn after_event(
        channel: &VirtgpuChannel,
        mode: IoMode,
        lens: Vec<usize>,
        reply: Reply,
    ) -> (step: ReceiveStep)
        ensures
            step@ == Receiving::after_event(channel@, mode, lens@, reply),
            step matches Step::Ask(state, request) ==> state@.wf(),
    {
        match reply {
            Reply::Failed(code) => if code != channel.platform.eagain {
                Step::Abort(untouched(Fault::System(code)))
            } else if mode == IoMode::NonBlocking {
                Step::Finished(Delivery::WouldBlock)
            } else {
                Self::start(mode, lens)
            },
            Reply::Bytes(event) => if event.len() != EVENT_SIZE {
                Step::Abort(untouched(Fault::InvalidEventSize))
            } else if read_number(channel.platform.byte_order, &event, 0, 4)
                != VIRTGPU_EVENT_FENCE_SIGNALED as u64 {
                Step::Abort(untouched(Fault::InvalidEventType))
            } else {
                Step::Ask(
                    ReceiveMessage::ReadingRing { lens },
                    Request::ReadRing { addr: channel.channel_ring_addr, len: PAGE_SIZE },
                )
            },
            _ => Step::Abort(untouched(Fault::UnexpectedReply)),
        }
    }

    fn after_ring(order: ByteOrder, lens: Vec<usize>, reply: Reply) -> (step: ReceiveStep)
        ensures
            step@ == Receiving::after_ring(order, lens@, reply),
            step matches Step::Ask(state, request) ==> state@.wf(),
    {
        match reply {
            Reply::Bytes(page) => if page.len() != PAGE_SIZE {
                Step::Abort(untouched(Fault::UnexpectedReply))
            } else {
                let cmd: u8 = CrossDomainHeader::read(order, &page).cmd;
                if cmd == CROSS_DOMAIN_CMD_RECEIVE {
                    Self::next(order, page, lens, Vec::new())
                } else if cmd == CROSS_DOMAIN_CMD_READ {
                    Step::Abort(untouched(Fault::UnsupportedRead))
                } else {
                    Step::Abort(untouched(Fault::UnexpectedCommand(cmd as u32)))
                }
            },
            other => Step::Abort(untouched(fault(other))),
        }
    }

    fn next(
        order: ByteOrder,
        page: Vec<u8>,
        lens: Vec<usize>,
        fds: Vec<i32>,
    ) -> (step: ReceiveStep)
        requires
            page@.len() == PAGE_SIZE,
        ensures
            step@ == Receiving::next(order, page@, lens@, fds@),
            step matches Step::Ask(state, request) ==> state@.wf(),
    {
        let msg = CrossDomainSendReceive::read(order, &page);
        let i: usize = fds.len();
        if i as u64 >= msg.num_identifiers as u64 {
            if SEND_RECEIVE_SIZE as u64 + msg.opaque_data_size as u64 > PAGE_SIZE as u64 {
                Step::Abort(holding(Fault::RingOverrun, fds))
            } else {
                let len: usize = msg.opaque_data_size as usize;
                let start: usize = SEND_RECEIVE_SIZE as usize;
                let data: Vec<u8> = slice_to_vec(
                    slice_subrange(page.as_slice(), start, start + len),
                );
                assert(data@ =~= payload(order, page@));
                let chunks: Vec<Vec<u8>> = scatter(&data, &lens);
                Self::polling(len, chunks, fds, submit_poll(order))
            }
        } else if i >= CROSS_DOMAIN_MAX_IDENTIFIERS {
            Step::Abort(holding(Fault::TooManyIdentifiers, fds))
        } else {
            match create_fd(
                msg.identifiers[i],
                msg.identifier_types[i],
                msg.identifier_sizes[i] as u64,
            ) {
                Ok((blob, request)) => Step::Ask(
                    ReceiveMessage::TakingOver { page, lens, fds, blob },
                    request,
                ),
                Err(fault) => Step::Abort(holding(fault, fds)),
            }
        }
    }

    fn polling(
        len: usize,
        chunks: Vec<Vec<u8>>,
        fds: Vec<i32>,
        step: Step<Submit, (), Vec<u8>>,
    ) -> (next: ReceiveStep)
        ensures
            next@ == Receiving::polling(len, contents(chunks@), fds@, step@),
            next matches Step::Ask(state, request) ==> state@.wf(),
    {
        match step {
            Step::Ask(submit, request) => Step::Ask(
                ReceiveMessage::Polling { len, chunks, fds, submit },
                request,
            ),
            Step::Finished(_) => Step::Finished(Delivery::Message { len, chunks, fds }),
            Step::Abort(fault) => Step::Abort(Interrupted { fault, chunks, fds }),
        }
    }

    /// Goes on with a reply.
    pub fn step(self, channel: &VirtgpuChannel, reply: Reply) -> (step: ReceiveStep)
        requires
            self@.wf(),
        ensures
            step@ == self@.step(channel@, reply),
            step matches Step::Ask(state, request) ==> state@.wf(),
    {
        match self {
            ReceiveMessage::AwaitingEvent { mode, lens } => Self::after_event(
                channel,
                mode,
                lens,
                reply,
            ),
            ReceiveMessage::ReadingRing { lens } => Self::after_ring(
                channel.platform.byte_order,
                lens,
                reply,
            ),
            ReceiveMessage::TakingOver { page, lens, mut fds, blob } => match blob.step(
                &channel.platform,
                reply,
            ) {
                Step::Ask(blob, request) => Step::Ask(
                    ReceiveMessage::TakingOver { page, lens, fds, blob },
                    request,
                ),
                Step::Finished(fd) => {
                    fds.push(fd);
                    Self::next(channel.platform.byte_order, page, lens, fds)
                },
                Step::Abort(fault) => Step::Abort(holding(fault, fds)),
            },
            ReceiveMessage::Polling { len, chunks, fds, submit } => Self::polling(
                len,
                chunks,
                fds,
                submit.step(&channel.platform, reply),
            ),
        }
    }
}

impl VirtgpuChannel {
    /// Takes the next message of the host out of the channel ring: its bytes for
    /// buffers with the given room, and its descriptors.
    pub fn handle_channel_event(&self, lens: Vec<usize>, mode: IoMode) -> (step: ReceiveStep)
        ensures
            step@ == Receiving::begin(self@, mode, lens@),
            step matches Step::Ask(state, request) ==> state@.wf(),
    {
        if self.channel_ring_addr == 0 {
            Step::Abort(untouched(Fault::RingNotMapped))
        } else {
            ReceiveMessage::start(mode, lens)
        }
    }

    /// Receives the next message of the host.
    pub fn recv(&self, lens: Vec<usize>, mode: IoMode) -> (step: ReceiveStep)
        ensures
            step@ == Receiving::begin(self@, mode, lens@),
            step matches Step::Ask(state, request) ==> state@.wf(),
    {
        self.handle_channel_event(lens, mode)
    }
}

/// The reply that there was no event to read.
pub open spec fn no_event(platform: Platform) -> Reply {
    Reply::Failed(platform.eagain)
}

/// Without waiting, the events are read once; if there is none, receiving ends
/// there.
pub proof fn law_nonblocking_gives_up_at_once(channel: Channel, lens: Seq<usize>)
    requires
        channel.channel_ring_addr != 0,
    ensures
        ({
            let t = run(
                Receiving::steps(channel),
                Receiving::begin(channel, IoMode::NonBlocking, lens),
                seq![no_event(channel.platform)],
            );
            &&& t.asked == seq![Request::<Seq<u8>>::ReadEvent { capacity: EVENT_SIZE }]
            &&& t.end == ReceivingStep::Finished(Delivery::WouldBlock)
        }),
{
    reveal_with_fuel(run, 2);
    assert(run(
        Receiving::steps(channel),
        Receiving::begin(channel, IoMode::NonBlocking, lens),
        seq![no_event(channel.platform)],
    ).asked =~= seq![Request::<Seq<u8>>::ReadEvent { capacity: EVENT_SIZE }]);
}

/// Where receiving stands without having given up, and without being about to.
pub open spec fn keeps_waiting(step: ReceivingStep) -> bool {
    match step {
        Step::Ask(state, request) => state matches Receiving::AwaitingEvent { mode, lens }
            ==> mode == IoMode::Blocking,
        Step::Finished(delivery) => delivery is Message,
        Step::Abort(fault) => true,
    }
}

proof fn lemma_keeps_waiting(channel: Channel, now: ReceivingStep, replies: Seq<Reply>)
    requires
        keeps_waiting(now),
    ensures
        keeps_waiting(run(Receiving::steps(channel), now, replies).end),
    decreases replies.len(),
{
    match now {
        Step::Ask(state, request) => if replies.len() > 0 {
            lemma_keeps_waiting(channel, state.step(channel, replies[0]), replies.skip(1));
        },
        _ => {},
    }
}

/// Whatever the card replies, receiving that may wait never reports that it
/// would have had to.
pub proof fn law_blocking_never_gives_up(channel: Channel, lens: Seq<usize>, replies: Seq<Reply>)
    ensures
        run(
            Receiving::steps(channel),
            Receiving::begin(channel, IoMode::Blocking, lens),
            replies,
        ).end != ReceivingStep::Finished(Delivery::WouldBlock),
{
    lemma_keeps_waiting(channel, Receiving::begin(channel, IoMode::Blocking, lens), replies);
}

/// Receiving that may wait reads the events again as long as there is none: after
/// `tries` such replies it stands where it began, and has asked `tries` times.
pub proof fn law_blocking_tries_again(
    channel: Channel,
    lens: Seq<usize>,
    tries: nat,
    replies: Seq<Reply>,
)
    requires
        channel.channel_ring_addr != 0,
    ensures
        ({
            let start = Receiving::begin(channel, IoMode::Blocking, lens);
            let rest = run(Receiving::steps(channel), start, replies);
            let t = run(
                Receiving::steps(channel),
                start,
                Seq::new(tries, |i: int| no_event(channel.platform)) + replies,
            );
            &&& t.asked == Seq::new(
                tries,
                |i: int| Request::<Seq<u8>>::ReadEvent { capacity: EVENT_SIZE },
            ) + rest.asked
            &&& t.end == rest.end
        }),
    decreases tries,
{
    let start = Receiving::begin(channel, IoMode::Blocking, lens);
    let none = Seq::new(tries, |i: int| no_event(channel.platform));
    let t = run(Receiving::steps(channel), start, none + replies);
    let rest = run(Receiving::steps(channel), start, replies);
    let asked = Seq::new(tries, |i: int| Request::<Seq<u8>>::ReadEvent { capacity: EVENT_SIZE });
    if tries == 0 {
        assert(none + replies =~= replies);
        assert(t.asked =~= asked + rest.asked);
    } else {
        let fewer = (tries - 1) as nat;
        law_blocking_tries_again(channel, lens, fewer, replies);
        assert((none + replies).skip(1) =~= Seq::new(fewer, |i: int| no_event(channel.platform))
            + replies);
        assert((none + replies)[0] == no_event(channel.platform));
        assert(t.asked =~= asked + rest.asked);
    }
}

/// A message that can be taken: all its identifiers are resources and have a
/// slot, and its payload lies in the page.
pub open spec fn takeable(order: ByteOrder, page: Seq<u8>) -> bool {
    let msg = SendReceive::read(order, page);
    &&& page.len() == PAGE_SIZE
    &&& msg.hdr.cmd == CROSS_DOMAIN_CMD_RECEIVE
    &&& msg.num_identifiers <= CROSS_DOMAIN_MAX_IDENTIFIERS
    &&& forall|i: int|
        0 <= i < msg.num_identifiers ==> #[trigger] msg.identifier_types[i]
            == CROSS_DOMAIN_ID_TYPE_VIRTGPU_BLOB
    &&& SEND_RECEIVE_SIZE + msg.opaque_data_size <= PAGE_SIZE
}

/// The replies of a card that makes a memory object and a descriptor for each
/// identifier from the `n`th on.
pub open spec fn take_over_replies(
    handles: Seq<u32>,
    resources: Seq<u32>,
    fds: Seq<i32>,
    n: int,
) -> Seq<Reply>
    decreases fds.len() - n,
{
    if n >= fds.len() {
        Seq::empty()
    } else {
        host_blob_replies(handles[n], resources[n], fds[n]) + take_over_replies(
            handles,
            resources,
            fds,
            n + 1,
        )
    }
}

/// What is asked for to turn the identifiers from the `n`th on into descriptors.
pub open spec fn take_over_script(
    platform: Platform,
    msg: SendReceive,
    handles: Seq<u32>,
    n: int,
) -> Seq<Request<Seq<u8>>>
    decreases handles.len() - n,
{
    if n >= handles.len() {
        Seq::empty()
    } else {
        host_blob_script(
            platform,
            msg.identifiers[n],
            msg.identifier_sizes[n] as u64,
            handles[n],
        ) + take_over_script(platform, msg, handles, n + 1)
    }
}

/// The request that lets the host put its next message into the channel ring.
pub open spec fn poll_request(order: ByteOrder) -> Request<Seq<u8>> {
    exec_request(CrossDomainPoll::spec_next().wire(order), CROSS_DOMAIN_CHANNEL_RING, 0)
}

/// The identifiers of a message before the `n`th have a slot and are resources.
pub open spec fn resources_before(msg: SendReceive, n: int) -> bool {
    &&& n <= msg.num_identifiers
    &&& n <= CROSS_DOMAIN_MAX_IDENTIFIERS
    &&& forall|i: int|
        0 <= i < n ==> #[trigger] msg.identifier_types[i] == CROSS_DOMAIN_ID_TYPE_VIRTGPU_BLOB
}

/// One identifier becomes a descriptor.
#[verifier::spinoff_prover]
proof fn lemma_identifier_becomes_descriptor(
    channel: Channel,
    page: Seq<u8>,
    lens: Seq<usize>,
    fds: Seq<i32>,
    handle: u32,
    resource: u32,
    fd: i32,
    rest: Seq<Reply>,
)
    requires
        resources_before(
            SendReceive::read(channel.order(), page),
            (fds.len() + 1) as int,
        ),
    ensures
        ({
            let msg = SendReceive::read(channel.order(), page);
            let n = fds.len() as int;
            let t = run(
                Receiving::steps(channel),
                Receiving::next(channel.order(), page, lens, fds),
                host_blob_replies(handle, resource, fd) + rest,
            );
            let after = run(
                Receiving::steps(channel),
                Receiving::next(channel.order(), page, lens, fds.push(fd)),
                rest,
            );
            &&& t.asked == host_blob_script(
                channel.platform,
                msg.identifiers[n],
                msg.identifier_sizes[n] as u64,
                handle,
            ) + after.asked
            &&& t.end == after.end
        }),
{
    let msg = SendReceive::read(channel.order(), page);
    let n = fds.len() as int;
    assert(msg.identifier_types[n] == CROSS_DOMAIN_ID_TYPE_VIRTGPU_BLOB);
    let script = host_blob_script(
        channel.platform,
        msg.identifiers[n],
        msg.identifier_sizes[n] as u64,
        handle,
    );
    let creating = HostBlob::Creating;
    let exporting = HostBlob::Exporting { handle };
    let closing = HostBlob::Closing { fd };
    lemma_run_on_thrice(
        Receiving::steps(channel),
        (Receiving::TakingOver { page, lens, fds, blob: creating }, script[0]),
        (Receiving::TakingOver { page, lens, fds, blob: exporting }, script[1]),
        (Receiving::TakingOver { page, lens, fds, blob: closing }, script[2]),
        (
            Reply::Blob { bo_handle: handle, res_handle: resource },
            Reply::Fd(fd),
            Reply::Done,
        ),
        Receiving::next(channel.order(), page, lens, fds.push(fd)),
        rest,
    );
}

/// The identifiers from the `n`th on become descriptors, one after the other.
#[verifier::spinoff_prover]
proof fn lemma_identifiers_become_descriptors(
    channel: Channel,
    page: Seq<u8>,
    lens: Seq<usize>,
    handles: Seq<u32>,
    resources: Seq<u32>,
    fds: Seq<i32>,
    n: int,
    rest: Seq<Reply>,
)
    requires
        resources_before(SendReceive::read(channel.order(), page), fds.len() as int),
        handles.len() == resources.len() == fds.len(),
        0 <= n <= fds.len(),
    ensures
        ({
            let t = run(
                Receiving::steps(channel),
                Receiving::next(channel.order(), page, lens, fds.take(n)),
                take_over_replies(handles, resources, fds, n) + rest,
            );
            let after = run(
                Receiving::steps(channel),
                Receiving::next(channel.order(), page, lens, fds),
                rest,
            );
            &&& t.asked == take_over_script(
                channel.platform,
                SendReceive::read(channel.order(), page),
                handles,
                n,
            ) + after.asked
            &&& t.end == after.end
        }),
    decreases fds.len() - n,
{
    let order = channel.order();
    let msg = SendReceive::read(order, page);
    let after = run(Receiving::steps(channel), Receiving::next(order, page, lens, fds), rest);
    if n == fds.len() {
        let none: Seq<Reply> = Seq::empty();
        assert(fds.take(n) =~= fds);
        assert(none + rest =~= rest);
        assert(Seq::empty() + after.asked =~= after.asked);
    } else {
        let replies = host_blob_replies(handles[n], resources[n], fds[n]);
        let later = take_over_replies(handles, resources, fds, n + 1);
        let script = host_blob_script(
            channel.platform,
            msg.identifiers[n],
            msg.identifier_sizes[n] as u64,
            handles[n],
        );
        let later_script = take_over_script(channel.platform, msg, handles, n + 1);
        lemma_identifier_becomes_descriptor(
            channel,
            page,
            lens,
            fds.take(n),
            handles[n],
            resources[n],
            fds[n],
            later + rest,
        );
        lemma_identifiers_become_descriptors(
            channel,
            page,
            lens,
            handles,
            resources,
            fds,
            n + 1,
            rest,
        );
        assert(fds.take(n + 1) =~= fds.take(n).push(fds[n]));
        lemma_concat_associative(replies, later, rest);
        lemma_concat_associative(script, later_script, after.asked);
    }
}

/// The bytes of the event that there is a message.
pub open spec fn announces_message(order: ByteOrder, event: Seq<u8>) -> bool {
    &&& event.len() == EVENT_SIZE
    &&& number_at(order, event, 0, 4) == VIRTGPU_EVENT_FENCE_SIGNALED
}

/// The replies up to where descriptors have been made for the first identifiers
/// of a message.
pub open spec fn arrival_replies(
    event: Vec<u8>,
    page: Vec<u8>,
    handles: Seq<u32>,
    resources: Seq<u32>,
    fds: Seq<i32>,
) -> Seq<Reply> {
    seq![Reply::Bytes(event), Reply::Bytes(page)] + take_over_replies(handles, resources, fds, 0)
}

/// What is asked for up to there: the event, the channel ring, and a descriptor
/// for each of the identifiers in turn.
pub open spec fn arrival_script(channel: Channel, page: Seq<u8>, handles: Seq<u32>) -> Seq<
    Request<Seq<u8>>,
> {
    seq![
        Request::ReadEvent { capacity: EVENT_SIZE },
        Request::ReadRing { addr: channel.channel_ring_addr, len: PAGE_SIZE },
    ] + take_over_script(channel.platform, SendReceive::read(channel.order(), page), handles, 0)
}

/// The event and the channel ring are read.
#[verifier::spinoff_prover]
proof fn lemma_ring_is_read(
    channel: Channel,
    mode: IoMode,
    lens: Seq<usize>,
    event: Vec<u8>,
    page: Vec<u8>,
    rest: Seq<Reply>,
)
    requires
        channel.channel_ring_addr != 0,
        announces_message(channel.order(), event@),
        page@.len() == PAGE_SIZE,
        SendReceive::read(channel.order(), page@).hdr.cmd == CROSS_DOMAIN_CMD_RECEIVE,
    ensures
        ({
            let t = run(
                Receiving::steps(channel),
                Receiving::begin(channel, mode, lens),
                seq![Reply::Bytes(event), Reply::Bytes(page)] + rest,
            );
            let after = run(
                Receiving::steps(channel),
                Receiving::next(channel.order(), page@, lens, Seq::empty()),
                rest,
            );
            &&& t.asked == seq![
                Request::ReadEvent { capacity: EVENT_SIZE },
                Request::ReadRing { addr: channel.channel_ring_addr, len: PAGE_SIZE },
            ] + after.asked
            &&& t.end == after.end
        }),
{
    let steps = Receiving::steps(channel);
    let event_request = Request::ReadEvent { capacity: EVENT_SIZE };
    let ring_request = Request::ReadRing { addr: channel.channel_ring_addr, len: PAGE_SIZE };
    let ring = seq![Reply::Bytes(page)] + rest;
    let next = Receiving::next(channel.order(), page@, lens, Seq::empty());
    let after = run(steps, next, rest);
    lemma_run_on(
        steps,
        (Receiving::ReadingRing { lens }, ring_request),
        Reply::Bytes(page),
        next,
        rest,
    );
    lemma_run_on(
        steps,
        (Receiving::AwaitingEvent { mode, lens }, event_request),
        Reply::Bytes(event),
        Step::Ask(Receiving::ReadingRing { lens }, ring_request),
        ring,
    );
    assert(seq![Reply::Bytes(event), Reply::Bytes(page)] + rest =~= seq![Reply::Bytes(event)]
        + ring);
    assert(seq![event_request] + (seq![ring_request] + after.asked) =~= seq![
        event_request,
        ring_request,
    ] + after.asked);
}

/// A message arrives up to where descriptors have been made for its first
/// identifiers.
#[verifier::spinoff_prover]
proof fn lemma_message_arrives(
    channel: Channel,
    mode: IoMode,
    lens: Seq<usize>,
    event: Vec<u8>,
    page: Vec<u8>,
    handles: Seq<u32>,
    resources: Seq<u32>,
    fds: Seq<i32>,
    rest: Seq<Reply>,
)
    requires
        channel.channel_ring_addr != 0,
        announces_message(channel.order(), event@),
        page@.len() == PAGE_SIZE,
        SendReceive::read(channel.order(), page@).hdr.cmd == CROSS_DOMAIN_CMD_RECEIVE,
        resources_before(SendReceive::read(channel.order(), page@), fds.len() as int),
        handles.len() == resources.len() == fds.len(),
    ensures
        ({
            let t = run(
                Receiving::steps(channel),
                Receiving::begin(channel, mode, lens),
                arrival_replies(event, page, handles, resources, fds) + rest,
            );
            let after = run(
                Receiving::steps(channel),
                Receiving::next(channel.order(), page@, lens, fds),
                rest,
            );
            &&& t.asked == arrival_script(channel, page@, handles) + after.asked
            &&& t.end == after.end
        }),
{
    let order = channel.order();
    let read = seq![Reply::Bytes(event), Reply::Bytes(page)];
    let taken = take_over_replies(handles, resources, fds, 0);
    let requests = seq![
        Request::ReadEvent { capacity: EVENT_SIZE },
        Request::ReadRing { addr: channel.channel_ring_addr, len: PAGE_SIZE },
    ];
    let script = take_over_script(channel.platform, SendReceive::read(order, page@), handles, 0);
    let after = run(Receiving::steps(channel), Receiving::next(order, page@, lens, fds), rest);
    lemma_ring_is_read(channel, mode, lens, event, page, taken + rest);
    assert(fds.take(0) =~= Seq::empty());
    lemma_identifiers_become_descriptors(channel, page@, lens, handles, resources, fds, 0, rest);
    lemma_concat_associative(read, taken, rest);
    lemma_concat_associative(requests, script, after.asked);
}

/// A message is received in one fixed order: its event, the channel ring, a
/// descriptor for each identifier in turn, and then, once, the poll that lets
/// the host go on. What is delivered is the length that the message declares,
/// its payload spread over the buffers, and the descriptors in the order of the
/// identifiers.
pub proof fn law_message_is_delivered(
    channel: Channel,
    mode: IoMode,
    lens: Seq<usize>,
    event: Vec<u8>,
    page: Vec<u8>,
    handles: Seq<u32>,
    resources: Seq<u32>,
    fds: Seq<i32>,
)
    requires
        channel.channel_ring_addr != 0,
        announces_message(channel.order(), event@),
        takeable(channel.order(), page@),
        handles.len() == resources.len() == fds.len(),
        fds.len() == SendReceive::read(channel.order(), page@).num_identifiers,
    ensures
        ({
            let t = run(
                Receiving::steps(channel),
                Receiving::begin(channel, mode, lens),
                arrival_replies(event, page, handles, resources, fds).push(Reply::Done),
            );
            &&& t.asked == arrival_script(channel, page@, handles).push(
                poll_request(channel.order()),
            )
            &&& t.end == ReceivingStep::Finished(
                Delivery::Message {
                    len: SendReceive::read(channel.order(), page@).opaque_data_size as usize,
                    chunks: parts(payload(channel.order(), page@), lens),
                    fds,
                },
            )
        }),
{
    let replies = arrival_replies(event, page, handles, resources, fds);
    let script = arrival_script(channel, page@, handles);
    lemma_message_arrives(
        channel,
        mode,
        lens,
        event,
        page,
        handles,
        resources,
        fds,
        seq![Reply::Done],
    );
    assert(replies.push(Reply::Done) =~= replies + seq![Reply::Done]);
    reveal_with_fuel(run, 2);
    assert(run(
        Receiving::steps(channel),
        Receiving::next(channel.order(), page@, lens, fds),
        seq![Reply::Done],
    ).asked =~= seq![poll_request(channel.order())]);
    assert(script + seq![poll_request(channel.order())] =~= script.push(
        poll_request(channel.order()),
    ));
}

/// Why a message stops when descriptors have been made for its first `n`
/// identifiers: the next one is not a resource, there is no slot for it, or
/// there is no next one and the payload leaves the ring.
pub open spec fn stops_at(msg: SendReceive, n: int, fault: Fault) -> bool {
    if n == msg.num_identifiers {
        SEND_RECEIVE_SIZE + msg.opaque_data_size > PAGE_SIZE && fault == Fault::RingOverrun
    } else if n == CROSS_DOMAIN_MAX_IDENTIFIERS {
        fault == Fault::TooManyIdentifiers
    } else {
        msg.identifier_types[n] != CROSS_DOMAIN_ID_TYPE_VIRTGPU_BLOB && fault
            == Fault::UnsupportedIdentifier(msg.identifier_types[n])
    }
}

/// A message that stops at an identifier that is not a resource or has no slot,
/// or at a payload that leaves the ring, is left there: the descriptors of the
/// identifiers before are handed over, the buffers stay as they are, and the
/// host is not let go on.
pub proof fn law_stopped_message_hands_over_its_descriptors(
    channel: Channel,
    mode: IoMode,
    lens: Seq<usize>,
    event: Vec<u8>,
    page: Vec<u8>,
    handles: Seq<u32>,
    resources: Seq<u32>,
    fds: Seq<i32>,
    fault: Fault,
)
    requires
        channel.channel_ring_addr != 0,
        announces_message(channel.order(), event@),
        page@.len() == PAGE_SIZE,
        SendReceive::read(channel.order(), page@).hdr.cmd == CROSS_DOMAIN_CMD_RECEIVE,
        resources_before(SendReceive::read(channel.order(), page@), fds.len() as int),
        handles.len() == resources.len() == fds.len(),
        stops_at(SendReceive::read(channel.order(), page@), fds.len() as int, fault),
    ensures
        ({
            let t = run(
                Receiving::steps(channel),
                Receiving::begin(channel, mode, lens),
                arrival_replies(event, page, handles, resources, fds),
            );
            &&& t.asked == arrival_script(channel, page@, handles)
            &&& t.end == ReceivingStep::Abort(
                Interrupted { fault, chunks: Seq::empty(), fds },
            )
        }),
{
    let replies = arrival_replies(event, page, handles, resources, fds);
    let script = arrival_script(channel, page@, handles);
    lemma_message_arrives(
        channel,
        mode,
        lens,
        event,
        page,
        handles,
        resources,
        fds,
        Seq::empty(),
    );
    assert(replies + Seq::empty() =~= replies);
    assert(script + Seq::empty() =~= script);
}

/// The card refuses a request for a descriptor.
proof fn lemma_request_is_refused(
    channel: Channel,
    page: Seq<u8>,
    lens: Seq<usize>,
    fds: Seq<i32>,
    blob: HostBlob,
    request: Request<Seq<u8>>,
    code: i32,
)
    ensures
        ({
            let t = run(
                Receiving::steps(channel),
                ReceivingStep::Ask(Receiving::TakingOver { page, lens, fds, blob }, request),
                seq![Reply::Failed(code)],
            );
            &&& t.asked == seq![request]
            &&& t.end == ReceivingStep::Abort(spec_holding(Fault::System(code), fds))
        }),
{
    reveal_with_fuel(run, 2);
    let at = Receiving::TakingOver { page, lens, fds, blob };
    assert(at.step(channel, Reply::Failed(code)) == ReceivingStep::Abort(
        spec_holding(Fault::System(code), fds),
    ));
    assert(run(
        Receiving::steps(channel),
        ReceivingStep::Ask(at, request),
        seq![Reply::Failed(code)],
    ).asked =~= seq![request]);
}

/// The card refuses one of the three requests for a descriptor.
proof fn lemma_descriptor_is_refused(
    channel: Channel,
    page: Seq<u8>,
    lens: Seq<usize>,
    fds: Seq<i32>,
    handle: u32,
    resource: u32,
    fd: i32,
    granted: int,
    code: i32,
)
    requires
        resources_before(
            SendReceive::read(channel.order(), page),
            (fds.len() + 1) as int,
        ),
        0 <= granted < 3,
    ensures
        ({
            let msg = SendReceive::read(channel.order(), page);
            let n = fds.len() as int;
            let t = run(
                Receiving::steps(channel),
                Receiving::next(channel.order(), page, lens, fds),
                host_blob_replies(handle, resource, fd).take(granted).push(Reply::Failed(code)),
            );
            &&& t.asked == host_blob_script(
                channel.platform,
                msg.identifiers[n],
                msg.identifier_sizes[n] as u64,
                handle,
            ).take(granted + 1)
            &&& t.end == ReceivingStep::Abort(spec_holding(Fault::System(code), fds))
        }),
{
    let msg = SendReceive::read(channel.order(), page);
    let n = fds.len() as int;
    assert(msg.identifier_types[n] == CROSS_DOMAIN_ID_TYPE_VIRTGPU_BLOB);
    let script = host_blob_script(
        channel.platform,
        msg.identifiers[n],
        msg.identifier_sizes[n] as u64,
        handle,
    );
    let steps = Receiving::steps(channel);
    let refused = seq![Reply::Failed(code)];
    let creating = HostBlob::Creating;
    let exporting = HostBlob::Exporting { handle };
    let closing = HostBlob::Closing { fd };
    let replies = host_blob_replies(handle, resource, fd).take(granted).push(Reply::Failed(code));
    let t = run(steps, Receiving::next(channel.order(), page, lens, fds), replies);
    if granted == 0 {
        assert(replies =~= refused);
        lemma_request_is_refused(channel, page, lens, fds, creating, script[0], code);
        assert(t.asked =~= script.take(1));
    } else {
        let at = Receiving::TakingOver { page, lens, fds, blob: exporting };
        let t1 = run(steps, ReceivingStep::Ask(at, script[1]), replies.skip(1));
        assert(t.asked == seq![script[0]] + t1.asked && t.end == t1.end);
        if granted == 1 {
            assert(replies.skip(1) =~= refused);
            lemma_request_is_refused(channel, page, lens, fds, exporting, script[1], code);
            assert(t.asked =~= script.take(2));
        } else {
            let at = Receiving::TakingOver { page, lens, fds, blob: closing };
            let t2 = run(steps, ReceivingStep::Ask(at, script[2]), refused);
            assert(replies.skip(1).skip(1) =~= refused);
            assert(t1.asked == seq![script[1]] + t2.asked && t1.end == t2.end);
            lemma_request_is_refused(channel, page, lens, fds, closing, script[2], code);
            assert(t.asked =~= script.take(3));
        }
    }
}

/// When the card refuses one of the three requests for a descriptor, the
/// descriptors of the identifiers before are handed over, the buffers stay as
/// they are, and the host is not let go on.
pub proof fn law_refused_descriptor_leaves_the_earlier_ones(
    channel: Channel,
    mode: IoMode,
    lens: Seq<usize>,
    event: Vec<u8>,
    page: Vec<u8>,
    handles: Seq<u32>,
    resources: Seq<u32>,
    fds: Seq<i32>,
    handle: u32,
    resource: u32,
    fd: i32,
    granted: int,
    code: i32,
)
    requires
        channel.channel_ring_addr != 0,
        announces_message(channel.order(), event@),
        page@.len() == PAGE_SIZE,
        SendReceive::read(channel.order(), page@).hdr.cmd == CROSS_DOMAIN_CMD_RECEIVE,
        resources_before(
            SendReceive::read(channel.order(), page@),
            (fds.len() + 1) as int,
        ),
        handles.len() == resources.len() == fds.len(),
        0 <= granted < 3,
    ensures
        ({
            let msg = SendReceive::read(channel.order(), page@);
            let n = fds.len() as int;
            let t = run(
                Receiving::steps(channel),
                Receiving::begin(channel, mode, lens),
                arrival_replies(event, page, handles, resources, fds) + host_blob_replies(
                    handle,
                    resource,
                    fd,
                ).take(granted).push(Reply::Failed(code)),
            );
            &&& t.asked == arrival_script(channel, page@, handles) + host_blob_script(
                channel.platform,
                msg.identifiers[n],
                msg.identifier_sizes[n] as u64,
                handle,
            ).take(granted + 1)
            &&& t.end == ReceivingStep::Abort(
                Interrupted { fault: Fault::System(code), chunks: Seq::empty(), fds },
            )
        }),
{
    let msg = SendReceive::read(channel.order(), page@);
    let n = fds.len() as int;
    let last = host_blob_replies(handle, resource, fd).take(granted).push(Reply::Failed(code));
    lemma_message_arrives(
        channel,
        mode,
        lens,
        event,
        page,
        handles,
        resources,
        fds,
        last,
    );
    lemma_descriptor_is_refused(
        channel,
        page@,
        lens,
        fds,
        handle,
        resource,
        fd,
        granted,
        code,
    );
}

/// When only the poll is refused, the message has been taken all the same: its
/// payload is in the buffers, and all its descriptors are handed over.
pub proof fn law_refused_poll_leaves_the_message(
    channel: Channel,
    mode: IoMode,
    lens: Seq<usize>,
    event: Vec<u8>,
    page: Vec<u8>,
    handles: Seq<u32>,
    resources: Seq<u32>,
    fds: Seq<i32>,
    code: i32,
)
    requires
        channel.channel_ring_addr != 0,
        announces_message(channel.order(), event@),
        takeable(channel.order(), page@),
        handles.len() == resources.len() == fds.len(),
        fds.len() == SendReceive::read(channel.order(), page@).num_identifiers,
    ensures
        ({
            let t = run(
                Receiving::steps(channel),
                Receiving::begin(channel, mode, lens),
                arrival_replies(event, page, handles, resources, fds).push(Reply::Failed(code)),
            );
            &&& t.asked == arrival_script(channel, page@, handles).push(
                poll_request(channel.order()),
            )
            &&& t.end == ReceivingStep::Abort(
                Interrupted {
                    fault: Fault::System(code),
                    chunks: parts(payload(channel.order(), page@), lens),
                    fds,
                },
            )
        }),
{
    let replies = arrival_replies(event, page, handles, resources, fds);
    let script = arrival_script(channel, page@, handles);
    let refused = seq![Reply::Failed(code)];
    lemma_message_arrives(channel, mode, lens, event, page, handles, resources, fds, refused);
    assert(replies.push(Reply::Failed(code)) =~= replies + refused);
    reveal_with_fuel(run, 2);
    assert(run(
        Receiving::steps(channel),
        Receiving::next(channel.order(), page@, lens, fds),
        refused,
    ).asked =~= seq![poll_request(channel.order())]);
    assert(script + seq![poll_request(channel.order())] =~= script.push(
        poll_request(channel.order()),
    ));
}

/// The one command that receiving submits is the poll, and it is on its way only
/// when all else is done.
pub open spec fn polls_last(order: ByteOrder, step: ReceivingStep) -> bool {
    step matches Step::Ask(state, request) ==> match state {
        Receiving::Polling { len, chunks, fds, submit } => {
            &&& request == poll_request(order)
            &&& submit == (Submit::Executing { wait: false, handle: 0 })
        },
        _ => !(request is ExecBuffer),
    }
}

proof fn lemma_polls_last(channel: Channel, now: ReceivingStep, replies: Seq<Reply>)
    requires
        polls_last(channel.order(), now),
    ensures
        ({
            let asked = run(Receiving::steps(channel), now, replies).asked;
            forall|i: int|
                0 <= i < asked.len() && (#[trigger] asked[i]) is ExecBuffer ==> asked[i]
                    == poll_request(channel.order()) && i == asked.len() - 1
        }),
    decreases replies.len(),
{
    match now {
        Step::Ask(state, request) => if replies.len() > 0 {
            let next = state.step(channel, replies[0]);
            let rest = run(Receiving::steps(channel), next, replies.skip(1)).asked;
            let asked = run(Receiving::steps(channel), now, replies).asked;
            lemma_polls_last(channel, next, replies.skip(1));
            assert forall|i: int| 0 <= i < asked.len() && (
            #[trigger] asked[i]) is ExecBuffer implies asked[i] == poll_request(
                channel.order(),
            ) && i == asked.len() - 1 by {
                if i > 0 {
                    assert(asked[i] == rest[i - 1]);
                }
            }
        },
        _ => {},
    }
}

/// Whatever the card replies, the host is let go on at most once for a message,
/// and nothing is asked for after that: a message is never overwritten before it
/// has been taken.
pub proof fn law_host_goes_on_only_when_the_message_is_taken(
    channel: Channel,
    mode: IoMode,
    lens: Seq<usize>,
    replies: Seq<Reply>,
)
    ensures
        ({
            let asked = run(
                Receiving::steps(channel),
                Receiving::begin(channel, mode, lens),
                replies,
            ).asked;
            forall|i: int|
                0 <= i < asked.len() && (#[trigger] asked[i]) is ExecBuffer ==> asked[i]
                    == poll_request(channel.order()) && i == asked.len() - 1
        }),
{
    lemma_polls_last(channel, Receiving::begin(channel, mode, lens), replies);
}

/// What the host wrote is what arrives: from a page that starts with an encoded
/// message and its payload, that message is read, and its payload, spread over
/// buffers with enough room and joined again, is the payload that was written.
pub proof fn law_receiver_reads_what_was_written(
    order: ByteOrder,
    msg: SendReceive,
    data: Seq<u8>,
    rest: Seq<u8>,
    lens: Seq<usize>,
)
    requires
        msg.wf(),
        msg.opaque_data_size == data.len(),
        room(lens, lens.len() as int) >= data.len(),
    ensures
        ({
            let page = record(order, msg.fields()) + data + rest;
            &&& SendReceive::read(order, page) == msg
            &&& payload(order, page) == data
            &&& joined(parts(payload(order, page), lens)) == data
        }),
{
    let page = record(order, msg.fields()) + data + rest;
    law_message_roundtrip(order, msg, data + rest);
    assert(page =~= record(order, msg.fields()) + (data + rest));
    assert(payload(order, page) =~= data);
    law_scatter_keeps_bytes(data, lens);
}

} // verus!
