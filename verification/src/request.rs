//! What the card is asked to do, what it answers, and how an operation goes on.
use vstd::prelude::*;

verus! {

/// The context speaks the cross-domain protocol.
pub const VIRTIO_GPU_CAPSET_CROSS_DOMAIN: u32 = 5;

/// Context parameter: which set of capabilities the context uses.
pub const VIRTGPU_CONTEXT_PARAM_CAPSET_ID: u64 = 1;

/// Context parameter: how many rings the context has.
pub const VIRTGPU_CONTEXT_PARAM_NUM_RINGS: u64 = 2;

/// Context parameter: on which rings the card file can be polled.
pub const VIRTGPU_CONTEXT_PARAM_POLL_RINGS_MASK: u64 = 3;

/// The blob lies in the guest's memory.
pub const VIRTGPU_BLOB_MEM_GUEST: u32 = 1;

/// The blob lies in the host's memory.
pub const VIRTGPU_BLOB_MEM_HOST3D: u32 = 2;

/// The blob can be mapped.
pub const VIRTGPU_BLOB_FLAG_USE_MAPPABLE: u32 = 1;

/// The blob can be handed on as a descriptor.
pub const VIRTGPU_BLOB_FLAG_USE_SHAREABLE: u32 = 2;

/// The command buffer belongs to a ring.
pub const VIRTGPU_EXECBUF_RING_IDX: u32 = 4;

/// The event that a fence of a ring was signalled.
pub const VIRTGPU_EVENT_FENCE_SIGNALED: u32 = 0x9000_0000;

/// The bytes of an event: its type and its length, four bytes each.
pub const EVENT_SIZE: usize = 8;

/// The bytes of a ring.
pub const PAGE_SIZE: usize = 4096;

/// A parameter of a new context and its value.
#[derive(Clone, Copy, Debug, PartialEq, Eq, Structural)]
pub struct ContextParam {
    pub param: u64,
    pub value: u64,
}

/// One thing for the card to do. `B` is the type of a command's bytes:
/// `Vec<u8>` in code, `Seq<u8>` in its mathematical value.
#[allow(inconsistent_fields)]
#[derive(Debug, PartialEq, Eq)]
pub enum Request<B> {
    /// Report the driver's name in so many bytes, or only how long it is.
    GetVersion { name_len: Option<u64> },
    /// Report a set of capabilities in so many bytes.
    GetCaps { cap_set_id: u32, size: u32 },
    /// Turn the file into a context with these parameters.
    ContextInit { first: ContextParam, second: ContextParam, third: ContextParam },
    /// Make a memory object.
    CreateBlob { blob_mem: u32, blob_flags: u32, size: u64, blob_id: u64 },
    /// Make a memory object mappable.
    MapBlob { handle: u32 },
    /// Map so many bytes of the card, readable, writable and shared.
    MapMemory { length: usize, offset: i64 },
    /// Submit a command buffer, with the memory object that it keeps busy.
    ExecBuffer { command: B, size: u32, flags: u32, ring_idx: u32, bo_handle: Option<u32> },
    /// Wait until a memory object is no longer busy.
    Wait { handle: u32 },
    /// Find the memory object behind a descriptor.
    PrimeFdToHandle { fd: i32 },
    /// Find the resource behind a memory object.
    ResourceInfo { bo_handle: u32 },
    /// Make a descriptor for a memory object.
    PrimeHandleToFd { handle: u32, flags: u32 },
    /// Let go of a memory object.
    GemClose { handle: u32 },
    /// Read at most so many bytes of events.
    ReadEvent { capacity: usize },
    /// Copy so many bytes out of mapped memory.
    ReadRing { addr: usize, len: usize },
}

impl View for Request<Vec<u8>> {
    type V = Request<Seq<u8>>;

    open spec fn view(&self) -> Request<Seq<u8>> {
        match *self {
            Request::GetVersion { name_len } => Request::GetVersion { name_len },
            Request::GetCaps { cap_set_id, size } => Request::GetCaps { cap_set_id, size },
            Request::ContextInit { first, second, third } => Request::ContextInit {
                first,
                second,
                third,
            },
            Request::CreateBlob { blob_mem, blob_flags, size, blob_id } => Request::CreateBlob {
                blob_mem,
                blob_flags,
                size,
                blob_id,
            },
            Request::MapBlob { handle } => Request::MapBlob { handle },
            Request::MapMemory { length, offset } => Request::MapMemory { length, offset },
            Request::ExecBuffer { command, size, flags, ring_idx, bo_handle } =>
            Request::ExecBuffer { command: command@, size, flags, ring_idx, bo_handle },
            Request::Wait { handle } => Request::Wait { handle },
            Request::PrimeFdToHandle { fd } => Request::PrimeFdToHandle { fd },
            Request::ResourceInfo { bo_handle } => Request::ResourceInfo { bo_handle },
            Request::PrimeHandleToFd { handle, flags } => Request::PrimeHandleToFd {
                handle,
                flags,
            },
            Request::GemClose { handle } => Request::GemClose { handle },
            Request::ReadEvent { capacity } => Request::ReadEvent { capacity },
            Request::ReadRing { addr, len } => Request::ReadRing { addr, len },
        }
    }
}

/// What came of a request.
#[derive(Debug)]
pub enum Reply {
    /// It was done, and there is nothing to report.
    Done,
    /// It failed with this error of the system.
    Failed(i32),
    /// How long the driver's name is.
    NameLength(u64),
    /// The driver's name.
    Name(Vec<i8>),
    /// A memory object was made; the host knows it as the resource.
    Blob { bo_handle: u32, res_handle: u32 },
    /// Where on the card the memory object can be mapped.
    Offset(u64),
    /// Where the memory was mapped.
    Address(usize),
    /// What the waiting call returned.
    Status(i32),
    /// The memory object behind the descriptor.
    Handle(u32),
    /// The resource behind the memory object.
    Resource(u32),
    /// A new descriptor.
    Fd(i32),
    /// The bytes that were read.
    Bytes(Vec<u8>),
}

/// Why an operation cannot go on.
#[derive(Clone, Copy, Debug, PartialEq, Eq, Structural)]
pub enum Fault {
    /// The system refused a request, with this error.
    System(i32),
    /// The reply does not belong to the request.
    UnexpectedReply,
    /// The card is not a virtio GPU.
    NotVirtioGpu,
    /// More bytes than a message can carry.
    PacketTooBig,
    /// More identifiers than a message can carry.
    TooManyIdentifiers,
    /// An identifier of a type that is not handled.
    UnsupportedIdentifier(u32),
    /// The event does not have the size of an event.
    InvalidEventSize,
    /// The event is not that of a signalled fence.
    InvalidEventType,
    /// The host put a pipe's contents into the channel ring.
    UnsupportedRead,
    /// The host put this command into the channel ring.
    UnexpectedCommand(u32),
    /// The context has not been created: there is no ring to read.
    RingNotMapped,
    /// The message is longer than the ring.
    RingOverrun,
    /// An image has no such plane.
    NoSuchPlane,
}

impl View for Fault {
    type V = Fault;

    open spec fn view(&self) -> Fault {
        *self
    }
}

/// How an operation stands: it asks for one more request and remembers where it
/// is, or it has its result, or it cannot go on. `F` is what is left of an
/// operation that cannot go on: mostly the fault alone.
#[derive(Debug)]
pub enum Step<S, T, B, F = Fault> {
    Ask(S, Request<B>),
    Finished(T),
    Abort(F),
}

impl<S: View, T: View, F: View> View for Step<S, T, Vec<u8>, F> {
    type V = Step<S::V, T::V, Seq<u8>, F::V>;

    open spec fn view(&self) -> Step<S::V, T::V, Seq<u8>, F::V> {
        match *self {
            Step::Ask(state, request) => Step::Ask(state@, request@),
            Step::Finished(result) => Step::Finished(result@),
            Step::Abort(left) => Step::Abort(left@),
        }
    }
}

/// The step of an operation that has just begun: where it is, and what it asks
/// for first.
pub open spec fn asking<S, T>(first: (S, Request<Seq<u8>>)) -> Step<S, T, Seq<u8>> {
    Step::Ask(first.0, first.1)
}

/// A step of an operation on something that the operation also changes, together
/// with what it leaves behind, however the operation stands.
pub type Over<C, S, T> = Step<(C, S), (C, T), Seq<u8>, (C, Fault)>;

/// The step together with what it leaves behind.
pub open spec fn over<C, S, T>(outcome: (C, Step<S, T, Seq<u8>>)) -> Over<C, S, T> {
    match outcome.1 {
        Step::Ask(state, request) => Step::Ask((outcome.0, state), request),
        Step::Finished(result) => Step::Finished((outcome.0, result)),
        Step::Abort(fault) => Step::Abort((outcome.0, fault)),
    }
}

/// What an operation has left behind so far.
pub open spec fn left_behind<C, S, T>(step: Over<C, S, T>) -> C {
    match step {
        Step::Ask(at, request) => at.0,
        Step::Finished(result) => result.0,
        Step::Abort(broken) => broken.0,
    }
}

/// The fault in a reply that is not the one waited for.
pub open spec fn spec_fault(reply: Reply) -> Fault {
    match reply {
        Reply::Failed(code) => Fault::System(code),
        _ => Fault::UnexpectedReply,
    }
}

/// The fault in a reply that is not the one waited for.
pub fn fault(reply: Reply) -> (fault: Fault)
    ensures
        fault == spec_fault(reply),
{
    match reply {
        Reply::Failed(code) => Fault::System(code),
        _ => Fault::UnexpectedReply,
    }
}

/// What an operation asks for, in order, and how it stands in the end.
#[verifier::ext_equal]
pub struct Transcript<S, T, F = Fault> {
    pub asked: Seq<Request<Seq<u8>>>,
    pub end: Step<S, T, Seq<u8>, F>,
}

/// Drives an operation on with one reply after the other, until it no longer
/// asks or no reply is left.
pub open spec fn run<S, T, F>(
    step: spec_fn(S, Reply) -> Step<S, T, Seq<u8>, F>,
    now: Step<S, T, Seq<u8>, F>,
    replies: Seq<Reply>,
) -> Transcript<S, T, F>
    decreases replies.len(),
{
    match now {
        Step::Ask(state, request) => if replies.len() == 0 {
            Transcript { asked: seq![request], end: now }
        } else {
            let rest = run(step, step(state, replies[0]), replies.skip(1));
            Transcript { asked: seq![request] + rest.asked, end: rest.end }
        },
        _ => Transcript { asked: Seq::empty(), end: now },
    }
}

/// One reply drives an operation on by one step.
pub(crate) proof fn lemma_run_on<S, T, F>(
    step: spec_fn(S, Reply) -> Step<S, T, Seq<u8>, F>,
    at: (S, Request<Seq<u8>>),
    reply: Reply,
    next: Step<S, T, Seq<u8>, F>,
    rest: Seq<Reply>,
)
    requires
        step(at.0, reply) == next,
    ensures
        ({
            let t = run(step, Step::Ask(at.0, at.1), seq![reply] + rest);
            let after = run(step, next, rest);
            &&& t.asked == seq![at.1] + after.asked
            &&& t.end == after.end
        }),
{
    assert((seq![reply] + rest).skip(1) =~= rest);
}

/// Three replies drive an operation on by three steps.
pub(crate) proof fn lemma_run_on_thrice<S, T, F>(
    step: spec_fn(S, Reply) -> Step<S, T, Seq<u8>, F>,
    at: (S, Request<Seq<u8>>),
    second: (S, Request<Seq<u8>>),
    third: (S, Request<Seq<u8>>),
    replies: (Reply, Reply, Reply),
    next: Step<S, T, Seq<u8>, F>,
    rest: Seq<Reply>,
)
    requires
        step(at.0, replies.0) == Step::<S, T, Seq<u8>, F>::Ask(second.0, second.1),
        step(second.0, replies.1) == Step::<S, T, Seq<u8>, F>::Ask(third.0, third.1),
        step(third.0, replies.2) == next,
    ensures
        ({
            let t = run(
                step,
                Step::Ask(at.0, at.1),
                seq![replies.0, replies.1, replies.2] + rest,
            );
            let after = run(step, next, rest);
            &&& t.asked == seq![at.1, second.1, third.1] + after.asked
            &&& t.end == after.end
        }),
{
    let later = seq![replies.2] + rest;
    let all = seq![replies.1] + later;
    let after = run(step, next, rest);
    lemma_run_on(step, third, replies.2, next, rest);
    lemma_run_on(step, second, replies.1, Step::Ask(third.0, third.1), later);
    lemma_run_on(step, at, replies.0, Step::Ask(second.0, second.1), all);
    assert(seq![replies.0, replies.1, replies.2] + rest =~= seq![replies.0] + all);
    assert(seq![at.1] + (seq![second.1] + (seq![third.1] + after.asked)) =~= seq![
        at.1,
        second.1,
        third.1,
    ] + after.asked);
}

} // verus!
