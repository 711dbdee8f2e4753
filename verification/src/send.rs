//! Sending bytes and descriptors to the host.
use vstd::prelude::*;
use vstd::seq_lib::lemma_concat_associative;

use crate::bytes::ByteOrder;
use crate::channel::VirtgpuChannel;
use crate::identify::{FdAnalysis, Identifier};
use crate::iov::{contents, gather, gathered_len, joined};
use crate::layout::record;
use crate::platform::Platform;
use crate::protocol::{
    law_message_roundtrip, CrossDomainCmd, CrossDomainHeader, CrossDomainSendReceive, SendReceive,
    CROSS_DOMAIN_CMD_SEND, CROSS_DOMAIN_ID_TYPE_VIRTGPU_BLOB, CROSS_DOMAIN_MAX_IDENTIFIERS,
    CROSS_DOMAIN_RING_NONE, SEND_RECEIVE_SIZE,
};
use crate::request::{lemma_run_on, run, Fault, Reply, Request, Step};
use crate::submit::{exec_request, spec_submit_cmd, submit_cmd, Submit};

verus! {

/// The bytes that a command buffer has at most.
pub const DEFAULT_BUFFER_SIZE: usize = 4096;

/// A message's payload has fewer bytes than this.
pub const PAYLOAD_LIMIT: usize = 4032;

/// A message under way.
#[derive(Debug)]
pub enum SendMessage {
    /// The descriptors are being identified, one after the other; `ids` are the
    /// identifiers of the first ones.
    Identifying { data: Vec<u8>, fds: Vec<i32>, ids: Vec<Identifier>, analysis: FdAnalysis },
    /// The message is being submitted.
    Submitting { len: usize, submit: Submit },
}

/// The mathematical value of a [`SendMessage`].
#[verifier::ext_equal]
pub enum Sending {
    Identifying { data: Seq<u8>, fds: Seq<i32>, ids: Seq<Identifier>, analysis: FdAnalysis },
    Submitting { len: usize, submit: Submit },
}

impl View for SendMessage {
    type V = Sending;

    open spec fn view(&self) -> Sending {
        match *self {
            SendMessage::Identifying { data, fds, ids, analysis } => Sending::Identifying {
                data: data@,
                fds: fds@,
                ids: ids@,
                analysis,
            },
            SendMessage::Submitting { len, submit } => Sending::Submitting { len, submit },
        }
    }
}

/// A message to the host with so many bytes of payload and these identifiers.
/// The slots without an identifier are zero.
pub open spec fn outgoing(len: int, ids: Seq<Identifier>) -> SendReceive {
    SendReceive {
        hdr: CrossDomainHeader::spec_of(CROSS_DOMAIN_CMD_SEND, (SEND_RECEIVE_SIZE + len) as u16),
        num_identifiers: ids.len() as u32,
        opaque_data_size: len as u32,
        identifiers: Seq::new(
            CROSS_DOMAIN_MAX_IDENTIFIERS as nat,
            |i: int|
                if i < ids.len() {
                    ids[i].id
                } else {
                    0
                },
        ),
        identifier_types: Seq::new(
            CROSS_DOMAIN_MAX_IDENTIFIERS as nat,
            |i: int|
                if i < ids.len() {
                    ids[i].id_type
                } else {
                    0
                },
        ),
        identifier_sizes: Seq::new(CROSS_DOMAIN_MAX_IDENTIFIERS as nat, |i: int| 0),
    }
}

/// The command buffer of a message.
pub open spec fn message_command(order: ByteOrder, data: Seq<u8>, ids: Seq<Identifier>) -> Seq<
    u8,
> {
    record(order, outgoing(data.len() as int, ids).fields()) + data
}

impl CrossDomainSendReceive {
    /// A message to the host with so many bytes of payload and these
    /// identifiers.
    pub fn outgoing(len: usize, ids: &Vec<Identifier>) -> (msg: CrossDomainSendReceive)
        requires
            len < PAYLOAD_LIMIT,
            ids@.len() <= CROSS_DOMAIN_MAX_IDENTIFIERS,
        ensures
            msg@ == outgoing(len as int, ids@),
            msg.hdr.cmd == 4,
            msg.hdr.fence_ctx_idx == 0,
            msg.hdr.cmd_size == 64 + len,
            msg.hdr.pad == 0,
            msg.num_identifiers == ids@.len(),
            msg.opaque_data_size == len,
            forall|i: int|
                0 <= i < ids@.len() ==> msg.identifiers[i] == (#[trigger] ids@[i]).id
                    && msg.identifier_types[i] == ids@[i].id_type,
    {
        let mut msg = CrossDomainSendReceive {
            hdr: CrossDomainHeader::of(CROSS_DOMAIN_CMD_SEND, SEND_RECEIVE_SIZE + len as u16),
            num_identifiers: ids.len() as u32,
            opaque_data_size: len as u32,
            identifiers: [0, 0, 0, 0],
            identifier_types: [0, 0, 0, 0],
            identifier_sizes: [0, 0, 0, 0],
        };
        let mut i: usize = 0;
        let ghost whole = outgoing(len as int, ids@);
        while i < ids.len()
            invariant
                i <= ids@.len() <= CROSS_DOMAIN_MAX_IDENTIFIERS,
                whole == outgoing(len as int, ids@),
                msg.hdr == whole.hdr,
                msg.num_identifiers == whole.num_identifiers,
                msg.opaque_data_size == whole.opaque_data_size,
                msg.identifier_sizes@ == whole.identifier_sizes,
                forall|j: int|
                    0 <= j < 4 ==> #[trigger] msg.identifiers@[j] == (if j < i {
                        ids@[j].id
                    } else {
                        0
                    }),
                forall|j: int|
                    0 <= j < 4 ==> #[trigger] msg.identifier_types@[j] == (if j < i {
                        ids@[j].id_type
                    } else {
                        0
                    }),
            decreases ids@.len() - i,
        {
            let id: Identifier = ids[i];
            msg.identifiers[i] = id.id;
            msg.identifier_types[i] = id.id_type;
            i = i + 1;
        }
        assert(msg@ =~= whole);
        msg
    }
}

impl Sending {
    /// The first step: a payload that is too long is refused before anything is
    /// asked for.
    pub open spec fn start(order: ByteOrder, data: Seq<u8>, fds: Seq<i32>) -> Step<
        Sending,
        usize,
        Seq<u8>,
    > {
        if data.len() < PAYLOAD_LIMIT {
            Self::next(order, data, fds, Seq::empty())
        } else {
            Step::Abort(Fault::PacketTooBig)
        }
    }

    /// What comes after the first descriptors have been identified: the next
    /// descriptor, if the message has a slot for it; after the last one, the
    /// submission.
    pub open spec fn next(
        order: ByteOrder,
        data: Seq<u8>,
        fds: Seq<i32>,
        ids: Seq<Identifier>,
    ) -> Step<Sending, usize, Seq<u8>> {
        if ids.len() >= fds.len() {
            Self::submitting(
                data.len() as usize,
                spec_submit_cmd(
                    message_command(order, data, ids),
                    CROSS_DOMAIN_RING_NONE,
                    0,
                    false,
                ),
            )
        } else if ids.len() >= CROSS_DOMAIN_MAX_IDENTIFIERS {
            Step::Abort(Fault::TooManyIdentifiers)
        } else {
            let (analysis, request) = FdAnalysis::spec_fd_analysis(fds[ids.len() as int]);
            Step::Ask(Sending::Identifying { data, fds, ids, analysis }, request)
        }
    }

    /// Goes on with the submission. The result is the length of the payload.
    pub open spec fn submitting(len: usize, step: Step<Submit, (), Seq<u8>>) -> Step<
        Sending,
        usize,
        Seq<u8>,
    > {
        match step {
            Step::Ask(submit, request) => Step::Ask(Sending::Submitting { len, submit }, request),
            Step::Finished(done) => Step::Finished(len),
            Step::Abort(fault) => Step::Abort(fault),
        }
    }

    /// Where a reply leads.
    pub open spec fn step(self, platform: Platform, reply: Reply) -> Step<
        Sending,
        usize,
        Seq<u8>,
    > {
        match self {
            Sending::Identifying { data, fds, ids, analysis } => match analysis.spec_step(reply) {
                Step::Ask(analysis, request) => Step::Ask(
                    Sending::Identifying { data, fds, ids, analysis },
                    request,
                ),
                Step::Finished(id) => Self::next(platform.byte_order, data, fds, ids.push(id)),
                Step::Abort(fault) => Step::Abort(fault),
            },
            Sending::Submitting { len, submit } => Self::submitting(
                len,
                submit.spec_step(platform, reply),
            ),
        }
    }

    /// All steps on one platform.
    pub open spec fn steps(platform: Platform) -> spec_fn(Sending, Reply) -> Step<
        Sending,
        usize,
        Seq<u8>,
    > {
        |s: Sending, r: Reply| s.step(platform, r)
    }

    /// What holds of every message under way: its payload is short enough, and
    /// a slot is left for the identifier that is being looked for.
    pub open spec fn wf(self) -> bool {
        self matches Sending::Identifying { data, fds, ids, analysis } ==> {
            &&& data.len() < PAYLOAD_LIMIT
            &&& ids.len() < fds.len()
            &&& ids.len() < CROSS_DOMAIN_MAX_IDENTIFIERS
        }
    }
}

impl SendMessage {
    fn next(
        order: ByteOrder,
        data: Vec<u8>,
        fds: Vec<i32>,
        ids: Vec<Identifier>,
    ) -> (step: Step<SendMessage, usize, Vec<u8>>)
        requires
            data@.len() < PAYLOAD_LIMIT,
            ids@.len() <= fds@.len(),
            ids@.len() <= CROSS_DOMAIN_MAX_IDENTIFIERS,
        ensures
            step@ == Sending::next(order, data@, fds@, ids@),
            step matches Step::Ask(state, request) ==> state@.wf(),
    {
        if ids.len() >= fds.len() {
            let len: usize = data.len();
            let cmd = CrossDomainSendReceive::outgoing(len, &ids);
            Self::submitting(
                len,
                submit_cmd(order, &cmd, &data, CROSS_DOMAIN_RING_NONE, 0, false),
            )
        } else if ids.len() >= CROSS_DOMAIN_MAX_IDENTIFIERS {
            Step::Abort(Fault::TooManyIdentifiers)
        } else {
            let (analysis, request) = FdAnalysis::fd_analysis(fds[ids.len()]);
            Step::Ask(SendMessage::Identifying { data, fds, ids, analysis }, request)
        }
    }

    fn submitting(len: usize, step: Step<Submit, (), Vec<u8>>) -> (next: Step<
        SendMessage,
        usize,
        Vec<u8>,
    >)
        ensures
            next@ == Sending::submitting(len, step@),
            next matches Step::Ask(state, request) ==> state@.wf(),
    {
        match step {
            Step::Ask(submit, request) => Step::Ask(
                SendMessage::Submitting { len, submit },
                request,
            ),
            Step::Finished(_) => Step::Finished(len),
            Step::Abort(fault) => Step::Abort(fault),
        }
    }

    /// Goes on with a reply.
    pub fn step(self, platform: &Platform, reply: Reply) -> (step: Step<
        SendMessage,
        usize,
        Vec<u8>,
    >)
        requires
            self@.wf(),
        ensures
            step@ == self@.step(*platform, reply),
            step matches Step::Ask(state, request) ==> state@.wf(),
    {
        match self {
            SendMessage::Identifying { data, fds, mut ids, analysis } => match analysis.step(
                reply,
            ) {
                Step::Ask(analysis, request) => Step::Ask(
                    SendMessage::Identifying { data, fds, ids, analysis },
                    request,
                ),
                Step::Finished(id) => {
                    ids.push(id);
                    Self::next(platform.byte_order, data, fds, ids)
                },
                Step::Abort(fault) => Step::Abort(fault),
            },
            SendMessage::Submitting { len, submit } => Self::submitting(
                len,
                submit.step(platform, reply),
            ),
        }
    }
}

impl VirtgpuChannel {
    /// Sends the bytes of the buffers, in order, and the descriptors to the
    /// host. The result is how many bytes there were.
    pub fn send(&self, iov: &Vec<Vec<u8>>, fds: Vec<i32>) -> (step: Step<
        SendMessage,
        usize,
        Vec<u8>,
    >)
        ensures
            step@ == Sending::start(self.platform.byte_order, joined(contents(iov@)), fds@),
            step matches Step::Ask(state, request) ==> state@.wf(),
    {
        match gathered_len(iov, DEFAULT_BUFFER_SIZE - SEND_RECEIVE_SIZE as usize) {
            Some(_) => {
                let data: Vec<u8> = gather(iov);
                SendMessage::next(self.platform.byte_order, data, fds, Vec::new())
            },
            None => Step::Abort(Fault::PacketTooBig),
        }
    }
}

/// The identifiers of descriptors that stand for these resources.
pub open spec fn blob_ids(resources: Seq<u32>) -> Seq<Identifier> {
    resources.map_values(
        |resource: u32| Identifier { id: resource, id_type: CROSS_DOMAIN_ID_TYPE_VIRTGPU_BLOB },
    )
}

/// The replies of a card that knows the descriptors from the `n`th on, by their
/// memory objects and their resources.
pub open spec fn identify_replies(handles: Seq<u32>, resources: Seq<u32>, n: int) -> Seq<Reply>
    decreases handles.len() - n,
{
    if n >= handles.len() {
        Seq::empty()
    } else {
        seq![Reply::Handle(handles[n]), Reply::Resource(resources[n])] + identify_replies(
            handles,
            resources,
            n + 1,
        )
    }
}

/// What is asked for to identify the descriptors from the `n`th on.
pub open spec fn identify_script(fds: Seq<i32>, handles: Seq<u32>, n: int) -> Seq<Request<Seq<u8>>>
    decreases handles.len() - n,
{
    if n >= handles.len() {
        Seq::empty()
    } else {
        seq![
            Request::PrimeFdToHandle { fd: fds[n] },
            Request::ResourceInfo { bo_handle: handles[n] },
        ] + identify_script(fds, handles, n + 1)
    }
}

/// One descriptor is identified.
proof fn lemma_descriptor_is_identified(
    platform: Platform,
    data: Seq<u8>,
    fds: Seq<i32>,
    ids: Seq<Identifier>,
    handle: u32,
    resource: u32,
    rest: Seq<Reply>,
)
    requires
        ids.len() < fds.len(),
        ids.len() < CROSS_DOMAIN_MAX_IDENTIFIERS,
    ensures
        ({
            let id = Identifier { id: resource, id_type: CROSS_DOMAIN_ID_TYPE_VIRTGPU_BLOB };
            let t = run(
                Sending::steps(platform),
                Sending::next(platform.byte_order, data, fds, ids),
                seq![Reply::Handle(handle), Reply::Resource(resource)] + rest,
            );
            let after = run(
                Sending::steps(platform),
                Sending::next(platform.byte_order, data, fds, ids.push(id)),
                rest,
            );
            &&& t.asked == seq![
                Request::PrimeFdToHandle { fd: fds[ids.len() as int] },
                Request::ResourceInfo { bo_handle: handle },
            ] + after.asked
            &&& t.end == after.end
        }),
{
    let steps = Sending::steps(platform);
    let (looking, object) = FdAnalysis::spec_fd_analysis(fds[ids.len() as int]);
    let (asking, info) = match looking.spec_step(Reply::Handle(handle)) {
        Step::Ask(analysis, request) => (analysis, request),
        _ => (looking, object),
    };
    let id = Identifier { id: resource, id_type: CROSS_DOMAIN_ID_TYPE_VIRTGPU_BLOB };
    let next = Sending::next(platform.byte_order, data, fds, ids.push(id));
    let later = seq![Reply::Resource(resource)] + rest;
    let after = run(steps, next, rest);
    lemma_run_on(
        steps,
        (Sending::Identifying { data, fds, ids, analysis: asking }, info),
        Reply::Resource(resource),
        next,
        rest,
    );
    lemma_run_on(
        steps,
        (Sending::Identifying { data, fds, ids, analysis: looking }, object),
        Reply::Handle(handle),
        Step::Ask(Sending::Identifying { data, fds, ids, analysis: asking }, info),
        later,
    );
    assert(seq![Reply::Handle(handle), Reply::Resource(resource)] + rest =~= seq![
        Reply::Handle(handle),
    ] + later);
    assert(seq![object] + (seq![info] + after.asked) =~= seq![object, info] + after.asked);
}

/// The descriptors from the `n`th on are identified, one after the other.
proof fn lemma_descriptors_are_identified(
    platform: Platform,
    data: Seq<u8>,
    fds: Seq<i32>,
    handles: Seq<u32>,
    resources: Seq<u32>,
    n: int,
    rest: Seq<Reply>,
)
    requires
        handles.len() == resources.len() <= fds.len(),
        handles.len() <= CROSS_DOMAIN_MAX_IDENTIFIERS,
        0 <= n <= handles.len(),
    ensures
        ({
            let t = run(
                Sending::steps(platform),
                Sending::next(platform.byte_order, data, fds, blob_ids(resources.take(n))),
                identify_replies(handles, resources, n) + rest,
            );
            let after = run(
                Sending::steps(platform),
                Sending::next(platform.byte_order, data, fds, blob_ids(resources)),
                rest,
            );
            &&& t.asked == identify_script(fds, handles, n) + after.asked
            &&& t.end == after.end
        }),
    decreases handles.len() - n,
{
    let after = run(
        Sending::steps(platform),
        Sending::next(platform.byte_order, data, fds, blob_ids(resources)),
        rest,
    );
    if n == handles.len() {
        let none: Seq<Reply> = Seq::empty();
        assert(resources.take(n) =~= resources);
        assert(none + rest =~= rest);
        assert(Seq::empty() + after.asked =~= after.asked);
    } else {
        let replies = seq![Reply::Handle(handles[n]), Reply::Resource(resources[n])];
        let later = identify_replies(handles, resources, n + 1);
        let script = seq![
            Request::PrimeFdToHandle { fd: fds[n] },
            Request::ResourceInfo { bo_handle: handles[n] },
        ];
        let later_script = identify_script(fds, handles, n + 1);
        let ids = blob_ids(resources.take(n));
        lemma_descriptor_is_identified(
            platform,
            data,
            fds,
            ids,
            handles[n],
            resources[n],
            later + rest,
        );
        lemma_descriptors_are_identified(platform, data, fds, handles, resources, n + 1, rest);
        assert(blob_ids(resources.take(n + 1)) =~= ids.push(
            Identifier { id: resources[n], id_type: CROSS_DOMAIN_ID_TYPE_VIRTGPU_BLOB },
        ));
        lemma_concat_associative(replies, later, rest);
        lemma_concat_associative(script, later_script, after.asked);
    }
}

/// A message whose descriptors have all been identified is submitted.
proof fn lemma_message_is_submitted(
    platform: Platform,
    data: Seq<u8>,
    fds: Seq<i32>,
    ids: Seq<Identifier>,
)
    requires
        ids.len() == fds.len(),
    ensures
        ({
            let t = run(
                Sending::steps(platform),
                Sending::next(platform.byte_order, data, fds, ids),
                seq![Reply::Done],
            );
            &&& t.asked == seq![
                exec_request(
                    message_command(platform.byte_order, data, ids),
                    CROSS_DOMAIN_RING_NONE,
                    0,
                ),
            ]
            &&& t.end == Step::<Sending, usize, Seq<u8>>::Finished(data.len() as usize)
        }),
{
    let submission = exec_request(
        message_command(platform.byte_order, data, ids),
        CROSS_DOMAIN_RING_NONE,
        0,
    );
    let len = data.len() as usize;
    let submit = Submit::Executing { wait: false, handle: 0 };
    let none: Seq<Reply> = Seq::empty();
    lemma_run_on(
        Sending::steps(platform),
        (Sending::Submitting { len, submit }, submission),
        Reply::Done,
        Step::Finished(len),
        none,
    );
    assert(seq![Reply::Done] + none =~= seq![Reply::Done]);
    assert(seq![submission] + Seq::empty() =~= seq![submission]);
}

/// A message is sent by identifying its descriptors in order, each by the
/// resource of its own memory object, and then submitting once the message with
/// all the identifiers and the whole payload. The result is the length of the
/// payload.
pub proof fn law_message_is_submitted_once(
    platform: Platform,
    data: Seq<u8>,
    fds: Seq<i32>,
    handles: Seq<u32>,
    resources: Seq<u32>,
)
    requires
        data.len() < PAYLOAD_LIMIT,
        fds.len() == handles.len() == resources.len(),
        fds.len() <= CROSS_DOMAIN_MAX_IDENTIFIERS,
    ensures
        ({
            let t = run(
                Sending::steps(platform),
                Sending::start(platform.byte_order, data, fds),
                identify_replies(handles, resources, 0).push(Reply::Done),
            );
            &&& t.asked == identify_script(fds, handles, 0).push(
                exec_request(
                    message_command(platform.byte_order, data, blob_ids(resources)),
                    CROSS_DOMAIN_RING_NONE,
                    0,
                ),
            )
            &&& t.end == Step::<Sending, usize, Seq<u8>>::Finished(data.len() as usize)
        }),
{
    assert(blob_ids(resources.take(0)) =~= Seq::empty());
    let done = seq![Reply::Done];
    let replies = identify_replies(handles, resources, 0);
    let script = identify_script(fds, handles, 0);
    let submission = exec_request(
        message_command(platform.byte_order, data, blob_ids(resources)),
        CROSS_DOMAIN_RING_NONE,
        0,
    );
    lemma_descriptors_are_identified(platform, data, fds, handles, resources, 0, done);
    lemma_message_is_submitted(platform, data, fds, blob_ids(resources));
    assert(replies.push(Reply::Done) =~= replies + done);
    assert(script.push(submission) =~= script + seq![submission]);
}

/// A message with more descriptors than it has slots for is never submitted: as
/// many are identified as there are slots, and then it is given up.
pub proof fn law_too_many_descriptors_are_never_submitted(
    platform: Platform,
    data: Seq<u8>,
    fds: Seq<i32>,
    handles: Seq<u32>,
    resources: Seq<u32>,
)
    requires
        data.len() < PAYLOAD_LIMIT,
        fds.len() > CROSS_DOMAIN_MAX_IDENTIFIERS,
        handles.len() == resources.len() == CROSS_DOMAIN_MAX_IDENTIFIERS,
    ensures
        ({
            let t = run(
                Sending::steps(platform),
                Sending::start(platform.byte_order, data, fds),
                identify_replies(handles, resources, 0),
            );
            &&& t.asked == identify_script(fds, handles, 0)
            &&& t.end == Step::<Sending, usize, Seq<u8>>::Abort(Fault::TooManyIdentifiers)
        }),
{
    assert(blob_ids(resources.take(0)) =~= Seq::empty());
    let replies = identify_replies(handles, resources, 0);
    let script = identify_script(fds, handles, 0);
    let none: Seq<Reply> = Seq::empty();
    lemma_descriptors_are_identified(platform, data, fds, handles, resources, 0, none);
    assert(replies + none =~= replies);
    assert(script + Seq::empty() =~= script);
}

/// A request that submits the payload with an identifier for each descriptor.
pub open spec fn submits_all(
    order: ByteOrder,
    request: Request<Seq<u8>>,
    data: Seq<u8>,
    fds: Seq<i32>,
) -> bool {
    exists|ids: Seq<Identifier>|
        ids.len() == fds.len() && request == exec_request(
            #[trigger] message_command(order, data, ids),
            CROSS_DOMAIN_RING_NONE,
            0,
        )
}

/// A message that is submitted, if at all, when all its descriptors have been
/// identified.
pub open spec fn submits_last(
    order: ByteOrder,
    step: Step<Sending, usize, Seq<u8>>,
    data: Seq<u8>,
    fds: Seq<i32>,
) -> bool {
    step matches Step::Ask(state, request) ==> match state {
        Sending::Identifying { data: d, fds: f, ids, analysis } => !(request is ExecBuffer) && d
            == data && f == fds && ids.len() < fds.len(),
        Sending::Submitting { len, submit } => submits_all(order, request, data, fds) && submit == (
        Submit::Executing { wait: false, handle: 0 }),
    }
}

proof fn lemma_submits_last(
    platform: Platform,
    data: Seq<u8>,
    fds: Seq<i32>,
    now: Step<Sending, usize, Seq<u8>>,
    replies: Seq<Reply>,
)
    requires
        submits_last(platform.byte_order, now, data, fds),
    ensures
        ({
            let asked = run(Sending::steps(platform), now, replies).asked;
            forall|i: int|
                0 <= i < asked.len() && (#[trigger] asked[i]) is ExecBuffer ==> submits_all(
                    platform.byte_order,
                    asked[i],
                    data,
                    fds,
                ) && i == asked.len() - 1
        }),
    decreases replies.len(),
{
    match now {
        Step::Ask(state, request) => if replies.len() > 0 {
            let next = state.step(platform, replies[0]);
            let rest = run(Sending::steps(platform), next, replies.skip(1)).asked;
            let asked = run(Sending::steps(platform), now, replies).asked;
            lemma_submits_last(platform, data, fds, next, replies.skip(1));
            assert forall|i: int| 0 <= i < asked.len() && (
            #[trigger] asked[i]) is ExecBuffer implies submits_all(
                platform.byte_order,
                asked[i],
                data,
                fds,
            ) && i == asked.len() - 1 by {
                if i > 0 {
                    assert(asked[i] == rest[i - 1]);
                }
            }
        },
        _ => {},
    }
}

/// Whatever the card replies, a message is submitted at most once, with its
/// whole payload and an identifier for each of its descriptors, and nothing is
/// asked for after that.
pub proof fn law_message_is_submitted_whole_or_not_at_all(
    platform: Platform,
    data: Seq<u8>,
    fds: Seq<i32>,
    replies: Seq<Reply>,
)
    ensures
        ({
            let asked = run(
                Sending::steps(platform),
                Sending::start(platform.byte_order, data, fds),
                replies,
            ).asked;
            forall|i: int|
                0 <= i < asked.len() && (#[trigger] asked[i]) is ExecBuffer ==> submits_all(
                    platform.byte_order,
                    asked[i],
                    data,
                    fds,
                ) && i == asked.len() - 1
        }),
{
    let start = Sending::start(platform.byte_order, data, fds);
    lemma_submits_last(platform, data, fds, start, replies);
}

/// The host reads a message as it was sent: the same identifiers in the same
/// order, the length of the payload, and behind the message the payload. The
/// size that the message declares is the size of the command buffer, which is
/// less than a page.
pub proof fn law_host_reads_what_was_sent(
    order: ByteOrder,
    data: Seq<u8>,
    ids: Seq<Identifier>,
)
    requires
        data.len() < PAYLOAD_LIMIT,
        ids.len() <= CROSS_DOMAIN_MAX_IDENTIFIERS,
    ensures
        ({
            let command = message_command(order, data, ids);
            let read = SendReceive::read(order, command);
            &&& read == outgoing(data.len() as int, ids)
            &&& read.num_identifiers == ids.len()
            &&& read.opaque_data_size == data.len()
            &&& forall|i: int|
                0 <= i < ids.len() ==> read.identifiers[i] == (#[trigger] ids[i]).id
                    && read.identifier_types[i] == ids[i].id_type
            &&& command.skip(SEND_RECEIVE_SIZE as int) == data
            &&& read.hdr.cmd_size == command.len()
            &&& command.len() < DEFAULT_BUFFER_SIZE
        }),
{
    let msg = outgoing(data.len() as int, ids);
    law_message_roundtrip(order, msg, data);
    assert(message_command(order, data, ids).skip(SEND_RECEIVE_SIZE as int) =~= data);
}

/// A payload that does not fit is refused before anything is asked for, and
/// every payload that fits is taken.
pub proof fn law_only_long_payloads_are_refused(order: ByteOrder, data: Seq<u8>, fds: Seq<i32>)
    ensures
        Sending::start(order, data, fds) is Abort <==> data.len() + SEND_RECEIVE_SIZE
            >= DEFAULT_BUFFER_SIZE,
        data.len() + SEND_RECEIVE_SIZE >= DEFAULT_BUFFER_SIZE ==> Sending::start(order, data, fds)
            == Step::<Sending, usize, Seq<u8>>::Abort(Fault::PacketTooBig),
{
}

} // verus!
