//! Asking the host how it lays out an image.
use vstd::prelude::*;

use crate::blob::{host_blob_replies, host_blob_script, HostBlob};
use crate::bytes::ByteOrder;
use crate::cache::ImageKey;
use crate::channel::{Channel, VirtgpuChannel};
use crate::protocol::{
    CrossDomainCmd, CrossDomainGetImageRequirements, CrossDomainImageRequirements,
    ImageRequirements, CROSS_DOMAIN_QUERY_RING,
};
use crate::request::{
    asking, fault, left_behind, lemma_run_on, lemma_run_on_thrice, over, run, spec_fault, Fault,
    Over, Reply, Request, Step, PAGE_SIZE,
};
use crate::submit::{
    all_cut_short, exec_request, lemma_cut_short_skip, spec_submit_cmd, submit_cmd, Submit,
};

verus! {

/// How many planes an image has at most.
pub const MAX_PLANES: usize = 4;

/// Offset, stride and modifier of a plane.
pub type Plane = (u32, u32, u64);

/// A query under way.
#[derive(Clone, Copy, Debug)]
pub enum FixMetadata {
    /// The query is being submitted.
    Querying { key: ImageKey, plane_idx: usize, submit: Submit },
    /// The answer is being read from the query ring.
    Reading { key: ImageKey, plane_idx: usize },
    /// The image that the host made for the answer is being taken over.
    Allocating { plane: Option<Plane>, blob: HostBlob },
}

impl View for FixMetadata {
    type V = FixMetadata;

    open spec fn view(&self) -> FixMetadata {
        *self
    }
}

/// A plane of an answer, if the image can have such a plane.
pub open spec fn spec_pick(reqs: ImageRequirements, plane_idx: usize) -> Option<Plane> {
    if plane_idx < MAX_PLANES {
        Some(reqs.plane(plane_idx as int))
    } else {
        None
    }
}

/// A plane of an answer, if the image can have such a plane.
pub fn pick(reqs: &CrossDomainImageRequirements, plane_idx: usize) -> (plane: Option<Plane>)
    ensures
        plane == spec_pick(reqs@, plane_idx),
        plane is Some <==> plane_idx < 4,
        plane matches Some(p) ==> p.0 == reqs.offsets[plane_idx as int] && p.1
            == reqs.strides[plane_idx as int] && p.2 == reqs.modifier,
{
    if plane_idx < MAX_PLANES {
        Some(reqs.plane(plane_idx))
    } else {
        None
    }
}

/// The result of a query for a plane: the plane, or the fault that there is
/// none.
pub open spec fn spec_conclude(plane: Option<Plane>) -> Step<FixMetadata, Option<Plane>, Seq<u8>> {
    match plane {
        Some(p) => Step::Finished(Some(p)),
        None => Step::Abort(Fault::NoSuchPlane),
    }
}

fn conclude(plane: Option<Plane>) -> (step: Step<FixMetadata, Option<Plane>, Vec<u8>>)
    ensures
        step@ == spec_conclude(plane),
{
    match plane {
        Some(p) => Step::Finished(Some(p)),
        None => Step::Abort(Fault::NoSuchPlane),
    }
}

/// The query for an image.
pub open spec fn query_command(order: ByteOrder, key: ImageKey) -> Seq<u8> {
    CrossDomainGetImageRequirements::spec_texture(key.0, key.1, key.2).wire(order)
}

impl Channel {
    /// The channel with one more answer.
    pub open spec fn with_answer(self, key: ImageKey, reqs: ImageRequirements) -> Channel {
        Channel { image_query_cache: self.image_query_cache.insert(key, reqs), ..self }
    }
}

impl FixMetadata {
    /// The first step: an answer that is known is not asked for again.
    pub open spec fn spec_start(channel: Channel, plane_idx: usize, key: ImageKey) -> Step<
        FixMetadata,
        Option<Plane>,
        Seq<u8>,
    > {
        if channel.image_query_cache.contains_key(key) {
            spec_conclude(spec_pick(channel.image_query_cache[key], plane_idx))
        } else {
            Self::spec_query(
                channel,
                key,
                plane_idx,
                spec_submit_cmd(
                    query_command(channel.order(), key),
                    CROSS_DOMAIN_QUERY_RING,
                    channel.query_ring_handle,
                    true,
                ),
            )
        }
    }

    /// Goes on with the submission; when it has ended, the query ring is read, if
    /// there is one.
    pub open spec fn spec_query(
        channel: Channel,
        key: ImageKey,
        plane_idx: usize,
        step: Step<Submit, (), Seq<u8>>,
    ) -> Step<FixMetadata, Option<Plane>, Seq<u8>> {
        match step {
            Step::Ask(submit, request) => Step::Ask(
                FixMetadata::Querying { key, plane_idx, submit },
                request,
            ),
            Step::Finished(done) => if channel.query_ring_addr == 0 {
                Step::Abort(Fault::RingNotMapped)
            } else {
                Step::Ask(
                    FixMetadata::Reading { key, plane_idx },
                    Request::ReadRing { addr: channel.query_ring_addr, len: PAGE_SIZE },
                )
            },
            Step::Abort(fault) => Step::Abort(fault),
        }
    }

    /// Goes on with the image.
    pub open spec fn spec_allocate(
        plane: Option<Plane>,
        step: Step<HostBlob, i32, Seq<u8>>,
    ) -> Step<FixMetadata, Option<Plane>, Seq<u8>> {
        match step {
            Step::Ask(blob, request) => Step::Ask(FixMetadata::Allocating { plane, blob }, request),
            Step::Finished(fd) => spec_conclude(plane),
            Step::Abort(fault) => Step::Abort(fault),
        }
    }

    /// Where a reply leads, and what becomes of the channel: an answer is kept
    /// as soon as it was read.
    pub open spec fn spec_step(self, channel: Channel, reply: Reply) -> (
        Channel,
        Step<FixMetadata, Option<Plane>, Seq<u8>>,
    ) {
        match self {
            FixMetadata::Querying { key, plane_idx, submit } => (
                channel,
                Self::spec_query(
                    channel,
                    key,
                    plane_idx,
                    submit.spec_step(channel.platform, reply),
                ),
            ),
            FixMetadata::Reading { key, plane_idx } => match reply {
                Reply::Bytes(page) => if page@.len() == PAGE_SIZE {
                    let reqs = ImageRequirements::read(channel.order(), page@);
                    (
                        channel.with_answer(key, reqs),
                        Self::spec_allocate(
                            spec_pick(reqs, plane_idx),
                            asking(HostBlob::spec_create_host_blob(reqs.blob_id, reqs.size)),
                        ),
                    )
                } else {
                    (channel, Step::Abort(Fault::UnexpectedReply))
                },
                _ => (channel, Step::Abort(spec_fault(reply))),
            },
            FixMetadata::Allocating { plane, blob } => (
                channel,
                Self::spec_allocate(plane, blob.spec_step(channel.platform, reply)),
            ),
        }
    }

    /// All steps, together with what becomes of the channel.
    pub open spec fn steps() -> spec_fn((Channel, FixMetadata), Reply) -> Over<
        Channel,
        FixMetadata,
        Option<Plane>,
    > {
        |s: (Channel, FixMetadata), r: Reply| over(s.1.spec_step(s.0, r))
    }

    fn query(
        channel: &VirtgpuChannel,
        key: ImageKey,
        plane_idx: usize,
        step: Step<Submit, (), Vec<u8>>,
    ) -> (next: Step<FixMetadata, Option<Plane>, Vec<u8>>)
        ensures
            next@ == Self::spec_query(channel@, key, plane_idx, step@),
    {
        match step {
            Step::Ask(submit, request) => Step::Ask(
                FixMetadata::Querying { key, plane_idx, submit },
                request,
            ),
            Step::Finished(_) => if channel.query_ring_addr == 0 {
                Step::Abort(Fault::RingNotMapped)
            } else {
                Step::Ask(
                    FixMetadata::Reading { key, plane_idx },
                    Request::ReadRing { addr: channel.query_ring_addr, len: PAGE_SIZE },
                )
            },
            Step::Abort(fault) => Step::Abort(fault),
        }
    }

    fn allocate(plane: Option<Plane>, step: Step<HostBlob, i32, Vec<u8>>) -> (next: Step<
        FixMetadata,
        Option<Plane>,
        Vec<u8>,
    >)
        ensures
            next@ == Self::spec_allocate(plane, step@),
    {
        match step {
            Step::Ask(blob, request) => Step::Ask(FixMetadata::Allocating { plane, blob }, request),
            Step::Finished(_) => conclude(plane),
            Step::Abort(fault) => Step::Abort(fault),
        }
    }

    /// Goes on with a reply.
    pub fn step(self, channel: &mut VirtgpuChannel, reply: Reply) -> (step: Step<
        FixMetadata,
        Option<Plane>,
        Vec<u8>,
    >)
        ensures
            (final(channel)@, step@) == self.spec_step(old(channel)@, reply),
    {
        match self {
            FixMetadata::Querying { key, plane_idx, submit } => {
                let step = submit.step(&channel.platform, reply);
                Self::query(channel, key, plane_idx, step)
            },
            FixMetadata::Reading { key, plane_idx } => match reply {
                Reply::Bytes(page) => if page.len() == PAGE_SIZE {
                    let order: ByteOrder = channel.platform.byte_order;
                    let reqs = CrossDomainImageRequirements::read(order, &page);
                    channel.image_query_cache.insert(key, reqs);
                    // The host has made an image for the answer and waits for it
                    // to be taken over; its descriptor is of no further use.
                    let (blob, request) = HostBlob::create_host_blob(reqs.blob_id, reqs.size);
                    let plane: Option<Plane> = pick(&reqs, plane_idx);
                    Step::Ask(FixMetadata::Allocating { plane, blob }, request)
                } else {
                    Step::Abort(Fault::UnexpectedReply)
                },
                other => Step::Abort(fault(other)),
            },
            FixMetadata::Allocating { plane, blob } => Self::allocate(
                plane,
                blob.step(&channel.platform, reply),
            ),
        }
    }
}

impl VirtgpuChannel {
    /// Offset, stride and modifier that the host uses for a plane of an image.
    /// The host is asked once for each width, height and format.
    pub fn fix_metadata(&self, plane_idx: usize, width: u32, height: u32, format: u32) -> (step:
        Step<FixMetadata, Option<Plane>, Vec<u8>>)
        ensures
            step@ == FixMetadata::spec_start(self@, plane_idx, (width, height, format)),
    {
        let key: ImageKey = (width, height, format);
        match self.image_query_cache.get(key) {
            Some(reqs) => conclude(pick(&reqs, plane_idx)),
            None => {
                let cmd = CrossDomainGetImageRequirements::texture(width, height, format);
                let nothing: Vec<u8> = Vec::new();
                let order: ByteOrder = self.platform.byte_order;
                assert(cmd.wire(order) + nothing@ =~= cmd.wire(order));
                FixMetadata::query(
                    self,
                    key,
                    plane_idx,
                    submit_cmd(
                        order,
                        &cmd,
                        &nothing,
                        CROSS_DOMAIN_QUERY_RING,
                        self.query_ring_handle,
                        true,
                    ),
                )
            },
        }
    }
}

/// What is known of an image is given without asking for anything, and the
/// same whenever it is asked for.
pub proof fn law_known_image_is_not_asked_for(channel: Channel, plane_idx: usize, key: ImageKey)
    requires
        channel.image_query_cache.contains_key(key),
    ensures
        ({
            let reqs = channel.image_query_cache[key];
            let t = run(
                FixMetadata::steps(),
                over((channel, FixMetadata::spec_start(channel, plane_idx, key))),
                Seq::empty(),
            );
            &&& t.asked == Seq::<Request<Seq<u8>>>::empty()
            &&& t.end == over((channel, spec_conclude(spec_pick(reqs, plane_idx))))
            &&& plane_idx < MAX_PLANES ==> t.end == Over::<
                Channel,
                FixMetadata,
                Option<Plane>,
            >::Finished((channel, Some(reqs.plane(plane_idx as int))))
        }),
{
}

/// The replies of a card that carries a query out: some waits that were cut
/// short, one that was not, the query ring, and the image.
pub open spec fn query_replies(
    waits: Seq<Reply>,
    status: i32,
    page: Vec<u8>,
    image: (u32, u32, i32),
) -> Seq<Reply> {
    waits + seq![Reply::Status(status), Reply::Bytes(page)] + host_blob_replies(
        image.0,
        image.1,
        image.2,
    )
}

/// What is asked for once the query has been handed over.
pub open spec fn query_script(
    channel: Channel,
    waits: nat,
    reqs: ImageRequirements,
    handle: u32,
) -> Seq<Request<Seq<u8>>> {
    Seq::new(waits + 1, |i: int| Request::<Seq<u8>>::Wait { handle: channel.query_ring_handle })
        + seq![Request::ReadRing { addr: channel.query_ring_addr, len: PAGE_SIZE }]
        + host_blob_script(channel.platform, reqs.blob_id, reqs.size, handle)
}

/// The image that the host made for an answer is taken over.
proof fn lemma_image_is_taken_over(
    channel: Channel,
    plane: Option<Plane>,
    reqs: ImageRequirements,
    image: (u32, u32, i32),
)
    ensures
        ({
            let t = run(
                FixMetadata::steps(),
                over(
                    (
                        channel,
                        FixMetadata::spec_allocate(
                            plane,
                            asking(HostBlob::spec_create_host_blob(reqs.blob_id, reqs.size)),
                        ),
                    ),
                ),
                host_blob_replies(image.0, image.1, image.2),
            );
            &&& t.asked == host_blob_script(channel.platform, reqs.blob_id, reqs.size, image.0)
            &&& t.end == over((channel, spec_conclude(plane)))
        }),
{
    let script = host_blob_script(channel.platform, reqs.blob_id, reqs.size, image.0);
    let creating = FixMetadata::Allocating { plane, blob: HostBlob::Creating };
    let exporting = FixMetadata::Allocating {
        plane,
        blob: HostBlob::Exporting { handle: image.0 },
    };
    let closing = FixMetadata::Allocating { plane, blob: HostBlob::Closing { fd: image.2 } };
    lemma_run_on_thrice(
        FixMetadata::steps(),
        ((channel, creating), script[0]),
        ((channel, exporting), script[1]),
        ((channel, closing), script[2]),
        (
            Reply::Blob { bo_handle: image.0, res_handle: image.1 },
            Reply::Fd(image.2),
            Reply::Done,
        ),
        over((channel, spec_conclude(plane))),
        Seq::empty(),
    );
    assert(host_blob_replies(image.0, image.1, image.2) + Seq::empty() =~= host_blob_replies(
        image.0,
        image.1,
        image.2,
    ));
    assert(script + Seq::empty() =~= script);
}

/// The query ring is read, and its answer kept.
proof fn lemma_answer_is_kept(
    channel: Channel,
    plane_idx: usize,
    key: ImageKey,
    page: Vec<u8>,
    image: (u32, u32, i32),
)
    requires
        page@.len() == PAGE_SIZE,
    ensures
        ({
            let reqs = ImageRequirements::read(channel.order(), page@);
            let ring = Request::ReadRing { addr: channel.query_ring_addr, len: PAGE_SIZE };
            let t = run(
                FixMetadata::steps(),
                Step::Ask((channel, FixMetadata::Reading { key, plane_idx }), ring),
                seq![Reply::Bytes(page)] + host_blob_replies(image.0, image.1, image.2),
            );
            &&& t.asked == seq![ring] + host_blob_script(
                channel.platform,
                reqs.blob_id,
                reqs.size,
                image.0,
            )
            &&& t.end == over(
                (channel.with_answer(key, reqs), spec_conclude(spec_pick(reqs, plane_idx))),
            )
        }),
{
    let reqs = ImageRequirements::read(channel.order(), page@);
    let ring = Request::ReadRing { addr: channel.query_ring_addr, len: PAGE_SIZE };
    let after = channel.with_answer(key, reqs);
    let plane = spec_pick(reqs, plane_idx);
    lemma_image_is_taken_over(after, plane, reqs, image);
    lemma_run_on(
        FixMetadata::steps(),
        ((channel, FixMetadata::Reading { key, plane_idx }), ring),
        Reply::Bytes(page),
        over(
            (
                after,
                FixMetadata::spec_allocate(
                    plane,
                    asking(HostBlob::spec_create_host_blob(reqs.blob_id, reqs.size)),
                ),
            ),
        ),
        host_blob_replies(image.0, image.1, image.2),
    );
}

/// A query that has been handed over is waited for.
#[verifier::spinoff_prover]
proof fn lemma_query_after_submission(
    channel: Channel,
    plane_idx: usize,
    key: ImageKey,
    waits: Seq<Reply>,
    status: i32,
    page: Vec<u8>,
    image: (u32, u32, i32),
)
    requires
        channel.query_ring_addr != 0,
        all_cut_short(channel.platform, waits),
        !channel.platform.spec_waits(status),
        page@.len() == PAGE_SIZE,
    ensures
        ({
            let reqs = ImageRequirements::read(channel.order(), page@);
            let handle = channel.query_ring_handle;
            let submit = Submit::Waiting { handle };
            let t = run(
                FixMetadata::steps(),
                Step::Ask(
                    (channel, FixMetadata::Querying { key, plane_idx, submit }),
                    Request::Wait { handle },
                ),
                query_replies(waits, status, page, image),
            );
            &&& t.asked == query_script(channel, waits.len(), reqs, image.0)
            &&& t.end == over(
                (channel.with_answer(key, reqs), spec_conclude(spec_pick(reqs, plane_idx))),
            )
        }),
    decreases waits.len(),
{
    let reqs = ImageRequirements::read(channel.order(), page@);
    let handle = channel.query_ring_handle;
    let wait = Request::<Seq<u8>>::Wait { handle };
    let ring = Request::<Seq<u8>>::ReadRing { addr: channel.query_ring_addr, len: PAGE_SIZE };
    let script = host_blob_script(channel.platform, reqs.blob_id, reqs.size, image.0);
    let querying = (
        channel,
        FixMetadata::Querying { key, plane_idx, submit: Submit::Waiting { handle } },
    );
    let replies = query_replies(waits, status, page, image);
    let whole = query_script(channel, waits.len(), reqs, image.0);
    if waits.len() == 0 {
        let rest = seq![Reply::Bytes(page)] + host_blob_replies(image.0, image.1, image.2);
        assert(replies =~= seq![Reply::Status(status)] + rest);
        lemma_run_on(
            FixMetadata::steps(),
            (querying, wait),
            Reply::Status(status),
            Step::Ask((channel, FixMetadata::Reading { key, plane_idx }), ring),
            rest,
        );
        lemma_answer_is_kept(channel, plane_idx, key, page, image);
        assert(seq![wait] + (seq![ring] + script) =~= whole);
    } else {
        let rest = query_replies(waits.skip(1), status, page, image);
        lemma_cut_short_skip(channel.platform, waits);
        assert(replies =~= seq![waits[0]] + rest);
        lemma_run_on(
            FixMetadata::steps(),
            (querying, wait),
            waits[0],
            Step::Ask(querying, wait),
            rest,
        );
        lemma_query_after_submission(
            channel,
            plane_idx,
            key,
            waits.skip(1),
            status,
            page,
            image,
        );
        assert(seq![wait] + query_script(channel, (waits.len() - 1) as nat, reqs, image.0)
            =~= whole);
    }
}

/// An image that is not known is asked for once: the query is submitted, waited
/// for however often the wait is cut short, its answer is read from the query
/// ring and kept, and the image that the host made for it is taken over and let
/// go. The plane comes from that answer; only then is it found out if the image
/// cannot have such a plane. Of the channel nothing changes but that the answer
/// is kept, and from then on the image is known.
pub proof fn law_unknown_image_is_asked_for_once(
    channel: Channel,
    plane_idx: usize,
    key: ImageKey,
    waits: Seq<Reply>,
    status: i32,
    page: Vec<u8>,
    image: (u32, u32, i32),
    later_plane: usize,
)
    requires
        !channel.image_query_cache.contains_key(key),
        channel.query_ring_addr != 0,
        all_cut_short(channel.platform, waits),
        !channel.platform.spec_waits(status),
        page@.len() == PAGE_SIZE,
    ensures
        ({
            let reqs = ImageRequirements::read(channel.order(), page@);
            let after = channel.with_answer(key, reqs);
            let t = run(
                FixMetadata::steps(),
                over((channel, FixMetadata::spec_start(channel, plane_idx, key))),
                seq![Reply::Done] + query_replies(waits, status, page, image),
            );
            &&& t.asked == seq![
                exec_request(
                    query_command(channel.order(), key),
                    CROSS_DOMAIN_QUERY_RING,
                    channel.query_ring_handle,
                ),
            ] + query_script(channel, waits.len(), reqs, image.0)
            &&& t.end == over((after, spec_conclude(spec_pick(reqs, plane_idx))))
            &&& FixMetadata::spec_start(after, later_plane, key) == spec_conclude(
                spec_pick(reqs, later_plane),
            )
            &&& later_plane < MAX_PLANES ==> spec_conclude(spec_pick(reqs, later_plane)) == Step::<
                FixMetadata,
                Option<Plane>,
                Seq<u8>,
            >::Finished(Some(reqs.plane(later_plane as int)))
        }),
{
    let rest = query_replies(waits, status, page, image);
    let handle = channel.query_ring_handle;
    let request = exec_request(
        query_command(channel.order(), key),
        CROSS_DOMAIN_QUERY_RING,
        handle,
    );
    let executing = Submit::Executing { wait: true, handle };
    let waiting = Submit::Waiting { handle };
    lemma_query_after_submission(channel, plane_idx, key, waits, status, page, image);
    lemma_run_on(
        FixMetadata::steps(),
        ((channel, FixMetadata::Querying { key, plane_idx, submit: executing }), request),
        Reply::Done,
        Step::Ask(
            (channel, FixMetadata::Querying { key, plane_idx, submit: waiting }),
            Request::Wait { handle },
        ),
        rest,
    );
}

/// The image that a query is about, as long as its answer is not kept yet.
pub open spec fn is_about(state: FixMetadata, key: ImageKey) -> bool {
    match state {
        FixMetadata::Querying { key: k, plane_idx, submit } => k == key,
        FixMetadata::Reading { key: k, plane_idx } => k == key,
        FixMetadata::Allocating { plane, blob } => true,
    }
}

/// Two channels differ at most in what they know of one image.
pub open spec fn same_but_for(a: Channel, b: Channel, key: ImageKey) -> bool {
    &&& a == Channel { image_query_cache: a.image_query_cache, ..b }
    &&& a.image_query_cache.remove(key) == b.image_query_cache.remove(key)
}

/// Whatever the card replies, and however the query ends, a query about one image
/// leaves the channel, and what is known of every other image, as it was.
pub proof fn law_query_touches_one_image(
    channel: Channel,
    state: FixMetadata,
    request: Request<Seq<u8>>,
    key: ImageKey,
    replies: Seq<Reply>,
)
    requires
        is_about(state, key),
    ensures
        same_but_for(
            left_behind(
                run(FixMetadata::steps(), Step::Ask((channel, state), request), replies).end,
            ),
            channel,
            key,
        ),
    decreases replies.len(),
{
    reveal_with_fuel(run, 2);
    if replies.len() > 0 {
        let (after, next) = state.spec_step(channel, replies[0]);
        assert(after.image_query_cache.remove(key) =~= channel.image_query_cache.remove(key));
        match next {
            Step::Ask(s, r) => {
                law_query_touches_one_image(after, s, r, key, replies.skip(1));
            },
            _ => {},
        }
    }
}

} // verus!
