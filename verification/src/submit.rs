//! Submitting one command to the host.
use vstd::prelude::*;

use crate::bytes::ByteOrder;
use crate::platform::Platform;
use crate::protocol::{CrossDomainCmd, CROSS_DOMAIN_RING_NONE};
use crate::request::{fault, run, spec_fault, Reply, Request, Step, VIRTGPU_EXECBUF_RING_IDX};

verus! {

/// A submission under way.
#[derive(Clone, Copy, Debug, PartialEq, Eq, Structural)]
pub enum Submit {
    /// The command buffer was handed over.
    Executing { wait: bool, handle: u32 },
    /// The host has not yet let go of the memory object.
    Waiting { handle: u32 },
}

impl View for Submit {
    type V = Submit;

    open spec fn view(&self) -> Submit {
        *self
    }
}

/// The request that hands over a command buffer: it names a ring unless there
/// is none, and a memory object unless the handle is zero.
pub open spec fn exec_request(command: Seq<u8>, ring_idx: u32, ring_handle: u32) -> Request<
    Seq<u8>,
> {
    Request::ExecBuffer {
        command,
        size: command.len() as u32,
        flags: if ring_idx == CROSS_DOMAIN_RING_NONE {
            0
        } else {
            VIRTGPU_EXECBUF_RING_IDX
        },
        ring_idx: if ring_idx == CROSS_DOMAIN_RING_NONE {
            0
        } else {
            ring_idx
        },
        bo_handle: if ring_handle == 0 {
            None
        } else {
            Some(ring_handle)
        },
    }
}

/// The first step of a submission.
pub open spec fn spec_submit_cmd(
    command: Seq<u8>,
    ring_idx: u32,
    ring_handle: u32,
    wait: bool,
) -> Step<Submit, (), Seq<u8>> {
    Step::Ask(
        Submit::Executing { wait, handle: ring_handle },
        exec_request(command, ring_idx, ring_handle),
    )
}

/// Submits a command followed by its payload. With `wait`, the submission
/// ends when the host has let go of the memory object.
pub fn submit_cmd<C: CrossDomainCmd>(
    order: ByteOrder,
    cmd: &C,
    data: &Vec<u8>,
    ring_idx: u32,
    ring_handle: u32,
    wait: bool,
) -> (step: Step<Submit, (), Vec<u8>>)
    ensures
        step@ == spec_submit_cmd(cmd.wire(order) + data@, ring_idx, ring_handle, wait),
{
    let mut command: Vec<u8> = cmd.to_bytes(order);
    command.extend_from_slice(data.as_slice());
    assert(command@ =~= cmd.wire(order) + data@);
    #[verifier::truncate]
    let size: u32 = command.len() as u32;
    let mut flags: u32 = 0;
    let mut ring: u32 = 0;
    if ring_idx != CROSS_DOMAIN_RING_NONE {
        flags = VIRTGPU_EXECBUF_RING_IDX;
        ring = ring_idx;
    }
    let bo_handle: Option<u32> = if ring_handle != 0 {
        Some(ring_handle)
    } else {
        None
    };
    Step::Ask(
        Submit::Executing { wait, handle: ring_handle },
        Request::ExecBuffer { command, size, flags, ring_idx: ring, bo_handle },
    )
}

impl Submit {
    /// Where a reply leads.
    pub open spec fn spec_step(self, platform: Platform, reply: Reply) -> Step<
        Submit,
        (),
        Seq<u8>,
    > {
        match (self, reply) {
            (Submit::Executing { wait, handle }, Reply::Done) => if wait {
                Step::Ask(Submit::Waiting { handle }, Request::Wait { handle })
            } else {
                Step::Finished(())
            },
            (Submit::Waiting { handle }, Reply::Status(status)) => if platform.spec_waits(status) {
                Step::Ask(self, Request::Wait { handle })
            } else {
                Step::Finished(())
            },
            _ => Step::Abort(spec_fault(reply)),
        }
    }

    /// All steps on one platform.
    pub open spec fn steps(platform: Platform) -> spec_fn(Submit, Reply) -> Step<
        Submit,
        (),
        Seq<u8>,
    > {
        |s: Submit, r: Reply| s.spec_step(platform, r)
    }

    /// Goes on with a reply.
    pub fn step(self, platform: &Platform, reply: Reply) -> (step: Step<Submit, (), Vec<u8>>)
        ensures
            step@ == self.spec_step(*platform, reply),
    {
        match (self, reply) {
            (Submit::Executing { wait, handle }, Reply::Done) => if wait {
                Step::Ask(Submit::Waiting { handle }, Request::Wait { handle })
            } else {
                Step::Finished(())
            },
            (Submit::Waiting { handle }, Reply::Status(status)) => if platform.waits(status) {
                Step::Ask(Submit::Waiting { handle }, Request::Wait { handle })
            } else {
                Step::Finished(())
            },
            (_, other) => Step::Abort(fault(other)),
        }
    }
}

/// Without waiting, a submission is the one request that hands the command
/// over.
pub proof fn law_submit_at_once(
    platform: Platform,
    command: Seq<u8>,
    ring_idx: u32,
    ring_handle: u32,
)
    ensures
        ({
            let t = run(
                Submit::steps(platform),
                spec_submit_cmd(command, ring_idx, ring_handle, false),
                seq![Reply::Done],
            );
            &&& t.asked == seq![exec_request(command, ring_idx, ring_handle)]
            &&& t.end == Step::<Submit, (), Seq<u8>>::Finished(())
        }),
{
    reveal_with_fuel(run, 2);
    assert(run(
        Submit::steps(platform),
        spec_submit_cmd(command, ring_idx, ring_handle, false),
        seq![Reply::Done],
    ).asked =~= seq![exec_request(command, ring_idx, ring_handle)]);
}

/// Replies to waits that were cut short.
pub open spec fn all_cut_short(platform: Platform, waits: Seq<Reply>) -> bool {
    forall|i: int|
        0 <= i < waits.len() ==> ((#[trigger] waits[i]) matches Reply::Status(s)
            && platform.spec_waits(s))
}

pub(crate) proof fn lemma_cut_short_skip(platform: Platform, waits: Seq<Reply>)
    requires
        waits.len() > 0,
        all_cut_short(platform, waits),
    ensures
        waits[0] matches Reply::Status(s) && platform.spec_waits(s),
        all_cut_short(platform, waits.skip(1)),
{
    assert forall|i: int| 0 <= i < waits.skip(1).len() implies ((
    #[trigger] waits.skip(1)[i]) matches Reply::Status(s) && platform.spec_waits(s)) by {
        assert(waits.skip(1)[i] == waits[i + 1]);
    }
}

/// A waiting submission asks again as long as the wait is cut short, and ends
/// with the first wait that is not: it asks once more than it was cut short.
pub proof fn law_submit_waits_until_idle(
    platform: Platform,
    handle: u32,
    waits: Seq<Reply>,
    status: i32,
)
    requires
        all_cut_short(platform, waits),
        !platform.spec_waits(status),
    ensures
        ({
            let t = run(
                Submit::steps(platform),
                Step::Ask(Submit::Waiting { handle }, Request::Wait { handle }),
                waits.push(Reply::Status(status)),
            );
            &&& t.asked == Seq::new(waits.len() + 1, |i: int| Request::<Seq<u8>>::Wait { handle })
            &&& t.end == Step::<Submit, (), Seq<u8>>::Finished(())
        }),
    decreases waits.len(),
{
    let all = waits.push(Reply::Status(status));
    let now = Step::<Submit, (), Seq<u8>>::Ask(
        Submit::Waiting { handle },
        Request::Wait { handle },
    );
    let t = run(Submit::steps(platform), now, all);
    let wait = Request::<Seq<u8>>::Wait { handle };
    if waits.len() == 0 {
        reveal_with_fuel(run, 2);
        assert(t.asked =~= seq![wait]);
        assert(seq![wait] =~= Seq::new(1, |i: int| Request::<Seq<u8>>::Wait { handle }));
    } else {
        lemma_cut_short_skip(platform, waits);
        assert(all[0] == waits[0]);
        assert(all.skip(1) =~= waits.skip(1).push(Reply::Status(status)));
        law_submit_waits_until_idle(platform, handle, waits.skip(1), status);
        assert(t.asked =~= Seq::new(
            waits.len() + 1,
            |i: int| Request::<Seq<u8>>::Wait { handle },
        ));
    }
}

/// With the numbers of a usable system, a wait that succeeded, which is reported
/// as zero, is not waited for again: the submission has ended.
pub proof fn law_successful_wait_ends_the_submission(platform: Platform, handle: u32)
    requires
        platform.usable(),
    ensures
        (Submit::Waiting { handle }).spec_step(platform, Reply::Status(0)) == Step::<
            Submit,
            (),
            Seq<u8>,
        >::Finished(()),
{
}

} // verus!
