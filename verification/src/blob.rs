//! Turning a resource of the host into a descriptor of the guest.
use vstd::prelude::*;

use crate::platform::Platform;
use crate::request::{
    asking, fault, run, spec_fault, Reply, Request, Step, VIRTGPU_BLOB_FLAG_USE_MAPPABLE,
    VIRTGPU_BLOB_FLAG_USE_SHAREABLE, VIRTGPU_BLOB_MEM_HOST3D,
};

verus! {

/// A descriptor in the making.
#[derive(Clone, Copy, Debug, PartialEq, Eq, Structural)]
pub enum HostBlob {
    /// The memory object was asked for.
    Creating,
    /// A descriptor for the memory object was asked for.
    Exporting { handle: u32 },
    /// The memory object is being let go; the descriptor keeps its memory.
    Closing { fd: i32 },
}

impl View for HostBlob {
    type V = HostBlob;

    open spec fn view(&self) -> HostBlob {
        *self
    }
}

/// The request for a memory object on the host's blob `idx`, which can be mapped
/// and handed on.
pub open spec fn host_blob_request(idx: u32, size: u64) -> Request<Seq<u8>> {
    Request::CreateBlob {
        blob_mem: VIRTGPU_BLOB_MEM_HOST3D,
        blob_flags: 3,
        size,
        blob_id: idx as u64,
    }
}

impl HostBlob {
    /// How a descriptor's making begins.
    pub open spec fn spec_create_host_blob(idx: u32, size: u64) -> (HostBlob, Request<Seq<u8>>) {
        (HostBlob::Creating, host_blob_request(idx, size))
    }

    /// Asks for a memory object on the host's blob `idx`.
    pub fn create_host_blob(idx: u32, size: u64) -> (first: (HostBlob, Request<Vec<u8>>))
        ensures
            first@ == Self::spec_create_host_blob(idx, size),
            first.1 matches Request::CreateBlob { blob_mem, blob_flags, size: n, blob_id }
                && blob_mem == 2 && blob_flags == 3 && n == size && blob_id == idx,
    {
        assert(1u32 | 2u32 == 3) by (bit_vector);
        (
            HostBlob::Creating,
            Request::CreateBlob {
                blob_mem: VIRTGPU_BLOB_MEM_HOST3D,
                blob_flags: VIRTGPU_BLOB_FLAG_USE_MAPPABLE | VIRTGPU_BLOB_FLAG_USE_SHAREABLE,
                size,
                blob_id: idx as u64,
            },
        )
    }

    /// Where a reply leads.
    pub open spec fn spec_step(self, platform: Platform, reply: Reply) -> Step<
        HostBlob,
        i32,
        Seq<u8>,
    > {
        match (self, reply) {
            (HostBlob::Creating, Reply::Blob { bo_handle, res_handle }) => Step::Ask(
                HostBlob::Exporting { handle: bo_handle },
                Request::PrimeHandleToFd {
                    handle: bo_handle,
                    flags: platform.spec_export_flags(),
                },
            ),
            (HostBlob::Exporting { handle }, Reply::Fd(fd)) => Step::Ask(
                HostBlob::Closing { fd },
                Request::GemClose { handle },
            ),
            (HostBlob::Closing { fd }, Reply::Done) => Step::Finished(fd),
            _ => Step::Abort(spec_fault(reply)),
        }
    }

    /// All steps on one platform.
    pub open spec fn steps(platform: Platform) -> spec_fn(HostBlob, Reply) -> Step<
        HostBlob,
        i32,
        Seq<u8>,
    > {
        |s: HostBlob, r: Reply| s.spec_step(platform, r)
    }

    /// The request that lets go of a memory object.
    pub fn close_gem_handle(gem_handle: u32) -> (request: Request<Vec<u8>>)
        ensures
            request@ == (Request::<Seq<u8>>::GemClose { handle: gem_handle }),
    {
        Request::GemClose { handle: gem_handle }
    }

    /// Goes on with a reply.
    pub fn step(self, platform: &Platform, reply: Reply) -> (step: Step<HostBlob, i32, Vec<u8>>)
        ensures
            step@ == self.spec_step(*platform, reply),
    {
        match (self, reply) {
            (HostBlob::Creating, Reply::Blob { bo_handle, res_handle }) => Step::Ask(
                HostBlob::Exporting { handle: bo_handle },
                Request::PrimeHandleToFd { handle: bo_handle, flags: platform.export_flags() },
            ),
            (HostBlob::Exporting { handle }, Reply::Fd(fd)) => Step::Ask(
                HostBlob::Closing { fd },
                Self::close_gem_handle(handle),
            ),
            (HostBlob::Closing { fd }, Reply::Done) => Step::Finished(fd),
            (_, other) => Step::Abort(fault(other)),
        }
    }
}

/// The memory object that is made for a descriptor is the one that the
/// descriptor stands for and the one that is let go, and it is let go once.
pub proof fn law_host_blob_is_let_go(
    platform: Platform,
    idx: u32,
    size: u64,
    handle: u32,
    resource: u32,
    fd: i32,
)
    ensures
        ({
            let t = run(
                HostBlob::steps(platform),
                asking(HostBlob::spec_create_host_blob(idx, size)),
                host_blob_replies(handle, resource, fd),
            );
            &&& t.asked == host_blob_script(platform, idx, size, handle)
            &&& t.end == Step::<HostBlob, i32, Seq<u8>>::Finished(fd)
        }),
{
    reveal_with_fuel(run, 4);
    let t = run(
        HostBlob::steps(platform),
        asking(HostBlob::spec_create_host_blob(idx, size)),
        host_blob_replies(handle, resource, fd),
    );
    assert(t.asked =~= host_blob_script(platform, idx, size, handle));
}

/// The replies of a card that makes the memory object and the descriptor.
pub open spec fn host_blob_replies(handle: u32, resource: u32, fd: i32) -> Seq<Reply> {
    seq![
        Reply::Blob { bo_handle: handle, res_handle: resource },
        Reply::Fd(fd),
        Reply::Done,
    ]
}

/// What is asked for when the card makes the memory object `handle`.
pub open spec fn host_blob_script(platform: Platform, idx: u32, size: u64, handle: u32) -> Seq<
    Request<Seq<u8>>,
> {
    seq![
        host_blob_request(idx, size),
        Request::PrimeHandleToFd { handle, flags: platform.spec_export_flags() },
        Request::GemClose { handle },
    ]
}

} // verus!
