//! Making a ring: a page of guest memory that the host writes into.
use vstd::prelude::*;

use crate::request::{
    fault, run, spec_fault, Reply, Request, Step, PAGE_SIZE, VIRTGPU_BLOB_FLAG_USE_MAPPABLE,
    VIRTGPU_BLOB_MEM_GUEST,
};

verus! {

/// A ring: the memory object, the resource under which the host knows it, and
/// the address at which the guest sees it.
#[derive(Clone, Copy, Debug, PartialEq, Eq, Structural)]
pub struct Ring {
    pub handle: u32,
    pub resource: u32,
    pub addr: usize,
}

impl View for Ring {
    type V = Ring;

    open spec fn view(&self) -> Ring {
        *self
    }
}

/// A ring in the making.
#[derive(Clone, Copy, Debug, PartialEq, Eq, Structural)]
pub enum CreateRing {
    /// The memory object was asked for.
    Creating,
    /// Its place on the card was asked for.
    Locating { handle: u32, resource: u32 },
    /// Its mapping was asked for.
    Mapping { handle: u32, resource: u32 },
}

impl View for CreateRing {
    type V = CreateRing;

    open spec fn view(&self) -> CreateRing {
        *self
    }
}

/// The request for a ring's memory.
pub open spec fn ring_blob_request() -> Request<Seq<u8>> {
    Request::CreateBlob {
        blob_mem: VIRTGPU_BLOB_MEM_GUEST,
        blob_flags: VIRTGPU_BLOB_FLAG_USE_MAPPABLE,
        size: PAGE_SIZE as u64,
        blob_id: 0,
    }
}

/// The signed number with the same bits.
pub open spec fn spec_signed(x: u64) -> i64 {
    if x <= i64::MAX {
        x as i64
    } else {
        (x - 0x1_0000_0000_0000_0000) as i64
    }
}

/// The signed number with the same bits.
pub fn signed(x: u64) -> (y: i64)
    ensures
        y == spec_signed(x),
{
    #[verifier::truncate]
    let y: i64 = x as i64;
    assert(y == x as i64);
    assert(x > 0x7fff_ffff_ffff_ffff ==> (x as i64) == x - 0x1_0000_0000_0000_0000) by (bit_vector);
    y
}

impl CreateRing {
    /// The first step.
    pub open spec fn spec_start() -> Step<CreateRing, Ring, Seq<u8>> {
        Step::Ask(CreateRing::Creating, ring_blob_request())
    }

    /// Asks for a ring's memory.
    pub fn start() -> (step: Step<CreateRing, Ring, Vec<u8>>)
        ensures
            step@ == Self::spec_start(),
    {
        Step::Ask(
            CreateRing::Creating,
            Request::CreateBlob {
                blob_mem: VIRTGPU_BLOB_MEM_GUEST,
                blob_flags: VIRTGPU_BLOB_FLAG_USE_MAPPABLE,
                size: PAGE_SIZE as u64,
                blob_id: 0,
            },
        )
    }

    /// Where a reply leads.
    pub open spec fn spec_step(self, reply: Reply) -> Step<CreateRing, Ring, Seq<u8>> {
        match (self, reply) {
            (CreateRing::Creating, Reply::Blob { bo_handle, res_handle }) => Step::Ask(
                CreateRing::Locating { handle: bo_handle, resource: res_handle },
                Request::MapBlob { handle: bo_handle },
            ),
            (CreateRing::Locating { handle, resource }, Reply::Offset(offset)) => Step::Ask(
                CreateRing::Mapping { handle, resource },
                Request::MapMemory { length: PAGE_SIZE, offset: spec_signed(offset) },
            ),
            (CreateRing::Mapping { handle, resource }, Reply::Address(addr)) => Step::Finished(
                Ring { handle, resource, addr },
            ),
            _ => Step::Abort(spec_fault(reply)),
        }
    }

    /// All steps.
    pub open spec fn steps() -> spec_fn(CreateRing, Reply) -> Step<CreateRing, Ring, Seq<u8>> {
        |s: CreateRing, r: Reply| s.spec_step(r)
    }

    /// Goes on with a reply.
    pub fn step(self, reply: Reply) -> (step: Step<CreateRing, Ring, Vec<u8>>)
        ensures
            step@ == self.spec_step(reply),
    {
        match (self, reply) {
            (CreateRing::Creating, Reply::Blob { bo_handle, res_handle }) => Step::Ask(
                CreateRing::Locating { handle: bo_handle, resource: res_handle },
                Request::MapBlob { handle: bo_handle },
            ),
            (CreateRing::Locating { handle, resource }, Reply::Offset(offset)) => Step::Ask(
                CreateRing::Mapping { handle, resource },
                Request::MapMemory { length: PAGE_SIZE, offset: signed(offset) },
            ),
            (CreateRing::Mapping { handle, resource }, Reply::Address(addr)) => Step::Finished(
                Ring { handle, resource, addr },
            ),
            (_, other) => Step::Abort(fault(other)),
        }
    }
}

/// A ring is one mappable page of guest memory. What is located and mapped is
/// the object that was made, and the ring carries the handle, the resource and
/// the address that the card gave.
pub proof fn law_ring_is_one_guest_page(handle: u32, resource: u32, offset: u64, addr: usize)
    ensures
        ({
            let t = run(
                CreateRing::steps(),
                CreateRing::spec_start(),
                seq![
                    Reply::Blob { bo_handle: handle, res_handle: resource },
                    Reply::Offset(offset),
                    Reply::Address(addr),
                ],
            );
            &&& t.asked == seq![
                ring_blob_request(),
                Request::MapBlob { handle },
                Request::MapMemory { length: PAGE_SIZE, offset: spec_signed(offset) },
            ]
            &&& t.end == Step::<CreateRing, Ring, Seq<u8>>::Finished(
                Ring { handle, resource, addr },
            )
        }),
{
    reveal_with_fuel(run, 4);
    let t = run(
        CreateRing::steps(),
        CreateRing::spec_start(),
        seq![
            Reply::Blob { bo_handle: handle, res_handle: resource },
            Reply::Offset(offset),
            Reply::Address(addr),
        ],
    );
    assert(t.asked =~= seq![
        ring_blob_request(),
        Request::MapBlob { handle },
        Request::MapMemory { length: PAGE_SIZE, offset: spec_signed(offset) },
    ]);
}

} // verus!
