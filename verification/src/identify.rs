//! Finding the identifier under which the host knows a descriptor.
use vstd::prelude::*;

use crate::protocol::CROSS_DOMAIN_ID_TYPE_VIRTGPU_BLOB;
use crate::request::{asking, fault, run, spec_fault, Reply, Request, Step};

verus! {

/// An identifier of the host and its type.
#[derive(Clone, Copy, Debug, PartialEq, Eq, Structural)]
pub struct Identifier {
    pub id: u32,
    pub id_type: u32,
}

impl View for Identifier {
    type V = Identifier;

    open spec fn view(&self) -> Identifier {
        *self
    }
}

/// A descriptor whose identifier is being looked for.
#[derive(Clone, Copy, Debug, PartialEq, Eq, Structural)]
pub enum FdAnalysis {
    /// Its memory object was asked for.
    Finding,
    /// The memory object's resource was asked for.
    Describing,
}

impl View for FdAnalysis {
    type V = FdAnalysis;

    open spec fn view(&self) -> FdAnalysis {
        *self
    }
}

impl FdAnalysis {
    /// How the search for a descriptor's identifier begins.
    pub open spec fn spec_fd_analysis(fd: i32) -> (FdAnalysis, Request<Seq<u8>>) {
        (FdAnalysis::Finding, Request::PrimeFdToHandle { fd })
    }

    /// Asks for the memory object behind a descriptor.
    pub fn fd_analysis(fd: i32) -> (first: (FdAnalysis, Request<Vec<u8>>))
        ensures
            first@ == Self::spec_fd_analysis(fd),
    {
        (FdAnalysis::Finding, Request::PrimeFdToHandle { fd })
    }

    /// Where a reply leads.
    pub open spec fn spec_step(self, reply: Reply) -> Step<FdAnalysis, Identifier, Seq<u8>> {
        match (self, reply) {
            (FdAnalysis::Finding, Reply::Handle(handle)) => Step::Ask(
                FdAnalysis::Describing,
                Request::ResourceInfo { bo_handle: handle },
            ),
            (FdAnalysis::Describing, Reply::Resource(resource)) => Step::Finished(
                Identifier { id: resource, id_type: CROSS_DOMAIN_ID_TYPE_VIRTGPU_BLOB },
            ),
            _ => Step::Abort(spec_fault(reply)),
        }
    }

    /// All steps.
    pub open spec fn steps() -> spec_fn(FdAnalysis, Reply) -> Step<
        FdAnalysis,
        Identifier,
        Seq<u8>,
    > {
        |s: FdAnalysis, r: Reply| s.spec_step(r)
    }

    /// Goes on with a reply.
    pub fn step(self, reply: Reply) -> (step: Step<FdAnalysis, Identifier, Vec<u8>>)
        ensures
            step@ == self.spec_step(reply),
    {
        match (self, reply) {
            (FdAnalysis::Finding, Reply::Handle(handle)) => Step::Ask(
                FdAnalysis::Describing,
                Request::ResourceInfo { bo_handle: handle },
            ),
            (FdAnalysis::Describing, Reply::Resource(resource)) => Step::Finished(
                Identifier { id: resource, id_type: CROSS_DOMAIN_ID_TYPE_VIRTGPU_BLOB },
            ),
            (_, other) => Step::Abort(fault(other)),
        }
    }
}

/// A descriptor is identified by the resource of its own memory object.
pub proof fn law_descriptor_is_identified_by_its_resource(fd: i32, handle: u32, resource: u32)
    ensures
        ({
            let t = run(
                FdAnalysis::steps(),
                asking(FdAnalysis::spec_fd_analysis(fd)),
                seq![Reply::Handle(handle), Reply::Resource(resource)],
            );
            &&& t.asked == seq![
                Request::<Seq<u8>>::PrimeFdToHandle { fd },
                Request::<Seq<u8>>::ResourceInfo { bo_handle: handle },
            ]
            &&& t.end == Step::<FdAnalysis, Identifier, Seq<u8>>::Finished(
                Identifier { id: resource, id_type: CROSS_DOMAIN_ID_TYPE_VIRTGPU_BLOB },
            )
        }),
{
    reveal_with_fuel(run, 3);
    let t = run(
        FdAnalysis::steps(),
        asking(FdAnalysis::spec_fd_analysis(fd)),
        seq![Reply::Handle(handle), Reply::Resource(resource)],
    );
    assert(t.asked =~= seq![
        Request::<Seq<u8>>::PrimeFdToHandle { fd },
        Request::<Seq<u8>>::ResourceInfo { bo_handle: handle },
    ]);
}

} // verus!
