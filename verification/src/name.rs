//! Asking the driver for its name.
use vstd::prelude::*;

use crate::request::{fault, run, spec_fault, Fault, Reply, Request, Step};

verus! {

/// The octet with the same bits.
pub open spec fn octet(x: i8) -> u8 {
    if x >= 0 {
        x as u8
    } else {
        (x + 256) as u8
    }
}

/// The octets with the same bits.
pub open spec fn octets(s: Seq<i8>) -> Seq<u8> {
    Seq::new(s.len(), |i: int| octet(s[i]))
}

/// Takes a driver's characters for octets, bit for bit.
pub fn transmute_vec(from: Vec<i8>) -> (to: Vec<u8>)
    ensures
        to@ == octets(from@),
{
    let mut to: Vec<u8> = Vec::with_capacity(from.len());
    let mut i: usize = 0;
    while i < from.len()
        invariant
            i <= from@.len(),
            to@ == octets(from@).take(i as int),
        decreases from@.len() - i,
    {
        let x: i8 = from[i];
        #[verifier::truncate]
        let y: u8 = x as u8;
        assert(x < 0 ==> (x as u8) == x + 256) by (bit_vector);
        to.push(y);
        i = i + 1;
        assert(to@ =~= octets(from@).take(i as int));
    }
    assert(octets(from@).take(from@.len() as int) =~= octets(from@));
    to
}

/// A question for the driver's name.
#[derive(Clone, Copy, Debug, PartialEq, Eq, Structural)]
pub enum GetName {
    /// The length of the name was asked for.
    Measuring,
    /// The name was asked for, in a buffer of the length that it has.
    Reading { len: u64 },
}

impl View for GetName {
    type V = GetName;

    open spec fn view(&self) -> GetName {
        *self
    }
}

impl GetName {
    /// The first step.
    pub open spec fn spec_start() -> Step<GetName, Seq<u8>, Seq<u8>> {
        Step::Ask(GetName::Measuring, Request::GetVersion { name_len: None })
    }

    /// Asks for the length of the name.
    pub fn start() -> (step: Step<GetName, Vec<u8>, Vec<u8>>)
        ensures
            step@ == Self::spec_start(),
    {
        Step::Ask(GetName::Measuring, Request::GetVersion { name_len: None })
    }

    /// Where a reply leads. A name of another length than was asked for is no
    /// answer.
    pub open spec fn spec_step(self, reply: Reply) -> Step<GetName, Seq<u8>, Seq<u8>> {
        match (self, reply) {
            (GetName::Measuring, Reply::NameLength(len)) => Step::Ask(
                GetName::Reading { len },
                Request::GetVersion { name_len: Some(len) },
            ),
            (GetName::Reading { len }, Reply::Name(name)) => if name@.len() == len {
                Step::Finished(octets(name@))
            } else {
                Step::Abort(Fault::UnexpectedReply)
            },
            _ => Step::Abort(spec_fault(reply)),
        }
    }

    /// All steps.
    pub open spec fn steps() -> spec_fn(GetName, Reply) -> Step<GetName, Seq<u8>, Seq<u8>> {
        |s: GetName, r: Reply| s.spec_step(r)
    }

    /// Goes on with a reply.
    pub fn step(self, reply: Reply) -> (step: Step<GetName, Vec<u8>, Vec<u8>>)
        ensures
            step@ == self.spec_step(reply),
    {
        match (self, reply) {
            (GetName::Measuring, Reply::NameLength(len)) => Step::Ask(
                GetName::Reading { len },
                Request::GetVersion { name_len: Some(len) },
            ),
            (GetName::Reading { len }, Reply::Name(name)) => if name.len() as u64 == len {
                Step::Finished(transmute_vec(name))
            } else {
                Step::Abort(Fault::UnexpectedReply)
            },
            (_, other) => Step::Abort(fault(other)),
        }
    }
}

/// The driver is asked twice, the second time for as many bytes as it said the
/// first time, and the name is what it then gave, bit for bit.
pub proof fn law_name_is_what_the_driver_gives(name: Vec<i8>, len: u64)
    requires
        name@.len() == len,
    ensures
        ({
            let t = run(
                GetName::steps(),
                GetName::spec_start(),
                seq![Reply::NameLength(len), Reply::Name(name)],
            );
            &&& t.asked == seq![
                Request::<Seq<u8>>::GetVersion { name_len: None },
                Request::<Seq<u8>>::GetVersion { name_len: Some(len) },
            ]
            &&& t.end == Step::<GetName, Seq<u8>, Seq<u8>>::Finished(octets(name@))
        }),
{
    reveal_with_fuel(run, 3);
    let t = run(
        GetName::steps(),
        GetName::spec_start(),
        seq![Reply::NameLength(len), Reply::Name(name)],
    );
    assert(t.asked =~= seq![
        Request::<Seq<u8>>::GetVersion { name_len: None },
        Request::<Seq<u8>>::GetVersion { name_len: Some(len) },
    ]);
}

} // verus!
