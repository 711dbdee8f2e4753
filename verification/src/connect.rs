//! Connecting: a card is opened, its driver checked, and its context created.
use vstd::prelude::*;

use crate::channel::{CardOptions, Channel, VirtgpuChannel};
use crate::context::{
    context_replies, context_script, has_new_rings, law_context_is_announced_before_it_is_polled,
    law_rings_go_together, CreateContext,
};
use crate::name::{octets, GetName};
use crate::request::{left_behind, over, run, Fault, Over, Reply, Request, Step};
use crate::ring::Ring;

verus! {

/// The octets of a text of ASCII characters.
pub open spec fn ascii(text: Seq<char>) -> Seq<u8> {
    Seq::new(text.len(), |i: int| text[i] as u8)
}

/// Whether a driver's name is that of the virtio GPU.
pub fn is_virtio_gpu(name: &Vec<u8>) -> (is: bool)
    ensures
        is == (name@ == ascii("virtio_gpu"@)),
{
    let wanted: [u8; 10] = [0x76, 0x69, 0x72, 0x74, 0x69, 0x6f, 0x5f, 0x67, 0x70, 0x75];
    proof {
        reveal_strlit("virtio_gpu");
        assert(wanted@ =~= ascii("virtio_gpu"@));
    }
    if name.len() != 10 {
        return false;
    }
    let mut i: usize = 0;
    while i < 10
        invariant
            i <= 10,
            name@.len() == 10,
            wanted@ == ascii("virtio_gpu"@),
            forall|j: int| 0 <= j < i ==> name@[j] == wanted@[j],
        decreases 10 - i,
    {
        if name[i] != wanted[i] {
            return false;
        }
        i = i + 1;
    }
    assert(name@ =~= wanted@);
    true
}

/// A connection in the making.
#[derive(Clone, Copy, Debug, PartialEq, Eq, Structural)]
pub enum Connect {
    /// The driver is being asked for its name.
    Naming(GetName),
    /// The context is being created.
    Creating(CreateContext),
}

impl View for Connect {
    type V = Connect;

    open spec fn view(&self) -> Connect {
        *self
    }
}

impl Connect {
    /// Goes on with the name; only a virtio GPU is gone on with.
    pub open spec fn naming(step: Step<GetName, Seq<u8>, Seq<u8>>) -> Step<Connect, (), Seq<u8>> {
        match step {
            Step::Ask(name, request) => Step::Ask(Connect::Naming(name), request),
            Step::Finished(name) => if name == ascii("virtio_gpu"@) {
                Self::creating(CreateContext::spec_start())
            } else {
                Step::Abort(Fault::NotVirtioGpu)
            },
            Step::Abort(fault) => Step::Abort(fault),
        }
    }

    /// Goes on with the context.
    pub open spec fn creating(step: Step<CreateContext, (), Seq<u8>>) -> Step<
        Connect,
        (),
        Seq<u8>,
    > {
        match step {
            Step::Ask(context, request) => Step::Ask(Connect::Creating(context), request),
            Step::Finished(done) => Step::Finished(()),
            Step::Abort(fault) => Step::Abort(fault),
        }
    }

    /// The first step on an opened card.
    pub open spec fn spec_start() -> Step<Connect, (), Seq<u8>> {
        Self::naming(GetName::spec_start())
    }

    /// Where a reply leads, and what becomes of the channel.
    pub open spec fn spec_step(self, channel: Channel, reply: Reply) -> (
        Channel,
        Step<Connect, (), Seq<u8>>,
    ) {
        match self {
            Connect::Naming(name) => (channel, Self::naming(name.spec_step(reply))),
            Connect::Creating(context) => {
                let (after, step) = context.spec_step(channel, reply);
                (after, Self::creating(step))
            },
        }
    }

    /// All steps, together with what becomes of the channel.
    pub open spec fn steps() -> spec_fn((Channel, Connect), Reply) -> Over<Channel, Connect, ()> {
        |s: (Channel, Connect), r: Reply| over(s.1.spec_step(s.0, r))
    }

    fn go_on(channel: &VirtgpuChannel, step: Step<GetName, Vec<u8>, Vec<u8>>) -> (next: Step<
        Connect,
        (),
        Vec<u8>,
    >)
        ensures
            next@ == Self::naming(step@),
    {
        match step {
            Step::Ask(name, request) => Step::Ask(Connect::Naming(name), request),
            Step::Finished(name) => if is_virtio_gpu(&name) {
                Self::create(channel.create_context())
            } else {
                Step::Abort(Fault::NotVirtioGpu)
            },
            Step::Abort(fault) => Step::Abort(fault),
        }
    }

    fn create(step: Step<CreateContext, (), Vec<u8>>) -> (next: Step<Connect, (), Vec<u8>>)
        ensures
            next@ == Self::creating(step@),
    {
        match step {
            Step::Ask(context, request) => Step::Ask(Connect::Creating(context), request),
            Step::Finished(_) => Step::Finished(()),
            Step::Abort(fault) => Step::Abort(fault),
        }
    }

    /// Goes on with a reply.
    pub fn step(self, channel: &mut VirtgpuChannel, reply: Reply) -> (step: Step<
        Connect,
        (),
        Vec<u8>,
    >)
        ensures
            (final(channel)@, step@) == self.spec_step(old(channel)@, reply),
    {
        match self {
            Connect::Naming(name) => Self::go_on(channel, name.step(reply)),
            Connect::Creating(context) => Self::create(context.step(channel, reply)),
        }
    }
}

impl VirtgpuChannel {
    /// Begins a connection over the first card: the channel, how the card is to
    /// be opened, and the first step once it is open.
    pub fn connect() -> (begun: (VirtgpuChannel, CardOptions, Step<Connect, (), Vec<u8>>))
        ensures
            begun.0@ == Channel::fresh(begun.0.platform),
            begun.0.platform.usable(),
            begun.0.channel_ring_addr == 0,
            begun.0.channel_ring_handle == 0,
            begun.0.query_ring_addr == 0,
            begun.0.query_ring_handle == 0,
            begun.1.path@ == "/dev/dri/card0"@,
            begun.1.read,
            begun.1.write,
            begun.1.custom_flags == begun.0.platform.o_nonblock,
            begun.2@ == Connect::spec_start(),
    {
        let (card, options) = Self::open("/dev/dri/card0");
        let step = Connect::go_on(&card, card.get_name());
        (card, options, step)
    }
}

/// A card whose driver has another name is not touched further: it is asked for
/// its name and for nothing else.
pub proof fn law_other_cards_are_left_alone(channel: Channel, name: Vec<i8>, len: u64)
    requires
        name@.len() == len,
        octets(name@) != ascii("virtio_gpu"@),
    ensures
        ({
            let t = run(
                Connect::steps(),
                over((channel, Connect::spec_start())),
                seq![Reply::NameLength(len), Reply::Name(name)],
            );
            &&& t.asked == seq![
                Request::<Seq<u8>>::GetVersion { name_len: None },
                Request::<Seq<u8>>::GetVersion { name_len: Some(len) },
            ]
            &&& t.end == Over::<Channel, Connect, ()>::Abort(
                (channel, Fault::NotVirtioGpu),
            )
        }),
{
    reveal_with_fuel(run, 3);
    let t = run(
        Connect::steps(),
        over((channel, Connect::spec_start())),
        seq![Reply::NameLength(len), Reply::Name(name)],
    );
    assert(t.asked =~= seq![
        Request::<Seq<u8>>::GetVersion { name_len: None },
        Request::<Seq<u8>>::GetVersion { name_len: Some(len) },
    ]);
}

proof fn lemma_creating_runs_along(
    channel: Channel,
    step: Step<CreateContext, (), Seq<u8>>,
    replies: Seq<Reply>,
)
    ensures
        ({
            let whole = run(Connect::steps(), over((channel, Connect::creating(step))), replies);
            let part = run(CreateContext::steps(), over((channel, step)), replies);
            &&& whole.asked == part.asked
            &&& left_behind(whole.end) == left_behind(part.end)
            &&& part.end matches Step::Finished(f) ==> whole.end == Over::<
                Channel,
                Connect,
                (),
            >::Finished(f)
            &&& part.end matches Step::Abort(b) ==> whole.end == Over::<
                Channel,
                Connect,
                (),
            >::Abort(b)
            &&& part.end is Ask ==> whole.end is Ask
        }),
    decreases replies.len(),
{
    match step {
        Step::Ask(context, request) => if replies.len() > 0 {
            let (after, next) = context.spec_step(channel, replies[0]);
            lemma_creating_runs_along(after, next, replies.skip(1));
        },
        _ => {},
    }
}

/// On a virtio GPU a connection is the question for the name followed by the
/// creation of the context, after which the channel holds both rings.
pub proof fn law_connection_creates_the_context(
    before: Channel,
    name: Vec<i8>,
    len: u64,
    query: Ring,
    channel: Ring,
    offsets: (u64, u64),
)
    requires
        name@.len() == len,
        octets(name@) == ascii("virtio_gpu"@),
    ensures
        ({
            let t = run(
                Connect::steps(),
                over((before, Connect::spec_start())),
                seq![Reply::NameLength(len), Reply::Name(name)] + context_replies(
                    query,
                    channel,
                    offsets,
                ),
            );
            &&& t.asked == seq![
                Request::GetVersion { name_len: None },
                Request::GetVersion { name_len: Some(len) },
            ] + context_script(before.order(), query, channel, offsets)
            &&& t.end == Over::<Channel, Connect, ()>::Finished(
                (before.with_rings(query, channel), ()),
            )
        }),
{
    let tail = context_replies(query, channel, offsets);
    let replies = seq![Reply::NameLength(len), Reply::Name(name)] + tail;
    reveal_with_fuel(run, 3);
    assert(replies.skip(1).skip(1) =~= tail);
    lemma_creating_runs_along(before, CreateContext::spec_start(), tail);
    law_context_is_announced_before_it_is_polled(before, query, channel, offsets);
    let t = run(Connect::steps(), over((before, Connect::spec_start())), replies);
    assert(t.asked =~= seq![
        Request::GetVersion { name_len: None },
        Request::GetVersion { name_len: Some(len) },
    ] + context_script(before.order(), query, channel, offsets));
}

proof fn lemma_connection_gets_both_rings_or_none(
    before: Channel,
    step: Step<GetName, Seq<u8>, Seq<u8>>,
    replies: Seq<Reply>,
)
    ensures
        ({
            let after = left_behind(
                run(Connect::steps(), over((before, Connect::naming(step))), replies).end,
            );
            after == before || has_new_rings(before, after)
        }),
    decreases replies.len(),
{
    match step {
        Step::Ask(name, request) => if replies.len() > 0 {
            lemma_connection_gets_both_rings_or_none(
                before,
                name.spec_step(replies[0]),
                replies.skip(1),
            );
        },
        Step::Finished(name) => if name == ascii("virtio_gpu"@) {
            lemma_creating_runs_along(before, CreateContext::spec_start(), replies);
            law_rings_go_together(before, replies);
        },
        _ => {},
    }
}

/// Whatever the card replies, and however a connection ends, the channel gets
/// both its rings at once or none, and nothing else of it changes.
pub proof fn law_connection_gets_both_rings_or_none(before: Channel, replies: Seq<Reply>)
    ensures
        ({
            let after = left_behind(
                run(Connect::steps(), over((before, Connect::spec_start())), replies).end,
            );
            after == before || has_new_rings(before, after)
        }),
{
    lemma_connection_gets_both_rings_or_none(before, GetName::spec_start(), replies);
}

/// Connecting to a card whose driver gives its name in the ten characters
/// `virtio_gpu` is two questions for the name and then the creation of the context:
/// whatever the card replies, the same is asked for, the channel becomes the same,
/// and it ends alike.
pub proof fn law_connecting_is_naming_and_creating(
    before: Channel,
    name: Vec<i8>,
    replies: Seq<Reply>,
)
    requires
        name@ =~= seq![118i8, 105i8, 114i8, 116i8, 105i8, 111i8, 95i8, 103i8, 112i8, 117i8],
    ensures
        ({
            let whole = run(
                Connect::steps(),
                over((before, Connect::spec_start())),
                seq![Reply::NameLength(10), Reply::Name(name)] + replies,
            );
            let part = run(
                CreateContext::steps(),
                over((before, CreateContext::spec_start())),
                replies,
            );
            &&& whole.asked == seq![
                Request::GetVersion { name_len: None },
                Request::GetVersion { name_len: Some(10) },
            ] + part.asked
            &&& left_behind(whole.end) == left_behind(part.end)
            &&& part.end is Finished <==> whole.end is Finished
            &&& part.end matches Step::Abort(b) ==> whole.end == Over::<
                Channel,
                Connect,
                (),
            >::Abort(b)
        }),
{
    let all = seq![Reply::NameLength(10), Reply::Name(name)] + replies;
    reveal_strlit("virtio_gpu");
    assert(octets(name@) =~= ascii("virtio_gpu"@));
    reveal_with_fuel(run, 3);
    assert(all.skip(1).skip(1) =~= replies);
    lemma_creating_runs_along(before, CreateContext::spec_start(), replies);
    let whole = run(Connect::steps(), over((before, Connect::spec_start())), all);
    let part = run(CreateContext::steps(), over((before, CreateContext::spec_start())), replies);
    assert(whole.asked =~= seq![
        Request::GetVersion { name_len: None },
        Request::GetVersion { name_len: Some(10) },
    ] + part.asked);
}

/// A driver that gives any other name is refused, and nothing but the name has been
/// asked for.
pub proof fn law_any_other_name_is_refused(before: Channel, name: Vec<i8>, len: u64)
    requires
        name@.len() == len,
        name@ != seq![118i8, 105i8, 114i8, 116i8, 105i8, 111i8, 95i8, 103i8, 112i8, 117i8],
    ensures
        ({
            let t = run(
                Connect::steps(),
                over((before, Connect::spec_start())),
                seq![Reply::NameLength(len), Reply::Name(name)],
            );
            &&& t.asked == seq![
                Request::<Seq<u8>>::GetVersion { name_len: None },
                Request::<Seq<u8>>::GetVersion { name_len: Some(len) },
            ]
            &&& t.end == Over::<Channel, Connect, ()>::Abort((before, Fault::NotVirtioGpu))
        }),
{
    let wanted = seq![118i8, 105i8, 114i8, 116i8, 105i8, 111i8, 95i8, 103i8, 112i8, 117i8];
    reveal_strlit("virtio_gpu");
    if octets(name@) == ascii("virtio_gpu"@) {
        let text = ascii("virtio_gpu"@);
        assert(octets(name@).len() == 10);
        assert(text =~= seq![118u8, 105u8, 114u8, 116u8, 105u8, 111u8, 95u8, 103u8, 112u8, 117u8]);
        assert forall|i: int| 0 <= i < 10 implies #[trigger] name@[i] == wanted[i] by {
            assert(octets(name@)[i] == text[i]);
            assert(wanted[i] == text[i]);
        }
        assert(name@ =~= wanted);
    }
    law_other_cards_are_left_alone(before, name, len);
}

} // verus!
