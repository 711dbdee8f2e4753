//! What the operations do, told by the requests that the card sees, the bytes that
//! the host reads and writes, and what the caller gets.
use vstd::prelude::*;

use crate::blob::{law_host_blob_is_let_go, HostBlob};
use crate::bytes::{number_at, ByteOrder};
use crate::channel::{spec_channel_poll, Channel, VirtgpuChannel};
use crate::connect::Connect;
use crate::context::{law_context_is_announced_before_it_is_polled, CreateContext};
use crate::identify::{law_descriptor_is_identified_by_its_resource, FdAnalysis, Identifier};
use crate::iov::{law_buffers_are_filled_in_order, parts};
use crate::metadata::{law_unknown_image_is_asked_for_once, FixMetadata};
use crate::name::{octets, GetName};
use crate::platform::Platform;
use crate::protocol::SendReceive;
use crate::receive::{
    arrival_replies, arrival_script, law_message_is_delivered,
    law_stopped_message_hands_over_its_descriptors, payload, poll_request, resources_before,
    stops_at, take_over_replies, take_over_script, takeable, Delivery, Interrupted, IoMode,
    Receiving,
};
use crate::request::{left_behind, over, run, Fault, Reply, Request, Step};
use crate::ring::{law_ring_is_one_guest_page, spec_signed, CreateRing, Ring};
use crate::send::{
    blob_ids, identify_replies, identify_script, law_host_reads_what_was_sent,
    law_message_is_submitted_once, law_too_many_descriptors_are_never_submitted, message_command,
    Sending,
};
use crate::submit::{
    all_cut_short, law_submit_at_once, law_submit_waits_until_idle, spec_submit_cmd, Submit,
};
use crate::wire::{
    law_announcement_names_each_ring_in_its_place, law_message_is_read_from_its_places,
    law_plane_is_read_from_its_places, law_poll_says_nothing_else, law_query_names_the_image,
};

verus! {

/// A call was cut short exactly if its status is the negative of the system's
/// number for that.
pub proof fn law_cut_short_is_the_negative_error(platform: Platform, status: i32)
    ensures
        platform.spec_waits(status) <==> status + platform.eagain == 0,
{
}

/// A descriptor for shared memory is not inherited and can be read and written: the
/// flags have all the bits of both numbers, and no others.
pub proof fn law_export_flags_are_both_numbers(platform: Platform)
    ensures
        ({
            let flags = platform.spec_export_flags();
            let cloexec = platform.o_cloexec as u32;
            let rdwr = platform.o_rdwr as u32;
            &&& flags & cloexec == cloexec
            &&& flags & rdwr == rdwr
            &&& flags & !cloexec & !rdwr == 0
        }),
{
    let cloexec = platform.o_cloexec as u32;
    let rdwr = platform.o_rdwr as u32;
    assert((cloexec | rdwr) & cloexec == cloexec) by (bit_vector);
    assert((cloexec | rdwr) & rdwr == rdwr) by (bit_vector);
    assert((cloexec | rdwr) & !cloexec & !rdwr == 0) by (bit_vector);
}

/// A blob of the host becomes a descriptor in three requests. The memory object is
/// asked for on the very blob that is named and in the very size, in the memory of
/// the host, to be mapped and handed on; the descriptor is asked for on that memory
/// object; and that memory object is let go. The descriptor is the one that the
/// card gave.
pub proof fn law_blob_becomes_its_own_descriptor(
    platform: Platform,
    idx: u32,
    size: u64,
    handle: u32,
    resource: u32,
    fd: i32,
)
    ensures
        ({
            let first = HostBlob::spec_create_host_blob(idx, size);
            let t = run(
                HostBlob::steps(platform),
                Step::Ask(first.0, first.1),
                seq![
                    Reply::Blob { bo_handle: handle, res_handle: resource },
                    Reply::Fd(fd),
                    Reply::Done,
                ],
            );
            &&& t.asked.len() == 3
            &&& t.asked[0] matches Request::CreateBlob { blob_mem, blob_flags, size: n, blob_id }
            &&& blob_mem == 2
            &&& blob_flags == 3
            &&& n == size
            &&& blob_id == idx
            &&& t.asked[1] matches Request::PrimeHandleToFd { handle: h, flags }
            &&& h == handle
            &&& flags == platform.spec_export_flags()
            &&& t.asked[2] == Request::<Seq<u8>>::GemClose { handle }
            &&& t.end == Step::<HostBlob, i32, Seq<u8>>::Finished(fd)
        }),
{
    law_host_blob_is_let_go(platform, idx, size, handle, resource, fd);
}

/// Two blobs of the host are asked for by the same request only if they are the
/// same blob in the same size.
pub proof fn law_blobs_are_told_apart(a: u32, a_size: u64, b: u32, b_size: u64)
    requires
        HostBlob::spec_create_host_blob(a, a_size).1 == HostBlob::spec_create_host_blob(
            b,
            b_size,
        ).1,
    ensures
        a == b,
        a_size == b_size,
{
}

/// The signed number has the same bits: it is the number itself, or less by two to
/// the power 64.
pub proof fn law_signed_keeps_the_bits(x: u64)
    ensures
        spec_signed(x) == x || spec_signed(x) == x - 0x1_0000_0000_0000_0000,
{
}

/// A ring is one page of the guest's memory that can be mapped. The object that was
/// made is the one that is located and mapped, at the place that the card gave, and
/// the ring is made of the three numbers that the card gave.
pub proof fn law_ring_is_what_the_card_made(handle: u32, resource: u32, offset: u64, addr: usize)
    ensures
        ({
            let t = run(
                CreateRing::steps(),
                CreateRing::spec_start(),
                seq![
                    Reply::Blob { bo_handle: handle, res_handle: resource },
                    Reply::Offset(offset),
                    Reply::Address(addr),
                ],
            );
            &&& t.asked.len() == 3
            &&& t.asked[0] matches Request::CreateBlob { blob_mem, blob_flags, size, blob_id }
            &&& blob_mem == 1
            &&& blob_flags == 1
            &&& size == 4096
            &&& blob_id == 0
            &&& t.asked[1] == Request::<Seq<u8>>::MapBlob { handle }
            &&& t.asked[2] matches Request::MapMemory { length, offset: signed }
            &&& length == 4096
            &&& signed == offset || signed == offset - 0x1_0000_0000_0000_0000
            &&& t.end matches Step::Finished(ring)
            &&& ring.handle == handle
            &&& ring.resource == resource
            &&& ring.addr == addr
        }),
{
    law_ring_is_one_guest_page(handle, resource, offset, addr);
    law_signed_keeps_the_bits(offset);
}

/// A descriptor is looked up by its number, its memory object by the handle that
/// was found, and it is known to the host as the resource that was found, of type
/// 1.
pub proof fn law_descriptor_is_known_by_its_resource(fd: i32, handle: u32, resource: u32)
    ensures
        ({
            let first = FdAnalysis::spec_fd_analysis(fd);
            let t = run(
                FdAnalysis::steps(),
                Step::Ask(first.0, first.1),
                seq![Reply::Handle(handle), Reply::Resource(resource)],
            );
            &&& t.asked == seq![
                Request::<Seq<u8>>::PrimeFdToHandle { fd },
                Request::<Seq<u8>>::ResourceInfo { bo_handle: handle },
            ]
            &&& t.end matches Step::Finished(id)
            &&& id.id == resource
            &&& id.id_type == 1
        }),
{
    law_descriptor_is_identified_by_its_resource(fd, handle, resource);
}

/// Characters become octets one for one, each with the same bits: the number
/// itself, or more by 256.
pub proof fn law_octets_keep_the_bits(s: Seq<i8>, i: int)
    requires
        0 <= i < s.len(),
    ensures
        octets(s).len() == s.len(),
        octets(s)[i] == s[i] || octets(s)[i] == s[i] + 256,
{
}

/// The driver is asked for the length of its name, then for a name of that length.
/// The name is what it gave, octet for character; a name of another length is no
/// answer.
pub proof fn law_name_is_what_was_given(name: Vec<i8>, len: u64)
    ensures
        ({
            let t = run(
                GetName::steps(),
                GetName::spec_start(),
                seq![Reply::NameLength(len), Reply::Name(name)],
            );
            &&& t.asked == seq![
                Request::<Seq<u8>>::GetVersion { name_len: None },
                Request::<Seq<u8>>::GetVersion { name_len: Some(len) },
            ]
            &&& name@.len() != len ==> t.end == Step::<GetName, Seq<u8>, Seq<u8>>::Abort(
                Fault::UnexpectedReply,
            )
            &&& name@.len() == len ==> (t.end matches Step::Finished(text) && text.len()
                == name@.len() && forall|i: int|
                0 <= i < text.len() ==> #[trigger] text[i] == name@[i] || text[i] == name@[i] + 256)
        }),
{
    reveal_with_fuel(run, 3);
    let t = run(
        GetName::steps(),
        GetName::spec_start(),
        seq![Reply::NameLength(len), Reply::Name(name)],
    );
    assert(t.asked =~= seq![
        Request::<Seq<u8>>::GetVersion { name_len: None },
        Request::<Seq<u8>>::GetVersion { name_len: Some(len) },
    ]);
}

/// A submission hands over the command as it is, in its whole length. It names the
/// ring that it was given, unless that is the number for none, and the memory
/// object that it was given, unless that is zero.
pub proof fn law_submission_hands_over_the_command(
    command: Seq<u8>,
    ring_idx: u32,
    ring_handle: u32,
    wait: bool,
)
    requires
        command.len() <= u32::MAX,
    ensures
        spec_submit_cmd(command, ring_idx, ring_handle, wait) matches Step::Ask(state, request)
            && request matches Request::ExecBuffer {
            command: c,
            size,
            flags,
            ring_idx: r,
            bo_handle,
        } && {
            &&& c == command
            &&& size == command.len()
            &&& ring_idx == 0xffff_ffff ==> flags == 0 && r == 0
            &&& ring_idx != 0xffff_ffff ==> flags == 4 && r == ring_idx
            &&& ring_handle == 0 ==> bo_handle is None
            &&& ring_handle != 0 ==> bo_handle == Some(ring_handle)
        },
{
}

/// A submission that waits asks, once the command is handed over, for the memory
/// object that it was given, again and again while the wait is cut short, and then
/// has ended. One that does not wait has ended when the command is handed over.
pub proof fn law_submission_waits_for_its_object(
    platform: Platform,
    command: Seq<u8>,
    ring_idx: u32,
    ring_handle: u32,
    waits: Seq<i32>,
    status: i32,
)
    requires
        forall|i: int| 0 <= i < waits.len() ==> #[trigger] waits[i] + platform.eagain == 0,
        status + platform.eagain != 0,
    ensures
        ({
            let start = spec_submit_cmd(command, ring_idx, ring_handle, true);
            let t = run(
                Submit::steps(platform),
                start,
                seq![Reply::Done] + waits.map_values(|s: i32| Reply::Status(s)) + seq![
                    Reply::Status(status),
                ],
            );
            &&& t.end == Step::<Submit, (), Seq<u8>>::Finished(())
            &&& t.asked.len() == waits.len() + 2
            &&& start matches Step::Ask(state, request)
            &&& t.asked[0] == request
            &&& forall|i: int|
                1 <= i < t.asked.len() ==> #[trigger] t.asked[i] == (Request::<Seq<u8>>::Wait {
                    handle: ring_handle,
                })
        }),
        ({
            let start = spec_submit_cmd(command, ring_idx, ring_handle, false);
            let t = run(Submit::steps(platform), start, seq![Reply::Done]);
            &&& t.end == Step::<Submit, (), Seq<u8>>::Finished(())
            &&& start matches Step::Ask(state, request)
            &&& t.asked == seq![request]
        }),
{
    let cut = waits.map_values(|s: i32| Reply::Status(s));
    let replies = seq![Reply::Done] + cut + seq![Reply::Status(status)];
    assert forall|i: int| 0 <= i < cut.len() implies ((#[trigger] cut[i]) matches Reply::Status(s)
        && platform.spec_waits(s)) by {
        assert(waits[i] + platform.eagain == 0);
    }
    law_submit_waits_until_idle(platform, ring_handle, cut, status);
    assert(replies.skip(1) =~= cut.push(Reply::Status(status)));
    law_submit_at_once(platform, command, ring_idx, ring_handle);
}

/// The poll is submitted at once: 16 bytes for the second ring, with no memory
/// object.
pub proof fn law_poll_is_submitted_for_the_channel_ring(platform: Platform)
    ensures
        ({
            let order = platform.byte_order;
            let t = run(Submit::steps(platform), spec_channel_poll(order), seq![Reply::Done]);
            &&& t.end == Step::<Submit, (), Seq<u8>>::Finished(())
            &&& t.asked.len() == 1
            &&& t.asked[0] matches Request::ExecBuffer {
                command,
                size,
                flags,
                ring_idx,
                bo_handle,
            }
            &&& size == 16
            &&& flags == 4
            &&& ring_idx == 1
            &&& bo_handle is None
            &&& command.len() == 16
            &&& command[0] == 3
            &&& command[1] == 0
            &&& number_at(order, command, 2, 2) == 16
            &&& number_at(order, command, 4, 4) == 0
            &&& number_at(order, command, 8, 8) == 0
        }),
{
    law_poll_says_nothing_else(platform.byte_order);
    reveal_with_fuel(run, 2);
}

/// The context is set up in ten requests: the capabilities, the context itself with
/// two rings of which the second can be polled, a page for the query ring and one
/// for the channel ring, the announcement that gives the host the resource of each
/// ring in its place, and the first poll. The channel then has the address and the
/// handle of each ring in its place, and is otherwise unchanged.
pub proof fn law_context_is_set_up(
    before: Channel,
    query: Ring,
    channel: Ring,
    offsets: (u64, u64),
)
    ensures
        ({
            let order = before.platform.byte_order;
            let t = run(
                CreateContext::steps(),
                over((before, CreateContext::spec_start())),
                seq![
                    Reply::Done,
                    Reply::Done,
                    Reply::Blob { bo_handle: query.handle, res_handle: query.resource },
                    Reply::Offset(offsets.0),
                    Reply::Address(query.addr),
                    Reply::Blob { bo_handle: channel.handle, res_handle: channel.resource },
                    Reply::Offset(offsets.1),
                    Reply::Address(channel.addr),
                    Reply::Done,
                    Reply::Done,
                ],
            );
            &&& t.asked.len() == 10
            &&& t.asked[0] matches Request::GetCaps { cap_set_id, size: caps_size }
            &&& cap_set_id == 5
            &&& caps_size == 16
            &&& t.asked[1] matches Request::ContextInit { first, second, third }
            &&& first.param == 1
            &&& first.value == 5
            &&& second.param == 2
            &&& second.value == 2
            &&& third.param == 3
            &&& third.value == 2
            &&& t.asked[2] matches Request::CreateBlob { blob_mem, blob_flags, size, blob_id }
            &&& blob_mem == 1
            &&& blob_flags == 1
            &&& size == 4096
            &&& blob_id == 0
            &&& t.asked[3] == Request::<Seq<u8>>::MapBlob { handle: query.handle }
            &&& t.asked[4] matches Request::MapMemory { length, offset }
            &&& length == 4096
            &&& offset == offsets.0 || offset == offsets.0 - 0x1_0000_0000_0000_0000
            &&& t.asked[5] == t.asked[2]
            &&& t.asked[6] == Request::<Seq<u8>>::MapBlob { handle: channel.handle }
            &&& t.asked[7] matches Request::MapMemory { length: length2, offset: offset2 }
            &&& length2 == 4096
            &&& offset2 == offsets.1 || offset2 == offsets.1 - 0x1_0000_0000_0000_0000
        }),
        ({
            let order = before.platform.byte_order;
            let t = run(
                CreateContext::steps(),
                over((before, CreateContext::spec_start())),
                seq![
                    Reply::Done,
                    Reply::Done,
                    Reply::Blob { bo_handle: query.handle, res_handle: query.resource },
                    Reply::Offset(offsets.0),
                    Reply::Address(query.addr),
                    Reply::Blob { bo_handle: channel.handle, res_handle: channel.resource },
                    Reply::Offset(offsets.1),
                    Reply::Address(channel.addr),
                    Reply::Done,
                    Reply::Done,
                ],
            );
            &&& t.asked[8] matches Request::ExecBuffer {
                command: init,
                size: init_size,
                flags: init_flags,
                ring_idx: init_ring,
                bo_handle: init_object,
            }
            &&& init_size == 20
            &&& init_flags == 0
            &&& init_ring == 0
            &&& init_object is None
            &&& init.len() == 20
            &&& init[0] == 1
            &&& init[1] == 0
            &&& number_at(order, init, 2, 2) == 20
            &&& number_at(order, init, 4, 4) == 0
            &&& number_at(order, init, 8, 4) == query.resource
            &&& number_at(order, init, 12, 4) == channel.resource
            &&& number_at(order, init, 16, 4) == 1
            &&& t.asked[9] matches Request::ExecBuffer {
                command: poll,
                size: poll_size,
                flags: poll_flags,
                ring_idx: poll_ring,
                bo_handle: poll_object,
            }
            &&& poll_size == 16
            &&& poll_flags == 4
            &&& poll_ring == 1
            &&& poll_object is None
            &&& poll.len() == 16
            &&& poll[0] == 3
            &&& poll[1] == 0
            &&& number_at(order, poll, 2, 2) == 16
            &&& number_at(order, poll, 4, 4) == 0
            &&& number_at(order, poll, 8, 8) == 0
            &&& t.end matches Step::Finished(done)
            &&& done.0.query_ring_addr == query.addr
            &&& done.0.query_ring_handle == query.handle
            &&& done.0.channel_ring_addr == channel.addr
            &&& done.0.channel_ring_handle == channel.handle
            &&& done.0.platform == before.platform
            &&& done.0.image_query_cache == before.image_query_cache
        }),
{
    let order = before.platform.byte_order;
    law_context_is_announced_before_it_is_polled(before, query, channel, offsets);
    law_announcement_names_each_ring_in_its_place(order, query.resource, channel.resource);
    law_poll_says_nothing_else(order);
    law_signed_keeps_the_bits(offsets.0);
    law_signed_keeps_the_bits(offsets.1);
}

/// Waits that were cut short, one after the other.
proof fn lemma_all_cut_short(platform: Platform, waits: Seq<i32>)
    requires
        forall|i: int| 0 <= i < waits.len() ==> #[trigger] waits[i] + platform.eagain == 0,
    ensures
        all_cut_short(platform, waits.map_values(|s: i32| Reply::Status(s))),
{
    let cut = waits.map_values(|s: i32| Reply::Status(s));
    assert forall|i: int| 0 <= i < cut.len() implies ((#[trigger] cut[i]) matches Reply::Status(s)
        && platform.spec_waits(s)) by {
        assert(waits[i] + platform.eagain == 0);
    }
}

/// The replies of a card that hands a query over, waits for it and lets the page be
/// read, and that makes a memory object and a descriptor for the image.
pub open spec fn answering(
    waits: Seq<i32>,
    status: i32,
    page: Vec<u8>,
    handle: u32,
    resource: u32,
    fd: i32,
) -> Seq<Reply> {
    seq![Reply::Done] + (waits.map_values(|s: i32| Reply::Status(s)) + seq![
        Reply::Status(status),
        Reply::Bytes(page),
    ] + seq![Reply::Blob { bo_handle: handle, res_handle: resource }, Reply::Fd(fd), Reply::Done])
}

/// The host is asked about an image with the image's own width, height and format,
/// and what is given for a plane are the numbers that the host wrote into the page:
/// the offset at 16 + 4 * plane, the stride at 4 * plane and the modifier at 32.
/// From then on the same page answers for every plane of that image.
pub proof fn law_plane_is_what_the_host_wrote(
    channel: Channel,
    plane: usize,
    later: usize,
    width: u32,
    height: u32,
    format: u32,
    waits: Seq<i32>,
    status: i32,
    page: Vec<u8>,
    handle: u32,
    resource: u32,
    fd: i32,
)
    requires
        !channel.image_query_cache.contains_key((width, height, format)),
        channel.query_ring_addr != 0,
        forall|i: int| 0 <= i < waits.len() ==> #[trigger] waits[i] + channel.platform.eagain == 0,
        status + channel.platform.eagain != 0,
        page@.len() == 4096,
    ensures
        ({
            let order = channel.platform.byte_order;
            let t = run(
                FixMetadata::steps(),
                over((channel, FixMetadata::spec_start(channel, plane, (width, height, format)))),
                answering(waits, status, page, handle, resource, fd),
            );
            let after = left_behind(t.end);
            &&& after.platform == channel.platform
            &&& after.channel_ring_addr == channel.channel_ring_addr
            &&& after.channel_ring_handle == channel.channel_ring_handle
            &&& after.query_ring_addr == channel.query_ring_addr
            &&& after.query_ring_handle == channel.query_ring_handle
            &&& plane < 4 ==> (t.end matches Step::Finished(done) && done.1 matches Some(p) && {
                &&& p.0 == number_at(order, page@, 16 + 4 * plane, 4)
                &&& p.1 == number_at(order, page@, 4 * plane, 4)
                &&& p.2 == number_at(order, page@, 32, 8)
            })
            &&& plane >= 4 ==> (t.end matches Step::Abort(broken) && broken.1
                == Fault::NoSuchPlane)
            &&& later < 4 ==> (FixMetadata::spec_start(
                after,
                later,
                (width, height, format),
            ) matches Step::Finished(kept) && kept matches Some(p) && {
                &&& p.0 == number_at(order, page@, 16 + 4 * later, 4)
                &&& p.1 == number_at(order, page@, 4 * later, 4)
                &&& p.2 == number_at(order, page@, 32, 8)
            })
        }),
{
    let order = channel.platform.byte_order;
    let cut = waits.map_values(|s: i32| Reply::Status(s));
    lemma_all_cut_short(channel.platform, waits);
    law_unknown_image_is_asked_for_once(
        channel,
        plane,
        (width, height, format),
        cut,
        status,
        page,
        (handle, resource, fd),
        later,
    );
    if plane < 4 {
        law_plane_is_read_from_its_places(order, page@, plane as int);
    }
    if later < 4 {
        law_plane_is_read_from_its_places(order, page@, later as int);
    }
}

/// What is asked for in such a query: the 24 bytes that name the image, for the
/// first ring and with the query ring's memory object; that object until it is
/// idle; the query ring's page; and then the host's blob, in the size and under the
/// number that the host wrote at 40 and 48, which becomes a descriptor and is let
/// go.
pub proof fn law_query_asks_for_the_image(
    channel: Channel,
    plane: usize,
    width: u32,
    height: u32,
    format: u32,
    waits: Seq<i32>,
    status: i32,
    page: Vec<u8>,
    handle: u32,
    resource: u32,
    fd: i32,
)
    requires
        !channel.image_query_cache.contains_key((width, height, format)),
        channel.query_ring_addr != 0,
        forall|i: int| 0 <= i < waits.len() ==> #[trigger] waits[i] + channel.platform.eagain == 0,
        status + channel.platform.eagain != 0,
        page@.len() == 4096,
    ensures
        ({
            let order = channel.platform.byte_order;
            let n = waits.len() as int;
            let asked = run(
                FixMetadata::steps(),
                over((channel, FixMetadata::spec_start(channel, plane, (width, height, format)))),
                answering(waits, status, page, handle, resource, fd),
            ).asked;
            &&& asked.len() == n + 6
            &&& asked[0] matches Request::ExecBuffer {
                command,
                size,
                flags,
                ring_idx,
                bo_handle,
            }
            &&& size == 24
            &&& flags == 4
            &&& ring_idx == 0
            &&& channel.query_ring_handle == 0 ==> bo_handle is None
            &&& channel.query_ring_handle != 0 ==> bo_handle == Some(channel.query_ring_handle)
            &&& command.len() == 24
            &&& command[0] == 2
            &&& command[1] == 0
            &&& number_at(order, command, 2, 2) == 24
            &&& number_at(order, command, 4, 4) == 0
            &&& number_at(order, command, 8, 4) == width
            &&& number_at(order, command, 12, 4) == height
            &&& number_at(order, command, 16, 4) == format
            &&& number_at(order, command, 20, 4) == 0x20
            &&& forall|i: int|
                1 <= i <= n + 1 ==> #[trigger] asked[i] == (Request::<Seq<u8>>::Wait {
                    handle: channel.query_ring_handle,
                })
            &&& asked[n + 2] matches Request::ReadRing { addr, len }
            &&& addr == channel.query_ring_addr
            &&& len == 4096
            &&& asked[n + 3] matches Request::CreateBlob {
                blob_mem,
                blob_flags,
                size: blob_size,
                blob_id,
            }
            &&& blob_mem == 2
            &&& blob_flags == 3
            &&& blob_size == number_at(order, page@, 40, 8)
            &&& blob_id == number_at(order, page@, 48, 4)
            &&& asked[n + 4] matches Request::PrimeHandleToFd { handle: h, flags: fd_flags }
            &&& h == handle
            &&& fd_flags == channel.platform.spec_export_flags()
            &&& asked[n + 5] == Request::<Seq<u8>>::GemClose { handle }
        }),
{
    let order = channel.platform.byte_order;
    let cut = waits.map_values(|s: i32| Reply::Status(s));
    lemma_all_cut_short(channel.platform, waits);
    law_unknown_image_is_asked_for_once(
        channel,
        plane,
        (width, height, format),
        cut,
        status,
        page,
        (handle, resource, fd),
        0,
    );
    law_plane_is_read_from_its_places(order, page@, 0);
    law_query_names_the_image(order, width, height, format);
}

/// What is known of an image is given as it is known: the plane's own offset and
/// stride, and the modifier. There are four planes at most.
pub proof fn law_known_plane_is_given(channel: Channel, plane: usize, key: (u32, u32, u32))
    requires
        channel.image_query_cache.contains_key(key),
    ensures
        ({
            let reqs = channel.image_query_cache[key];
            let step = FixMetadata::spec_start(channel, plane, key);
            &&& plane < 4 ==> (step matches Step::Finished(known) && known matches Some(p) && p.0
                == reqs.offsets[plane as int] && p.1 == reqs.strides[plane as int] && p.2
                == reqs.modifier)
            &&& plane >= 4 ==> (step matches Step::Abort(fault) && fault == Fault::NoSuchPlane)
        }),
{
}

/// Without a mapped query ring the answer cannot be read: once the query has been
/// waited for, it is given up, nothing more is asked for, and nothing is kept.
pub proof fn law_query_without_a_ring_is_given_up(
    channel: Channel,
    plane: usize,
    key: (u32, u32, u32),
    status: i32,
)
    requires
        !channel.image_query_cache.contains_key(key),
        channel.query_ring_addr == 0,
        status + channel.platform.eagain != 0,
    ensures
        ({
            let t = run(
                FixMetadata::steps(),
                over((channel, FixMetadata::spec_start(channel, plane, key))),
                seq![Reply::Done, Reply::Status(status)],
            );
            &&& t.asked.len() == 2
            &&& t.asked[1] == (Request::<Seq<u8>>::Wait { handle: channel.query_ring_handle })
            &&& t.end matches Step::Abort(broken)
            &&& broken.0 == channel
            &&& broken.1 == Fault::RingNotMapped
        }),
{
    reveal_with_fuel(run, 3);
}

/// The replies of a card that knows each descriptor by its memory object and its
/// resource, and then takes the message.
pub open spec fn identifying(handles: Seq<u32>, resources: Seq<u32>) -> Seq<Reply> {
    Seq::new(
        2 * handles.len() + 1,
        |k: int|
            if k == 2 * handles.len() {
                Reply::Done
            } else if k % 2 == 0 {
                Reply::Handle(handles[k / 2])
            } else {
                Reply::Resource(resources[k / 2])
            },
    )
}

proof fn lemma_identify_replies(handles: Seq<u32>, resources: Seq<u32>, n: int)
    requires
        handles.len() == resources.len(),
        0 <= n <= handles.len(),
    ensures
        identify_replies(handles, resources, n).len() == 2 * (handles.len() - n),
        forall|k: int|
            0 <= k < 2 * (handles.len() - n) ==> #[trigger] identify_replies(
                handles,
                resources,
                n,
            )[k] == (if k % 2 == 0 {
                Reply::Handle(handles[n + k / 2])
            } else {
                Reply::Resource(resources[n + k / 2])
            }),
    decreases handles.len() - n,
{
    if n < handles.len() {
        lemma_identify_replies(handles, resources, n + 1);
        let all = identify_replies(handles, resources, n);
        let rest = identify_replies(handles, resources, n + 1);
        assert forall|k: int| 0 <= k < 2 * (handles.len() - n) implies #[trigger] all[k] == (if k
            % 2 == 0 {
            Reply::Handle(handles[n + k / 2])
        } else {
            Reply::Resource(resources[n + k / 2])
        }) by {
            if k >= 2 {
                assert(all[k] == rest[k - 2]);
                assert((k - 2) / 2 == k / 2 - 1);
            }
        }
    }
}

proof fn lemma_identify_script(fds: Seq<i32>, handles: Seq<u32>, n: int)
    requires
        0 <= n <= handles.len(),
    ensures
        identify_script(fds, handles, n).len() == 2 * (handles.len() - n),
        forall|k: int|
            0 <= k < 2 * (handles.len() - n) ==> #[trigger] identify_script(fds, handles, n)[k] == (
            if k % 2 == 0 {
                Request::<Seq<u8>>::PrimeFdToHandle { fd: fds[n + k / 2] }
            } else {
                Request::<Seq<u8>>::ResourceInfo { bo_handle: handles[n + k / 2] }
            }),
    decreases handles.len() - n,
{
    if n < handles.len() {
        lemma_identify_script(fds, handles, n + 1);
        let all = identify_script(fds, handles, n);
        let rest = identify_script(fds, handles, n + 1);
        assert forall|k: int| 0 <= k < 2 * (handles.len() - n) implies #[trigger] all[k] == (if k
            % 2 == 0 {
            Request::<Seq<u8>>::PrimeFdToHandle { fd: fds[n + k / 2] }
        } else {
            Request::<Seq<u8>>::ResourceInfo { bo_handle: handles[n + k / 2] }
        }) by {
            if k >= 2 {
                assert(all[k] == rest[k - 2]);
                assert((k - 2) / 2 == k / 2 - 1);
            }
        }
    }
}

/// A message is sent as one command 4. In its header stands its own length; then
/// come how many descriptors and how many bytes it carries, the resource and the
/// type of each descriptor in its turn, zeros in the slots that are left and for
/// all sizes, and behind the 64 bytes of the message the payload, byte for byte.
pub proof fn law_sent_message_stands_in_the_command(
    order: ByteOrder,
    data: Seq<u8>,
    resources: Seq<u32>,
)
    requires
        data.len() < 4032,
        resources.len() <= 4,
    ensures
        ({
            let command = message_command(order, data, blob_ids(resources));
            &&& command.len() == 64 + data.len()
            &&& command[0] == 4
            &&& command[1] == 0
            &&& number_at(order, command, 2, 2) == 64 + data.len()
            &&& number_at(order, command, 4, 4) == 0
            &&& number_at(order, command, 8, 4) == resources.len()
            &&& number_at(order, command, 12, 4) == data.len()
            &&& forall|i: int|
                0 <= i < resources.len() ==> number_at(order, command, 16 + 4 * i, 4)
                    == #[trigger] resources[i] && number_at(order, command, 32 + 4 * i, 4) == 1
            &&& forall|at: int|
                (at == 16 || at == 20 || at == 24 || at == 28) && at >= 16 + 4 * resources.len()
                    ==> #[trigger] number_at(order, command, at, 4) == 0
            &&& forall|at: int|
                (at == 32 || at == 36 || at == 40 || at == 44) && at >= 32 + 4 * resources.len()
                    ==> #[trigger] number_at(order, command, at, 4) == 0
            &&& number_at(order, command, 48, 4) == 0
            &&& number_at(order, command, 52, 4) == 0
            &&& number_at(order, command, 56, 4) == 0
            &&& number_at(order, command, 60, 4) == 0
            &&& forall|k: int| 0 <= k < data.len() ==> command[64 + k] == #[trigger] data[k]
        }),
{
    let ids = blob_ids(resources);
    let command = message_command(order, data, ids);
    law_host_reads_what_was_sent(order, data, ids);
    law_message_is_read_from_its_places(order, command);
    let read = SendReceive::read(order, command);
    assert forall|i: int| 0 <= i < resources.len() implies number_at(order, command, 16 + 4 * i, 4)
        == #[trigger] resources[i] && number_at(order, command, 32 + 4 * i, 4) == 1 by {
        assert(ids[i].id == resources[i] && ids[i].id_type == 1);
        assert(read.identifiers[i] == ids[i].id);
        assert(read.identifier_types[i] == ids[i].id_type);
    }
    assert forall|at: int|
        (at == 16 || at == 20 || at == 24 || at == 28) && at >= 16 + 4
            * resources.len() implies #[trigger] number_at(order, command, at, 4) == 0 by {
        assert(read.identifiers[(at - 16) / 4] == 0);
    }
    assert forall|at: int|
        (at == 32 || at == 36 || at == 40 || at == 44) && at >= 32 + 4
            * resources.len() implies #[trigger] number_at(order, command, at, 4) == 0 by {
        assert(read.identifier_types[(at - 32) / 4] == 0);
    }
    assert(read.identifier_sizes[0] == 0 && read.identifier_sizes[1] == 0
        && read.identifier_sizes[2] == 0 && read.identifier_sizes[3] == 0);
    assert forall|k: int| 0 <= k < data.len() implies command[64 + k] == #[trigger] data[k] by {
        assert(command.skip(64)[k] == data[k]);
    }
}

/// Sending looks up each descriptor in its turn, by its number and then by the
/// memory object that was found, and then submits the message once, whole, for no
/// ring and with no memory object. The result is how many bytes were sent.
pub proof fn law_message_is_sent_whole(
    platform: Platform,
    data: Seq<u8>,
    fds: Seq<i32>,
    handles: Seq<u32>,
    resources: Seq<u32>,
)
    requires
        data.len() < 4032,
        fds.len() == handles.len() == resources.len(),
        fds.len() <= 4,
    ensures
        ({
            let n = fds.len() as int;
            let t = run(
                Sending::steps(platform),
                Sending::start(platform.byte_order, data, fds),
                identifying(handles, resources),
            );
            &&& t.asked.len() == 2 * n + 1
            &&& forall|k: int|
                0 <= k < 2 * n ==> #[trigger] t.asked[k] == (if k % 2 == 0 {
                    Request::<Seq<u8>>::PrimeFdToHandle { fd: fds[k / 2] }
                } else {
                    Request::<Seq<u8>>::ResourceInfo { bo_handle: handles[k / 2] }
                })
            &&& t.asked[2 * n] matches Request::ExecBuffer {
                command,
                size,
                flags,
                ring_idx,
                bo_handle,
            }
            &&& command == message_command(platform.byte_order, data, blob_ids(resources))
            &&& size == 64 + data.len()
            &&& flags == 0
            &&& ring_idx == 0
            &&& bo_handle is None
            &&& t.end matches Step::Finished(sent)
            &&& sent == data.len()
        }),
{
    law_message_is_submitted_once(platform, data, fds, handles, resources);
    lemma_identify_replies(handles, resources, 0);
    lemma_identify_script(fds, handles, 0);
    law_sent_message_stands_in_the_command(platform.byte_order, data, resources);
    assert(identifying(handles, resources) =~= identify_replies(handles, resources, 0).push(
        Reply::Done,
    ));
}

/// A payload is refused exactly if it has 4032 bytes or more, before anything is
/// asked for.
pub proof fn law_payload_limit(order: ByteOrder, data: Seq<u8>, fds: Seq<i32>)
    ensures
        data.len() >= 4032 ==> Sending::start(order, data, fds) == Step::<
            Sending,
            usize,
            Seq<u8>,
        >::Abort(Fault::PacketTooBig),
        data.len() < 4032 ==> Sending::start(order, data, fds) is Ask,
{
}

/// Of five descriptors or more, four are looked up, and then the message is given up
/// without having been submitted.
pub proof fn law_fifth_descriptor_is_refused(
    platform: Platform,
    data: Seq<u8>,
    fds: Seq<i32>,
    handles: Seq<u32>,
    resources: Seq<u32>,
)
    requires
        data.len() < 4032,
        fds.len() > 4,
        handles.len() == 4,
        resources.len() == 4,
    ensures
        ({
            let t = run(
                Sending::steps(platform),
                Sending::start(platform.byte_order, data, fds),
                identifying(handles, resources).take(8),
            );
            &&& t.asked.len() == 8
            &&& forall|k: int|
                0 <= k < 8 ==> #[trigger] t.asked[k] == (if k % 2 == 0 {
                    Request::<Seq<u8>>::PrimeFdToHandle { fd: fds[k / 2] }
                } else {
                    Request::<Seq<u8>>::ResourceInfo { bo_handle: handles[k / 2] }
                })
            &&& t.end == Step::<Sending, usize, Seq<u8>>::Abort(Fault::TooManyIdentifiers)
        }),
{
    law_too_many_descriptors_are_never_submitted(platform, data, fds, handles, resources);
    lemma_identify_replies(handles, resources, 0);
    lemma_identify_script(fds, handles, 0);
    assert(identifying(handles, resources).take(8) =~= identify_replies(handles, resources, 0));
}

/// The replies of a card that has an event and a page, and then makes a memory
/// object and a descriptor for each of some identifiers.
pub open spec fn arriving(
    event: Vec<u8>,
    page: Vec<u8>,
    handles: Seq<u32>,
    resources: Seq<u32>,
    fds: Seq<i32>,
) -> Seq<Reply> {
    Seq::new(
        3 * fds.len() + 2,
        |k: int|
            if k == 0 {
                Reply::Bytes(event)
            } else if k == 1 {
                Reply::Bytes(page)
            } else if k % 3 == 2 {
                Reply::Blob { bo_handle: handles[k / 3], res_handle: resources[k / 3] }
            } else if k % 3 == 0 {
                Reply::Fd(fds[k / 3 - 1])
            } else {
                Reply::Done
            },
    )
}

proof fn lemma_take_over_replies(
    handles: Seq<u32>,
    resources: Seq<u32>,
    fds: Seq<i32>,
    n: int,
)
    requires
        handles.len() == resources.len() == fds.len(),
        0 <= n <= fds.len(),
    ensures
        take_over_replies(handles, resources, fds, n).len() == 3 * (fds.len() - n),
        forall|k: int|
            0 <= k < 3 * (fds.len() - n) ==> #[trigger] take_over_replies(
                handles,
                resources,
                fds,
                n,
            )[k] == (if k % 3 == 0 {
                Reply::Blob { bo_handle: handles[n + k / 3], res_handle: resources[n + k / 3] }
            } else if k % 3 == 1 {
                Reply::Fd(fds[n + k / 3])
            } else {
                Reply::Done
            }),
    decreases fds.len() - n,
{
    if n < fds.len() {
        lemma_take_over_replies(handles, resources, fds, n + 1);
        let all = take_over_replies(handles, resources, fds, n);
        let rest = take_over_replies(handles, resources, fds, n + 1);
        assert forall|k: int| 0 <= k < 3 * (fds.len() - n) implies #[trigger] all[k] == (if k % 3
            == 0 {
            Reply::Blob { bo_handle: handles[n + k / 3], res_handle: resources[n + k / 3] }
        } else if k % 3 == 1 {
            Reply::Fd(fds[n + k / 3])
        } else {
            Reply::Done
        }) by {
            if k >= 3 {
                assert(all[k] == rest[k - 3]);
                assert((k - 3) / 3 == k / 3 - 1);
            }
        }
    }
}

proof fn lemma_take_over_script(platform: Platform, msg: SendReceive, handles: Seq<u32>, n: int)
    requires
        0 <= n <= handles.len(),
    ensures
        take_over_script(platform, msg, handles, n).len() == 3 * (handles.len() - n),
        forall|k: int|
            0 <= k < 3 * (handles.len() - n) ==> #[trigger] take_over_script(
                platform,
                msg,
                handles,
                n,
            )[k] == (if k % 3 == 0 {
                Request::<Seq<u8>>::CreateBlob {
                    blob_mem: 2,
                    blob_flags: 3,
                    size: msg.identifier_sizes[n + k / 3] as u64,
                    blob_id: msg.identifiers[n + k / 3] as u64,
                }
            } else if k % 3 == 1 {
                Request::<Seq<u8>>::PrimeHandleToFd {
                    handle: handles[n + k / 3],
                    flags: platform.spec_export_flags(),
                }
            } else {
                Request::<Seq<u8>>::GemClose { handle: handles[n + k / 3] }
            }),
    decreases handles.len() - n,
{
    if n < handles.len() {
        lemma_take_over_script(platform, msg, handles, n + 1);
        let all = take_over_script(platform, msg, handles, n);
        let rest = take_over_script(platform, msg, handles, n + 1);
        assert forall|k: int| 0 <= k < 3 * (handles.len() - n) implies #[trigger] all[k] == (if k
            % 3 == 0 {
            Request::<Seq<u8>>::CreateBlob {
                blob_mem: 2,
                blob_flags: 3,
                size: msg.identifier_sizes[n + k / 3] as u64,
                blob_id: msg.identifiers[n + k / 3] as u64,
            }
        } else if k % 3 == 1 {
            Request::<Seq<u8>>::PrimeHandleToFd {
                handle: handles[n + k / 3],
                flags: platform.spec_export_flags(),
            }
        } else {
            Request::<Seq<u8>>::GemClose { handle: handles[n + k / 3] }
        }) by {
            if k >= 3 {
                assert(all[k] == rest[k - 3]);
                assert((k - 3) / 3 == k / 3 - 1);
            }
        }
    }
}

/// The replies up to where descriptors have been made.
proof fn lemma_arriving(
    event: Vec<u8>,
    page: Vec<u8>,
    handles: Seq<u32>,
    resources: Seq<u32>,
    fds: Seq<i32>,
)
    requires
        handles.len() == resources.len() == fds.len(),
    ensures
        arriving(event, page, handles, resources, fds) == arrival_replies(
            event,
            page,
            handles,
            resources,
            fds,
        ),
{
    let all = arriving(event, page, handles, resources, fds);
    let taken = take_over_replies(handles, resources, fds, 0);
    lemma_take_over_replies(handles, resources, fds, 0);
    assert forall|k: int| 2 <= k < all.len() implies #[trigger] all[k] == taken[k - 2] by {
        if k % 3 == 2 {
            assert((k - 2) % 3 == 0 && (k - 2) / 3 == k / 3);
        } else if k % 3 == 0 {
            assert((k - 2) % 3 == 1 && (k - 2) / 3 == k / 3 - 1);
        } else {
            assert((k - 2) % 3 == 2);
        }
    }
    assert(all =~= arrival_replies(event, page, handles, resources, fds));
}

/// What has been asked for once descriptors have been made for the first identifiers
/// of a message: its event, its page, and for each identifier the blob under the
/// number and in the size that stand in the page, a descriptor for it, and its
/// release.
proof fn lemma_arrival_is_asked_for(channel: Channel, page: Seq<u8>, handles: Seq<u32>)
    requires
        page.len() == 4096,
        handles.len() <= 4,
    ensures
        ({
            let order = channel.platform.byte_order;
            let asked = arrival_script(channel, page, handles);
            &&& asked.len() == 3 * handles.len() + 2
            &&& asked[0] == (Request::<Seq<u8>>::ReadEvent { capacity: 8 })
            &&& asked[1] == (Request::<Seq<u8>>::ReadRing {
                addr: channel.channel_ring_addr,
                len: 4096,
            })
            &&& forall|k: int|
                2 <= k < asked.len() ==> takes_over(
                    order,
                    page,
                    channel.platform,
                    handles,
                    k,
                    #[trigger] asked[k],
                )
        }),
{
    let order = channel.platform.byte_order;
    let msg = SendReceive::read(order, page);
    let asked = arrival_script(channel, page, handles);
    let script = take_over_script(channel.platform, msg, handles, 0);
    lemma_take_over_script(channel.platform, msg, handles, 0);
    law_message_is_read_from_its_places(order, page);
    assert forall|k: int| 2 <= k < asked.len() implies takes_over(
        order,
        page,
        channel.platform,
        handles,
        k,
        #[trigger] asked[k],
    ) by {
        assert(asked[k] == script[k - 2]);
        let i = (k - 2) / 3;
        assert(0 <= i < 4);
        assert(msg.identifiers[i] == number_at(order, page, 16 + 4 * i, 4));
        assert(msg.identifier_sizes[i] == number_at(order, page, 48 + 4 * i, 4));
    }
}

/// The `k`th request of a receipt, behind the event and the page: three for each
/// identifier, in turn.
pub open spec fn takes_over(
    order: ByteOrder,
    page: Seq<u8>,
    platform: Platform,
    handles: Seq<u32>,
    k: int,
    request: Request<Seq<u8>>,
) -> bool {
    let i = (k - 2) / 3;
    match request {
        Request::CreateBlob { blob_mem, blob_flags, size, blob_id } => {
            &&& (k - 2) % 3 == 0
            &&& blob_mem == 2
            &&& blob_flags == 3
            &&& size == number_at(order, page, 48 + 4 * i, 4)
            &&& blob_id == number_at(order, page, 16 + 4 * i, 4)
        },
        Request::PrimeHandleToFd { handle, flags } => {
            &&& (k - 2) % 3 == 1
            &&& handle == handles[i]
            &&& flags == platform.spec_export_flags()
        },
        Request::GemClose { handle } => (k - 2) % 3 == 2 && handle == handles[i],
        _ => false,
    }
}

/// The identifiers before the `n`th that stand in a page.
proof fn lemma_resources_before(order: ByteOrder, page: Seq<u8>, n: int)
    requires
        page.len() == 4096,
        0 <= n <= 4,
        n <= number_at(order, page, 8, 4),
        forall|i: int| 0 <= i < n ==> #[trigger] number_at(order, page, 32 + 4 * i, 4) == 1,
    ensures
        resources_before(SendReceive::read(order, page), n),
{
    let msg = SendReceive::read(order, page);
    law_message_is_read_from_its_places(order, page);
    assert forall|i: int| 0 <= i < n implies #[trigger] msg.identifier_types[i] == 1 by {
        assert(number_at(order, page, 32 + 4 * i, 4) == 1);
    }
}

/// A message of the host is delivered as it stands in the page. Its length is the
/// number at 12, and the bytes from 64 on fill the buffers one after the other: a
/// buffer gets a byte only if every buffer before it is full. The descriptors are
/// those that the card made, in the order of the identifiers. Then, and only then,
/// the host is polled, once.
pub proof fn law_message_is_delivered_as_it_stands(
    channel: Channel,
    mode: IoMode,
    lens: Seq<usize>,
    event: Vec<u8>,
    page: Vec<u8>,
    handles: Seq<u32>,
    resources: Seq<u32>,
    fds: Seq<i32>,
    i: int,
)
    requires
        channel.channel_ring_addr != 0,
        event@.len() == 8,
        number_at(channel.platform.byte_order, event@, 0, 4) == 0x9000_0000,
        page@.len() == 4096,
        page@[0] == 5,
        number_at(channel.platform.byte_order, page@, 8, 4) == fds.len(),
        fds.len() <= 4,
        handles.len() == resources.len() == fds.len(),
        forall|j: int|
            0 <= j < fds.len() ==> #[trigger] number_at(
                channel.platform.byte_order,
                page@,
                32 + 4 * j,
                4,
            ) == 1,
        64 + number_at(channel.platform.byte_order, page@, 12, 4) <= 4096,
    ensures
        ({
            let order = channel.platform.byte_order;
            let size = number_at(order, page@, 12, 4) as int;
            let before = lens.take(i).fold_left(0int, |sum: int, len: usize| sum + len);
            let t = run(
                Receiving::steps(channel),
                Receiving::begin(channel, mode, lens),
                arriving(event, page, handles, resources, fds).push(Reply::Done),
            );
            &&& t.end matches Step::Finished(delivery)
            &&& delivery matches Delivery::Message { len, chunks, fds: received }
            &&& len == size
            &&& received == fds
            &&& chunks.len() == lens.len()
            &&& 0 <= i < lens.len() ==> {
                &&& size <= before ==> chunks[i].len() == 0
                &&& before < size <= before + lens[i] ==> chunks[i].len() == size - before
                &&& before + lens[i] < size ==> chunks[i].len() == lens[i]
                &&& forall|k: int|
                    0 <= k < chunks[i].len() ==> #[trigger] chunks[i][k] == page@[64 + before + k]
            }
        }),
{
    let order = channel.platform.byte_order;
    let data = payload(order, page@);
    lemma_arriving(event, page, handles, resources, fds);
    lemma_takeable(order, page@);
    law_message_is_read_from_its_places(order, page@);
    law_message_is_delivered(channel, mode, lens, event, page, handles, resources, fds);
    law_buffers_are_filled_in_order(data, lens, i);
    if 0 <= i < lens.len() {
        lemma_sums_grow(lens, i);
        let before = lens.take(i).fold_left(0int, |sum: int, len: usize| sum + len);
        let chunk = parts(data, lens)[i];
        assert forall|k: int| 0 <= k < chunk.len() implies #[trigger] chunk[k] == page@[64 + before
            + k] by {
            assert(chunk[k] == data[before + k]);
        }
    }
}

proof fn lemma_sums_grow(lens: Seq<usize>, i: int)
    requires
        0 <= i <= lens.len(),
    ensures
        lens.take(i).fold_left(0int, |sum: int, len: usize| sum + len) >= 0,
    decreases i,
{
    if i > 0 {
        lemma_sums_grow(lens, i - 1);
        assert(lens.take(i).drop_last() =~= lens.take(i - 1));
    }
}

proof fn lemma_takeable(order: ByteOrder, page: Seq<u8>)
    requires
        page.len() == 4096,
        page[0] == 5,
        number_at(order, page, 8, 4) <= 4,
        forall|j: int|
            0 <= j < number_at(order, page, 8, 4) ==> #[trigger] number_at(
                order,
                page,
                32 + 4 * j,
                4,
            ) == 1,
        64 + number_at(order, page, 12, 4) <= 4096,
    ensures
        takeable(order, page),
{
    law_message_is_read_from_its_places(order, page);
    lemma_resources_before(order, page, number_at(order, page, 8, 4) as int);
}

/// What is asked for to receive such a message: its event, its page, three requests
/// for each identifier in turn, and last the poll for the second ring.
pub proof fn law_receipt_asks_in_order(
    channel: Channel,
    mode: IoMode,
    lens: Seq<usize>,
    event: Vec<u8>,
    page: Vec<u8>,
    handles: Seq<u32>,
    resources: Seq<u32>,
    fds: Seq<i32>,
)
    requires
        channel.channel_ring_addr != 0,
        event@.len() == 8,
        number_at(channel.platform.byte_order, event@, 0, 4) == 0x9000_0000,
        page@.len() == 4096,
        page@[0] == 5,
        number_at(channel.platform.byte_order, page@, 8, 4) == fds.len(),
        fds.len() <= 4,
        handles.len() == resources.len() == fds.len(),
        forall|j: int|
            0 <= j < fds.len() ==> #[trigger] number_at(
                channel.platform.byte_order,
                page@,
                32 + 4 * j,
                4,
            ) == 1,
        64 + number_at(channel.platform.byte_order, page@, 12, 4) <= 4096,
    ensures
        ({
            let order = channel.platform.byte_order;
            let asked = run(
                Receiving::steps(channel),
                Receiving::begin(channel, mode, lens),
                arriving(event, page, handles, resources, fds).push(Reply::Done),
            ).asked;
            &&& asked.len() == 3 * fds.len() + 3
            &&& asked[0] == (Request::<Seq<u8>>::ReadEvent { capacity: 8 })
            &&& asked[1] == (Request::<Seq<u8>>::ReadRing {
                addr: channel.channel_ring_addr,
                len: 4096,
            })
            &&& forall|k: int|
                2 <= k < asked.len() - 1 ==> takes_over(
                    order,
                    page@,
                    channel.platform,
                    handles,
                    k,
                    #[trigger] asked[k],
                )
            &&& asked.last() matches Request::ExecBuffer {
                command,
                size,
                flags,
                ring_idx,
                bo_handle,
            }
            &&& size == 16
            &&& flags == 4
            &&& ring_idx == 1
            &&& bo_handle is None
            &&& command.len() == 16
            &&& command[0] == 3
            &&& command[1] == 0
            &&& number_at(order, command, 2, 2) == 16
            &&& number_at(order, command, 4, 4) == 0
            &&& number_at(order, command, 8, 8) == 0
        }),
{
    let order = channel.platform.byte_order;
    let script = arrival_script(channel, page@, handles);
    lemma_arriving(event, page, handles, resources, fds);
    lemma_takeable(order, page@);
    law_message_is_read_from_its_places(order, page@);
    law_message_is_delivered(channel, mode, lens, event, page, handles, resources, fds);
    lemma_arrival_is_asked_for(channel, page@, handles);
    law_poll_says_nothing_else(order);
    let asked = script.push(poll_request(order));
    assert forall|k: int| 2 <= k < asked.len() - 1 implies takes_over(
        order,
        page@,
        channel.platform,
        handles,
        k,
        #[trigger] asked[k],
    ) by {
        assert(asked[k] == script[k]);
    }
}

/// A message stops at the first identifier that is not of type 1, at a fifth one,
/// or at a payload that leaves the page. The descriptors made before are handed
/// over, and the buffers are left alone.
pub proof fn law_message_stops_at_what_cannot_be_taken(
    channel: Channel,
    mode: IoMode,
    lens: Seq<usize>,
    event: Vec<u8>,
    page: Vec<u8>,
    handles: Seq<u32>,
    resources: Seq<u32>,
    fds: Seq<i32>,
)
    requires
        channel.channel_ring_addr != 0,
        event@.len() == 8,
        number_at(channel.platform.byte_order, event@, 0, 4) == 0x9000_0000,
        page@.len() == 4096,
        page@[0] == 5,
        fds.len() <= number_at(channel.platform.byte_order, page@, 8, 4),
        fds.len() <= 4,
        handles.len() == resources.len() == fds.len(),
        forall|j: int|
            0 <= j < fds.len() ==> #[trigger] number_at(
                channel.platform.byte_order,
                page@,
                32 + 4 * j,
                4,
            ) == 1,
    ensures
        ({
            let order = channel.platform.byte_order;
            let n = fds.len() as int;
            let num = number_at(order, page@, 8, 4) as int;
            let next_type = number_at(order, page@, 32 + 4 * n, 4);
            let end = run(
                Receiving::steps(channel),
                Receiving::begin(channel, mode, lens),
                arriving(event, page, handles, resources, fds),
            ).end;
            &&& n < num && n == 4 ==> (end matches Step::Abort(left) && left.fault
                == Fault::TooManyIdentifiers && left.fds == fds && left.chunks.len() == 0)
            &&& n < num && n < 4 && next_type != 1 ==> (end matches Step::Abort(left) && left.fault
                == Fault::UnsupportedIdentifier(next_type as u32) && left.fds == fds
                && left.chunks.len() == 0)
            &&& n == num && 64 + number_at(order, page@, 12, 4) > 4096 ==> (
            end matches Step::Abort(left) && left.fault == Fault::RingOverrun && left.fds == fds
                && left.chunks.len() == 0)
        }),
{
    let order = channel.platform.byte_order;
    let n = fds.len() as int;
    let num = number_at(order, page@, 8, 4) as int;
    let next_type = number_at(order, page@, 32 + 4 * n, 4);
    let msg = SendReceive::read(order, page@);
    lemma_arriving(event, page, handles, resources, fds);
    lemma_resources_before(order, page@, n);
    law_message_is_read_from_its_places(order, page@);
    if n < num && n < 4 {
        assert(msg.identifier_types[n] == next_type);
    }
    let fault = if n == num {
        Fault::RingOverrun
    } else if n == 4 {
        Fault::TooManyIdentifiers
    } else {
        Fault::UnsupportedIdentifier(next_type as u32)
    };
    if stops_at(msg, n, fault) {
        law_stopped_message_hands_over_its_descriptors(
            channel,
            mode,
            lens,
            event,
            page,
            handles,
            resources,
            fds,
            fault,
        );
    }
}

/// Only an event of eight bytes with the number of a signalled fence leads to the
/// page of the channel ring; any other ends the receipt with its own fault, and
/// nothing has been taken.
pub proof fn law_only_a_signalled_fence_leads_on(
    channel: Channel,
    mode: IoMode,
    lens: Seq<usize>,
    event: Vec<u8>,
)
    requires
        channel.channel_ring_addr != 0,
    ensures
        Receiving::begin(channel, mode, lens) matches Step::Ask(state, request) && {
            let order = channel.platform.byte_order;
            let next = state.step(channel, Reply::Bytes(event));
            &&& request == (Request::<Seq<u8>>::ReadEvent { capacity: 8 })
            &&& event@.len() != 8 ==> (next matches Step::Abort(left) && left.fault
                == Fault::InvalidEventSize && left.fds.len() == 0 && left.chunks.len() == 0)
            &&& event@.len() == 8 && number_at(order, event@, 0, 4) != 0x9000_0000 ==> (
            next matches Step::Abort(left) && left.fault == Fault::InvalidEventType
                && left.fds.len() == 0 && left.chunks.len() == 0)
            &&& event@.len() == 8 && number_at(order, event@, 0, 4) == 0x9000_0000 ==> (
            next matches Step::Ask(s, r) && r == (Request::<Seq<u8>>::ReadRing {
                addr: channel.channel_ring_addr,
                len: 4096,
            }))
        },
{
}

/// Only a page with command 5 is taken for a message; command 6 is not supported,
/// and any other is named in the fault. Nothing has been taken.
pub proof fn law_only_a_message_is_taken(channel: Channel, lens: Seq<usize>, page: Vec<u8>)
    requires
        page@.len() == 4096,
        page@[0] != 5,
    ensures
        (Receiving::ReadingRing { lens }).step(
            channel,
            Reply::Bytes(page),
        ) matches Step::Abort(left) && left.fault == (if page@[0] == 6 {
            Fault::UnsupportedRead
        } else {
            Fault::UnexpectedCommand(page@[0] as u32)
        }) && left.fds.len() == 0 && left.chunks.len() == 0,
{
    law_message_is_read_from_its_places(channel.platform.byte_order, page@);
}

/// On a channel without a mapped channel ring nothing is received, and nothing is
/// asked for.
pub proof fn law_nothing_is_received_without_a_ring(
    channel: Channel,
    mode: IoMode,
    lens: Seq<usize>,
    replies: Seq<Reply>,
)
    requires
        channel.channel_ring_addr == 0,
    ensures
        ({
            let t = run(
                Receiving::steps(channel),
                Receiving::begin(channel, mode, lens),
                replies,
            );
            &&& t.asked.len() == 0
            &&& t.end matches Step::Abort(left)
            &&& left.fault == Fault::RingNotMapped
            &&& left.fds.len() == 0
            &&& left.chunks.len() == 0
        }),
{
}

/// A request is seen with everything that it carries.
pub proof fn law_requests_are_seen_whole(request: Request<Vec<u8>>)
    ensures
        request matches Request::GetVersion { name_len } ==> request@ == (Request::<
            Seq<u8>,
        >::GetVersion { name_len }),
        request matches Request::GetCaps { cap_set_id, size } ==> request@ == (Request::<
            Seq<u8>,
        >::GetCaps { cap_set_id, size }),
        request matches Request::ContextInit { first, second, third } ==> request@ == (Request::<
            Seq<u8>,
        >::ContextInit { first, second, third }),
        request matches Request::CreateBlob { blob_mem, blob_flags, size, blob_id } ==> request@
            == (Request::<Seq<u8>>::CreateBlob { blob_mem, blob_flags, size, blob_id }),
        request matches Request::MapBlob { handle } ==> request@ == (Request::<Seq<u8>>::MapBlob {
            handle,
        }),
        request matches Request::MapMemory { length, offset } ==> request@ == (Request::<
            Seq<u8>,
        >::MapMemory { length, offset }),
        request matches Request::ExecBuffer { command, size, flags, ring_idx, bo_handle }
            ==> request@ == (Request::<Seq<u8>>::ExecBuffer {
            command: command@,
            size,
            flags,
            ring_idx,
            bo_handle,
        }),
        request matches Request::Wait { handle } ==> request@ == (Request::<Seq<u8>>::Wait {
            handle,
        }),
        request matches Request::PrimeFdToHandle { fd } ==> request@ == (Request::<
            Seq<u8>,
        >::PrimeFdToHandle { fd }),
        request matches Request::ResourceInfo { bo_handle } ==> request@ == (Request::<
            Seq<u8>,
        >::ResourceInfo { bo_handle }),
        request matches Request::PrimeHandleToFd { handle, flags } ==> request@ == (Request::<
            Seq<u8>,
        >::PrimeHandleToFd { handle, flags }),
        request matches Request::GemClose { handle } ==> request@ == (Request::<
            Seq<u8>,
        >::GemClose { handle }),
        request matches Request::ReadEvent { capacity } ==> request@ == (Request::<
            Seq<u8>,
        >::ReadEvent { capacity }),
        request matches Request::ReadRing { addr, len } ==> request@ == (Request::<
            Seq<u8>,
        >::ReadRing { addr, len }),
{
}

/// A channel is seen with everything that it remembers.
pub proof fn law_channel_is_seen_whole(channel: VirtgpuChannel)
    ensures
        channel@.platform == channel.platform,
        channel@.channel_ring_addr == channel.channel_ring_addr,
        channel@.channel_ring_handle == channel.channel_ring_handle,
        channel@.query_ring_addr == channel.query_ring_addr,
        channel@.query_ring_handle == channel.query_ring_handle,
        channel@.image_query_cache == channel.image_query_cache@,
{
}

/// What was received is seen with its length, with the bytes for each buffer, and
/// with the descriptors.
pub proof fn law_delivery_is_seen_whole(
    delivery: Delivery<Vec<Vec<u8>>, Vec<i32>>,
    left: Interrupted<Vec<Vec<u8>>, Vec<i32>>,
    i: int,
)
    ensures
        delivery is WouldBlock <==> delivery@ is WouldBlock,
        delivery matches Delivery::Message { len, chunks, fds } ==> (
        delivery@ matches Delivery::Message { len: n, chunks: c, fds: f } && n == len && f == fds@
            && c.len() == chunks@.len() && (0 <= i < c.len() ==> c[i] == chunks@[i]@)),
        left@.fault == left.fault,
        left@.fds == left.fds@,
        left@.chunks.len() == left.chunks@.len(),
        0 <= i < left.chunks@.len() ==> left@.chunks[i] == left.chunks@[i]@,
{
}

/// A step is seen as what it is: what is remembered and asked for, the result, or
/// what is left.
pub proof fn law_step_is_seen_whole<S: View, T: View, F: View>(step: Step<S, T, Vec<u8>, F>)
    ensures
        step matches Step::Ask(state, request) ==> (step@ matches Step::Ask(s, r) && s == state@
            && r == request@),
        step matches Step::Finished(result) ==> (step@ matches Step::Finished(t) && t == result@),
        step matches Step::Abort(left) ==> (step@ matches Step::Abort(f) && f == left@),
{
}

/// Where an operation is, and what the small ones give, is seen as it is.
pub proof fn law_states_are_seen_as_they_are(
    name: GetName,
    ring: CreateRing,
    made: Ring,
    blob: HostBlob,
    analysis: FdAnalysis,
    id: Identifier,
    submit: Submit,
    context: CreateContext,
    connect: Connect,
    query: FixMetadata,
    fault: Fault,
)
    ensures
        name@ == name,
        ring@ == ring,
        made@ == made,
        blob@ == blob,
        analysis@ == analysis,
        id@ == id,
        submit@ == submit,
        context@ == context,
        connect@ == connect,
        query@ == query,
        fault@ == fault,
{
}

} // verus!
