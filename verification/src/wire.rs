//! What stands where in what is exchanged with the host.
use vstd::prelude::*;

use crate::bytes::{lemma_single_byte, lemma_spans, lemma_value_bound, number, number_at, ByteOrder};
use crate::layout::{
    lemma_field_in_record, lemma_read_field, lemma_record_len, offset, record, record_to, Field,
};
use crate::protocol::{
    law_message_roundtrip, CrossDomainCmd, CrossDomainGetImageRequirements, CrossDomainHeader,
    CrossDomainInit, CrossDomainPoll, CrossDomainSendReceive, ImageRequirements, SendReceive,
};

verus! {

proof fn lemma_record_prefix(order: ByteOrder, fields: Seq<Field>, field: Field, n: int)
    requires
        0 <= n <= fields.len(),
    ensures
        record_to(order, fields.push(field), n) == record_to(order, fields, n),
    decreases n,
{
    if n > 0 {
        lemma_record_prefix(order, fields, field, n - 1);
    }
}

/// A record is the bytes of its fields, one field behind the other and nothing
/// between them.
pub proof fn law_record_is_its_fields_in_turn(order: ByteOrder, fields: Seq<Field>, field: Field)
    ensures
        record(order, Seq::empty()) == Seq::<u8>::empty(),
        record(order, fields.push(field)) == record(order, fields) + number(
            order,
            field.0 as nat,
            field.1 as nat,
        ),
{
    lemma_record_prefix(order, fields, field, fields.len() as int);
}

/// Where the fields of a command stand: the header in the first eight bytes, and
/// behind it words.
proof fn lemma_command_offsets(fields: Seq<Field>, i: int)
    requires
        4 <= i <= fields.len(),
        fields[0].1 == 1,
        fields[1].1 == 1,
        fields[2].1 == 2,
        fields[3].1 == 4,
        forall|j: int| 4 <= j < i ==> (#[trigger] fields[j]).1 == 4,
    ensures
        offset(fields, 0) == 0,
        offset(fields, 1) == 1,
        offset(fields, 2) == 2,
        offset(fields, 3) == 4,
        offset(fields, i) == 4 * i - 8,
    decreases i,
{
    if i == 4 {
        reveal_with_fuel(offset, 5);
    } else {
        lemma_command_offsets(fields, i - 1);
        assert(fields[i - 1].1 == 4);
    }
}

/// A field of a record is read where it stands.
proof fn lemma_field_stands(order: ByteOrder, fields: Seq<Field>, i: int)
    requires
        0 <= i < fields.len(),
        ({
            let (x, n) = fields[i];
            ||| n == 1 && x < 0x100
            ||| n == 2 && x < 0x1_0000
            ||| n == 4 && x < 0x1_0000_0000
            ||| n == 8
        }),
    ensures
        number_at(order, record(order, fields), offset(fields, i), fields[i].1 as int)
            == fields[i].0,
{
    lemma_spans();
    lemma_read_field(order, fields, Seq::empty(), i);
    assert(record(order, fields) + Seq::empty() =~= record(order, fields));
}

/// The bytes of a command's header.
proof fn lemma_header_stands(order: ByteOrder, hdr: CrossDomainHeader, fields: Seq<Field>)
    requires
        fields.len() >= 4,
        fields[0] == (hdr.cmd as u64, 1usize),
        fields[1] == (hdr.fence_ctx_idx as u64, 1usize),
        fields[2] == (hdr.cmd_size as u64, 2usize),
        fields[3] == (hdr.pad as u64, 4usize),
    ensures
        ({
            let wire = record(order, fields);
            &&& wire.len() >= 8
            &&& wire[0] == hdr.cmd
            &&& wire[1] == hdr.fence_ctx_idx
            &&& number_at(order, wire, 2, 2) == hdr.cmd_size
            &&& number_at(order, wire, 4, 4) == hdr.pad
        }),
{
    let wire = record(order, fields);
    lemma_command_offsets(fields, 4);
    lemma_field_in_record(order, fields, fields.len() as int, 3);
    lemma_field_stands(order, fields, 0);
    lemma_field_stands(order, fields, 1);
    lemma_field_stands(order, fields, 2);
    lemma_field_stands(order, fields, 3);
    lemma_single_byte(order, wire, 0);
    lemma_single_byte(order, wire, 1);
}

/// The bytes of an announcement: behind the header the two rings, the one for
/// queries first, and the kind of channel.
pub proof fn law_announcement_is_laid_out(order: ByteOrder, cmd: CrossDomainInit)
    ensures
        ({
            let wire = cmd.wire(order);
            &&& wire.len() == 20
            &&& wire[0] == cmd.hdr.cmd
            &&& wire[1] == cmd.hdr.fence_ctx_idx
            &&& number_at(order, wire, 2, 2) == cmd.hdr.cmd_size
            &&& number_at(order, wire, 4, 4) == cmd.hdr.pad
            &&& number_at(order, wire, 8, 4) == cmd.query_ring_id
            &&& number_at(order, wire, 12, 4) == cmd.channel_ring_id
            &&& number_at(order, wire, 16, 4) == cmd.channel_type
        }),
{
    let f = cmd.fields();
    lemma_header_stands(order, cmd.hdr, f);
    lemma_record_len(order, f, 7);
    lemma_command_offsets(f, 4);
    lemma_command_offsets(f, 5);
    lemma_command_offsets(f, 6);
    lemma_command_offsets(f, 7);
    lemma_field_stands(order, f, 4);
    lemma_field_stands(order, f, 5);
    lemma_field_stands(order, f, 6);
}

/// The announcement of two rings names the query ring before the channel ring, as
/// a command 1 of 20 bytes for a channel of kind 1.
pub proof fn law_announcement_names_each_ring_in_its_place(
    order: ByteOrder,
    query: u32,
    channel: u32,
)
    ensures
        ({
            let wire = CrossDomainInit::spec_wayland(query, channel).wire(order);
            &&& wire.len() == 20
            &&& wire[0] == 1
            &&& wire[1] == 0
            &&& number_at(order, wire, 2, 2) == 20
            &&& number_at(order, wire, 4, 4) == 0
            &&& number_at(order, wire, 8, 4) == query
            &&& number_at(order, wire, 12, 4) == channel
            &&& number_at(order, wire, 16, 4) == 1
        }),
{
    law_announcement_is_laid_out(order, CrossDomainInit::spec_wayland(query, channel));
}

/// The bytes of a poll: the header and eight bytes more.
pub proof fn law_poll_is_laid_out(order: ByteOrder, cmd: CrossDomainPoll)
    ensures
        ({
            let wire = cmd.wire(order);
            &&& wire.len() == 16
            &&& wire[0] == cmd.hdr.cmd
            &&& wire[1] == cmd.hdr.fence_ctx_idx
            &&& number_at(order, wire, 2, 2) == cmd.hdr.cmd_size
            &&& number_at(order, wire, 4, 4) == cmd.hdr.pad
            &&& number_at(order, wire, 8, 8) == cmd.pad
        }),
{
    let f = cmd.fields();
    lemma_header_stands(order, cmd.hdr, f);
    lemma_record_len(order, f, 5);
    lemma_command_offsets(f, 4);
    reveal_with_fuel(offset, 2);
    lemma_field_stands(order, f, 4);
}

/// The one poll is a command 3 of 16 bytes that are otherwise zero.
pub proof fn law_poll_says_nothing_else(order: ByteOrder)
    ensures
        ({
            let wire = CrossDomainPoll::spec_next().wire(order);
            &&& wire.len() == 16
            &&& wire[0] == 3
            &&& wire[1] == 0
            &&& number_at(order, wire, 2, 2) == 16
            &&& number_at(order, wire, 4, 4) == 0
            &&& number_at(order, wire, 8, 8) == 0
        }),
{
    law_poll_is_laid_out(order, CrossDomainPoll::spec_next());
}

/// The bytes of a query: behind the header width, height, format and use of the
/// image.
pub proof fn law_query_is_laid_out(order: ByteOrder, cmd: CrossDomainGetImageRequirements)
    ensures
        ({
            let wire = cmd.wire(order);
            &&& wire.len() == 24
            &&& wire[0] == cmd.hdr.cmd
            &&& wire[1] == cmd.hdr.fence_ctx_idx
            &&& number_at(order, wire, 2, 2) == cmd.hdr.cmd_size
            &&& number_at(order, wire, 4, 4) == cmd.hdr.pad
            &&& number_at(order, wire, 8, 4) == cmd.width
            &&& number_at(order, wire, 12, 4) == cmd.height
            &&& number_at(order, wire, 16, 4) == cmd.drm_format
            &&& number_at(order, wire, 20, 4) == cmd.flags
        }),
{
    let f = cmd.fields();
    lemma_header_stands(order, cmd.hdr, f);
    lemma_record_len(order, f, 8);
    lemma_command_offsets(f, 4);
    lemma_command_offsets(f, 5);
    lemma_command_offsets(f, 6);
    lemma_command_offsets(f, 7);
    lemma_command_offsets(f, 8);
    lemma_field_stands(order, f, 4);
    lemma_field_stands(order, f, 5);
    lemma_field_stands(order, f, 6);
    lemma_field_stands(order, f, 7);
}

/// The query for an image names the image as it was asked for, as a command 2 of
/// 24 bytes for an image that will be sampled from.
pub proof fn law_query_names_the_image(order: ByteOrder, width: u32, height: u32, format: u32)
    ensures
        ({
            let wire = CrossDomainGetImageRequirements::spec_texture(width, height, format).wire(
                order,
            );
            &&& wire.len() == 24
            &&& wire[0] == 2
            &&& wire[1] == 0
            &&& number_at(order, wire, 2, 2) == 24
            &&& number_at(order, wire, 4, 4) == 0
            &&& number_at(order, wire, 8, 4) == width
            &&& number_at(order, wire, 12, 4) == height
            &&& number_at(order, wire, 16, 4) == format
            &&& number_at(order, wire, 20, 4) == 0x20
        }),
{
    law_query_is_laid_out(
        order,
        CrossDomainGetImageRequirements::spec_texture(width, height, format),
    );
}

/// What is read of a page or a command is what its bytes say: each number at its
/// place.
pub proof fn law_message_is_read_from_its_places(order: ByteOrder, s: Seq<u8>)
    requires
        s.len() >= 64,
    ensures
        ({
            let msg = SendReceive::read(order, s);
            &&& msg.hdr.cmd == s[0]
            &&& msg.hdr.fence_ctx_idx == s[1]
            &&& msg.hdr.cmd_size == number_at(order, s, 2, 2)
            &&& msg.hdr.pad == number_at(order, s, 4, 4)
            &&& msg.num_identifiers == number_at(order, s, 8, 4)
            &&& msg.opaque_data_size == number_at(order, s, 12, 4)
            &&& msg.identifiers.len() == 4
            &&& msg.identifier_types.len() == 4
            &&& msg.identifier_sizes.len() == 4
            &&& forall|i: int|
                0 <= i < 4 ==> #[trigger] msg.identifiers[i] == number_at(order, s, 16 + 4 * i, 4)
            &&& forall|i: int|
                0 <= i < 4 ==> #[trigger] msg.identifier_types[i] == number_at(
                    order,
                    s,
                    32 + 4 * i,
                    4,
                )
            &&& forall|i: int|
                0 <= i < 4 ==> #[trigger] msg.identifier_sizes[i] == number_at(
                    order,
                    s,
                    48 + 4 * i,
                    4,
                )
        }),
        CrossDomainHeader::spec_read(order, s) == SendReceive::read(order, s).hdr,
{
    lemma_numbers_fit(order, s);
    lemma_single_byte(order, s, 0);
    lemma_single_byte(order, s, 1);
}

/// What stands in so many bytes fits them.
proof fn lemma_numbers_fit(order: ByteOrder, s: Seq<u8>)
    ensures
        forall|at: int|
            0 <= at && at + 2 <= s.len() ==> #[trigger] number_at(order, s, at, 2) < 0x1_0000,
        forall|at: int|
            0 <= at && at + 4 <= s.len() ==> #[trigger] number_at(order, s, at, 4) < 0x1_0000_0000,
        forall|at: int|
            0 <= at && at + 8 <= s.len() ==> #[trigger] number_at(order, s, at, 8)
                < 0x1_0000_0000_0000_0000,
{
    lemma_spans();
    assert forall|at: int| 0 <= at && at + 2 <= s.len() implies #[trigger] number_at(
        order,
        s,
        at,
        2,
    ) < 0x1_0000 by {
        lemma_value_bound(order, s.subrange(at, at + 2));
    }
    assert forall|at: int| 0 <= at && at + 4 <= s.len() implies #[trigger] number_at(
        order,
        s,
        at,
        4,
    ) < 0x1_0000_0000 by {
        lemma_value_bound(order, s.subrange(at, at + 4));
    }
    assert forall|at: int| 0 <= at && at + 8 <= s.len() implies #[trigger] number_at(
        order,
        s,
        at,
        8,
    ) < 0x1_0000_0000_0000_0000 by {
        lemma_value_bound(order, s.subrange(at, at + 8));
    }
}

/// An encoded message has each number at its place.
pub proof fn law_message_is_written_to_its_places(order: ByteOrder, msg: CrossDomainSendReceive)
    ensures
        ({
            let wire = msg.wire(order);
            &&& wire.len() == 64
            &&& wire[0] == msg.hdr.cmd
            &&& wire[1] == msg.hdr.fence_ctx_idx
            &&& number_at(order, wire, 2, 2) == msg.hdr.cmd_size
            &&& number_at(order, wire, 4, 4) == msg.hdr.pad
            &&& number_at(order, wire, 8, 4) == msg.num_identifiers
            &&& number_at(order, wire, 12, 4) == msg.opaque_data_size
            &&& forall|i: int|
                0 <= i < 4 ==> number_at(order, wire, 16 + 4 * i, 4)
                    == #[trigger] msg.identifiers[i]
            &&& forall|i: int|
                0 <= i < 4 ==> number_at(order, wire, 32 + 4 * i, 4)
                    == #[trigger] msg.identifier_types[i]
            &&& forall|i: int|
                0 <= i < 4 ==> number_at(order, wire, 48 + 4 * i, 4)
                    == #[trigger] msg.identifier_sizes[i]
        }),
{
    let wire = msg.wire(order);
    law_message_roundtrip(order, msg@, Seq::empty());
    assert(wire + Seq::empty() =~= wire);
    law_message_is_read_from_its_places(order, wire);
    assert(msg@.identifiers == msg.identifiers@);
    assert forall|i: int| 0 <= i < 4 implies number_at(order, wire, 16 + 4 * i, 4)
        == #[trigger] msg.identifiers[i] by {
        assert(SendReceive::read(order, wire).identifiers[i] == msg.identifiers[i]);
    }
    assert forall|i: int| 0 <= i < 4 implies number_at(order, wire, 32 + 4 * i, 4)
        == #[trigger] msg.identifier_types[i] by {
        assert(SendReceive::read(order, wire).identifier_types[i] == msg.identifier_types[i]);
    }
    assert forall|i: int| 0 <= i < 4 implies number_at(order, wire, 48 + 4 * i, 4)
        == #[trigger] msg.identifier_sizes[i] by {
        assert(SendReceive::read(order, wire).identifier_sizes[i] == msg.identifier_sizes[i]);
    }
}

/// What is read of an answer is what its bytes say, and a plane is the plane's own
/// offset and stride, as they stand there, with the modifier that all planes
/// share.
pub proof fn law_plane_is_read_from_its_places(order: ByteOrder, s: Seq<u8>, idx: int)
    requires
        s.len() >= 52,
        0 <= idx < 4,
    ensures
        ({
            let reqs = ImageRequirements::read(order, s);
            &&& reqs.strides[idx] == number_at(order, s, 4 * idx, 4)
            &&& reqs.offsets[idx] == number_at(order, s, 16 + 4 * idx, 4)
            &&& reqs.modifier == number_at(order, s, 32, 8)
            &&& reqs.size == number_at(order, s, 40, 8)
            &&& reqs.blob_id == number_at(order, s, 48, 4)
            &&& reqs.plane(idx).0 == number_at(order, s, 16 + 4 * idx, 4)
            &&& reqs.plane(idx).1 == number_at(order, s, 4 * idx, 4)
            &&& reqs.plane(idx).2 == number_at(order, s, 32, 8)
        }),
{
    lemma_numbers_fit(order, s);
}

/// A plane is its own offset and its own stride with the modifier that all planes
/// share, each as the host gave it.
pub proof fn law_plane_is_given_as_it_is(reqs: ImageRequirements, idx: int)
    ensures
        reqs.plane(idx).0 == reqs.offsets[idx],
        reqs.plane(idx).1 == reqs.strides[idx],
        reqs.plane(idx).2 == reqs.modifier,
{
}

} // verus!
