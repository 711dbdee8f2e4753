//! The cross-domain protocol: commands, identifiers and wire formats.
use vstd::prelude::*;

use crate::bytes::{lemma_spans, lemma_value_bound, number_at, read_number, span, ByteOrder};
use crate::layout::{
    encode, lemma_read_field, lemma_record_len, lemma_record_of_read, offset, record, Field,
};

verus! {

/// Sets up the context: names both rings and the kind of channel.
pub const CROSS_DOMAIN_CMD_INIT: u8 = 1;

/// Asks how the host lays out an image.
pub const CROSS_DOMAIN_CMD_GET_IMAGE_REQUIREMENTS: u8 = 2;

/// Lets the host put its next message into the channel ring.
pub const CROSS_DOMAIN_CMD_POLL: u8 = 3;

/// Carries bytes and identifiers to the host.
pub const CROSS_DOMAIN_CMD_SEND: u8 = 4;

/// Carries bytes and identifiers from the host.
pub const CROSS_DOMAIN_CMD_RECEIVE: u8 = 5;

/// Carries what the host read from a pipe.
pub const CROSS_DOMAIN_CMD_READ: u8 = 6;

/// The channel speaks Wayland.
pub const CROSS_DOMAIN_CHANNEL_TYPE_WAYLAND: u32 = 1;

/// How many identifiers a message can carry.
pub const CROSS_DOMAIN_MAX_IDENTIFIERS: usize = 4;

/// The identifier is a resource of the virtual GPU.
pub const CROSS_DOMAIN_ID_TYPE_VIRTGPU_BLOB: u32 = 1;

/// The command signals no ring.
pub const CROSS_DOMAIN_RING_NONE: u32 = 0xffff_ffff;

/// The ring for queries.
pub const CROSS_DOMAIN_QUERY_RING: u32 = 0;

/// The ring for the channel's messages.
pub const CROSS_DOMAIN_CHANNEL_RING: u32 = 1;

/// The image will be sampled from.
pub const RUTABAGA_GRALLOC_USE_TEXTURING: u32 = 0x20;

/// The bytes in which the capabilities of the context are reported.
pub const CAPABILITIES_SIZE: u32 = 16;

/// The bytes of an encoded [`CrossDomainInit`].
pub const INIT_SIZE: u16 = 20;

/// The bytes of an encoded [`CrossDomainPoll`].
pub const POLL_SIZE: u16 = 16;

/// The bytes of an encoded [`CrossDomainGetImageRequirements`].
pub const GET_IMAGE_REQUIREMENTS_SIZE: u16 = 24;

/// The bytes of an encoded [`CrossDomainSendReceive`], before its payload.
pub const SEND_RECEIVE_SIZE: u16 = 64;

/// A command that can be submitted to the host.
pub trait CrossDomainCmd: Sized {
    /// The command as the host reads it, in the byte order that both have.
    spec fn wire(&self, order: ByteOrder) -> Seq<u8>;

    /// Encodes the command.
    fn to_bytes(&self, order: ByteOrder) -> (bytes: Vec<u8>)
        ensures
            bytes@ == self.wire(order),
    ;

    /// How many bytes the encoded command has.
    fn size(&self) -> (n: usize)
        ensures
            forall|order: ByteOrder| n == (#[trigger] self.wire(order)).len(),
    ;
}

/// What every command starts with.
#[derive(Clone, Copy, Debug, PartialEq, Eq, Structural)]
pub struct CrossDomainHeader {
    pub cmd: u8,
    pub fence_ctx_idx: u8,
    pub cmd_size: u16,
    pub pad: u32,
}

impl CrossDomainHeader {
    /// The header's fields in wire order.
    pub open spec fn fields(self) -> Seq<Field> {
        seq![
            (self.cmd as u64, 1usize),
            (self.fence_ctx_idx as u64, 1usize),
            (self.cmd_size as u64, 2usize),
            (self.pad as u64, 4usize),
        ]
    }

    /// The header at the start of `s`.
    pub open spec fn spec_read(order: ByteOrder, s: Seq<u8>) -> CrossDomainHeader {
        CrossDomainHeader {
            cmd: number_at(order, s, 0, 1) as u8,
            fence_ctx_idx: number_at(order, s, 1, 1) as u8,
            cmd_size: number_at(order, s, 2, 2) as u16,
            pad: number_at(order, s, 4, 4) as u32,
        }
    }

    /// The header of a command without further marks.
    pub open spec fn spec_of(cmd: u8, cmd_size: u16) -> CrossDomainHeader {
        CrossDomainHeader { cmd, fence_ctx_idx: 0, cmd_size, pad: 0 }
    }

    /// The header of a command without further marks.
    pub fn of(cmd: u8, cmd_size: u16) -> (hdr: CrossDomainHeader)
        ensures
            hdr == Self::spec_of(cmd, cmd_size),
            hdr.cmd == cmd,
            hdr.cmd_size == cmd_size,
            hdr.fence_ctx_idx == 0,
            hdr.pad == 0,
    {
        CrossDomainHeader { cmd, fence_ctx_idx: 0, cmd_size, pad: 0 }
    }

    /// Reads the header at the start of `buf`.
    pub fn read(order: ByteOrder, buf: &Vec<u8>) -> (hdr: CrossDomainHeader)
        requires
            buf@.len() >= 8,
        ensures
            hdr == Self::spec_read(order, buf@),
    {
        proof {
            lemma_spans();
        }
        CrossDomainHeader {
            cmd: read_number(order, buf, 0, 1) as u8,
            fence_ctx_idx: read_number(order, buf, 1, 1) as u8,
            cmd_size: read_number(order, buf, 2, 2) as u16,
            pad: read_number(order, buf, 4, 4) as u32,
        }
    }
}

/// Sets up the context.
#[derive(Clone, Copy, Debug, PartialEq, Eq, Structural)]
pub struct CrossDomainInit {
    pub hdr: CrossDomainHeader,
    pub query_ring_id: u32,
    pub channel_ring_id: u32,
    pub channel_type: u32,
}

impl CrossDomainInit {
    /// A Wayland channel over the two rings.
    pub open spec fn spec_wayland(query_ring_id: u32, channel_ring_id: u32) -> CrossDomainInit {
        CrossDomainInit {
            hdr: CrossDomainHeader::spec_of(CROSS_DOMAIN_CMD_INIT, INIT_SIZE),
            query_ring_id,
            channel_ring_id,
            channel_type: CROSS_DOMAIN_CHANNEL_TYPE_WAYLAND,
        }
    }

    /// A Wayland channel over the two rings.
    pub fn wayland(query_ring_id: u32, channel_ring_id: u32) -> (cmd: CrossDomainInit)
        ensures
            cmd == Self::spec_wayland(query_ring_id, channel_ring_id),
            cmd.query_ring_id == query_ring_id,
            cmd.channel_ring_id == channel_ring_id,
            cmd.channel_type == 1,
            cmd.hdr.cmd == 1,
            cmd.hdr.cmd_size == 20,
    {
        CrossDomainInit {
            hdr: CrossDomainHeader::of(CROSS_DOMAIN_CMD_INIT, INIT_SIZE),
            query_ring_id,
            channel_ring_id,
            channel_type: CROSS_DOMAIN_CHANNEL_TYPE_WAYLAND,
        }
    }

    /// The command's fields in wire order.
    pub open spec fn fields(self) -> Seq<Field> {
        self.hdr.fields() + seq![
            (self.query_ring_id as u64, 4usize),
            (self.channel_ring_id as u64, 4usize),
            (self.channel_type as u64, 4usize),
        ]
    }
}

impl CrossDomainCmd for CrossDomainInit {
    open spec fn wire(&self, order: ByteOrder) -> Seq<u8> {
        record(order, self.fields())
    }

    fn to_bytes(&self, order: ByteOrder) -> (bytes: Vec<u8>) {
        let fields: Vec<Field> = vec![
            (self.hdr.cmd as u64, 1),
            (self.hdr.fence_ctx_idx as u64, 1),
            (self.hdr.cmd_size as u64, 2),
            (self.hdr.pad as u64, 4),
            (self.query_ring_id as u64, 4),
            (self.channel_ring_id as u64, 4),
            (self.channel_type as u64, 4),
        ];
        assert(fields@ =~= self.fields());
        encode(order, &fields)
    }

    fn size(&self) -> (n: usize) {
        proof {
            reveal_with_fuel(offset, 8);
            assert forall|order: ByteOrder|
                (#[trigger] self.wire(order)).len() == INIT_SIZE by {
                lemma_record_len(order, self.fields(), 7);
            }
        }
        INIT_SIZE as usize
    }
}

/// Lets the host put its next message into the channel ring.
#[derive(Clone, Copy, Debug, PartialEq, Eq, Structural)]
pub struct CrossDomainPoll {
    pub hdr: CrossDomainHeader,
    pub pad: u64,
}

impl CrossDomainPoll {
    /// The one poll command there is.
    pub open spec fn spec_next() -> CrossDomainPoll {
        CrossDomainPoll {
            hdr: CrossDomainHeader::spec_of(CROSS_DOMAIN_CMD_POLL, POLL_SIZE),
            pad: 0,
        }
    }

    /// The one poll command there is.
    pub fn next() -> (cmd: CrossDomainPoll)
        ensures
            cmd == Self::spec_next(),
            cmd.hdr.cmd == 3,
            cmd.hdr.cmd_size == 16,
            cmd.pad == 0,
    {
        CrossDomainPoll { hdr: CrossDomainHeader::of(CROSS_DOMAIN_CMD_POLL, POLL_SIZE), pad: 0 }
    }

    /// The command's fields in wire order.
    pub open spec fn fields(self) -> Seq<Field> {
        self.hdr.fields() + seq![(self.pad, 8usize)]
    }
}

impl CrossDomainCmd for CrossDomainPoll {
    open spec fn wire(&self, order: ByteOrder) -> Seq<u8> {
        record(order, self.fields())
    }

    fn to_bytes(&self, order: ByteOrder) -> (bytes: Vec<u8>) {
        let fields: Vec<Field> = vec![
            (self.hdr.cmd as u64, 1),
            (self.hdr.fence_ctx_idx as u64, 1),
            (self.hdr.cmd_size as u64, 2),
            (self.hdr.pad as u64, 4),
            (self.pad, 8),
        ];
        assert(fields@ =~= self.fields());
        encode(order, &fields)
    }

    fn size(&self) -> (n: usize) {
        proof {
            reveal_with_fuel(offset, 6);
            assert forall|order: ByteOrder|
                (#[trigger] self.wire(order)).len() == POLL_SIZE by {
                lemma_record_len(order, self.fields(), 5);
            }
        }
        POLL_SIZE as usize
    }
}

/// Asks how the host lays out an image.
#[derive(Clone, Copy, Debug, PartialEq, Eq, Structural)]
pub struct CrossDomainGetImageRequirements {
    pub hdr: CrossDomainHeader,
    pub width: u32,
    pub height: u32,
    pub drm_format: u32,
    pub flags: u32,
}

impl CrossDomainGetImageRequirements {
    /// Asks for an image that will be sampled from.
    pub open spec fn spec_texture(
        width: u32,
        height: u32,
        drm_format: u32,
    ) -> CrossDomainGetImageRequirements {
        CrossDomainGetImageRequirements {
            hdr: CrossDomainHeader::spec_of(
                CROSS_DOMAIN_CMD_GET_IMAGE_REQUIREMENTS,
                GET_IMAGE_REQUIREMENTS_SIZE,
            ),
            width,
            height,
            drm_format,
            flags: RUTABAGA_GRALLOC_USE_TEXTURING,
        }
    }

    /// Asks for an image that will be sampled from.
    pub fn texture(
        width: u32,
        height: u32,
        drm_format: u32,
    ) -> (cmd: CrossDomainGetImageRequirements)
        ensures
            cmd == Self::spec_texture(width, height, drm_format),
            cmd.width == width,
            cmd.height == height,
            cmd.drm_format == drm_format,
            cmd.flags == 0x20,
            cmd.hdr.cmd == 2,
            cmd.hdr.cmd_size == 24,
    {
        CrossDomainGetImageRequirements {
            hdr: CrossDomainHeader::of(
                CROSS_DOMAIN_CMD_GET_IMAGE_REQUIREMENTS,
                GET_IMAGE_REQUIREMENTS_SIZE,
            ),
            width,
            height,
            drm_format,
            flags: RUTABAGA_GRALLOC_USE_TEXTURING,
        }
    }

    /// The command's fields in wire order.
    pub open spec fn fields(self) -> Seq<Field> {
        self.hdr.fields() + seq![
            (self.width as u64, 4usize),
            (self.height as u64, 4usize),
            (self.drm_format as u64, 4usize),
            (self.flags as u64, 4usize),
        ]
    }
}

impl CrossDomainCmd for CrossDomainGetImageRequirements {
    open spec fn wire(&self, order: ByteOrder) -> Seq<u8> {
        record(order, self.fields())
    }

    fn to_bytes(&self, order: ByteOrder) -> (bytes: Vec<u8>) {
        let fields: Vec<Field> = vec![
            (self.hdr.cmd as u64, 1),
            (self.hdr.fence_ctx_idx as u64, 1),
            (self.hdr.cmd_size as u64, 2),
            (self.hdr.pad as u64, 4),
            (self.width as u64, 4),
            (self.height as u64, 4),
            (self.drm_format as u64, 4),
            (self.flags as u64, 4),
        ];
        assert(fields@ =~= self.fields());
        encode(order, &fields)
    }

    fn size(&self) -> (n: usize) {
        proof {
            reveal_with_fuel(offset, 9);
            assert forall|order: ByteOrder|
                (#[trigger] self.wire(order)).len() == GET_IMAGE_REQUIREMENTS_SIZE by {
                lemma_record_len(order, self.fields(), 8);
            }
        }
        GET_IMAGE_REQUIREMENTS_SIZE as usize
    }
}

/// What a message in either direction starts with; its payload follows.
#[derive(Clone, Copy, Debug)]
pub struct CrossDomainSendReceive {
    pub hdr: CrossDomainHeader,
    pub num_identifiers: u32,
    pub opaque_data_size: u32,
    pub identifiers: [u32; 4],
    pub identifier_types: [u32; 4],
    pub identifier_sizes: [u32; 4],
}

/// The mathematical value of a [`CrossDomainSendReceive`].
#[verifier::ext_equal]
pub struct SendReceive {
    pub hdr: CrossDomainHeader,
    pub num_identifiers: u32,
    pub opaque_data_size: u32,
    pub identifiers: Seq<u32>,
    pub identifier_types: Seq<u32>,
    pub identifier_sizes: Seq<u32>,
}

impl View for CrossDomainSendReceive {
    type V = SendReceive;

    open spec fn view(&self) -> SendReceive {
        SendReceive {
            hdr: self.hdr,
            num_identifiers: self.num_identifiers,
            opaque_data_size: self.opaque_data_size,
            identifiers: self.identifiers@,
            identifier_types: self.identifier_types@,
            identifier_sizes: self.identifier_sizes@,
        }
    }
}

/// The four words of `s` from `at` on.
pub open spec fn words_at(order: ByteOrder, s: Seq<u8>, at: int) -> Seq<u32> {
    seq![
        number_at(order, s, at, 4) as u32,
        number_at(order, s, at + 4, 4) as u32,
        number_at(order, s, at + 8, 4) as u32,
        number_at(order, s, at + 12, 4) as u32,
    ]
}

/// Reads the four words from `at` on.
pub fn read_words(order: ByteOrder, buf: &Vec<u8>, at: usize) -> (words: [u32; 4])
    requires
        at + 16 <= buf@.len(),
    ensures
        words@ == words_at(order, buf@, at as int),
{
    proof {
        lemma_spans();
    }
    assert(buf.len() == buf@.len());
    let words: [u32; 4] = [
        read_number(order, buf, at, 4) as u32,
        read_number(order, buf, at + 4, 4) as u32,
        read_number(order, buf, at + 8, 4) as u32,
        read_number(order, buf, at + 12, 4) as u32,
    ];
    assert(words@ =~= words_at(order, buf@, at as int));
    words
}

impl SendReceive {
    /// Each list of identifiers has a slot for every identifier.
    pub open spec fn wf(self) -> bool {
        &&& self.identifiers.len() == CROSS_DOMAIN_MAX_IDENTIFIERS
        &&& self.identifier_types.len() == CROSS_DOMAIN_MAX_IDENTIFIERS
        &&& self.identifier_sizes.len() == CROSS_DOMAIN_MAX_IDENTIFIERS
    }

    /// The message's fields in wire order.
    pub open spec fn fields(self) -> Seq<Field> {
        self.hdr.fields() + seq![
            (self.num_identifiers as u64, 4usize),
            (self.opaque_data_size as u64, 4usize),
            (self.identifiers[0] as u64, 4usize),
            (self.identifiers[1] as u64, 4usize),
            (self.identifiers[2] as u64, 4usize),
            (self.identifiers[3] as u64, 4usize),
            (self.identifier_types[0] as u64, 4usize),
            (self.identifier_types[1] as u64, 4usize),
            (self.identifier_types[2] as u64, 4usize),
            (self.identifier_types[3] as u64, 4usize),
            (self.identifier_sizes[0] as u64, 4usize),
            (self.identifier_sizes[1] as u64, 4usize),
            (self.identifier_sizes[2] as u64, 4usize),
            (self.identifier_sizes[3] as u64, 4usize),
        ]
    }

    /// The message at the start of `s`.
    pub open spec fn read(order: ByteOrder, s: Seq<u8>) -> SendReceive {
        SendReceive {
            hdr: CrossDomainHeader::spec_read(order, s),
            num_identifiers: number_at(order, s, 8, 4) as u32,
            opaque_data_size: number_at(order, s, 12, 4) as u32,
            identifiers: words_at(order, s, 16),
            identifier_types: words_at(order, s, 32),
            identifier_sizes: words_at(order, s, 48),
        }
    }
}

impl CrossDomainSendReceive {
    /// Reads the message at the start of `buf`.
    pub fn read(order: ByteOrder, buf: &Vec<u8>) -> (msg: CrossDomainSendReceive)
        requires
            buf@.len() >= SEND_RECEIVE_SIZE,
        ensures
            msg@ == SendReceive::read(order, buf@),
            msg@.wf(),
    {
        proof {
            lemma_spans();
        }
        CrossDomainSendReceive {
            hdr: CrossDomainHeader::read(order, buf),
            num_identifiers: read_number(order, buf, 8, 4) as u32,
            opaque_data_size: read_number(order, buf, 12, 4) as u32,
            identifiers: read_words(order, buf, 16),
            identifier_types: read_words(order, buf, 32),
            identifier_sizes: read_words(order, buf, 48),
        }
    }
}

impl CrossDomainCmd for CrossDomainSendReceive {
    open spec fn wire(&self, order: ByteOrder) -> Seq<u8> {
        record(order, self@.fields())
    }

    fn to_bytes(&self, order: ByteOrder) -> (bytes: Vec<u8>) {
        let fields: Vec<Field> = vec![
            (self.hdr.cmd as u64, 1),
            (self.hdr.fence_ctx_idx as u64, 1),
            (self.hdr.cmd_size as u64, 2),
            (self.hdr.pad as u64, 4),
            (self.num_identifiers as u64, 4),
            (self.opaque_data_size as u64, 4),
            (self.identifiers[0] as u64, 4),
            (self.identifiers[1] as u64, 4),
            (self.identifiers[2] as u64, 4),
            (self.identifiers[3] as u64, 4),
            (self.identifier_types[0] as u64, 4),
            (self.identifier_types[1] as u64, 4),
            (self.identifier_types[2] as u64, 4),
            (self.identifier_types[3] as u64, 4),
            (self.identifier_sizes[0] as u64, 4),
            (self.identifier_sizes[1] as u64, 4),
            (self.identifier_sizes[2] as u64, 4),
            (self.identifier_sizes[3] as u64, 4),
        ];
        assert(fields@ =~= self@.fields());
        encode(order, &fields)
    }

    fn size(&self) -> (n: usize) {
        proof {
            reveal_with_fuel(offset, 19);
            assert forall|order: ByteOrder|
                (#[trigger] self.wire(order)).len() == SEND_RECEIVE_SIZE by {
                lemma_record_len(order, self@.fields(), 18);
            }
        }
        SEND_RECEIVE_SIZE as usize
    }
}

/// How the host lays out an image: what the guest needs of its answer.
#[derive(Clone, Copy, Debug)]
pub struct CrossDomainImageRequirements {
    pub strides: [u32; 4],
    pub offsets: [u32; 4],
    pub modifier: u64,
    pub size: u64,
    pub blob_id: u32,
}

/// The mathematical value of a [`CrossDomainImageRequirements`].
#[verifier::ext_equal]
pub struct ImageRequirements {
    pub strides: Seq<u32>,
    pub offsets: Seq<u32>,
    pub modifier: u64,
    pub size: u64,
    pub blob_id: u32,
}

impl View for CrossDomainImageRequirements {
    type V = ImageRequirements;

    open spec fn view(&self) -> ImageRequirements {
        ImageRequirements {
            strides: self.strides@,
            offsets: self.offsets@,
            modifier: self.modifier,
            size: self.size,
            blob_id: self.blob_id,
        }
    }
}

impl ImageRequirements {
    /// The answer at the start of `s`.
    pub open spec fn read(order: ByteOrder, s: Seq<u8>) -> ImageRequirements {
        ImageRequirements {
            strides: words_at(order, s, 0),
            offsets: words_at(order, s, 16),
            modifier: number_at(order, s, 32, 8) as u64,
            size: number_at(order, s, 40, 8) as u64,
            blob_id: number_at(order, s, 48, 4) as u32,
        }
    }

    /// Offset, stride and modifier of one plane.
    pub open spec fn plane(self, idx: int) -> (u32, u32, u64) {
        (self.offsets[idx], self.strides[idx], self.modifier)
    }
}

impl CrossDomainImageRequirements {
    /// Reads the answer at the start of `buf`.
    pub fn read(order: ByteOrder, buf: &Vec<u8>) -> (reqs: CrossDomainImageRequirements)
        requires
            buf@.len() >= 52,
        ensures
            reqs@ == ImageRequirements::read(order, buf@),
    {
        proof {
            lemma_spans();
        }
        CrossDomainImageRequirements {
            strides: read_words(order, buf, 0),
            offsets: read_words(order, buf, 16),
            modifier: read_number(order, buf, 32, 8),
            size: read_number(order, buf, 40, 8),
            blob_id: read_number(order, buf, 48, 4) as u32,
        }
    }

    /// Offset, stride and modifier of one plane.
    pub fn plane(&self, idx: usize) -> (p: (u32, u32, u64))
        requires
            idx < 4,
        ensures
            p == self@.plane(idx as int),
            p.0 == self.offsets[idx as int],
            p.1 == self.strides[idx as int],
            p.2 == self.modifier,
    {
        (self.offsets[idx], self.strides[idx], self.modifier)
    }
}

/// Where the parts of a message stand.
proof fn lemma_message_offsets(msg: SendReceive)
    ensures
        msg.fields().len() == 18,
        forall|i: int| 4 <= i <= 18 ==> #[trigger] offset(msg.fields(), i) == 4 * i - 8,
{
    reveal_with_fuel(offset, 19);
}

/// Four words in a record are read as they are.
proof fn lemma_words_read(
    order: ByteOrder,
    fields: Seq<Field>,
    rest: Seq<u8>,
    first: int,
    words: Seq<u32>,
)
    requires
        0 <= first,
        first + 4 <= fields.len(),
        words.len() == 4,
        forall|i: int|
            0 <= i < 4 ==> #[trigger] fields[first + i] == (words[i] as u64, 4usize) && offset(
                fields,
                first + i,
            ) == offset(fields, first) + 4 * i,
    ensures
        words_at(order, record(order, fields) + rest, offset(fields, first)) == words,
{
    lemma_spans();
    let at = offset(fields, first);
    assert forall|i: int| 0 <= i < 4 implies number_at(
        order,
        record(order, fields) + rest,
        at + 4 * i,
        4,
    ) == #[trigger] words[i] by {
        assert(fields[first + i] == (words[i] as u64, 4usize));
        lemma_read_field(order, fields, rest, first + i);
    }
    assert(number_at(order, record(order, fields) + rest, at, 4) == words[0]);
    assert(number_at(order, record(order, fields) + rest, at + 4, 4) == words[1]);
    assert(number_at(order, record(order, fields) + rest, at + 8, 4) == words[2]);
    assert(number_at(order, record(order, fields) + rest, at + 12, 4) == words[3]);
    assert(words_at(order, record(order, fields) + rest, at) =~= words);
}

/// A message that one side encodes is read back as it was by the other,
/// whatever payload follows it.
pub proof fn law_message_roundtrip(order: ByteOrder, msg: SendReceive, payload: Seq<u8>)
    requires
        msg.wf(),
    ensures
        record(order, msg.fields()).len() == SEND_RECEIVE_SIZE,
        SendReceive::read(order, record(order, msg.fields()) + payload) == msg,
{
    let f = msg.fields();
    lemma_spans();
    lemma_message_offsets(msg);
    assert(offset(f, 4) == 8 && offset(f, 5) == 12 && offset(f, 6) == 16 && offset(f, 10) == 32
        && offset(f, 14) == 48 && offset(f, 18) == 64);
    lemma_record_len(order, f, 18);
    lemma_header_read(order, msg.hdr, f, payload);
    lemma_read_field(order, f, payload, 4);
    lemma_read_field(order, f, payload, 5);
    lemma_words_read(order, f, payload, 6, msg.identifiers);
    lemma_words_read(order, f, payload, 10, msg.identifier_types);
    lemma_words_read(order, f, payload, 14, msg.identifier_sizes);
}

/// Every message is the encoding of exactly what is read from it: nothing in
/// its bytes is passed over.
pub proof fn law_message_read_is_faithful(order: ByteOrder, s: Seq<u8>)
    requires
        s.len() >= SEND_RECEIVE_SIZE,
    ensures
        SendReceive::read(order, s).wf(),
        record(order, SendReceive::read(order, s).fields()) == s.take(SEND_RECEIVE_SIZE as int),
{
    let msg = SendReceive::read(order, s);
    let f = msg.fields();
    lemma_spans();
    lemma_message_offsets(msg);
    assert(offset(f, 18) == 64);
    assert forall|at: int, n: int| 0 <= at && 0 < n && at + n <= s.len() implies (
        #[trigger] number_at(order, s, at, n)) < span(n as nat) by {
        lemma_value_bound(order, s.subrange(at, at + n));
    }
    assert forall|i: int| 0 <= i < 18 implies (#[trigger] f[i]).0 == number_at(
        order,
        s,
        offset(f, i),
        f[i].1 as int,
    ) by {
        if i < 4 {
            reveal_with_fuel(offset, 5);
        } else {
            assert(offset(f, i) == 4 * i - 8);
        }
    }
    lemma_record_of_read(order, f, s, 18);
}

/// An announcement, a poll and a query each start with a header that names the
/// command and declares the size that it has.
pub proof fn law_commands_declare_their_size(order: ByteOrder, a: u32, b: u32, c: u32)
    ensures
        ({
            let wire = CrossDomainInit::spec_wayland(a, b).wire(order);
            let hdr = CrossDomainHeader::spec_read(order, wire);
            hdr.cmd == CROSS_DOMAIN_CMD_INIT && hdr.cmd_size == wire.len()
        }),
        ({
            let wire = CrossDomainPoll::spec_next().wire(order);
            let hdr = CrossDomainHeader::spec_read(order, wire);
            hdr.cmd == CROSS_DOMAIN_CMD_POLL && hdr.cmd_size == wire.len()
        }),
        ({
            let wire = CrossDomainGetImageRequirements::spec_texture(a, b, c).wire(order);
            let hdr = CrossDomainHeader::spec_read(order, wire);
            hdr.cmd == CROSS_DOMAIN_CMD_GET_IMAGE_REQUIREMENTS && hdr.cmd_size == wire.len()
        }),
{
    let init = CrossDomainInit::spec_wayland(a, b);
    let poll = CrossDomainPoll::spec_next();
    let query = CrossDomainGetImageRequirements::spec_texture(a, b, c);
    lemma_header_read(order, init.hdr, init.fields(), Seq::empty());
    assert(init.wire(order) + Seq::empty() =~= init.wire(order));
    lemma_header_read(order, poll.hdr, poll.fields(), Seq::empty());
    assert(poll.wire(order) + Seq::empty() =~= poll.wire(order));
    lemma_header_read(order, query.hdr, query.fields(), Seq::empty());
    assert(query.wire(order) + Seq::empty() =~= query.wire(order));
    reveal_with_fuel(offset, 9);
    lemma_record_len(order, init.fields(), 7);
    lemma_record_len(order, poll.fields(), 5);
    lemma_record_len(order, query.fields(), 8);
}

/// A record that starts with a header's fields is read as that header, whatever
/// follows it.
proof fn lemma_header_read(
    order: ByteOrder,
    hdr: CrossDomainHeader,
    fields: Seq<Field>,
    rest: Seq<u8>,
)
    requires
        fields.len() >= 4,
        fields.take(4) =~= hdr.fields(),
    ensures
        CrossDomainHeader::spec_read(order, record(order, fields) + rest) == hdr,
{
    lemma_spans();
    reveal_with_fuel(offset, 5);
    assert forall|i: int| 0 <= i < 4 implies #[trigger] fields[i] == hdr.fields()[i] by {
        assert(fields[i] == fields.take(4)[i]);
    }
    lemma_read_field(order, fields, rest, 0);
    lemma_read_field(order, fields, rest, 1);
    lemma_read_field(order, fields, rest, 2);
    lemma_read_field(order, fields, rest, 3);
}

} // verus!
