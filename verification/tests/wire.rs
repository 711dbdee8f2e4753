use virtgpu_channel::bytes::{push_number, read_number, ByteOrder};
use virtgpu_channel::cache::{pack, ImageCache};
use virtgpu_channel::identify::Identifier;
use virtgpu_channel::iov::{gather, gathered_len, scatter};
use virtgpu_channel::layout::encode;
use virtgpu_channel::platform::Platform;
use virtgpu_channel::protocol::{
    CrossDomainCmd, CrossDomainGetImageRequirements, CrossDomainHeader,
    CrossDomainImageRequirements, CrossDomainInit, CrossDomainPoll, CrossDomainSendReceive,
};
use virtgpu_channel::ring::signed;
use virtgpu_channel::transmute_vec;

const LITTLE: ByteOrder = ByteOrder::Little;
const BIG: ByteOrder = ByteOrder::Big;

#[test]
fn numbers_are_laid_out_in_either_order() {
    let mut buf = vec![0xaa];
    push_number(LITTLE, &mut buf, 0x0102_0304_0506_0708, 8);
    push_number(LITTLE, &mut buf, 0xbeef, 2);
    push_number(LITTLE, &mut buf, 0x1ff, 1);
    assert_eq!(buf, vec![0xaa, 8, 7, 6, 5, 4, 3, 2, 1, 0xef, 0xbe, 0xff]);
    assert_eq!(read_number(LITTLE, &buf, 1, 8), 0x0102_0304_0506_0708);
    assert_eq!(read_number(BIG, &buf, 1, 8), 0x0807_0605_0403_0201);
    assert_eq!(read_number(LITTLE, &buf, 9, 2), 0xbeef);
    assert_eq!(read_number(LITTLE, &buf, 0, 0), 0);

    let mut buf = vec![0xaa];
    push_number(BIG, &mut buf, 0x0102_0304_0506_0708, 8);
    push_number(BIG, &mut buf, 0x7_beef, 2);
    push_number(BIG, &mut buf, 0x1ff, 1);
    assert_eq!(buf, vec![0xaa, 1, 2, 3, 4, 5, 6, 7, 8, 0xbe, 0xef, 0xff]);
    assert_eq!(read_number(BIG, &buf, 1, 8), 0x0102_0304_0506_0708);
    assert_eq!(read_number(BIG, &buf, 9, 2), 0xbeef);
    assert_eq!(read_number(BIG, &buf, 0, 0), 0);
}

#[test]
fn bytes_of_one_tell_the_order() {
    assert_eq!(ByteOrder::of_one([1, 0]), LITTLE);
    assert_eq!(ByteOrder::of_one([0, 1]), BIG);
}

#[test]
fn commands_stand_as_the_machine_keeps_them() {
    let order = Platform::current().byte_order;
    let cmd = CrossDomainInit::wayland(0x0102_0304, 7);
    let mut wire = vec![1, 0];
    wire.extend(20u16.to_ne_bytes());
    for word in [0u32, 0x0102_0304, 7, 1] {
        wire.extend(word.to_ne_bytes());
    }
    assert_eq!(cmd.to_bytes(order), wire);
}

#[test]
fn records_have_no_gaps() {
    let fields = vec![(1, 1), (2, 4), (3, 2)];
    assert_eq!(encode(LITTLE, &fields), vec![1, 2, 0, 0, 0, 3, 0]);
    assert_eq!(encode(BIG, &fields), vec![1, 0, 0, 0, 2, 0, 3]);
    assert_eq!(encode(BIG, &vec![]), Vec::<u8>::new());
}

#[test]
fn init_is_laid_out_in_order() {
    let cmd = CrossDomainInit::wayland(0x0102_0304, 7);
    assert_eq!(cmd.size(), 20);
    assert_eq!(
        cmd.to_bytes(LITTLE),
        vec![1, 0, 20, 0, 0, 0, 0, 0, 4, 3, 2, 1, 7, 0, 0, 0, 1, 0, 0, 0]
    );
    assert_eq!(
        cmd.to_bytes(BIG),
        vec![1, 0, 0, 20, 0, 0, 0, 0, 1, 2, 3, 4, 0, 0, 0, 7, 0, 0, 0, 1]
    );
}

#[test]
fn poll_is_a_header_and_padding() {
    let cmd = CrossDomainPoll::next();
    assert_eq!(cmd.size(), 16);
    assert_eq!(cmd.to_bytes(LITTLE), vec![3, 0, 16, 0, 0, 0, 0, 0, 0, 0, 0, 0, 0, 0, 0, 0]);
}

#[test]
fn query_names_the_image() {
    let cmd = CrossDomainGetImageRequirements::texture(640, 480, 0x3432_5258);
    assert_eq!(cmd.size(), 24);
    assert_eq!(
        cmd.to_bytes(LITTLE),
        vec![
            2, 0, 24, 0, 0, 0, 0, 0, 0x80, 2, 0, 0, 0xe0, 1, 0, 0, 0x58, 0x52, 0x32, 0x34, 0x20, 0, 0,
            0
        ]
    );
}

#[test]
fn commands_declare_their_size() {
    let wires = [
        CrossDomainInit::wayland(1, 2).to_bytes(LITTLE),
        CrossDomainPoll::next().to_bytes(LITTLE),
        CrossDomainGetImageRequirements::texture(1, 2, 3).to_bytes(LITTLE),
    ];
    for (i, cmd) in [1u8, 3, 2].iter().enumerate() {
        let hdr = CrossDomainHeader::read(LITTLE, &wires[i]);
        assert_eq!(hdr.cmd, *cmd);
        assert_eq!(hdr.cmd_size as usize, wires[i].len());
        assert_eq!(hdr.fence_ctx_idx, 0);
        assert_eq!(hdr.pad, 0);
    }
}

#[test]
fn message_is_read_back_as_it_was() {
    let msg = CrossDomainSendReceive {
        hdr: CrossDomainHeader { cmd: 5, fence_ctx_idx: 6, cmd_size: 0x708, pad: 0x090a_0b0c },
        num_identifiers: 3,
        opaque_data_size: 0xffff_fffe,
        identifiers: [1, 2, 3, 4],
        identifier_types: [5, 6, 7, 8],
        identifier_sizes: [0x9000_0000, 10, 11, 12],
    };
    assert_eq!(msg.size(), 64);
    let mut wire = msg.to_bytes(LITTLE);
    assert_eq!(wire.len(), 64);
    assert_eq!(wire[48..52], [0, 0, 0, 0x90]);
    wire.push(0x55);
    let back = CrossDomainSendReceive::read(LITTLE, &wire);
    assert_eq!(back.hdr, msg.hdr);
    assert_eq!(back.num_identifiers, 3);
    assert_eq!(back.opaque_data_size, 0xffff_fffe);
    assert_eq!(back.identifiers, msg.identifiers);
    assert_eq!(back.identifier_types, msg.identifier_types);
    assert_eq!(back.identifier_sizes, msg.identifier_sizes);
    wire.pop();
    let turned = msg.to_bytes(BIG);
    assert_eq!(turned[48..52], [0x90, 0, 0, 0]);
    assert_eq!(CrossDomainSendReceive::read(BIG, &turned).to_bytes(LITTLE), wire);
    assert_eq!(back.to_bytes(LITTLE), wire);
}

#[test]
fn outgoing_message_fills_slots_in_order() {
    let ids = vec![Identifier { id: 11, id_type: 1 }, Identifier { id: 12, id_type: 1 }];
    let msg = CrossDomainSendReceive::outgoing(100, &ids);
    assert_eq!(msg.hdr, CrossDomainHeader::of(4, 164));
    assert_eq!(msg.num_identifiers, 2);
    assert_eq!(msg.opaque_data_size, 100);
    assert_eq!(msg.identifiers, [11, 12, 0, 0]);
    assert_eq!(msg.identifier_types, [1, 1, 0, 0]);
    assert_eq!(msg.identifier_sizes, [0, 0, 0, 0]);
}

#[test]
fn image_requirements_are_read_by_position() {
    let mut page = vec![0u8; 64];
    page[0] = 1;
    page[12] = 4;
    page[16] = 5;
    page[28] = 8;
    page[32] = 9;
    page[39] = 1;
    page[40] = 10;
    page[48] = 11;
    page[52] = 99;
    let reqs = CrossDomainImageRequirements::read(LITTLE, &page);
    assert_eq!(reqs.strides, [1, 0, 0, 4]);
    assert_eq!(reqs.offsets, [5, 0, 0, 8]);
    assert_eq!(reqs.modifier, 0x0100_0000_0000_0009);
    assert_eq!(reqs.size, 10);
    assert_eq!(reqs.blob_id, 11);
    assert_eq!(reqs.plane(0), (5, 1, 0x0100_0000_0000_0009));
    assert_eq!(reqs.plane(3), (8, 4, 0x0100_0000_0000_0009));
}

#[test]
fn characters_become_octets_bit_for_bit() {
    assert_eq!(transmute_vec(vec![0, 127, -1, -128, 65]), vec![0, 127, 255, 128, 65]);
    assert_eq!(transmute_vec(vec![]), Vec::<u8>::new());
}

#[test]
fn offsets_keep_their_bits() {
    assert_eq!(signed(0x1_0000_0000), 0x1_0000_0000);
    assert_eq!(signed(u64::MAX), -1);
    assert_eq!(signed(0x8000_0000_0000_0000), i64::MIN);
}

#[test]
fn buffers_are_joined_in_order() {
    let bufs = vec![vec![1, 2], vec![], vec![3]];
    assert_eq!(gather(&bufs), vec![1, 2, 3]);
    assert_eq!(gathered_len(&bufs, 4), Some(3));
    assert_eq!(gathered_len(&bufs, 3), None);
    assert_eq!(gathered_len(&vec![], 0), None);
    assert_eq!(gathered_len(&vec![], 1), Some(0));
}

#[test]
fn bytes_are_spread_over_buffers_in_order() {
    let data = vec![1, 2, 3, 4, 5];
    let chunks = scatter(&data, &vec![2, 0, 2, 9, 4]);
    assert_eq!(chunks, vec![vec![1, 2], vec![], vec![3, 4], vec![5], vec![]]);
    assert_eq!(gather(&chunks), data);
    assert_eq!(scatter(&data, &vec![3]), vec![vec![1, 2, 3]]);
}

#[test]
fn answers_are_kept_by_image() {
    assert_eq!(pack((1, 2, 3)), (1u128 << 64) + (2u128 << 32) + 3);
    let mut cache = ImageCache::new();
    assert!(cache.get((1, 2, 3)).is_none());
    let mut reqs = CrossDomainImageRequirements::read(LITTLE, &vec![0; 52]);
    reqs.blob_id = 7;
    cache.insert((1, 2, 3), reqs);
    reqs.blob_id = 8;
    cache.insert((1, 3, 2), reqs);
    assert_eq!(cache.get((1, 2, 3)).unwrap().blob_id, 7);
    assert_eq!(cache.get((1, 3, 2)).unwrap().blob_id, 8);
    assert!(cache.get((2, 1, 3)).is_none());
    reqs.blob_id = 9;
    cache.insert((1, 2, 3), reqs);
    assert_eq!(cache.get((1, 2, 3)).unwrap().blob_id, 9);
}

#[test]
fn platform_has_the_numbers_of_the_system() {
    let platform = Platform::current();
    assert_eq!(platform.eagain, nix::libc::EAGAIN);
    assert_eq!(platform.o_cloexec, nix::libc::O_CLOEXEC);
    assert_eq!(platform.o_rdwr, nix::libc::O_RDWR);
    assert_eq!(platform.o_nonblock, nix::libc::O_NONBLOCK);
    assert_eq!(platform.byte_order == LITTLE, 1u16.to_ne_bytes() == [1, 0]);
    assert_eq!(
        platform.export_flags(),
        nix::libc::O_CLOEXEC as u32 | nix::libc::O_RDWR as u32
    );
    assert!(platform.waits(-nix::libc::EAGAIN));
    assert!(!platform.waits(nix::libc::EAGAIN));
    assert!(!platform.waits(0));
}
