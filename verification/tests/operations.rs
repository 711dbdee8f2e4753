use virtgpu_channel::blob::HostBlob;
use virtgpu_channel::bytes::ByteOrder;
use virtgpu_channel::connect::is_virtio_gpu;
use virtgpu_channel::identify::{FdAnalysis, Identifier};
use virtgpu_channel::platform::Platform;
use virtgpu_channel::protocol::{
    CrossDomainCmd, CrossDomainGetImageRequirements, CrossDomainHeader, CrossDomainInit,
    CrossDomainPoll, CrossDomainSendReceive,
};
use virtgpu_channel::receive::{create_fd, Delivery, Interrupted, IoMode};
use virtgpu_channel::request::{ContextParam, Fault, Reply, Request, Step};
use virtgpu_channel::ring::{CreateRing, Ring};
use virtgpu_channel::submit::submit_cmd;
use virtgpu_channel::VirtgpuChannel;

type Asked = Vec<Request<Vec<u8>>>;

#[derive(Debug)]
enum End<T, F> {
    Open,
    Finished(T),
    Abort(F),
}

fn drive<S, T, F>(
    mut now: Step<S, T, Vec<u8>, F>,
    replies: Vec<Reply>,
    mut step: impl FnMut(S, Reply) -> Step<S, T, Vec<u8>, F>,
) -> (Asked, End<T, F>) {
    let mut asked = Vec::new();
    let mut replies = replies.into_iter();
    loop {
        match now {
            Step::Ask(state, request) => {
                asked.push(request);
                match replies.next() {
                    Some(reply) => now = step(state, reply),
                    None => return (asked, End::Open),
                }
            }
            Step::Finished(result) => {
                assert!(replies.next().is_none());
                return (asked, End::Finished(result));
            }
            Step::Abort(left) => {
                assert!(replies.next().is_none());
                return (asked, End::Abort(left));
            }
        }
    }
}

fn finished<T, F: std::fmt::Debug>(end: End<T, F>) -> T {
    match end {
        End::Finished(result) => result,
        End::Open => panic!("the operation still asks"),
        End::Abort(left) => panic!("the operation was given up: {:?}", left),
    }
}

fn aborted<T, F>(end: End<T, F>) -> F {
    match end {
        End::Abort(left) => left,
        End::Open => panic!("the operation still asks"),
        End::Finished(_) => panic!("the operation has a result"),
    }
}

fn platform() -> Platform {
    Platform {
        eagain: 11,
        o_cloexec: 0x80000,
        o_rdwr: 2,
        o_nonblock: 0x800,
        byte_order: ByteOrder::Little,
    }
}

fn channel() -> VirtgpuChannel {
    let (mut channel, _) = VirtgpuChannel::open_on(platform(), "/dev/dri/card1");
    channel.channel_ring_addr = 0x1000;
    channel.channel_ring_handle = 3;
    channel.query_ring_addr = 0x2000;
    channel.query_ring_handle = 4;
    channel
}

fn exec(command: Vec<u8>, flags: u32, ring_idx: u32, bo_handle: Option<u32>) -> Request<Vec<u8>> {
    let size = command.len() as u32;
    Request::ExecBuffer { command, size, flags, ring_idx, bo_handle }
}

fn poll_in(order: ByteOrder) -> Request<Vec<u8>> {
    exec(CrossDomainPoll::next().to_bytes(order), 4, 1, None)
}

fn poll() -> Request<Vec<u8>> {
    poll_in(ByteOrder::Little)
}

fn blob(bo_handle: u32, res_handle: u32) -> Reply {
    Reply::Blob { bo_handle, res_handle }
}

fn ring_requests(handle: u32, offset: i64) -> Asked {
    vec![
        Request::CreateBlob { blob_mem: 1, blob_flags: 1, size: 4096, blob_id: 0 },
        Request::MapBlob { handle },
        Request::MapMemory { length: 4096, offset },
    ]
}

fn host_blob_requests(idx: u64, size: u64, handle: u32) -> Asked {
    vec![
        Request::CreateBlob { blob_mem: 2, blob_flags: 3, size, blob_id: idx },
        Request::PrimeHandleToFd { handle, flags: 0x80002 },
        Request::GemClose { handle },
    ]
}

#[test]
fn open_gives_a_fresh_channel() {
    let (channel, options) = VirtgpuChannel::open_on(platform(), "/dev/dri/card1");
    assert_eq!(channel.platform, platform());
    assert_eq!(channel.channel_ring_addr, 0);
    assert_eq!(channel.channel_ring_handle, 0);
    assert_eq!(channel.query_ring_addr, 0);
    assert_eq!(channel.query_ring_handle, 0);
    assert_eq!(options.path, "/dev/dri/card1");
    assert!(options.read && options.write);
    assert_eq!(options.custom_flags, 0x800);
    let (channel, options) = VirtgpuChannel::open("x");
    assert_eq!(channel.platform, Platform::current());
    assert_eq!(options.custom_flags, nix::libc::O_NONBLOCK);
}

#[test]
fn submission_without_ring_or_wait_is_one_request() {
    let cmd = CrossDomainInit::wayland(1, 2);
    let (asked, end) = drive(
        submit_cmd(ByteOrder::Little, &cmd, &vec![9, 8], 0xffff_ffff, 0, false),
        vec![Reply::Done],
        |s, r| s.step(&platform(), r),
    );
    let mut command = cmd.to_bytes(ByteOrder::Little);
    command.extend([9, 8]);
    assert_eq!(asked, vec![exec(command, 0, 0, None)]);
    finished(end);
}

#[test]
fn submission_waits_until_the_object_is_idle() {
    let cmd = CrossDomainPoll::next();
    let (asked, end) = drive(
        submit_cmd(ByteOrder::Little, &cmd, &vec![], 0, 6, true),
        vec![Reply::Done, Reply::Status(-11), Reply::Status(-11), Reply::Status(0)],
        |s, r| s.step(&platform(), r),
    );
    assert_eq!(asked[0], exec(cmd.to_bytes(ByteOrder::Little), 4, 0, Some(6)));
    assert_eq!(asked.len(), 4);
    assert!(asked[1..].iter().all(|r| *r == Request::Wait { handle: 6 }));
    finished(end);
}

#[test]
fn successful_wait_ends_the_submission() {
    let here = Platform::current();
    assert!(here.eagain != 0 && here.o_cloexec != 0 && here.o_rdwr != 0 && here.o_nonblock != 0);
    let cmd = CrossDomainPoll::next();
    let (asked, end) = drive(
        submit_cmd(ByteOrder::Little, &cmd, &vec![], 0, 6, true),
        vec![Reply::Done, Reply::Status(-here.eagain), Reply::Status(0)],
        |s, r| s.step(&here, r),
    );
    assert_eq!(asked.len(), 3);
    finished(end);
}

#[test]
fn refused_submission_is_given_up() {
    let cmd = CrossDomainPoll::next();
    let (_, end) = drive(
        submit_cmd(ByteOrder::Little, &cmd, &vec![], 0, 6, true),
        vec![Reply::Done, Reply::Failed(22)],
        |s, r| s.step(&platform(), r),
    );
    assert_eq!(aborted(end), Fault::System(22));
    let (_, end) = drive(
        submit_cmd(ByteOrder::Little, &cmd, &vec![], 0, 6, true),
        vec![Reply::Fd(1)],
        |s, r| s.step(&platform(), r),
    );
    assert_eq!(aborted(end), Fault::UnexpectedReply);
}

#[test]
fn channel_poll_signals_the_channel_ring() {
    let channel = channel();
    let (asked, end) =
        drive(channel.channel_poll(), vec![Reply::Done], |s, r| s.step(&channel.platform, r));
    assert_eq!(asked, vec![poll()]);
    finished(end);
}

#[test]
fn ring_is_one_mapped_guest_page() {
    let (asked, end) = drive(
        CreateRing::start(),
        vec![blob(5, 6), Reply::Offset(0x7000), Reply::Address(0xdead)],
        |s, r| s.step(r),
    );
    assert_eq!(asked, ring_requests(5, 0x7000));
    assert_eq!(finished(end), Ring { handle: 5, resource: 6, addr: 0xdead });
}

#[test]
fn host_blob_is_let_go_once_exported() {
    let (state, request) = HostBlob::create_host_blob(77, 1 << 33);
    let (asked, end) = drive(
        Step::Ask(state, request),
        vec![blob(5, 6), Reply::Fd(12), Reply::Done],
        |s, r| s.step(&platform(), r),
    );
    assert_eq!(asked, host_blob_requests(77, 1 << 33, 5));
    assert_eq!(finished(end), 12);
}

#[test]
fn only_resources_become_descriptors() {
    assert!(create_fd(1, 1, 4096).is_ok());
    assert_eq!(create_fd(1, 4, 4096).unwrap_err(), Fault::UnsupportedIdentifier(4));
    assert_eq!(create_fd(1, 0, 4096).unwrap_err(), Fault::UnsupportedIdentifier(0));
}

#[test]
fn descriptor_is_identified_by_its_resource() {
    let (state, request) = FdAnalysis::fd_analysis(9);
    let (asked, end) = drive(
        Step::Ask(state, request),
        vec![Reply::Handle(5), Reply::Resource(6)],
        |s, r| s.step(r),
    );
    assert_eq!(
        asked,
        vec![Request::PrimeFdToHandle { fd: 9 }, Request::ResourceInfo { bo_handle: 5 }]
    );
    assert_eq!(finished(end), Identifier { id: 6, id_type: 1 });
}

fn name(text: &str) -> Vec<i8> {
    text.bytes().map(|b| b as i8).collect()
}

#[test]
fn name_is_asked_for_in_its_length() {
    let channel = channel();
    let (asked, end) = drive(
        channel.get_name(),
        vec![Reply::NameLength(3), Reply::Name(vec![97, -1, 98])],
        |s, r| s.step(r),
    );
    assert_eq!(
        asked,
        vec![Request::GetVersion { name_len: None }, Request::GetVersion { name_len: Some(3) }]
    );
    assert_eq!(finished(end), vec![97, 255, 98]);
    let (_, end) = drive(
        channel.get_name(),
        vec![Reply::NameLength(0), Reply::Name(vec![])],
        |s, r| s.step(r),
    );
    assert_eq!(finished(end), Vec::<u8>::new());
    let (_, end) = drive(
        channel.get_name(),
        vec![Reply::NameLength(4), Reply::Name(vec![97, -1, 98])],
        |s, r| s.step(r),
    );
    assert_eq!(aborted(end), Fault::UnexpectedReply);
}

fn context_replies() -> Vec<Reply> {
    vec![
        Reply::Done,
        Reply::Done,
        blob(21, 31),
        Reply::Offset(0x1000),
        Reply::Address(0xa000),
        blob(22, 32),
        Reply::Offset(0x2000),
        Reply::Address(0xb000),
        Reply::Done,
        Reply::Done,
    ]
}

fn context_requests(order: ByteOrder) -> Asked {
    let mut asked = vec![
        Request::GetCaps { cap_set_id: 5, size: 16 },
        Request::ContextInit {
            first: ContextParam { param: 1, value: 5 },
            second: ContextParam { param: 2, value: 2 },
            third: ContextParam { param: 3, value: 2 },
        },
    ];
    asked.extend(ring_requests(21, 0x1000));
    asked.extend(ring_requests(22, 0x2000));
    asked.push(exec(CrossDomainInit::wayland(31, 32).to_bytes(order), 0, 0, None));
    asked.push(poll_in(order));
    asked
}

#[test]
fn context_is_announced_before_it_is_polled() {
    let (mut channel, _) = VirtgpuChannel::open_on(platform(), "card");
    let begun = channel.create_context();
    let (asked, end) = drive(begun, context_replies(), |s, r| s.step(&mut channel, r));
    assert_eq!(asked, context_requests(ByteOrder::Little));
    finished(end);
    assert_eq!(channel.query_ring_handle, 21);
    assert_eq!(channel.query_ring_addr, 0xa000);
    assert_eq!(channel.channel_ring_handle, 22);
    assert_eq!(channel.channel_ring_addr, 0xb000);
}

#[test]
fn rings_are_kept_only_when_both_are_made() {
    let (mut channel, _) = VirtgpuChannel::open_on(platform(), "card");
    let begun = channel.create_context();
    let mut replies = context_replies();
    replies.truncate(7);
    replies.push(Reply::Failed(12));
    let (_, end) = drive(begun, replies, |s, r| s.step(&mut channel, r));
    assert_eq!(aborted(end), Fault::System(12));
    assert_eq!(channel.query_ring_handle, 0);
    assert_eq!(channel.channel_ring_handle, 0);
}

#[test]
fn connection_checks_the_driver_and_creates_the_context() {
    let (mut channel, options, begun) = VirtgpuChannel::connect();
    assert_eq!(options.path, "/dev/dri/card0");
    let mut replies = vec![Reply::NameLength(10), Reply::Name(name("virtio_gpu"))];
    replies.extend(context_replies());
    let (asked, end) = drive(begun, replies, |s, r| s.step(&mut channel, r));
    assert_eq!(
        asked[..2],
        [Request::GetVersion { name_len: None }, Request::GetVersion { name_len: Some(10) }]
    );
    assert_eq!(asked[2..], context_requests(channel.platform.byte_order)[..]);
    finished(end);
    assert_eq!(channel.channel_ring_handle, 22);
}

#[test]
fn other_drivers_are_left_alone() {
    for other in ["i915", "virtio_gpV", "virtio_gpu2", ""] {
        assert!(!is_virtio_gpu(&other.as_bytes().to_vec()));
        let (mut channel, _, begun) = VirtgpuChannel::connect();
        let (asked, end) = drive(
            begun,
            vec![Reply::NameLength(other.len() as u64), Reply::Name(name(other))],
            |s, r| s.step(&mut channel, r),
        );
        assert_eq!(asked.len(), 2);
        assert_eq!(aborted(end), Fault::NotVirtioGpu);
    }
    assert!(is_virtio_gpu(&b"virtio_gpu".to_vec()));
}

fn answer_page() -> Vec<u8> {
    let mut page = vec![0u8; 4096];
    page[0] = 64;
    page[4] = 32;
    page[16] = 1;
    page[20] = 2;
    page[32] = 3;
    page[41] = 0x10;
    page[48] = 55;
    page
}

fn query_replies() -> Vec<Reply> {
    vec![
        Reply::Done,
        Reply::Status(-11),
        Reply::Status(0),
        Reply::Bytes(answer_page()),
        blob(8, 9),
        Reply::Fd(10),
        Reply::Done,
    ]
}

#[test]
fn image_is_asked_for_once() {
    let mut channel = channel();
    let begun = channel.fix_metadata(0, 640, 480, 7);
    let (asked, end) = drive(begun, query_replies(), |s, r| s.step(&mut channel, r));
    let query = CrossDomainGetImageRequirements::texture(640, 480, 7).to_bytes(ByteOrder::Little);
    let mut expected = vec![
        exec(query, 4, 0, Some(4)),
        Request::Wait { handle: 4 },
        Request::Wait { handle: 4 },
        Request::ReadRing { addr: 0x2000, len: 4096 },
    ];
    expected.extend(host_blob_requests(55, 0x1000, 8));
    assert_eq!(asked, expected);
    assert_eq!(finished(end), Some((1, 64, 3)));

    let again = channel.fix_metadata(1, 640, 480, 7);
    let (asked, end) = drive(again, vec![], |s, r| s.step(&mut channel, r));
    assert!(asked.is_empty());
    assert_eq!(finished(end), Some((2, 32, 3)));

    let missing = channel.fix_metadata(4, 640, 480, 7);
    let (asked, end) = drive(missing, vec![], |s, r| s.step(&mut channel, r));
    assert!(asked.is_empty());
    assert_eq!(aborted(end), Fault::NoSuchPlane);

    let other = channel.fix_metadata(0, 480, 640, 7);
    let (asked, _) = drive(other, vec![], |s, r| s.step(&mut channel, r));
    assert_eq!(asked.len(), 1);
}

#[test]
fn answer_is_kept_even_if_there_is_no_such_plane() {
    let mut channel = channel();
    let begun = channel.fix_metadata(9, 1, 2, 3);
    let (asked, end) = drive(begun, query_replies(), |s, r| s.step(&mut channel, r));
    assert_eq!(asked.len(), 7);
    assert_eq!(aborted(end), Fault::NoSuchPlane);
    let again = channel.fix_metadata(0, 1, 2, 3);
    let (asked, end) = drive(again, vec![], |s, r| s.step(&mut channel, r));
    assert!(asked.is_empty());
    assert_eq!(finished(end), Some((1, 64, 3)));
}

#[test]
fn no_answer_is_read_without_a_context() {
    let (mut channel, _) = VirtgpuChannel::open_on(platform(), "card");
    for _ in 0..2 {
        let begun = channel.fix_metadata(0, 1, 2, 3);
        let (asked, end) =
            drive(begun, vec![Reply::Done, Reply::Status(0)], |s, r| s.step(&mut channel, r));
        let query = CrossDomainGetImageRequirements::texture(1, 2, 3).to_bytes(ByteOrder::Little);
        assert_eq!(asked, vec![exec(query, 4, 0, None), Request::Wait { handle: 0 }]);
        assert_eq!(aborted(end), Fault::RingNotMapped);
    }
}

#[test]
fn answers_last_through_other_calls() {
    let mut channel = channel();
    let begun = channel.fix_metadata(0, 640, 480, 7);
    finished(drive(begun, query_replies(), |s, r| s.step(&mut channel, r)).1);

    let mut other = answer_page();
    other[16] = 99;
    let begun = channel.fix_metadata(0, 480, 640, 7);
    let replies = vec![Reply::Done, Reply::Status(0), Reply::Bytes(other), Reply::Failed(12)];
    let (_, end) = drive(begun, replies, |s, r| s.step(&mut channel, r));
    assert_eq!(aborted(end), Fault::System(12));
    let begun = channel.create_context();
    finished(drive(begun, context_replies(), |s, r| s.step(&mut channel, r)).1);
    let begun = channel.create_context();
    let (_, end) = drive(begun, vec![Reply::Failed(1)], |s, r| s.step(&mut channel, r));
    assert_eq!(aborted(end), Fault::System(1));

    let again = channel.fix_metadata(0, 640, 480, 7);
    let (asked, end) = drive(again, vec![], |s, r| s.step(&mut channel, r));
    assert!(asked.is_empty());
    assert_eq!(finished(end), Some((1, 64, 3)));
    let again = channel.fix_metadata(0, 480, 640, 7);
    let (asked, end) = drive(again, vec![], |s, r| s.step(&mut channel, r));
    assert!(asked.is_empty());
    assert_eq!(finished(end), Some((99, 64, 3)));
}

#[test]
fn message_is_submitted_with_its_identifiers() {
    let channel = channel();
    let begun = channel.send(&vec![vec![1, 2], vec![3]], vec![40, 41]);
    let (asked, end) = drive(
        begun,
        vec![
            Reply::Handle(5),
            Reply::Resource(50),
            Reply::Handle(6),
            Reply::Resource(60),
            Reply::Done,
        ],
        |s, r| s.step(&channel.platform, r),
    );
    let msg = CrossDomainSendReceive {
        hdr: CrossDomainHeader::of(4, 67),
        num_identifiers: 2,
        opaque_data_size: 3,
        identifiers: [50, 60, 0, 0],
        identifier_types: [1, 1, 0, 0],
        identifier_sizes: [0, 0, 0, 0],
    };
    let mut command = msg.to_bytes(ByteOrder::Little);
    command.extend([1, 2, 3]);
    assert_eq!(
        asked,
        vec![
            Request::PrimeFdToHandle { fd: 40 },
            Request::ResourceInfo { bo_handle: 5 },
            Request::PrimeFdToHandle { fd: 41 },
            Request::ResourceInfo { bo_handle: 6 },
            exec(command, 0, 0, None),
        ]
    );
    assert_eq!(finished(end), 3);
}

#[test]
fn empty_message_is_submitted_at_once() {
    let channel = channel();
    let (asked, end) = drive(channel.send(&vec![], vec![]), vec![Reply::Done], |s, r| {
        s.step(&channel.platform, r)
    });
    let msg = CrossDomainSendReceive::outgoing(0, &vec![]);
    assert_eq!(asked, vec![exec(msg.to_bytes(ByteOrder::Little), 0, 0, None)]);
    assert_eq!(finished(end), 0);
}

#[test]
fn long_payloads_are_refused() {
    let channel = channel();
    let (asked, end) = drive(channel.send(&vec![vec![0; 4032]], vec![1]), vec![], |s, r| {
        s.step(&channel.platform, r)
    });
    assert!(asked.is_empty());
    assert_eq!(aborted(end), Fault::PacketTooBig);
    let (asked, end) =
        drive(channel.send(&vec![vec![0; 4031]], vec![]), vec![Reply::Done], |s, r| {
            s.step(&channel.platform, r)
        });
    match &asked[0] {
        Request::ExecBuffer { command, size, .. } => {
            assert_eq!(command.len(), 4095);
            assert_eq!(*size, 4095);
            assert_eq!(CrossDomainHeader::read(ByteOrder::Little, command).cmd_size, 4095);
        }
        other => panic!("{:?}", other),
    }
    assert_eq!(finished(end), 4031);
}

#[test]
fn a_fifth_descriptor_is_never_submitted() {
    let channel = channel();
    let mut replies = Vec::new();
    for i in 0..4 {
        replies.push(Reply::Handle(i));
        replies.push(Reply::Resource(i));
    }
    let (asked, end) =
        drive(channel.send(&vec![vec![1]], vec![1, 2, 3, 4, 5]), replies, |s, r| {
            s.step(&channel.platform, r)
        });
    assert_eq!(asked.len(), 8);
    assert!(asked.iter().all(|r| !matches!(r, Request::ExecBuffer { .. })));
    assert_eq!(aborted(end), Fault::TooManyIdentifiers);
}

fn fence_event() -> Reply {
    Reply::Bytes(vec![0, 0, 0, 0x90, 8, 0, 0, 0])
}

fn message_page(cmd: u8, types: [u32; 4], num: u32, payload: &[u8]) -> Vec<u8> {
    let msg = CrossDomainSendReceive {
        hdr: CrossDomainHeader::of(cmd, 64),
        num_identifiers: num,
        opaque_data_size: payload.len() as u32,
        identifiers: [71, 72, 73, 74],
        identifier_types: types,
        identifier_sizes: [4096, 8192, 1, 2],
    };
    let mut page = msg.to_bytes(ByteOrder::Little);
    page.extend(payload);
    page.resize(4096, 0xee);
    page
}

fn receive(
    mode: IoMode,
    lens: Vec<usize>,
    replies: Vec<Reply>,
) -> (Asked, End<Delivery<Vec<Vec<u8>>, Vec<i32>>, Interrupted<Vec<Vec<u8>>, Vec<i32>>>) {
    let channel = channel();
    drive(channel.recv(lens, mode), replies, |s, r| s.step(&channel, r))
}

#[test]
fn message_is_delivered_with_its_descriptors() {
    let page = message_page(5, [1, 1, 0, 0], 2, &[1, 2, 3, 4, 5]);
    let (asked, end) = receive(
        IoMode::NonBlocking,
        vec![2, 2, 2],
        vec![
            fence_event(),
            Reply::Bytes(page),
            blob(5, 50),
            Reply::Fd(15),
            Reply::Done,
            blob(6, 60),
            Reply::Fd(16),
            Reply::Done,
            Reply::Done,
        ],
    );
    let mut expected = vec![
        Request::ReadEvent { capacity: 8 },
        Request::ReadRing { addr: 0x1000, len: 4096 },
    ];
    expected.extend(host_blob_requests(71, 4096, 5));
    expected.extend(host_blob_requests(72, 8192, 6));
    expected.push(poll());
    assert_eq!(asked, expected);
    match finished(end) {
        Delivery::Message { len, chunks, fds } => {
            assert_eq!(len, 5);
            assert_eq!(chunks, vec![vec![1, 2], vec![3, 4], vec![5]]);
            assert_eq!(fds, vec![15, 16]);
        }
        Delivery::WouldBlock => panic!("there was a message"),
    }
}

#[test]
fn declared_length_is_reported_even_without_room() {
    let page = message_page(5, [0; 4], 0, &[1, 2, 3]);
    let (_, end) = receive(
        IoMode::Blocking,
        vec![1],
        vec![fence_event(), Reply::Bytes(page), Reply::Done],
    );
    match finished(end) {
        Delivery::Message { len, chunks, fds } => {
            assert_eq!(len, 3);
            assert_eq!(chunks, vec![vec![1]]);
            assert!(fds.is_empty());
        }
        Delivery::WouldBlock => panic!("there was a message"),
    }
}

#[test]
fn receiving_waits_only_if_it_may() {
    let (asked, end) = receive(IoMode::NonBlocking, vec![], vec![Reply::Failed(11)]);
    assert_eq!(asked, vec![Request::ReadEvent { capacity: 8 }]);
    assert!(matches!(finished(end), Delivery::WouldBlock));

    let page = message_page(5, [0; 4], 0, &[]);
    let (asked, end) = receive(
        IoMode::Blocking,
        vec![],
        vec![
            Reply::Failed(11),
            Reply::Failed(11),
            fence_event(),
            Reply::Bytes(page),
            Reply::Done,
        ],
    );
    assert!(asked[..3].iter().all(|r| *r == Request::ReadEvent { capacity: 8 }));
    assert_eq!(asked.len(), 5);
    assert!(matches!(finished(end), Delivery::Message { len: 0, .. }));
}

#[test]
fn events_that_are_no_fences_are_faults() {
    let fault = |reply: Reply| {
        let left = aborted(receive(IoMode::Blocking, vec![3], vec![reply]).1);
        assert!(left.chunks.is_empty() && left.fds.is_empty());
        left.fault
    };
    assert_eq!(fault(Reply::Failed(5)), Fault::System(5));
    assert_eq!(fault(Reply::Bytes(vec![0, 0, 0, 0x90])), Fault::InvalidEventSize);
    assert_eq!(
        fault(Reply::Bytes(vec![1, 0, 0, 0x90, 8, 0, 0, 0])),
        Fault::InvalidEventType
    );
    assert_eq!(fault(Reply::Done), Fault::UnexpectedReply);
}

#[test]
fn ring_contents_that_are_no_messages_are_faults() {
    let fault = |page: Vec<u8>| {
        let replies = vec![fence_event(), Reply::Bytes(page)];
        let left = aborted(receive(IoMode::Blocking, vec![3], replies).1);
        assert!(left.chunks.is_empty() && left.fds.is_empty());
        left.fault
    };
    assert_eq!(fault(message_page(6, [0; 4], 0, &[])), Fault::UnsupportedRead);
    assert_eq!(fault(message_page(3, [0; 4], 0, &[])), Fault::UnexpectedCommand(3));
    assert_eq!(fault(message_page(5, [4, 0, 0, 0], 1, &[])), Fault::UnsupportedIdentifier(4));
    assert_eq!(fault(vec![5; 100]), Fault::UnexpectedReply);
    let mut long = message_page(5, [0; 4], 0, &[]);
    long[12] = 0xc1;
    long[13] = 0x0f;
    assert_eq!(fault(long), Fault::RingOverrun);
}

#[test]
fn longest_payload_fills_the_ring() {
    let page = message_page(5, [0; 4], 0, &[7; 4032]);
    let (_, end) = receive(
        IoMode::Blocking,
        vec![4096],
        vec![fence_event(), Reply::Bytes(page), Reply::Done],
    );
    match finished(end) {
        Delivery::Message { len, chunks, .. } => {
            assert_eq!(len, 4032);
            assert_eq!(chunks, vec![vec![7; 4032]]);
        }
        Delivery::WouldBlock => panic!("there was a message"),
    }
}

#[test]
fn a_fifth_identifier_is_a_fault_after_four_descriptors() {
    let mut replies = vec![fence_event(), Reply::Bytes(message_page(5, [1; 4], 5, &[]))];
    for i in 0..4 {
        replies.push(blob(i, i));
        replies.push(Reply::Fd(30 + i as i32));
        replies.push(Reply::Done);
    }
    let (asked, end) = receive(IoMode::Blocking, vec![], replies);
    assert_eq!(asked.len(), 14);
    assert!(asked.iter().all(|r| !matches!(r, Request::ExecBuffer { .. })));
    let left = aborted(end);
    assert_eq!(left.fault, Fault::TooManyIdentifiers);
    assert_eq!(left.fds, vec![30, 31, 32, 33]);
    assert!(left.chunks.is_empty());
}

#[test]
fn nothing_is_received_without_a_context() {
    for mode in [IoMode::Blocking, IoMode::NonBlocking] {
        let (channel, _) = VirtgpuChannel::open_on(platform(), "card");
        let (asked, end) =
            drive(channel.recv(vec![4], mode), vec![], |s, r| s.step(&channel, r));
        assert!(asked.is_empty());
        let left = aborted(end);
        assert_eq!(left.fault, Fault::RingNotMapped);
        assert!(left.chunks.is_empty() && left.fds.is_empty());
        let (asked, end) = drive(
            channel.handle_channel_event(vec![4], mode),
            vec![],
            |s, r| s.step(&channel, r),
        );
        assert!(asked.is_empty());
        assert_eq!(aborted(end).fault, Fault::RingNotMapped);
    }
}

#[test]
fn stopped_message_hands_over_the_descriptors_before() {
    let page = message_page(5, [1, 3, 1, 1], 4, &[1, 2]);
    let (asked, end) = receive(
        IoMode::Blocking,
        vec![2],
        vec![fence_event(), Reply::Bytes(page), blob(5, 50), Reply::Fd(15), Reply::Done],
    );
    assert_eq!(asked.len(), 5);
    let left = aborted(end);
    assert_eq!(left.fault, Fault::UnsupportedIdentifier(3));
    assert_eq!(left.fds, vec![15]);
    assert!(left.chunks.is_empty());
}

#[test]
fn refused_descriptor_leaves_the_earlier_ones() {
    for granted in 0..3 {
        let mut second = vec![blob(6, 60), Reply::Fd(16)];
        second.truncate(granted);
        second.push(Reply::Failed(24));
        let page = message_page(5, [1; 4], 2, &[1, 2]);
        let mut replies =
            vec![fence_event(), Reply::Bytes(page), blob(5, 50), Reply::Fd(15), Reply::Done];
        replies.extend(second);
        let (asked, end) = receive(IoMode::Blocking, vec![2], replies);
        assert_eq!(asked[5..], host_blob_requests(72, 8192, 6)[..granted + 1]);
        let left = aborted(end);
        assert_eq!(left.fault, Fault::System(24));
        assert_eq!(left.fds, vec![15]);
        assert!(left.chunks.is_empty());
    }
}

#[test]
fn refused_poll_leaves_the_message() {
    let page = message_page(5, [1; 4], 1, &[1, 2, 3]);
    let (asked, end) = receive(
        IoMode::Blocking,
        vec![2, 2],
        vec![
            fence_event(),
            Reply::Bytes(page),
            blob(5, 50),
            Reply::Fd(15),
            Reply::Done,
            Reply::Failed(5),
        ],
    );
    assert_eq!(asked[5], poll());
    let left = aborted(end);
    assert_eq!(left.fault, Fault::System(5));
    assert_eq!(left.fds, vec![15]);
    assert_eq!(left.chunks, vec![vec![1, 2], vec![3]]);
}

fn big_channel() -> VirtgpuChannel {
    let mut channel = channel();
    channel.platform.byte_order = ByteOrder::Big;
    channel
}

#[test]
fn context_is_announced_in_the_byte_order_of_the_machine() {
    let mut channel = big_channel();
    let begun = channel.create_context();
    let (asked, end) = drive(begun, context_replies(), |s, r| s.step(&mut channel, r));
    assert_eq!(asked, context_requests(ByteOrder::Big));
    finished(end);
    let (asked, end) =
        drive(channel.channel_poll(), vec![Reply::Done], |s, r| s.step(&channel.platform, r));
    assert_eq!(asked, vec![poll_in(ByteOrder::Big)]);
    finished(end);
}

#[test]
fn messages_are_received_in_the_byte_order_of_the_machine() {
    let channel = big_channel();
    let msg = CrossDomainSendReceive {
        hdr: CrossDomainHeader::of(5, 64),
        num_identifiers: 1,
        opaque_data_size: 3,
        identifiers: [71, 0, 0, 0],
        identifier_types: [1, 0, 0, 0],
        identifier_sizes: [4096, 0, 0, 0],
    };
    let mut page = msg.to_bytes(ByteOrder::Big);
    page.extend([7, 8, 9]);
    page.resize(4096, 0);
    let (asked, end) = drive(
        channel.recv(vec![8], IoMode::Blocking),
        vec![
            Reply::Bytes(vec![0x90, 0, 0, 0, 0, 0, 0, 8]),
            Reply::Bytes(page),
            blob(5, 50),
            Reply::Fd(15),
            Reply::Done,
            Reply::Done,
        ],
        |s, r| s.step(&channel, r),
    );
    assert_eq!(asked[2..5], host_blob_requests(71, 4096, 5)[..]);
    assert_eq!(asked[5], poll_in(ByteOrder::Big));
    match finished(end) {
        Delivery::Message { len, chunks, fds } => {
            assert_eq!(len, 3);
            assert_eq!(chunks, vec![vec![7, 8, 9]]);
            assert_eq!(fds, vec![15]);
        }
        Delivery::WouldBlock => panic!("there was a message"),
    }
    let (_, end) = drive(
        channel.recv(vec![8], IoMode::Blocking),
        vec![fence_event()],
        |s, r| s.step(&channel, r),
    );
    assert_eq!(aborted(end).fault, Fault::InvalidEventType);
}

#[test]
fn messages_are_sent_in_the_byte_order_of_the_machine() {
    let channel = big_channel();
    let (asked, end) = drive(
        channel.send(&vec![vec![1, 2], vec![3]], vec![9]),
        vec![Reply::Handle(4), Reply::Resource(0x0102), Reply::Done],
        |s, r| s.step(&channel.platform, r),
    );
    let mut command = vec![4, 0, 0, 67, 0, 0, 0, 0, 0, 0, 0, 1, 0, 0, 0, 3, 0, 0, 1, 2];
    command.resize(32, 0);
    command.extend([0, 0, 0, 1]);
    command.resize(64, 0);
    command.extend([1, 2, 3]);
    assert_eq!(asked[2], exec(command, 0, 0, None));
    assert_eq!(finished(end), 3);
}

#[test]
fn images_are_asked_for_in_the_byte_order_of_the_machine() {
    let mut channel = big_channel();
    let mut page = vec![0u8; 4096];
    page[3] = 64;
    page[19] = 1;
    page[39] = 3;
    page[46] = 0x10;
    page[51] = 55;
    let mut replies = query_replies();
    replies[3] = Reply::Bytes(page);
    let begun = channel.fix_metadata(0, 640, 480, 7);
    let (asked, end) = drive(begun, replies, |s, r| s.step(&mut channel, r));
    let query = CrossDomainGetImageRequirements::texture(640, 480, 7).to_bytes(ByteOrder::Big);
    assert_eq!(query[8..16], [0, 0, 2, 0x80, 0, 0, 1, 0xe0]);
    assert_eq!(asked[0], exec(query, 4, 0, Some(4)));
    assert_eq!(asked[4..], host_blob_requests(55, 0x1000, 8)[..]);
    assert_eq!(finished(end), Some((1, 64, 3)));
}
