use myway::buffer::{SendError, SendHalf};
use myway::client::Client;
use myway::object_impls::ShmPool;
use myway::objects::{AnyObject, ObjectKind};
use myway::wire::Id;
use myway::server::{classify_event, LoopAction, LISTENER_KEY, SIGNAL_KEY};

fn bytes_of(words: &[u32]) -> Vec<u8> {
    let mut out = Vec::new();
    for w in words {
        out.extend_from_slice(&w.to_ne_bytes());
    }
    out
}

fn header(len_bytes: u32, opcode: u32) -> u32 {
    (len_bytes << 16) | opcode
}

fn string_words(s: &str) -> Vec<u32> {
    let mut bytes = s.as_bytes().to_vec();
    bytes.push(0);
    while bytes.len() % 4 != 0 {
        bytes.push(0);
    }
    let mut out = vec![(s.len() + 1) as u32];
    for chunk in bytes.chunks(4) {
        out.push(u32::from_ne_bytes([chunk[0], chunk[1], chunk[2], chunk[3]]));
    }
    out
}

fn request(id: u32, opcode: u32, args: &[u32]) -> Vec<u32> {
    let mut out = vec![id, header(8 + 4 * args.len() as u32, opcode)];
    out.extend_from_slice(args);
    out
}

fn send(client: &mut Client, words: &[u32], fds: &[i32]) {
    client.receive(&bytes_of(words), fds, false).expect("room for the request");
    client.dispatch_pass().expect("request handled");
}

fn take_sent(client: &mut Client) -> Vec<u8> {
    let out = client.send_half().pending_bytes();
    client.mark_sent(out.len());
    out
}

#[test]
fn display_sync_sends_done_and_frees_callback() {
    let mut client = Client::new();
    send(&mut client, &[1, header(12, 0), 2], &[]);
    assert_eq!(take_sent(&mut client), bytes_of(&[2, header(12, 0), 0]));
    assert!(!client.objects().is_occupied(2));
    assert!(client.objects().len() >= 3);
}

#[test]
fn display_get_registry_announces_shm() {
    let mut client = Client::new();
    send(&mut client, &[1, header(12, 1), 2], &[]);
    let sent = take_sent(&mut client);
    let mut shm_global = vec![0u32];
    shm_global.extend(string_words("wl_shm"));
    shm_global.push(1);
    let first = request(2, 0, &shm_global);
    assert_eq!(first.len(), 7);
    assert_eq!(first[3], 7);
    assert_eq!(&sent[..first.len() * 4], &bytes_of(&first)[..]);
    assert_eq!(&sent[16..24], b"wl_shm\0\0");
    assert_eq!(client.objects().kind_at(2), Some(ObjectKind::Registry));
}

fn bind_shm(client: &mut Client) {
    send(client, &[1, header(12, 1), 2], &[]);
    take_sent(client);
    let mut args = vec![0u32];
    args.extend(string_words("wl_shm"));
    args.push(1);
    args.push(3);
    send(client, &request(2, 0, &args), &[]);
}

#[test]
fn registry_bind_shm_sends_formats() {
    let mut client = Client::new();
    bind_shm(&mut client);
    let sent = take_sent(&mut client);
    let mut expected = request(3, 0, &[0]);
    expected.extend(request(3, 0, &[1]));
    assert_eq!(sent, bytes_of(&expected));
    assert_eq!(client.objects().kind_at(3), Some(ObjectKind::ShmGlobal));
}

#[test]
fn shm_create_pool_takes_the_fd() {
    let mut client = Client::new();
    bind_shm(&mut client);
    take_sent(&mut client);
    send(&mut client, &request(3, 0, &[4, 4096]), &[42]);
    match client.objects().get(4) {
        Some(AnyObject::ShmPool(ShmPool { fd, size })) => {
            assert_eq!(*fd, 42);
            assert_eq!(*size, 4096);
        },
        _ => panic!("slot 4 holds no pool"),
    }
}

#[test]
fn surface_commit_moves_pending_to_current() {
    let mut client = Client::new();
    bind_shm(&mut client);
    take_sent(&mut client);
    let mut args = vec![1u32];
    args.extend(string_words("wl_compositor"));
    args.push(5);
    args.push(5);
    send(&mut client, &request(2, 0, &args), &[]);
    send(&mut client, &request(5, 0, &[6]), &[]);
    send(&mut client, &request(3, 0, &[4, 4096]), &[42]);
    send(&mut client, &request(4, 0, &[7, 0, 16, 16, 64, 0]), &[]);
    send(&mut client, &request(6, 1, &[7, 3, 4]), &[]);
    match client.objects().get(6) {
        Some(AnyObject::Surface(s)) => {
            assert!(s.current.buffer.is_none());
            assert!(s.pending.buffer.is_some());
            assert_eq!(s.pending.offset, (3, 4));
        },
        _ => panic!("slot 6 holds no surface"),
    }
    send(&mut client, &request(6, 6, &[]), &[]);
    match client.objects().get(6) {
        Some(AnyObject::Surface(s)) => {
            let buffer = s.current.buffer.expect("committed buffer");
            assert_eq!(buffer.pool_fd, 42);
            assert_eq!((buffer.width, buffer.height, buffer.stride), (16, 16, 64));
            assert_eq!(s.current.offset, (3, 4));
            assert!(s.pending.buffer.is_none());
            assert_eq!(s.pending.scale, 1);
        },
        _ => panic!("slot 6 holds no surface"),
    }
}

#[test]
fn backpressure_then_flush() {
    let mut half = SendHalf::new();
    let target = Id::<AnyObject>::new(9).unwrap();
    let big = vec![7u32; 1000];
    assert_eq!(half.submit(target, 0, &big, &[]), Ok(()));
    let more = vec![1u32; 100];
    assert_eq!(half.submit(target, 1, &more, &[]), Err(SendError::NoRoomForBytes));
    let pending = half.pending_bytes();
    assert_eq!(pending.len(), 4008);
    half.mark_sent(pending.len());
    assert_eq!(half.submit(target, 1, &more, &[]), Ok(()));
    let mut expected = vec![9u32, header(408, 1)];
    expected.extend(more);
    assert_eq!(half.pending_bytes(), bytes_of(&expected));
}

#[test]
fn messages_and_fds_leave_in_submission_order() {
    let mut half = SendHalf::new();
    let a = Id::<AnyObject>::new(3).unwrap();
    let b = Id::<AnyObject>::new(4).unwrap();
    assert_eq!(half.submit(a, 0, &[1], &[10]), Ok(()));
    assert_eq!(half.submit(b, 2, &[2, 3], &[11, 12]), Ok(()));
    let mut expected = request(3, 0, &[1]);
    expected.extend(request(4, 2, &[2, 3]));
    assert_eq!(half.pending_bytes(), bytes_of(&expected));
    assert_eq!(half.pending_fd_list(), vec![10, 11, 12]);
    half.mark_sent(6);
    assert_eq!(half.pending_bytes(), bytes_of(&expected)[6..].to_vec());
    assert!(half.pending_fd_list().is_empty());
}

#[test]
fn fd_backpressure_is_reported() {
    let mut half = SendHalf::new();
    let a = Id::<AnyObject>::new(3).unwrap();
    assert_eq!(half.submit(a, 0, &[], &[1, 2, 3, 4, 5, 6]), Ok(()));
    assert_eq!(half.submit(a, 0, &[], &[7, 8, 9]), Err(SendError::NoRoomForFds));
    assert_eq!(half.pending_fd_list(), vec![1, 2, 3, 4, 5, 6]);
}

#[test]
fn closed_connections_are_told_apart() {
    let mut client = Client::new();
    assert_eq!(client.receive(&[], &[], false), Err(myway::client::ClientError::Closed));
    assert_eq!(client.receive(&[1, 0, 0], &[], false), Ok(()));
    assert_eq!(client.receive(&[], &[], false), Err(myway::client::ClientError::UnexpectedEof));
    assert_eq!(client.receive(&[0], &[], true), Err(myway::client::ClientError::ControlTruncated));
}

#[test]
fn readiness_keys() {
    assert_eq!(classify_event(LISTENER_KEY), LoopAction::AcceptAll);
    assert_eq!(classify_event(SIGNAL_KEY), LoopAction::Shutdown);
    assert_eq!(classify_event(3), LoopAction::Service(3));
}

#[test]
fn too_many_fds_is_backpressure() {
    let mut half = SendHalf::new();
    let a = Id::<AnyObject>::new(3).unwrap();
    assert_eq!(half.submit(a, 0, &[], &[0; 9]), Err(SendError::NoRoomForFds));
}

#[test]
fn requests_dispatch_one_at_a_time() {
    let mut client = Client::new();
    let mut words = request(1, 0, &[2]);
    words.extend(request(1, 0, &[3]));
    client.receive(&bytes_of(&words), &[], false).unwrap();
    assert_eq!(client.dispatch_next(), Ok(true));
    assert_eq!(take_sent(&mut client), bytes_of(&[2, header(12, 0), 0]));
    assert_eq!(client.dispatch_next(), Ok(true));
    assert_eq!(take_sent(&mut client), bytes_of(&[3, header(12, 0), 0]));
    assert_eq!(client.dispatch_next(), Ok(false));
}

#[test]
fn next_request_names_its_target() {
    let mut client = Client::new();
    client.receive(&bytes_of(&request(1, 1, &[2])), &[], false).unwrap();
    let (kind, id, opcode) = client.next_request().unwrap();
    assert_eq!((kind, id, opcode), (myway::objects::ObjectKind::Display, 1, 1));
    assert_eq!(kind.interface_name(), "wl_display");
    assert_eq!(kind.request_name(opcode), Some("get_registry"));
    assert_eq!(kind.request_name(5), None);
}

#[test]
fn oversized_message_is_backpressure() {
    let mut half = SendHalf::new();
    let a = Id::<AnyObject>::new(3).unwrap();
    assert_eq!(half.submit(a, 0, &vec![0u32; 1023], &[]), Err(SendError::NoRoomForBytes));
    assert_eq!(half.submit(a, 0, &vec![0u32; 1022], &[]), Ok(()));
}

#[test]
fn sync_leaves_an_empty_callback_slot() {
    let mut client = Client::new();
    send(&mut client, &[1, header(12, 0), 5], &[]);
    assert_eq!(client.objects().len(), 6);
    assert!(!client.objects().is_occupied(5));
}
