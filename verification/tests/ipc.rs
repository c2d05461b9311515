use lib::ipc::{IpcHandle, IpcManager, IpcMessage, IPC_MESSAGE_SIZE, IPC_QUEUE_CAPACITY, MAX_IPC_ENDPOINTS};
use lib::objects::{ObjectHandle, ObjectTable, ObjectType};

#[test]
fn ipc_send_receive_scenario() {
    let mut ipc = IpcManager::new();
    let mut objects = ObjectTable::new();
    assert_eq!(ipc.count(), 0);

    let endpoint = ipc.create().expect("create endpoint");
    assert!(ipc.is_valid(endpoint));

    let sender = objects.create(ObjectType::Process).expect("create sender");
    let payload = b"Hello from Unbound IPC";
    assert!(ipc.send(endpoint, sender, payload));
    assert_eq!(ipc.queue_len(endpoint), Some(1));

    let message = ipc.receive(endpoint).expect("receive");
    assert!(message.sender == sender);
    assert_eq!(message.payload(), &payload[..]);
    assert_eq!(ipc.queue_len(endpoint), Some(0));

    assert!(ipc.destroy(endpoint));
    assert!(!ipc.is_valid(endpoint));

    assert!(objects.release(sender));
    assert_eq!(ipc.count(), 0);
    assert_eq!(objects.count(), 0);
}

#[test]
fn ipc_queue_is_fifo() {
    let mut ipc = IpcManager::new();
    let e = ipc.create().unwrap();
    let s = ObjectHandle::new(3, 1);
    assert!(ipc.send(e, s, b"first"));
    assert!(ipc.send(e, s, b"second"));
    assert!(ipc.send(e, s, b"third"));
    assert_eq!(ipc.receive(e).unwrap().payload(), b"first");
    assert_eq!(ipc.receive(e).unwrap().payload(), b"second");
    assert_eq!(ipc.receive(e).unwrap().payload(), b"third");
    assert!(ipc.receive(e).is_none());
}

#[test]
fn ipc_queue_full_refuses_send() {
    let mut ipc = IpcManager::new();
    let e = ipc.create().unwrap();
    let s = ObjectHandle::new(0, 1);
    for i in 0..IPC_QUEUE_CAPACITY {
        assert!(ipc.send(e, s, &[i as u8]));
    }
    assert_eq!(ipc.queue_len(e), Some(IPC_QUEUE_CAPACITY));
    assert!(!ipc.send(e, s, b"overflow"));
    assert_eq!(ipc.receive(e).unwrap().payload(), &[0u8][..]);
    assert!(ipc.send(e, s, b"fits again"));
}

#[test]
fn ipc_oversized_payload_refused() {
    let mut ipc = IpcManager::new();
    let e = ipc.create().unwrap();
    let big = vec![7u8; IPC_MESSAGE_SIZE + 1];
    assert!(!ipc.send(e, ObjectHandle::new(0, 1), &big));
    assert_eq!(ipc.queue_len(e), Some(0));
    let exact = vec![9u8; IPC_MESSAGE_SIZE];
    assert!(ipc.send(e, ObjectHandle::new(0, 1), &exact));
    assert_eq!(ipc.receive(e).unwrap().payload(), &exact[..]);
}

#[test]
fn ipc_stale_endpoint_refused() {
    let mut ipc = IpcManager::new();
    let e = ipc.create().unwrap();
    assert!(ipc.destroy(e));
    assert!(!ipc.send(e, ObjectHandle::new(0, 1), b"x"));
    assert!(ipc.receive(e).is_none());
    assert_eq!(ipc.queue_len(e), None);
    assert!(!ipc.destroy(e));
    let again = ipc.create().unwrap();
    assert_eq!(again.index(), e.index());
    assert_ne!(again.generation(), e.generation());
    assert!(!ipc.is_valid(IpcHandle::invalid()));
}

#[test]
fn ipc_endpoint_limit() {
    let mut ipc = IpcManager::new();
    for _ in 0..MAX_IPC_ENDPOINTS {
        assert!(ipc.create().is_some());
    }
    assert!(ipc.create().is_none());
    assert_eq!(ipc.count(), MAX_IPC_ENDPOINTS);
}

#[test]
fn message_new_and_payload() {
    let sender = ObjectHandle::new(2, 4);
    let m = IpcMessage::new(sender, b"abc").unwrap();
    assert_eq!(m.len, 3);
    assert_eq!(m.payload(), b"abc");
    assert!(m.data[3..].iter().all(|&b| b == 0));
    assert!(IpcMessage::new(sender, &vec![0u8; IPC_MESSAGE_SIZE + 1]).is_none());
    let e = IpcMessage::empty();
    assert_eq!(e.len, 0);
    assert_eq!(e.sender.raw(), 0);
}

#[test]
fn message_payload_mut_writes_in_place() {
    let mut m = IpcMessage::new(ObjectHandle::new(1, 1), b"hello").unwrap();
    {
        let p = m.payload_mut();
        assert_eq!(p.len(), 5);
        p[0] = b'j';
    }
    assert_eq!(m.payload(), b"jello");
    assert_eq!(m.len, 5);
    assert_eq!(m.data[5], 0);
}
