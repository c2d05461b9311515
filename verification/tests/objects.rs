use lib::objects::{ObjectHandle, ObjectTable, ObjectType, MAX_KERNEL_OBJECTS};

#[test]
fn kernel_object_lifecycle() {
    let mut table = ObjectTable::new();
    assert_eq!(table.count(), 0);

    let process = table.create(ObjectType::Process).expect("create process");
    assert!(table.is_valid(process));
    assert!(table.get_type(process) == Some(ObjectType::Process));

    assert!(table.retain(process));
    assert!(table.release(process));
    assert!(table.is_valid(process));

    assert!(table.release(process));
    assert!(!table.is_valid(process));

    let thread = table.create(ObjectType::Thread).expect("create thread");
    assert_eq!(thread.index(), process.index());
    assert_ne!(thread.generation(), process.generation());
    assert!(!table.is_valid(process));
    assert!(table.is_valid(thread));

    assert!(table.get_type(thread) == Some(ObjectType::Thread));
    assert!(table.get_type(process) != Some(ObjectType::Thread));

    assert!(table.release(thread));
    assert_eq!(table.count(), 0);
}

#[test]
fn handle_encodes_index_and_generation() {
    let handle = ObjectHandle::new(5, 7);
    assert_eq!(handle.raw(), (7u64 << 32) | 5);
    assert_eq!(handle.index(), 5);
    assert_eq!(handle.generation(), 7);
    assert!(handle.is_valid());
    assert!(!ObjectHandle::invalid().is_valid());
    assert_eq!(ObjectHandle::invalid().raw(), 0);
}

#[test]
fn first_handle_has_generation_one() {
    let mut table = ObjectTable::new();
    let handle = table.create(ObjectType::Event).unwrap();
    assert_eq!(handle.index(), 0);
    assert_eq!(handle.generation(), 1);
}

#[test]
fn table_full_refuses_create() {
    let mut table = ObjectTable::new();
    for _ in 0..MAX_KERNEL_OBJECTS {
        assert!(table.create(ObjectType::File).is_some());
    }
    assert_eq!(table.count(), MAX_KERNEL_OBJECTS);
    assert!(table.create(ObjectType::File).is_none());
}

#[test]
fn release_undoes_retain_on_concrete_handle() {
    let mut table = ObjectTable::new();
    let h = table.create(ObjectType::Device).unwrap();
    assert!(table.retain(h));
    assert!(table.release(h));
    assert!(table.is_valid(h));
    assert_eq!(table.count(), 1);
}

#[test]
fn stale_handle_is_refused_everywhere() {
    let mut table = ObjectTable::new();
    let h = table.create(ObjectType::AddressSpace).unwrap();
    assert!(table.destroy(h));
    assert!(!table.is_valid(h));
    assert!(table.get_type(h).is_none());
    assert!(!table.retain(h));
    assert!(!table.release(h));
    assert!(!table.destroy(h));
    assert_eq!(table.count(), 0);
}

#[test]
fn invalid_handle_is_refused() {
    let mut table = ObjectTable::new();
    let _ = table.create(ObjectType::Process).unwrap();
    let bogus = ObjectHandle::new(0, 99);
    assert!(!table.is_valid(bogus));
    let out_of_range = ObjectHandle::new(MAX_KERNEL_OBJECTS, 1);
    assert!(!table.is_valid(out_of_range));
    assert!(!table.is_valid(ObjectHandle::invalid()));
}

#[test]
fn object_type_names() {
    assert_eq!(ObjectType::Process.name(), "PROCESS");
    assert_eq!(ObjectType::Thread.name(), "THREAD");
    assert_eq!(ObjectType::AddressSpace.name(), "ADDRESS SPACE");
    assert_eq!(ObjectType::IpcEndpoint.name(), "IPC ENDPOINT");
    assert_eq!(ObjectType::File.name(), "FILE");
    assert_eq!(ObjectType::Device.name(), "DEVICE");
    assert_eq!(ObjectType::Event.name(), "EVENT");
}

#[test]
fn handle_valid_until_its_object_is_freed() {
    let mut table = ObjectTable::new();
    let a = table.create(ObjectType::Process).unwrap();
    let b = table.create(ObjectType::Thread).unwrap();
    // Work on other objects and extra references keep `a` valid.
    assert!(table.retain(a));
    assert!(table.destroy(b));
    let c = table.create(ObjectType::Thread).unwrap();
    assert!(table.release(c));
    assert!(table.release(a));
    assert!(table.is_valid(a));
    // Destroying frees it whatever its count; the handle stays stale.
    assert!(table.retain(a));
    assert!(table.destroy(a));
    assert!(!table.is_valid(a));
    let d = table.create(ObjectType::Process).unwrap();
    assert_eq!(d.index(), a.index());
    assert!(!table.is_valid(a));
    assert!(!table.retain(a) && !table.release(a) && !table.destroy(a));
    assert!(table.is_valid(d));
}
