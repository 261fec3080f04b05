use fracture_kernel::shm::{
    attach, create, delete, detach, init, SharedMemory, ShmError, ShmManager, ShmPermissions,
    MAX_SHM_SIZE, SHM_ID_LIMIT,
};
use x86_64::VirtAddr;

#[test]
fn size_limits_of_create() {
    let mut shm = ShmManager::new();
    assert_eq!(shm.create(1, 0), Err(ShmError::InvalidSize));
    assert_eq!(shm.create(1, 16 * 1024 * 1024 + 1), Err(ShmError::InvalidSize));
    assert_eq!(shm.next_id(), 1);
    assert_eq!(shm.create(1, 16 * 1024 * 1024), Ok(1));
    assert_eq!(shm.create(1, 1), Ok(2));
    assert_eq!(shm.next_id(), 3);
    assert_eq!(MAX_SHM_SIZE, 16 * 1024 * 1024);
    assert_eq!(SHM_ID_LIMIT, 1 << 31);
}

#[test]
fn owner_is_attached_at_creation() {
    let mut shm = init();
    let id = create(&mut shm, 5, 4096).unwrap();
    assert_eq!(shm.get_info(id), Some((4096, 5, 1)));
    assert_eq!(
        attach(&mut shm, id, 5, ShmPermissions::read_only()).unwrap_err(),
        ShmError::AlreadyAttached
    );
    assert_eq!(shm.get_info(id), Some((4096, 5, 1)));
}

#[test]
fn address_follows_from_the_id() {
    let mut shm = ShmManager::new();
    let first = shm.create(5, 10).unwrap();
    let second = shm.create(5, 10).unwrap();
    let a = shm.attach(first, 6, ShmPermissions::read_write()).unwrap();
    let b = shm.attach(second, 6, ShmPermissions::read_write()).unwrap();
    let c = shm.attach(first, 7, ShmPermissions::read_only()).unwrap();
    assert_eq!(a.as_u64(), 0xffff_8000_0001_0000);
    assert_eq!(b.as_u64(), 0xffff_8000_0002_0000);
    assert_eq!(c, a);
}

#[test]
fn attach_and_detach_errors() {
    let mut shm = ShmManager::new();
    let id = shm.create(1, 100).unwrap();
    assert_eq!(
        shm.attach(99, 2, ShmPermissions::all()).unwrap_err(),
        ShmError::NotFound
    );
    assert_eq!(shm.detach(99, 1), Err(ShmError::NotFound));
    assert_eq!(shm.detach(id, 2), Err(ShmError::NotAttached));
    assert!(shm.attach(id, 2, ShmPermissions::read_only()).is_ok());
    assert_eq!(shm.get_info(id), Some((100, 1, 2)));
    assert_eq!(
        shm.attach(id, 2, ShmPermissions::all()).unwrap_err(),
        ShmError::AlreadyAttached
    );
    assert_eq!(detach(&mut shm, id, 2), Ok(()));
    assert_eq!(detach(&mut shm, id, 2), Err(ShmError::NotAttached));
    assert_eq!(shm.get_info(id), Some((100, 1, 1)));
}

#[test]
fn delete_needs_owner_and_no_attachments() {
    let mut shm = ShmManager::new();
    let id = shm.create(1, 100).unwrap();
    shm.attach(id, 2, ShmPermissions::read_write()).unwrap();
    assert_eq!(shm.delete(id, 2), Err(ShmError::PermissionDenied));
    assert_eq!(shm.delete(id, 1), Err(ShmError::StillAttached));
    assert_eq!(shm.detach(id, 1), Ok(()));
    assert_eq!(shm.delete(id, 1), Err(ShmError::StillAttached));
    assert_eq!(shm.delete(id, 2), Err(ShmError::PermissionDenied));
    assert_eq!(shm.detach(id, 2), Ok(()));
    assert_eq!(shm.get_info(id), Some((100, 1, 0)));
    assert_eq!(shm.delete(id, 3), Err(ShmError::PermissionDenied));
    assert_eq!(delete(&mut shm, id, 1), Ok(()));
    assert_eq!(shm.get_info(id), None);
    assert_eq!(delete(&mut shm, id, 1), Err(ShmError::NotFound));
    assert_eq!(shm.delete(77, 1), Err(ShmError::NotFound));
}

#[test]
fn ids_are_not_reused_after_delete() {
    let mut shm = ShmManager::new();
    let first = shm.create(1, 8).unwrap();
    shm.detach(first, 1).unwrap();
    shm.delete(first, 1).unwrap();
    let second = shm.create(1, 8).unwrap();
    assert_eq!(first, 1);
    assert_eq!(second, 2);
    assert_eq!(shm.get_info(first), None);
    assert_eq!(shm.get_info(second), Some((8, 1, 1)));
}

#[test]
fn deleting_one_segment_leaves_the_others() {
    let mut shm = ShmManager::new();
    let a = shm.create(1, 8).unwrap();
    let b = shm.create(2, 16).unwrap();
    let c = shm.create(3, 24).unwrap();
    shm.detach(b, 2).unwrap();
    shm.delete(b, 2).unwrap();
    assert_eq!(shm.get_info(a), Some((8, 1, 1)));
    assert_eq!(shm.get_info(b), None);
    assert_eq!(shm.get_info(c), Some((24, 3, 1)));
}

#[test]
fn permission_sets() {
    let ro = ShmPermissions::read_only();
    let rw = ShmPermissions::read_write();
    let all = ShmPermissions::all();
    assert_eq!((ro.read, ro.write, ro.execute), (true, false, false));
    assert_eq!((rw.read, rw.write, rw.execute), (true, true, false));
    assert_eq!((all.read, all.write, all.execute), (true, true, true));
}

#[test]
fn segment_checks_permissions() {
    let mut seg = SharedMemory::new(1, 10, 64, VirtAddr::new(0x1000));
    assert_eq!(seg.attachment_count(), 0);
    assert!(!seg.check_permission(10, false));
    assert_eq!(seg.attach(10, ShmPermissions::all()), Ok(()));
    assert_eq!(seg.attach(11, ShmPermissions::read_only()), Ok(()));
    let write_only = ShmPermissions { read: false, write: true, execute: false };
    assert_eq!(seg.attach(12, write_only), Ok(()));
    assert_eq!(seg.attach(11, ShmPermissions::all()), Err(ShmError::AlreadyAttached));
    assert_eq!(seg.attachment_count(), 3);
    assert!(seg.check_permission(10, true));
    assert!(seg.check_permission(10, false));
    assert!(seg.check_permission(11, false));
    assert!(!seg.check_permission(11, true));
    assert!(seg.check_permission(12, true));
    assert!(!seg.check_permission(12, false));
    assert!(!seg.check_permission(13, false));
    assert!(!seg.check_permission(13, true));
    assert_eq!(seg.detach(11), Ok(()));
    assert!(!seg.check_permission(11, false));
    assert!(seg.check_permission(12, true));
    assert_eq!(seg.detach(11), Err(ShmError::NotAttached));
    assert_eq!(seg.attachment_count(), 2);
}

#[test]
fn segments_lie_at_different_addresses() {
    let mut shm = ShmManager::new();
    let mut seen = Vec::new();
    for owner in 1..=20u64 {
        let id = shm.create(owner, 64).unwrap();
        let address = shm.attach(id, 100, ShmPermissions::read_only()).unwrap();
        assert_eq!(address.as_u64(), 0xffff_8000_0000_0000 + id * 0x1_0000);
        assert!(!seen.contains(&address));
        seen.push(address);
    }
}
