use myway::buffer::{RecvHalf, RecvMessage, SendHalf};
use myway::dispatch::DispatchError;
use myway::object_impls::{Callback, Display, Region};
use myway::objects::{AnyObject, Entry, IdError, ObjectKind, Objects};
use myway::wire::Id;

fn any(id: u32) -> Id<AnyObject> {
    Id::new(id).unwrap()
}

#[test]
fn get_many_mut_rejects_duplicates() {
    let mut objects = Objects::new();
    assert!(matches!(objects.get_many_mut(&[any(1), any(2), any(1)]), Err(IdError::Duplicate)));
    assert_eq!(objects.len(), 0);
}

#[test]
fn get_many_mut_grows_and_reports_slots() {
    let mut objects = Objects::new();
    objects.insert(Id::<Display>::new(1).unwrap(), Display).ok().unwrap();
    let entries = objects.get_many_mut(&[any(1), any(5)]).ok().unwrap();
    assert_eq!(objects.len(), 6);
    assert!(matches!(entries[0], Entry::Occupied(_)));
    assert!(matches!(entries[1], Entry::Vacant(_)));
}

#[test]
fn inserted_minus_destroyed_ids_stay_occupied() {
    let mut objects = Objects::new();
    for id in [2u32, 4, 3] {
        assert!(objects.insert(Id::<Region>::new(id).unwrap(), Region).is_ok());
    }
    assert!(matches!(objects.insert(Id::<Region>::new(4).unwrap(), Region), Err(IdError::AlreadyExists)));
    let entry = objects.insert(Id::<Callback>::new(7).unwrap(), Callback).ok().unwrap();
    let len = objects.len();
    let _callback = entry.take(&mut objects);
    assert_eq!(objects.len(), len);
    let occupied: Vec<usize> = (0..objects.len()).filter(|&i| objects.is_occupied(i)).collect();
    assert_eq!(occupied, vec![2, 3, 4]);
}

#[test]
fn downcast_checks_the_variant() {
    let mut objects = Objects::new();
    objects.insert(Id::<Region>::new(2).unwrap(), Region).ok().unwrap();
    let mut entries = objects.get_many_mut(&[any(2)]).ok().unwrap();
    let occupied = entries.remove(0).into_occupied().ok().unwrap();
    assert!(matches!(occupied.downcast::<Display>(&objects), Err(IdError::WrongType)));
    let mut entries = objects.get_many_mut(&[any(2)]).ok().unwrap();
    let occupied = entries.remove(0).into_occupied().ok().unwrap();
    assert!(occupied.downcast::<Region>(&objects).is_ok());
    let mut entries = objects.get_many_mut(&[any(3)]).ok().unwrap();
    assert!(matches!(entries.remove(0).into_occupied(), Err(IdError::NotFound)));
}

#[test]
fn dispatch_to_missing_and_empty_slots() {
    let mut objects = Objects::new();
    objects.insert(Id::<Region>::new(2).unwrap(), Region).ok().unwrap();
    let mut send = SendHalf::new();
    let mut recv = RecvHalf::new();
    let past = RecvMessage::new(any(9), 0, vec![]);
    assert_eq!(objects.dispatch_request(&mut send, &mut recv, past), Err(DispatchError::Id(IdError::NoSuchObject)));
    let empty = RecvMessage::new(any(1), 0, vec![]);
    assert_eq!(objects.dispatch_request(&mut send, &mut recv, empty), Ok(()));
    let destroy = RecvMessage::new(any(2), 0, vec![]);
    assert_eq!(objects.dispatch_request(&mut send, &mut recv, destroy), Ok(()));
    assert_eq!(objects.kind_at(2), None);
    let again = RecvMessage::new(any(2), 1, vec![0, 0, 1, 1]);
    assert_eq!(objects.dispatch_request(&mut send, &mut recv, again), Ok(()));
    assert!(!send.has_pending());
}

#[test]
fn unknown_opcode_and_bad_bind_fail() {
    let mut objects = Objects::new();
    objects.insert(Id::<Display>::new(1).unwrap(), Display).ok().unwrap();
    let mut send = SendHalf::new();
    let mut recv = RecvHalf::new();
    let bad = RecvMessage::new(any(1), 9, vec![]);
    assert_eq!(objects.dispatch_request(&mut send, &mut recv, bad), Err(DispatchError::UnknownOpcode));
    let self_id = RecvMessage::new(any(1), 0, vec![1]);
    assert_eq!(objects.dispatch_request(&mut send, &mut recv, self_id), Err(DispatchError::Id(IdError::Duplicate)));
    assert_eq!(objects.kind_at(1), Some(ObjectKind::Display));
}

#[test]
fn pool_resize_and_destroy() {
    let mut objects = Objects::new();
    objects.insert(Id::<myway::object_impls::ShmPool>::new(4).unwrap(), myway::object_impls::ShmPool { fd: 9, size: 100 }).ok().unwrap();
    let mut send = SendHalf::new();
    let mut recv = RecvHalf::new();
    let shrink = RecvMessage::new(any(4), 2, vec![50]);
    assert_eq!(objects.dispatch_request(&mut send, &mut recv, shrink), Err(DispatchError::InvalidArgument));
    let grow = RecvMessage::new(any(4), 2, vec![200]);
    assert_eq!(objects.dispatch_request(&mut send, &mut recv, grow), Ok(()));
    match objects.get(4) {
        Some(AnyObject::ShmPool(p)) => assert_eq!((p.fd, p.size), (9, 200)),
        _ => panic!("slot 4 holds no pool"),
    }
    let bad_format = RecvMessage::new(any(4), 0, vec![5, 0, 1, 1, 4, 7]);
    assert_eq!(objects.dispatch_request(&mut send, &mut recv, bad_format), Err(DispatchError::InvalidArgument));
    let destroy = RecvMessage::new(any(4), 1, vec![]);
    assert_eq!(objects.dispatch_request(&mut send, &mut recv, destroy), Ok(()));
    assert_eq!(objects.kind_at(4), None);
}
