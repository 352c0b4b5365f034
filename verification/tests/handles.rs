use handle_tree::handle::{CreateError, Handle, HANDLE_FLOOR};
use handle_tree::handles::HandleTree;

#[test]
fn test1() {
    let mut handles = HandleTree::new();
    let a1 = handles.create(None, "1", 0xa1);
    let a2 = handles.create(None, "2", 0xa2);
    let a11 = handles.create(Some(a1), "1.1", 0xa11);
    let a12 = handles.create(Some(a1), "1.2", 0xa12);
    let a121 = handles.create(Some(a12), "1.2.1", 0xa121);
    let a21 = handles.create(Some(a2), "2.1", 0xa21);

    assert!(handles.get(a1).unwrap() == &0xa1);
    assert!(handles.get(a12).unwrap() == &0xa12);
    assert!(handles.get(a121).unwrap() == &0xa121);

    let mut handles2 = HandleTree::from_prev(handles);
    let b1 = handles2.create(None, "1", 0xb1);
    let b3 = handles2.create(None, "3", 0xb3);
    let b11 = handles2.create(Some(b1), "1.1", 0xb11);
    let b12 = handles2.create(Some(b1), "1.2", 0xb12);
    let b13 = handles2.create(Some(b1), "1.3", 0xb13);
    let b121 = handles2.create(Some(b12), "1.2.1", 0xb121);
    let b122 = handles2.create(Some(b12), "1.2.2", 0xb122);

    assert!(handles2.get(a2) == None);
    assert!(handles2.get(a21) == None);

    assert!(b1 == a1);
    assert!(b11 == a11);
    assert!(b12 == a12);
    assert!(b121 == a121);

    assert!(handles2.get(b1).unwrap() == &0xb1);
    assert!(handles2.get(b122).unwrap() == &0xb122);

    assert!(b3 != a2);
    assert!(b13 != a21);
    assert!(handles2.get(b3).unwrap() == &0xb3);
    assert!(handles2.get(b13).unwrap() == &0xb13);
}

#[test]
#[should_panic]
fn test2() {
    let mut handles = HandleTree::new();
    let h1 = handles.create(None, "12345", 12345);
    let _h2 = handles.create(Some(Handle::new(h1.get() + 1).unwrap()), "12345", 12345);
}

#[test]
fn first_handles_count_up_from_the_floor() {
    let mut handles = HandleTree::new();
    let h1 = handles.create(None, "a", 1u8);
    let h2 = handles.create(None, "b", 2u8);
    let h3 = handles.create(Some(h1), "c", 3u8);
    assert_eq!(HANDLE_FLOOR, 1000);
    assert_eq!(h1.get(), 1001);
    assert_eq!(h2.get(), 1002);
    assert_eq!(h3.get(), 1003);
}

#[test]
fn reuse_does_not_advance_the_counter() {
    let mut first = HandleTree::new();
    let a = first.create(None, "a", 0);
    let b = first.create(None, "b", 0);
    assert_eq!((a.get(), b.get()), (1001, 1002));
    let mut second = HandleTree::from_prev(first);
    assert_eq!(second.create(None, "b", 0).get(), 1002);
    assert_eq!(second.create(None, "a", 0).get(), 1001);
    assert_eq!(second.create(None, "c", 0).get(), 1003);
}

#[test]
fn unknown_parent_is_an_error_and_changes_nothing() {
    let mut handles = HandleTree::new();
    let h1 = handles.try_create(None, "12345", 12345).unwrap();
    let stranger = Handle::new(h1.get() + 1).unwrap();
    assert_eq!(handles.try_create(Some(stranger), "12345", 12345), Err(CreateError::UnknownParent));
    assert!(handles.get(stranger).is_none());
    assert_eq!(handles.get(h1), Some(&12345));
    assert_eq!(handles.try_create(None, "next", 1).unwrap().get(), h1.get() + 1);
}

#[test]
fn parent_of_the_generation_before_is_unknown() {
    let mut first = HandleTree::new();
    let root = first.create(None, "root", 'r');
    let mut second = HandleTree::from_prev(first);
    assert_eq!(second.try_create(Some(root), "leaf", 'l'), Err(CreateError::UnknownParent));
    let again = second.create(None, "root", 'r');
    assert_eq!(again, root);
    assert!(second.try_create(Some(root), "leaf", 'l').is_ok());
}

#[test]
fn a_vanished_path_retires_its_handle() {
    let mut first = HandleTree::new();
    let kept = first.create(None, "kept", 1);
    let gone = first.create(None, "gone", 2);
    let mut second = HandleTree::from_prev(first);
    assert_eq!(second.create(None, "kept", 10), kept);
    let other = second.create(None, "other", 30);
    assert_ne!(other, gone);
    assert!(second.get(gone).is_none());
    let mut third = HandleTree::from_prev(second);
    let back = third.create(None, "gone", 20);
    assert_ne!(back, gone);
    assert_eq!(back.get(), other.get() + 1);
    assert!(third.get(gone).is_none());
    assert_eq!(third.create(None, "kept", 100), kept);
}

#[test]
fn history_reaches_one_generation_back() {
    let mut first = HandleTree::new();
    let h = first.create(None, "x", 1);
    let second = HandleTree::from_prev(first);
    assert!(second.get(h).is_none());
    let mut third = HandleTree::from_prev(second);
    assert!(third.get(h).is_none());
    let fresh = third.create(None, "x", 1);
    assert_ne!(fresh, h);
    assert_eq!(fresh.get(), h.get() + 1);
}

#[test]
fn a_new_generation_drops_the_values() {
    let mut first = HandleTree::new();
    let h = first.create(None, "x", 7);
    assert_eq!(first.get(h), Some(&7));
    let second = HandleTree::from_prev(first);
    assert_eq!(second.get(h), None);
    assert!(second.get_with_vpath(h).is_none());
}

#[test]
fn same_key_under_different_parents_gets_different_handles() {
    let mut handles = HandleTree::new();
    let p = handles.create(None, "p", 0);
    let q = handles.create(None, "q", 0);
    let pk = handles.create(Some(p), "k", 1);
    let qk = handles.create(Some(q), "k", 2);
    let k = handles.create(None, "k", 3);
    assert_ne!(pk, qk);
    assert_ne!(pk, k);
    assert_ne!(qk, k);
    assert_eq!(handles.get(pk), Some(&1));
    assert_eq!(handles.get(qk), Some(&2));
    assert_eq!(handles.get(k), Some(&3));
}

#[test]
fn creating_a_remembered_path_again_overwrites_its_value() {
    let mut first = HandleTree::new();
    let h = first.create(None, "x", 1);
    let mut second = HandleTree::from_prev(first);
    let a = second.create(None, "x", 2);
    let b = second.create(None, "x", 3);
    assert_eq!(a, h);
    assert_eq!(b, h);
    assert_eq!(second.get(h), Some(&3));
}

#[test]
fn creating_a_new_path_again_leaves_one_entry() {
    let mut handles = HandleTree::new();
    let a = handles.create(None, "x", 1);
    let b = handles.create(None, "x", 2);
    assert_eq!(a.get(), 1001);
    assert_eq!(b.get(), 1002);
    assert_eq!(handles.get(a), None);
    assert_eq!(handles.get(b), Some(&2));
    let mut next = HandleTree::from_prev(handles);
    assert_eq!(next.create(None, "x", 3), b);
}

#[test]
fn lookup_gives_the_path_with_the_value() {
    let mut handles = HandleTree::new();
    let a = handles.create(None, "a", 1);
    let b = handles.create(Some(a), "b", 2);
    let (value, path) = handles.get_with_vpath(b).unwrap();
    assert_eq!(*value, 2);
    let expected = handle_tree::vpath::VPath::new("a").extend("b");
    assert!(*path == expected);
    assert!(handles.get_with_vpath(Handle::new(5).unwrap()).is_none());
}

#[test]
fn zero_is_no_handle() {
    assert!(Handle::new(0).is_none());
    assert_eq!(Handle::new(1).unwrap().get(), 1);
    assert_eq!(Handle::new(u32::MAX).unwrap().get(), u32::MAX);
}
