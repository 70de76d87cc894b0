use k5::space::Space;

#[test]
fn test_push() {
    let mut space = Space::<usize, 10>::default();
    for i in 0..10 {
        space.push(i);
    }
    println!("{:?}", space);
    for i in 0..10 {
        assert_eq!(space.get(i), Some(&i))
    }
}

#[test]
fn test_remove_push() {
    let mut space = Space::<usize, 10>::default();
    for i in 0..10 {
        space.push(i);
    }
    assert_eq!(space.push(10), None);
    space.remove(5).expect("item not found");
    assert_eq!(space.push(10), Some(5));
    for i in 0..10 {
        space.remove(i).expect("item not found");
        assert_eq!(space.push(i), Some(i));
    }
}

#[test]
fn space_len_and_get_mut() {
    let mut space = Space::<u32, 4>::new();
    assert_eq!(space.len(), 0);
    assert_eq!(space.push(7), Some(0));
    assert_eq!(space.push(8), Some(1));
    assert_eq!(space.len(), 2);
    *space.get_mut(1).unwrap() = 80;
    assert_eq!(space.get(1), Some(&80));
    assert!(space.get_mut(3).is_none());
    assert!(space.get(9).is_none());
    assert_eq!(space.remove(0), Some(7));
    assert_eq!(space.remove(0), None);
    assert_eq!(space.len(), 1);
}

#[test]
fn space_iter_in_slot_order() {
    let mut space = Space::<u8, 5>::new();
    for v in [10u8, 11, 12, 13] {
        space.push(v);
    }
    space.remove(1);
    let items: Vec<u8> = space.iter().into_iter().copied().collect();
    assert_eq!(items, vec![10, 12, 13]);
}
