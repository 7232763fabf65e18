use chimera::Chimera;

#[test]
fn test_ports_push_and_as_slice() {
    let mut ports: Chimera = Chimera::new();

    match &ports {
        Chimera::Inline { len, .. } => assert_eq!(*len, 0),
        Chimera::Heap(_) => panic!("Expected Inline variant"),
    }

    for i in 1..=16 {
        ports.insert(i);
    }

    let slice = ports.as_slice();
    assert_eq!(slice.len(), 16);
    for i in 0..16 {
        assert_eq!(slice[i], (i + 1) as u16);
    }

    match &ports {
        Chimera::Inline { len, .. } => assert_eq!(*len, 16),
        Chimera::Heap(_) => panic!("Expected Inline variant"),
    }

    ports.insert(17);

    let slice = ports.as_slice();
    assert_eq!(slice.len(), 17);
    for i in 0..17 {
        assert_eq!(slice[i], (i + 1) as u16);
    }

    match &ports {
        Chimera::Inline { .. } => panic!("Expected Heap variant"),
        Chimera::Heap(v) => {
            assert_eq!(v.len(), 17);
            assert_eq!(v.as_slice(), &[1, 2, 3, 4, 5, 6, 7, 8, 9, 10, 11, 12, 13, 14, 15, 16, 17]);
        }
    }

    ports.insert(18);
    ports.insert(19);

    let slice = ports.as_slice();
    assert_eq!(slice, &[1, 2, 3, 4, 5, 6, 7, 8, 9, 10, 11, 12, 13, 14, 15, 16, 17, 18, 19]);
    assert!(slice.contains(&8));
    assert!(!slice.contains(&30));

    assert!(ports.contains(&8));
    assert!(!ports.contains(&30));

    ports.insert(7);
    assert_eq!(ports.as_slice().len(), 19);

    ports.insert(33);
    assert_eq!(ports.as_slice().len(), 20);

    let slice = ports.as_slice();
    assert_eq!(slice, &[1, 2, 3, 4, 5, 6, 7, 8, 9, 10, 11, 12, 13, 14, 15, 16, 17, 18, 19, 33]);
}

#[test]
fn test_empty_ports() {
    let ports: Chimera = Chimera::new();
    assert!(ports.as_slice().is_empty());
}

#[test]
fn test_stack_drop_via_miri() {
    let mut ports = Chimera::new();

    ports.insert(3);
    ports.insert(7);
    ports.insert(88);
    assert!(!ports.as_slice().is_empty());

    let _port_3: Chimera = Chimera::new();
}

#[test]
fn test_from_vec() {
    let mut ports: Chimera = Chimera::from_vec(vec![1, 2, 3, 4]);

    match &ports {
        Chimera::Inline { .. } => assert_eq!(ports.as_slice(), &[1, 2, 3, 4]),
        Chimera::Heap(_) => panic!("Expected Inline variant"),
    }

    for i in 5..=17 {
        ports.insert(i);
    }

    match &ports {
        Chimera::Inline { .. } => panic!("Expected Heap variant"),
        Chimera::Heap(v) => {
            assert_eq!(v.len(), 17);
            assert_eq!(v.as_slice(), &[1, 2, 3, 4, 5, 6, 7, 8, 9, 10, 11, 12, 13, 14, 15, 16, 17]);
        }
    }

    let _ports_2: Chimera =
        Chimera::from_vec(vec![1, 2, 3, 4, 5, 6, 7, 8, 9, 10, 11, 12, 13, 14, 15, 16, 17]);

    match &ports {
        Chimera::Inline { .. } => panic!("Expected Heap variant"),
        Chimera::Heap(v) => {
            assert_eq!(v.len(), 17);
            assert_eq!(v.as_slice(), &[1, 2, 3, 4, 5, 6, 7, 8, 9, 10, 11, 12, 13, 14, 15, 16, 17]);
        }
    }
}
