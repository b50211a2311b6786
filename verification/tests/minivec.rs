use nftracker::minivec::MiniVec;

#[test]
fn test_push() {
    let mut v: MiniVec<u32> = Default::default();

    assert_eq!(v.len(), 0);
    for i in 1..10 {
        v.push(i);
        assert_eq!(v.len(), i as usize);
    }
}

#[test]
fn test_pop() {
    let mut v: MiniVec<u32> = Default::default();

    v.push(10);
    v.push(20);
    assert_eq!(v.pop(), Some(20));
    assert_eq!(v.pop(), Some(10));
    assert_eq!(v.pop(), None);
}
