use spsc_ring::RingBuffer;

#[test]
fn basic_creation_test() {
    let ring = RingBuffer::<i32>::new(12);

    assert_eq!(ring.capacity(), 12);
    assert_eq!(ring.capacity(), 12);

    assert_eq!(ring.size(), 0);
    assert_eq!(ring.size(), 0);
}

#[test]
fn basic_element_test() {
    let mut ring = RingBuffer::<u32>::new(12);

    assert!(ring.try_write(1337u32).is_ok());

    assert_eq!(ring.size(), 1);
    assert_eq!(ring.size(), 1);

    let read_item1 = ring.try_read();
    let read_item2 = ring.try_read();

    assert!(read_item1.is_some());
    assert!(read_item2.is_none());

    assert_eq!(read_item1.unwrap(), 1337u32);
}

#[test]
fn basic_element_test2() {
    let mut ring = RingBuffer::<u32>::new(2);

    assert!(ring.try_write(1u32).is_ok());
    assert!(ring.try_write(2u32).is_err());

    assert_eq!(ring.size(), 1);
    assert_eq!(ring.size(), 1);

    let read_item1 = ring.try_read();
    let read_item2 = ring.try_read();

    assert!(read_item1.is_some());
    assert!(read_item2.is_none());

    assert_eq!(read_item1.unwrap(), 1u32);
}

#[derive(Clone)]
struct SomeElementType {
    s: String,
    #[allow(dead_code)]
    v: u32,
}

#[test]
fn basic_element_test3() {
    let mut ring = RingBuffer::<SomeElementType>::new(2);

    let new_elem1 = SomeElementType { s: String::from("Element1"), v: 1337 };

    let new_elem2 = SomeElementType { s: String::from("Element2"), v: 1338 };

    assert!(ring.try_write(new_elem1).is_ok());
    assert!(ring.try_write(new_elem2).is_err());

    assert_eq!(ring.size(), 1);
    assert_eq!(ring.size(), 1);

    let read_item1 = ring.try_read();
    let read_item2 = ring.try_read();

    assert!(read_item1.is_some());
    assert!(read_item2.is_none());

    assert_eq!(read_item1.unwrap().s, "Element1");
}
