use win_expl::RingBuffer;

#[test]
fn capacity_two_evicts_oldest() {
    let mut rb: RingBuffer<String> = RingBuffer::new(2);
    rb.push(String::from("A"));
    rb.push(String::from("B"));
    rb.push(String::from("C"));
    assert_eq!(rb.pop(), Some(String::from("C")));
    assert_eq!(rb.pop(), Some(String::from("B")));
    assert_eq!(rb.pop(), None);
}

#[test]
fn pop_is_last_in_first_out() {
    let mut rb: RingBuffer<u64> = RingBuffer::new(5);
    rb.push(1);
    rb.push(2);
    rb.push(3);
    assert_eq!(rb.pop(), Some(3));
    rb.push(4);
    assert_eq!(rb.pop(), Some(4));
    assert_eq!(rb.pop(), Some(2));
    assert_eq!(rb.pop(), Some(1));
    assert_eq!(rb.pop(), None);
}

#[test]
fn all_read_tracks_unread_entries() {
    let mut rb: RingBuffer<u64> = RingBuffer::new(3);
    assert!(rb.all_read());
    rb.push(7);
    assert!(!rb.all_read());
    rb.pop();
    assert!(rb.all_read());
}

#[test]
fn default_history_has_room_for_ten() {
    let mut rb: RingBuffer<String> = RingBuffer::default();
    for i in 0..11u32 {
        rb.push(format!("p{}", i));
    }
    assert_eq!(rb.pop(), Some(String::from("p10")));
    let mut count = 1;
    while rb.pop().is_some() {
        count += 1;
    }
    assert_eq!(count, 10);
}
