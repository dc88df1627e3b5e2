use flightcore::mailbox::Mailbox;

#[test]
fn fresh_mailbox_is_empty() {
    let mut m: Mailbox<u32> = Mailbox::new();
    assert_eq!(m.try_recv(), None);
}

#[test]
fn latest_value_wins() {
    // two sends without an intervening receive expose only the second value
    let mut m: Mailbox<u32> = Mailbox::new();
    m.send(1);
    m.send(2);
    assert_eq!(m.try_recv(), Some(2));
    assert_eq!(m.try_recv(), None);
}

#[test]
fn receive_empties_the_slot() {
    let mut m: Mailbox<&str> = Mailbox::new();
    m.send("baro");
    assert_eq!(m.try_recv(), Some("baro"));
    assert_eq!(m.try_recv(), None);
    m.send("gps");
    assert_eq!(m.try_recv(), Some("gps"));
}

#[test]
fn mailbox_carries_record_payloads() {
    let mut m: Mailbox<(u32, [u16; 16])> = Mailbox::new();
    m.send((1, [7u16; 16]));
    m.send((2, [9u16; 16]));
    let (seq, channels) = m.try_recv().expect("a value was published");
    assert_eq!(seq, 2);
    assert_eq!(channels, [9u16; 16]);
}
