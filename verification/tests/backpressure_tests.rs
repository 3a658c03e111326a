// The channel between the tunnel reader and the encryption workers is
// bounded: once it is full the producer cannot push more packets; nothing
// is dropped.
#[test]
fn full_channel_refuses_instead_of_dropping() {
    let (tx, rx) = crossbeam_channel::bounded::<u32>(2);
    tx.send(1).unwrap();
    tx.send(2).unwrap();
    assert!(tx.is_full());
    let refused = tx.try_send(3);
    assert!(refused.is_err());
    // the refused packet was not lost by the channel: both queued ones
    // arrive in order once the consumer drains
    assert_eq!(rx.recv().unwrap(), 1);
    assert_eq!(rx.recv().unwrap(), 2);
    assert!(rx.try_recv().is_err());
}

#[test]
fn send_unblocks_after_a_receive() {
    let (tx, rx) = crossbeam_channel::bounded::<u32>(1);
    tx.send(7).unwrap();
    assert!(tx.try_send(8).is_err());
    assert_eq!(rx.recv().unwrap(), 7);
    tx.send(8).unwrap();
    assert_eq!(rx.recv().unwrap(), 8);
}
