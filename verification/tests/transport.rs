use udp_chat::address::Address;
use udp_chat::history::History;
use udp_chat::transport::{format_entry, AddError, Datagram, Receiver, Sender, SenderReceiver};

#[test]
fn new_endpoint_has_no_destinations() {
    let endpoint = SenderReceiver::new(9000);
    assert_eq!(endpoint.port, 9000);
    assert_eq!(endpoint.sender.len(), 0);
    assert!(endpoint.sender.list().is_empty());
    assert_eq!(endpoint.receiver.capacity, 10000);
    assert_eq!(Receiver::new().capacity, 10000);
    assert_eq!(endpoint.local_address(), Address::new(127, 0, 0, 1, 9000));
}

#[test]
fn destinations_keep_insertion_order_and_duplicates() {
    let mut sender = Sender::new();
    let a = Address::new(127, 0, 0, 1, 9001);
    let b = Address::new(10, 0, 0, 2, 9002);
    sender.register(a);
    sender.register(b);
    sender.register(a);
    assert_eq!(sender.list(), vec![a, b, a]);
    assert_eq!(sender.len(), 3);
}

#[test]
fn add_appends_the_named_destination() {
    let mut sender = Sender::new();
    assert_eq!(sender.add(&["127.0.0.1", "9001"]), Ok(Address::new(127, 0, 0, 1, 9001)));
    assert_eq!(sender.add(&["10.0.0.2:9002"]), Ok(Address::new(10, 0, 0, 2, 9002)));
    assert_eq!(sender.add(&["localhost", "9003"]), Ok(Address::new(127, 0, 0, 1, 9003)));
    assert_eq!(sender.list(), vec![
        Address::new(127, 0, 0, 1, 9001),
        Address::new(10, 0, 0, 2, 9002),
        Address::new(127, 0, 0, 1, 9003),
    ]);
}

#[test]
fn add_of_an_invalid_address_leaves_the_registry() {
    let mut sender = Sender::new();
    sender.register(Address::new(127, 0, 0, 1, 9001));
    assert_eq!(sender.add(&["not-an-ip"]), Err(AddError::InvalidAddress));
    assert_eq!(sender.add(&["127.0.0.1"]), Err(AddError::InvalidAddress));
    assert_eq!(sender.add(&[]), Err(AddError::InvalidAddress));
    assert_eq!(sender.list(), vec![Address::new(127, 0, 0, 1, 9001)]);
}

#[test]
fn send_to_makes_one_datagram() {
    let sender = Sender::new();
    let to = Address::new(127, 0, 0, 1, 9001);
    assert_eq!(sender.send_to(b"hello", to), Datagram { payload: b"hello".to_vec(), destination: to });
    assert_eq!(sender.send_to(b"", to), Datagram { payload: Vec::new(), destination: to });
}

#[test]
fn broadcast_sends_once_to_each_destination_in_order() {
    let mut sender = Sender::new();
    assert!(sender.send_to_destinations(b"nobody").is_empty());
    let a = Address::new(127, 0, 0, 1, 9001);
    let b = Address::new(127, 0, 0, 1, 9002);
    let c = Address::new(192, 168, 0, 7, 9003);
    for address in [a, b, c, a] {
        sender.register(address);
    }
    let datagrams = sender.send_to_destinations(b"hi all");
    assert_eq!(datagrams.len(), 4);
    let destinations: Vec<Address> = datagrams.iter().map(|d| d.destination).collect();
    assert_eq!(destinations, vec![a, b, c, a]);
    for datagram in &datagrams {
        assert_eq!(datagram.payload, b"hi all".to_vec());
    }
}

#[test]
fn entry_is_payload_tab_address() {
    assert_eq!(format_entry("hello", Address::new(127, 0, 0, 1, 9000)), "hello\t127.0.0.1:9000");
    assert_eq!(format_entry("", Address::new(1, 2, 3, 4, 5)), "\t1.2.3.4:5");
    assert_eq!(
        format_entry("alice: hi\nthere", Address::new(10, 0, 0, 1, 65535)),
        "alice: hi\nthere\t10.0.0.1:65535"
    );
}

#[test]
fn received_text_is_decoded() {
    let receiver = Receiver::new();
    let from = Address::new(127, 0, 0, 1, 9000);
    assert_eq!(receiver.get_datagram(b"hello", from), (String::from("hello"), from));
    assert_eq!(receiver.get_datagram("héllo ✓".as_bytes(), from), (String::from("héllo ✓"), from));
    assert_eq!(receiver.get_datagram(b"", from), (String::new(), from));
}

#[test]
fn invalid_bytes_are_replaced_not_refused() {
    let receiver = Receiver::new();
    let from = Address::new(127, 0, 0, 1, 9000);
    let (text, sender) = receiver.get_datagram(&[b'a', 0xff, b'b'], from);
    assert_eq!(text, "a\u{fffd}b");
    assert_eq!(sender, from);
    let (text, _) = receiver.get_datagram(&[0xe2, 0x82], from);
    assert_eq!(text, "\u{fffd}");
}

#[test]
fn record_appends_the_entry() {
    let receiver = Receiver::new();
    let mut history = History::new();
    receiver.record(&mut history, b"hello", Address::new(127, 0, 0, 1, 9000));
    receiver.record(&mut history, &[0xff], Address::new(127, 0, 0, 1, 9001));
    assert_eq!(history.snapshot(), vec![
        String::from("hello\t127.0.0.1:9000"),
        String::from("\u{fffd}\t127.0.0.1:9001"),
    ]);
}

#[test]
fn history_grows_by_whole_entries() {
    let entries = ["first", "second\nline", "", "fourth"];
    let mut history = History::new();
    assert_eq!(history.len(), 0);
    assert!(history.snapshot().is_empty());
    let mut seen: Vec<Vec<String>> = Vec::new();
    for entry in entries {
        history.append(String::from(entry));
        seen.push(history.snapshot());
    }
    assert_eq!(history.len(), 4);
    for (k, snapshot) in seen.iter().enumerate() {
        assert_eq!(snapshot.len(), k + 1);
        for (i, entry) in snapshot.iter().enumerate() {
            assert_eq!(entry, entries[i]);
        }
    }
    assert_eq!(history.entries(), history.snapshot().as_slice());
}

#[test]
fn add_destination_takes_the_text_of_an_address() {
    let mut sender = Sender::new();
    assert_eq!(sender.add_destination("127.0.0.1:9001"), Ok(Address::new(127, 0, 0, 1, 9001)));
    assert_eq!(sender.add_destination("10.0.0.2 9002"), Ok(Address::new(10, 0, 0, 2, 9002)));
    assert_eq!(sender.add_destination("  localhost\t9003 more\n"), Ok(Address::new(127, 0, 0, 1, 9003)));
    assert_eq!(
        sender.add_destination("[::1]:9004"),
        Ok(Address::v6([0, 0, 0, 0, 0, 0, 0, 1], 9004, 0))
    );
    assert_eq!(sender.list(), vec![
        Address::new(127, 0, 0, 1, 9001),
        Address::new(10, 0, 0, 2, 9002),
        Address::new(127, 0, 0, 1, 9003),
        Address::v6([0, 0, 0, 0, 0, 0, 0, 1], 9004, 0),
    ]);
}

#[test]
fn add_destination_of_a_text_that_names_none_leaves_the_registry() {
    let mut sender = Sender::new();
    sender.register(Address::new(127, 0, 0, 1, 9001));
    for text in ["not-an-ip", "", "   ", "127.0.0.1", "localhost", "127.0.0.1 port", "::1", "1.2.3.4:"] {
        assert_eq!(sender.add_destination(text), Err(AddError::InvalidAddress), "{:?}", text);
        assert_eq!(sender.list(), vec![Address::new(127, 0, 0, 1, 9001)]);
    }
}
