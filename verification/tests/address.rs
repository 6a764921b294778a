use udp_chat::address::{parse_port, parse_sockaddr, Address, Host};

#[test]
fn address_text_is_host_colon_port() {
    assert_eq!(Address::new(127, 0, 0, 1, 9000).to_text(), "127.0.0.1:9000");
    assert_eq!(Address::new(0, 0, 0, 0, 0).to_text(), "0.0.0.0:0");
    assert_eq!(Address::new(255, 255, 255, 255, 65535).to_text(), "255.255.255.255:65535");
    assert_eq!(Address::new(10, 200, 3, 40, 80).to_text(), "10.200.3.40:80");
}

#[test]
fn loopback_is_127_0_0_1() {
    assert_eq!(Address::loopback(9000), Address { host: Host::V4(127, 0, 0, 1), port: 9000, scope: 0 });
    assert_eq!(Address::loopback(9000), Address::new(127, 0, 0, 1, 9000));
}

#[test]
fn combined_form_gives_host_and_port() {
    assert_eq!(parse_sockaddr(&["127.0.0.1:9001"]), Some(Address::new(127, 0, 0, 1, 9001)));
    assert_eq!(parse_sockaddr(&["10.1.2.3:80"]), Some(Address::new(10, 1, 2, 3, 80)));
    assert_eq!(parse_sockaddr(&["0.0.0.0:0"]), Some(Address::new(0, 0, 0, 0, 0)));
    assert_eq!(
        parse_sockaddr(&["255.255.255.255:65535"]),
        Some(Address::new(255, 255, 255, 255, 65535))
    );
}

#[test]
fn combined_form_ignores_a_second_word() {
    assert_eq!(
        parse_sockaddr(&["127.0.0.1:9001", "9002"]),
        Some(Address::new(127, 0, 0, 1, 9001))
    );
    assert_eq!(
        parse_sockaddr(&["127.0.0.1:9001", "junk"]),
        Some(Address::new(127, 0, 0, 1, 9001))
    );
}

#[test]
fn split_form_gives_host_and_port() {
    assert_eq!(parse_sockaddr(&["127.0.0.1", "9001"]), Some(Address::new(127, 0, 0, 1, 9001)));
    assert_eq!(parse_sockaddr(&["192.168.1.20", "1"]), Some(Address::new(192, 168, 1, 20, 1)));
    assert_eq!(
        parse_sockaddr(&["192.168.1.20", "1", "more"]),
        Some(Address::new(192, 168, 1, 20, 1))
    );
}

#[test]
fn localhost_is_resolved_to_loopback() {
    assert_eq!(parse_sockaddr(&["localhost", "9001"]), Some(Address::new(127, 0, 0, 1, 9001)));
    assert_eq!(parse_sockaddr(&["localhost"]), None);
    assert_eq!(parse_sockaddr(&["localhost:9001"]), None);
    assert_eq!(parse_sockaddr(&["Localhost", "9001"]), None);
}

#[test]
fn missing_port_gives_no_address() {
    assert_eq!(parse_sockaddr(&[]), None);
    assert_eq!(parse_sockaddr(&["127.0.0.1"]), None);
    assert_eq!(parse_sockaddr(&["127.0.0.1:"]), None);
    assert_eq!(parse_sockaddr(&["127.0.0.1", ""]), None);
    assert_eq!(parse_sockaddr(&["127.0.0.1", "port"]), None);
    assert_eq!(parse_sockaddr(&["127.0.0.1", "65536"]), None);
    assert_eq!(parse_sockaddr(&["127.0.0.1", "-1"]), None);
    assert_eq!(parse_sockaddr(&["127.0.0.1", "+"]), None);
    assert_eq!(parse_sockaddr(&["127.0.0.1:65536"]), None);
    assert_eq!(parse_sockaddr(&["127.0.0.1:+80"]), None);
}

#[test]
fn invalid_host_gives_no_address() {
    assert_eq!(parse_sockaddr(&["not-an-ip"]), None);
    assert_eq!(parse_sockaddr(&["not-an-ip", "9001"]), None);
    assert_eq!(parse_sockaddr(&["256.0.0.1", "9001"]), None);
    assert_eq!(parse_sockaddr(&["1.2.3", "9001"]), None);
    assert_eq!(parse_sockaddr(&["1.2.3.4.5", "9001"]), None);
    assert_eq!(parse_sockaddr(&["1.2.3.", "9001"]), None);
    assert_eq!(parse_sockaddr(&[".1.2.3", "9001"]), None);
    assert_eq!(parse_sockaddr(&["1..2.3", "9001"]), None);
    assert_eq!(parse_sockaddr(&["01.2.3.4", "9001"]), None);
    assert_eq!(parse_sockaddr(&["1.2.3.04:9001"]), None);
    assert_eq!(parse_sockaddr(&["1.2.3.4000", "9001"]), None);
    assert_eq!(parse_sockaddr(&["1.2.3.4a", "9001"]), None);
    assert_eq!(parse_sockaddr(&["", "9001"]), None);
    assert_eq!(parse_sockaddr(&["1.2.3.4:5:6"]), None);
}

#[test]
fn port_numerals_may_have_leading_zeros_and_a_plus_sign_as_a_word() {
    assert_eq!(parse_sockaddr(&["1.2.3.4:080"]), Some(Address::new(1, 2, 3, 4, 80)));
    assert_eq!(parse_sockaddr(&["1.2.3.4:0000000000080"]), Some(Address::new(1, 2, 3, 4, 80)));
    assert_eq!(parse_sockaddr(&["1.2.3.4", "080"]), Some(Address::new(1, 2, 3, 4, 80)));
    assert_eq!(parse_sockaddr(&["1.2.3.4", "+80"]), Some(Address::new(1, 2, 3, 4, 80)));
    assert_eq!(parse_sockaddr(&["1.2.3.4", "++80"]), None);
    assert_eq!(parse_sockaddr(&["1.2.3.4", "65535"]), Some(Address::new(1, 2, 3, 4, 65535)));
}

#[test]
fn text_of_an_address_parses_back_to_it() {
    let hosts = [(0, 0, 0, 0), (127, 0, 0, 1), (9, 10, 99, 100), (255, 255, 255, 255), (1, 20, 250, 7)];
    let ports = [0u16, 1, 9, 10, 80, 999, 1000, 9000, 9001, 65535];
    for (a, b, c, d) in hosts {
        for port in ports {
            let address = Address::new(a, b, c, d, port);
            let text = address.to_text();
            assert_eq!(parse_sockaddr(&[text.as_str()]), Some(address));
            let host = format!("{}.{}.{}.{}", a, b, c, d);
            let port_text = format!("{}", port);
            assert_eq!(parse_sockaddr(&[host.as_str(), port_text.as_str()]), Some(address));
            assert_eq!(parse_sockaddr(&[host.as_str()]), None);
        }
    }
}

#[test]
fn port_words_agree_with_the_standard_library() {
    let words = [
        "0", "1", "80", "9000", "65535", "65536", "99999", "4294967296", "", "+", "-", "+1", "-1",
        "++1", "+-1", "1+", " 1", "1 ", "0x10", "00", "0009001", "+0009001", "12a", "a12", "١٢",
        "18446744073709551616",
    ];
    for word in words {
        assert_eq!(parse_port(&["udp-chat", word]), word.parse::<u16>().ok(), "{:?}", word);
        assert_eq!(
            parse_sockaddr(&["1.2.3.4", word]),
            word.parse::<u16>().ok().map(|p| Address::new(1, 2, 3, 4, p)),
            "{:?}",
            word
        );
    }
}

#[test]
fn local_port_is_the_first_argument() {
    assert_eq!(parse_port(&["udp-chat", "9000"]), Some(9000));
    assert_eq!(parse_port(&["udp-chat", "9000", "extra"]), Some(9000));
    assert_eq!(parse_port(&["udp-chat"]), None);
    assert_eq!(parse_port(&[]), None);
    assert_eq!(parse_port(&["udp-chat", "port"]), None);
    assert_eq!(parse_port(&["udp-chat", "70000"]), None);
    assert_eq!(parse_port(&["9000"]), None);
}
