use udp_chat::address::Address;
use udp_chat::history::History;
use udp_chat::render::{repaint, DrawOp};
use udp_chat::session::{parse_line, Command, Input, Reply, Session};
use udp_chat::transport::{Datagram, Receiver, Sender, SenderReceiver};

fn session(port: u16) -> Session {
    Session::new(port, Sender::new())
}

fn quiet() -> Reply {
    Reply { outgoing: Vec::new(), status: None, exit: false }
}

#[test]
fn empty_line_is_nothing() {
    assert_eq!(parse_line(""), Input::Empty);
    assert_eq!(parse_line("\n"), Input::Empty);
    assert_eq!(parse_line("\r\n"), Input::Empty);
}

#[test]
fn plain_line_is_a_message_without_its_line_ending() {
    assert_eq!(parse_line("hello\n"), Input::Message(String::from("hello")));
    assert_eq!(parse_line("hello\r\n"), Input::Message(String::from("hello")));
    assert_eq!(parse_line("hello"), Input::Message(String::from("hello")));
    assert_eq!(parse_line("  two words \n"), Input::Message(String::from("  two words ")));
    assert_eq!(parse_line(" /add\n"), Input::Message(String::from(" /add")));
    assert_eq!(parse_line("a\n\n"), Input::Message(String::from("a\n")));
}

#[test]
fn slash_lines_are_commands() {
    assert_eq!(parse_line("/exit\n"), Input::Command(Command::Exit));
    assert_eq!(parse_line("/list\n"), Input::Command(Command::List));
    assert_eq!(parse_line("/whoami\n"), Input::Command(Command::Whoami));
    assert_eq!(parse_line("/whoami now\n"), Input::Command(Command::Whoami));
    assert_eq!(parse_line("/ exit\n"), Input::Command(Command::Exit));
    assert_eq!(parse_line("/nick alice\n"), Input::Command(Command::Nick(String::from("alice"))));
    assert_eq!(
        parse_line("/nick alice smith\n"),
        Input::Command(Command::Nick(String::from("alice")))
    );
    assert_eq!(parse_line("/nick\n"), Input::Command(Command::Nick(String::new())));
}

#[test]
fn keywords_are_case_sensitive_and_others_are_ignored() {
    assert_eq!(parse_line("/Exit\n"), Input::Command(Command::Unknown));
    assert_eq!(parse_line("/NICK bob\n"), Input::Command(Command::Unknown));
    assert_eq!(parse_line("/quit\n"), Input::Command(Command::Unknown));
    assert_eq!(parse_line("/\n"), Input::Command(Command::Unknown));
    assert_eq!(parse_line("/   \n"), Input::Command(Command::Unknown));
    assert_eq!(parse_line("/exits\n"), Input::Command(Command::Unknown));
    assert_eq!(parse_line("//exit\n"), Input::Command(Command::Unknown));
}

#[test]
fn add_command_carries_the_destination() {
    let there = Address::new(127, 0, 0, 1, 9001);
    assert_eq!(parse_line("/add 127.0.0.1 9001\n"), Input::Command(Command::Add(Some(there))));
    assert_eq!(parse_line("/add 127.0.0.1:9001\n"), Input::Command(Command::Add(Some(there))));
    assert_eq!(parse_line("/add localhost 9001\n"), Input::Command(Command::Add(Some(there))));
    assert_eq!(
        parse_line("/add   127.0.0.1\t9001  extra\n"),
        Input::Command(Command::Add(Some(there)))
    );
    assert_eq!(parse_line("/add\n"), Input::Command(Command::Add(None)));
    assert_eq!(parse_line("/add not-an-ip\n"), Input::Command(Command::Add(None)));
    assert_eq!(parse_line("/add 127.0.0.1\n"), Input::Command(Command::Add(None)));
    assert_eq!(parse_line("/add 127.0.0.1 x 9001\n"), Input::Command(Command::Add(None)));
}

#[test]
fn hello_reaches_the_peer_added_by_host_and_port() {
    let here = SenderReceiver::new(9000);
    let from = here.local_address();
    let mut chat = Session::new(here.port, here.sender);
    assert_eq!(chat.handle_line("/add 127.0.0.1 9001\n"), quiet());
    let reply = chat.handle_line("hello\n");
    assert_eq!(reply, Reply {
        outgoing: vec![Datagram {
            payload: b"hello".to_vec(),
            destination: Address::new(127, 0, 0, 1, 9001),
        }],
        status: None,
        exit: false,
    });

    let peer = Receiver::new();
    let mut transcript = History::new();
    peer.record(&mut transcript, &reply.outgoing[0].payload, from);
    assert_eq!(transcript.snapshot(), vec![String::from("hello\t127.0.0.1:9000")]);
    let ops = repaint(transcript.entries(), None, 24);
    assert!(ops.contains(&DrawOp::Print(String::from("hello\t127.0.0.1:9000"))));
}

#[test]
fn add_of_an_invalid_address_shows_the_usage() {
    let mut chat = session(9000);
    chat.handle_line("/add 127.0.0.1 9001\n");
    let reply = chat.handle_line("/add not-an-ip\n");
    assert_eq!(reply, Reply {
        outgoing: Vec::new(),
        status: Some(String::from("usage: /add [address:port] or [address port]")),
        exit: false,
    });
    assert_eq!(chat.sender.list(), vec![Address::new(127, 0, 0, 1, 9001)]);
    let mut fresh = session(9000);
    assert_eq!(
        fresh.handle_line("/add not-an-ip").status,
        Some(String::from("usage: /add [address:port] or [address port]"))
    );
    assert!(fresh.sender.list().is_empty());
}

#[test]
fn nickname_prefixes_what_the_peer_reads() {
    let here = SenderReceiver::new(9000);
    let from = here.local_address();
    let mut alice = Session::new(here.port, here.sender);
    alice.handle_line("/add 127.0.0.1:9001\n");
    alice.handle_line("/nick alice\n");
    assert_eq!(alice.nick, "alice");
    let reply = alice.handle_line("good morning, wörld\n");
    assert_eq!(reply.outgoing.len(), 1);
    assert_eq!(reply.outgoing[0].payload, "alice: good morning, wörld".as_bytes().to_vec());

    let bob = Receiver::new();
    let mut transcript = History::new();
    bob.record(&mut transcript, &reply.outgoing[0].payload, from);
    assert_eq!(transcript.snapshot(), vec![String::from(
        "alice: good morning, wörld\t127.0.0.1:9000"
    )]);
}

#[test]
fn nick_is_announced_to_every_destination() {
    let mut chat = session(9000);
    chat.handle_line("/add 127.0.0.1 9001\n");
    chat.handle_line("/add 127.0.0.1 9002\n");
    let reply = chat.handle_line("/nick bob the builder\n");
    assert_eq!(reply, Reply {
        outgoing: vec![
            Datagram {
                payload: b"Changed nick to bob".to_vec(),
                destination: Address::new(127, 0, 0, 1, 9001),
            },
            Datagram {
                payload: b"Changed nick to bob".to_vec(),
                destination: Address::new(127, 0, 0, 1, 9002),
            },
        ],
        status: None,
        exit: false,
    });
    assert_eq!(chat.nick, "bob");
}

#[test]
fn nick_without_a_name_clears_the_nickname() {
    let mut chat = session(9000);
    chat.handle_line("/add 127.0.0.1 9001\n");
    chat.handle_line("/nick bob\n");
    let reply = chat.handle_line("/nick\n");
    assert_eq!(reply.outgoing.len(), 1);
    assert_eq!(reply.outgoing[0].payload, b"Changed nick to ".to_vec());
    assert_eq!(chat.nick, "");
    let reply = chat.handle_line("plain\n");
    assert_eq!(reply.outgoing[0].payload, b"plain".to_vec());
}

#[test]
fn whoami_reports_the_local_port() {
    let mut chat = session(9000);
    assert_eq!(chat.handle_line("/whoami\n"), Reply {
        outgoing: Vec::new(),
        status: Some(String::from("Your port is: 9000")),
        exit: false,
    });
    assert_eq!(session(0).handle_line("/whoami").status, Some(String::from("Your port is: 0")));
    assert_eq!(
        session(65535).handle_line("/whoami").status,
        Some(String::from("Your port is: 65535"))
    );
}

#[test]
fn list_shows_each_destination_on_its_own_line() {
    let mut chat = session(9000);
    assert_eq!(chat.handle_line("/list\n").status, Some(String::new()));
    chat.handle_line("/add 127.0.0.1 9001\n");
    chat.handle_line("/add 10.0.0.7:80\n");
    chat.handle_line("/add localhost 9001\n");
    assert_eq!(chat.handle_line("/list\n"), Reply {
        outgoing: Vec::new(),
        status: Some(String::from("127.0.0.1:9001\n10.0.0.7:80\n127.0.0.1:9001\n")),
        exit: false,
    });
}

#[test]
fn exit_ends_the_chat_and_sends_nothing() {
    let mut chat = session(9000);
    chat.handle_line("/add 127.0.0.1 9001\n");
    assert_eq!(chat.handle_line("/exit\n"), Reply {
        outgoing: Vec::new(),
        status: None,
        exit: true,
    });
}

#[test]
fn unknown_commands_and_empty_lines_change_nothing() {
    let mut chat = session(9000);
    chat.handle_line("/add 127.0.0.1 9001\n");
    chat.handle_line("/nick carol\n");
    for line in ["/unknown\n", "/\n", "\n", "", "/Add 1.2.3.4 5\n"] {
        assert_eq!(chat.handle_line(line), quiet());
        assert_eq!(chat.nick, "carol");
        assert_eq!(chat.port, 9000);
        assert_eq!(chat.sender.list(), vec![Address::new(127, 0, 0, 1, 9001)]);
    }
}

#[test]
fn message_without_destinations_sends_nothing() {
    let mut chat = session(9000);
    assert_eq!(chat.handle_line("anyone?\n"), quiet());
}

#[test]
fn apply_does_what_handle_line_does() {
    let mut by_line = session(9000);
    let mut by_input = session(9000);
    for line in ["/add 127.0.0.1 9001\n", "/nick dave\n", "hi\n", "/list\n", "/whoami\n", "/exit\n"] {
        let a = by_line.handle_line(line);
        let b = by_input.apply(parse_line(line));
        assert_eq!(a, b);
        assert_eq!(by_line.nick, by_input.nick);
        assert_eq!(by_line.sender.list(), by_input.sender.list());
    }
}

#[test]
fn reply_constructors() {
    assert_eq!(Reply::quiet(), quiet());
    assert_eq!(Reply::leaving(), Reply { outgoing: Vec::new(), status: None, exit: true });
    assert_eq!(Reply::showing(String::from("s")), Reply {
        outgoing: Vec::new(),
        status: Some(String::from("s")),
        exit: false,
    });
    let datagram = || Datagram { payload: vec![1, 2], destination: Address::loopback(1) };
    assert_eq!(Reply::sending(vec![datagram()]), Reply {
        outgoing: vec![datagram()],
        status: None,
        exit: false,
    });
}
