//! The input loop, one line at a time: what a typed line means, and what the
//! chat does on it.

use crate::address::{
    address_text, destination_of, host_text, law_missing_port, law_one_word_destination,
    law_two_word_destination, lemma_address_word, lemma_decimal_word, lemma_host_word,
    parse_destination, port_word, Address, Host,
};
use crate::decimal::{decimal, decimal_string};
use crate::text::{
    copy_range, from_chars, is_whitespace, join_words, lemma_join_words, no_whitespace,
    push_char, rows_view, same_chars, strip_cr, to_chars, words_chars, words_of,
};
use crate::transport::{
    broadcast, datagrams_view, decoded, entry_text, Datagram, DatagramView, Sender,
};
use vstd::prelude::*;
use vstd::string::StringExecFns;
use vstd::utf8::encode_utf8;

verus! {

/// A command: a line that starts with a slash.
#[derive(Debug, PartialEq, Eq)]
pub enum Command {
    /// Take the name as nickname; no name clears it.
    Nick(String),
    /// Add the destination that the words named, if they named one.
    Add(Option<Address>),
    /// Show the destinations.
    List,
    /// Show the local port.
    Whoami,
    /// Leave the chat.
    Exit,
    /// Any other word, or none: nothing is done.
    Unknown,
}

/// What a `Command` says, with its text as a sequence of characters.
pub enum CommandView {
    Nick(Seq<char>),
    Add(Option<Address>),
    List,
    Whoami,
    Exit,
    Unknown,
}

impl View for Command {
    type V = CommandView;

    open spec fn view(&self) -> CommandView {
        match self {
            Command::Nick(name) => CommandView::Nick(name@),
            Command::Add(address) => CommandView::Add(*address),
            Command::List => CommandView::List,
            Command::Whoami => CommandView::Whoami,
            Command::Exit => CommandView::Exit,
            Command::Unknown => CommandView::Unknown,
        }
    }
}

/// What a typed line is.
#[derive(Debug, PartialEq, Eq)]
pub enum Input {
    /// Nothing was typed.
    Empty,
    /// A command.
    Command(Command),
    /// A message for the peers.
    Message(String),
}

/// What an `Input` says, with its text as a sequence of characters.
pub enum InputView {
    Empty,
    Command(CommandView),
    Message(Seq<char>),
}

impl View for Input {
    type V = InputView;

    open spec fn view(&self) -> InputView {
        match self {
            Input::Empty => InputView::Empty,
            Input::Command(command) => InputView::Command(command@),
            Input::Message(text) => InputView::Message(text@),
        }
    }
}

/// What was typed: the line as it was read, without the line feed at its end
/// and the carriage return before that.
pub open spec fn typed(input: Seq<char>) -> Seq<char> {
    if input.len() > 0 && input.last() == '\n' {
        strip_cr(input.drop_last())
    } else {
        input
    }
}

/// The command that the words behind the slash name. The first word decides;
/// it is matched as it is written, capitals and all.
pub open spec fn command_of(words: Seq<Seq<char>>) -> CommandView {
    if words.len() == 0 {
        CommandView::Unknown
    } else if words[0] == "nick"@ {
        CommandView::Nick(
            if words.len() >= 2 {
                words[1]
            } else {
                Seq::empty()
            },
        )
    } else if words[0] == "exit"@ {
        CommandView::Exit
    } else if words[0] == "add"@ {
        CommandView::Add(destination_of(words.skip(1)))
    } else if words[0] == "whoami"@ {
        CommandView::Whoami
    } else if words[0] == "list"@ {
        CommandView::List
    } else {
        CommandView::Unknown
    }
}

/// What the line `input` is: nothing, a command where it starts with a slash,
/// and a message otherwise.
pub open spec fn parsed(input: Seq<char>) -> InputView {
    let line = typed(input);
    if line.len() == 0 {
        InputView::Empty
    } else if line[0] == '/' {
        InputView::Command(command_of(words_of(line.skip(1))))
    } else {
        InputView::Message(line)
    }
}

/// Whether `word` is the keyword `keyword`.
fn is_keyword(word: &Vec<char>, keyword: &str) -> (same: bool)
    ensures
        same == (word@ == keyword@),
{
    let chars = to_chars(keyword);
    same_chars(word.as_slice(), chars.as_slice())
}

/// The command that `words` name.
fn parse_command(words: &Vec<Vec<char>>) -> (command: Command)
    ensures
        command@ == command_of(rows_view(words@)),
{
    if words.len() == 0 {
        return Command::Unknown;
    }
    let keyword = &words[0];
    if is_keyword(keyword, "nick") {
        if words.len() >= 2 {
            Command::Nick(from_chars(words[1].as_slice()))
        } else {
            Command::Nick(String::new())
        }
    } else if is_keyword(keyword, "exit") {
        Command::Exit
    } else if is_keyword(keyword, "add") {
        let rest = vstd::slice::slice_subrange(words.as_slice(), 1, words.len());
        proof {
            assert(rows_view(rest@) =~= rows_view(words@).skip(1));
        }
        Command::Add(parse_destination(rest))
    } else if is_keyword(keyword, "whoami") {
        Command::Whoami
    } else if is_keyword(keyword, "list") {
        Command::List
    } else {
        Command::Unknown
    }
}

/// Reads one line as it came from the keyboard.
pub fn parse_line(input: &str) -> (read: Input)
    ensures
        read@ == parsed(input@),
{
    let chars = to_chars(input);
    let n: usize = chars.len();
    let end: usize = if n > 0 && chars[n - 1] == '\n' {
        if n > 1 && chars[n - 2] == '\r' {
            n - 2
        } else {
            n - 1
        }
    } else {
        n
    };
    proof {
        if n > 0 && chars@[n - 1] == '\n' {
            assert(chars@.drop_last() =~= chars@.subrange(0, n - 1));
            if n > 1 && chars@[n - 2] == '\r' {
                assert(chars@.drop_last().drop_last() =~= chars@.subrange(0, n - 2));
            }
        } else {
            assert(chars@ =~= chars@.subrange(0, n as int));
        }
        assert(typed(input@) == chars@.subrange(0, end as int));
    }
    if end == 0 {
        return Input::Empty;
    }
    if chars[0] == '/' {
        let rest = copy_range(chars.as_slice(), 1, end);
        proof {
            assert(rest@ =~= typed(input@).skip(1));
        }
        let words = words_chars(rest.as_slice());
        Input::Command(parse_command(&words))
    } else {
        let line = copy_range(chars.as_slice(), 0, end);
        Input::Message(from_chars(line.as_slice()))
    }
}

/// The state of the chat between two lines: the local port, the nickname (empty
/// where none was set) and the registry of destinations.
pub struct Session {
    pub port: u16,
    pub nick: String,
    pub sender: Sender,
}

/// What a `Session` holds, as plain values.
pub struct SessionView {
    pub port: u16,
    pub nick: Seq<char>,
    pub destinations: Seq<Address>,
}

impl View for Session {
    type V = SessionView;

    open spec fn view(&self) -> SessionView {
        SessionView { port: self.port, nick: self.nick@, destinations: self.sender@ }
    }
}

/// What the chat does on one line: the datagrams to send, in order; the status
/// message to show once at the next repaint, if any; and whether to leave.
#[derive(Debug, PartialEq, Eq)]
pub struct Reply {
    pub outgoing: Vec<Datagram>,
    pub status: Option<String>,
    pub exit: bool,
}

/// What a `Reply` says, as plain values.
pub struct ReplyView {
    pub outgoing: Seq<DatagramView>,
    pub status: Option<Seq<char>>,
    pub exit: bool,
}

impl View for Reply {
    type V = ReplyView;

    open spec fn view(&self) -> ReplyView {
        ReplyView {
            outgoing: datagrams_view(self.outgoing@),
            status: match self.status {
                Some(text) => Some(text@),
                None => None,
            },
            exit: self.exit,
        }
    }
}

impl Reply {
    /// The reply in which nothing is sent or shown.
    pub fn quiet() -> (reply: Reply)
        ensures
            reply@ == silence(),
    {
        let reply = Reply { outgoing: Vec::new(), status: None, exit: false };
        assert(reply@.outgoing =~= Seq::<DatagramView>::empty());
        reply
    }

    /// The reply that sends `outgoing` and shows nothing.
    pub fn sending(outgoing: Vec<Datagram>) -> (reply: Reply)
        ensures
            reply@ == (ReplyView { outgoing: datagrams_view(outgoing@), ..silence() }),
    {
        Reply { outgoing, status: None, exit: false }
    }

    /// The reply that shows `status` and sends nothing.
    pub fn showing(status: String) -> (reply: Reply)
        ensures
            reply@ == (ReplyView { status: Some(status@), ..silence() }),
    {
        let reply = Reply { outgoing: Vec::new(), status: Some(status), exit: false };
        assert(reply@.outgoing =~= Seq::<DatagramView>::empty());
        reply
    }

    /// The reply that ends the chat.
    pub fn leaving() -> (reply: Reply)
        ensures
            reply@ == (ReplyView { exit: true, ..silence() }),
    {
        let reply = Reply { outgoing: Vec::new(), status: None, exit: true };
        assert(reply@.outgoing =~= Seq::<DatagramView>::empty());
        reply
    }
}

/// The status message for an `add` command that names no destination.
pub open spec fn usage_text() -> Seq<char> {
    "usage: /add [address:port] or [address port]"@
}

/// The message that tells the peers of a new nickname.
pub open spec fn nick_notice(name: Seq<char>) -> Seq<char> {
    "Changed nick to "@ + name
}

/// The status message that tells the local port.
pub open spec fn whoami_text(port: u16) -> Seq<char> {
    "Your port is: "@ + decimal(port as nat)
}

/// The status message that lists the destinations: the text of each address
/// and a line feed, in the order of the registry.
pub open spec fn list_text(destinations: Seq<Address>) -> Seq<char>
    decreases destinations.len(),
{
    if destinations.len() == 0 {
        Seq::empty()
    } else {
        list_text(destinations.drop_last()) + address_text(destinations.last()) + seq!['\n']
    }
}

/// The text that goes out for a typed line: the line itself, behind the
/// nickname, a colon and a space where a nickname is set.
pub open spec fn outgoing_text(nick: Seq<char>, line: Seq<char>) -> Seq<char> {
    if nick.len() == 0 {
        line
    } else {
        nick + ": "@ + line
    }
}

/// The reply in which nothing is sent or shown.
pub open spec fn silence() -> ReplyView {
    ReplyView { outgoing: Seq::empty(), status: None, exit: false }
}

/// The state after `input`: `nick` sets the nickname, `add` with a destination
/// appends it to the registry, and nothing else changes anything.
pub open spec fn next_state(state: SessionView, input: InputView) -> SessionView {
    match input {
        InputView::Command(CommandView::Nick(name)) => SessionView { nick: name, ..state },
        InputView::Command(CommandView::Add(Some(address))) => SessionView {
            destinations: state.destinations.push(address),
            ..state
        },
        _ => state,
    }
}

/// The reply to `input` in `state`.
pub open spec fn reply_to(state: SessionView, input: InputView) -> ReplyView {
    match input {
        InputView::Empty => silence(),
        InputView::Message(line) => ReplyView {
            outgoing: broadcast(state.destinations, encode_utf8(outgoing_text(state.nick, line))),
            ..silence()
        },
        InputView::Command(command) => match command {
            CommandView::Nick(name) => ReplyView {
                outgoing: broadcast(state.destinations, encode_utf8(nick_notice(name))),
                ..silence()
            },
            CommandView::Add(Some(_)) => silence(),
            CommandView::Add(None) => ReplyView { status: Some(usage_text()), ..silence() },
            CommandView::List => ReplyView {
                status: Some(list_text(state.destinations)),
                ..silence()
            },
            CommandView::Whoami => ReplyView {
                status: Some(whoami_text(state.port)),
                ..silence()
            },
            CommandView::Exit => ReplyView { exit: true, ..silence() },
            CommandView::Unknown => silence(),
        },
    }
}

impl Session {
    /// The chat on `port`, with no nickname and with the registry `sender`.
    pub fn new(port: u16, sender: Sender) -> (session: Session)
        ensures
            session@ == (SessionView {
                port,
                nick: Seq::<char>::empty(),
                destinations: sender@,
            }),
    {
        Session { port, nick: String::new(), sender }
    }

    /// The status message that lists the destinations.
    fn list_status(&self) -> (text: String)
        ensures
            text@ == list_text(self.sender@),
    {
        let destinations = self.sender.list();
        let mut text = String::new();
        let mut i: usize = 0;
        proof {
            assert(destinations@.take(0) =~= Seq::<Address>::empty());
        }
        while i < destinations.len()
            invariant
                i <= destinations@.len(),
                text@ == list_text(destinations@.take(i as int)),
            decreases destinations@.len() - i,
        {
            let address = destinations[i].to_text();
            text.append(address.as_str());
            push_char(&mut text, '\n');
            proof {
                let next = destinations@.take(i + 1);
                assert(next.drop_last() =~= destinations@.take(i as int));
                assert(next.last() == destinations@[i as int]);
            }
            i += 1;
        }
        proof {
            assert(destinations@.take(destinations@.len() as int) =~= destinations@);
        }
        text
    }

    /// The datagrams that carry `text` to every destination.
    fn broadcast_text(&self, text: &str) -> (outgoing: Vec<Datagram>)
        ensures
            datagrams_view(outgoing@) == broadcast(self.sender@, encode_utf8(text@)),
    {
        self.sender.send_to_destinations(text.as_bytes())
    }

    /// Does what `input` asks for, and says what is to be sent and shown.
    pub fn apply(&mut self, input: Input) -> (reply: Reply)
        ensures
            final(self)@ == next_state(old(self)@, input@),
            reply@ == reply_to(old(self)@, input@),
    {
        match input {
            Input::Empty => Reply::quiet(),
            Input::Message(line) => {
                if self.nick.as_str().unicode_len() == 0 {
                    Reply::sending(self.broadcast_text(line.as_str()))
                } else {
                    let mut text = self.nick.clone();
                    text.append(": ");
                    text.append(line.as_str());
                    Reply::sending(self.broadcast_text(text.as_str()))
                }
            },
            Input::Command(Command::Nick(name)) => {
                let mut notice = String::from_str("Changed nick to ");
                notice.append(name.as_str());
                let outgoing = self.broadcast_text(notice.as_str());
                self.nick = name;
                Reply::sending(outgoing)
            },
            Input::Command(Command::Add(Some(address))) => {
                self.sender.register(address);
                Reply::quiet()
            },
            Input::Command(Command::Add(None)) => Reply::showing(
                String::from_str("usage: /add [address:port] or [address port]"),
            ),
            Input::Command(Command::List) => Reply::showing(self.list_status()),
            Input::Command(Command::Whoami) => {
                let mut text = String::from_str("Your port is: ");
                let port = decimal_string(self.port);
                text.append(port.as_str());
                Reply::showing(text)
            },
            Input::Command(Command::Exit) => Reply::leaving(),
            Input::Command(Command::Unknown) => Reply::quiet(),
        }
    }

    /// Takes one line as it came from the keyboard, does what it asks for, and
    /// says what is to be sent and shown.
    pub fn handle_line(&mut self, input: &str) -> (reply: Reply)
        ensures
            final(self)@ == next_state(old(self)@, parsed(input@)),
            reply@ == reply_to(old(self)@, parsed(input@)),
    {
        let read = parse_line(input);
        self.apply(read)
    }
}

/// An `add` command whose words name no port leaves the registry as it is and
/// shows the usage: the first word holds no colon or is the text of a host, and
/// there is no second word or it names no port.
pub proof fn law_add_without_port(state: SessionView, words: Seq<Seq<char>>)
    requires
        words.len() >= 1,
        (forall|i: int| 0 <= i < words[0].len() ==> words[0][i] != ':') || (exists|h: Host|
            words[0] == host_text(h)),
        words.len() == 1 || port_word(words[1]) is None,
    ensures
        next_state(state, InputView::Command(CommandView::Add(destination_of(words)))) == state,
        reply_to(state, InputView::Command(CommandView::Add(destination_of(words)))).status
            == Some(usage_text()),
{
    law_missing_port(words);
}

/// An `add` command whose words are the text of a host and the numeral of a
/// port, or the text of an address in one word, puts that very host and port
/// at the end of the registry, and shows nothing.
pub proof fn law_add_with_port(state: SessionView, address: Address, words: Seq<Seq<char>>)
    requires
        words.len() >= 1,
        (address.wf() && words[0] == address_text(address)) || (words.len() >= 2 && address.scope
            == 0 && words[0] == host_text(address.host) && words[1] == decimal(
            address.port as nat,
        )),
    ensures
        next_state(
            state,
            InputView::Command(CommandView::Add(destination_of(words))),
        ).destinations == state.destinations.push(address),
        reply_to(state, InputView::Command(CommandView::Add(destination_of(words)))) == silence(),
{
    if address.wf() && words[0] == address_text(address) {
        law_one_word_destination(address, words);
    } else {
        law_two_word_destination(address.host, address.port, words);
    }
}

/// The line on which a command of these words is typed: a slash, the words with
/// one blank between each two, and a line feed.
pub open spec fn command_line(words: Seq<Seq<char>>) -> Seq<char> {
    seq!['/'] + join_words(words) + seq!['\n']
}

/// A line of a slash and words, typed with one blank between each two, is read
/// as the command of those words, with a line feed at its end and without.
pub proof fn law_command_line(words: Seq<Seq<char>>)
    requires
        forall|i: int| 0 <= i < words.len() ==> (#[trigger] words[i]).len() > 0 && no_whitespace(
            words[i],
        ),
    ensures
        parsed(command_line(words)) == InputView::Command(command_of(words)),
        parsed(seq!['/'] + join_words(words)) == InputView::Command(command_of(words)),
{
    let joined = join_words(words);
    let input = command_line(words);
    let line = seq!['/'] + joined;
    lemma_join_words(words);
    assert(input.drop_last() =~= line);
    assert(line.last() != '\r' && line.last() != '\n') by {
        if words.len() > 0 {
            assert(line.last() == joined.last());
        }
    }
    assert(typed(input) == line);
    assert(typed(line) == line);
    assert(line.skip(1) =~= joined);
}

/// A line that does not start with a slash is read as a message of what was
/// typed, with a line feed at its end and without.
pub proof fn law_message_line(text: Seq<char>)
    requires
        text.len() > 0,
        text[0] != '/',
        text.last() != '\r',
        text.last() != '\n',
    ensures
        parsed(text + seq!['\n']) == InputView::Message(text),
        parsed(text) == InputView::Message(text),
{
    let input = text + seq!['\n'];
    assert(input.drop_last() =~= text);
}

/// The lines `/exit`, `/list` and `/whoami` are read as these commands, with a
/// line feed at their end and without.
pub proof fn law_keyword_lines()
    ensures
        parsed(command_line(seq!["exit"@])) == InputView::Command(CommandView::Exit),
        parsed(command_line(seq!["list"@])) == InputView::Command(CommandView::List),
        parsed(command_line(seq!["whoami"@])) == InputView::Command(CommandView::Whoami),
        parsed(seq!['/'] + "exit"@) == InputView::Command(CommandView::Exit),
        parsed(seq!['/'] + "list"@) == InputView::Command(CommandView::List),
        parsed(seq!['/'] + "whoami"@) == InputView::Command(CommandView::Whoami),
{
    lemma_keywords();
    law_command_line(seq!["exit"@]);
    law_command_line(seq!["list"@]);
    law_command_line(seq!["whoami"@]);
    assert(join_words(seq!["exit"@]) == "exit"@);
    assert(join_words(seq!["list"@]) == "list"@);
    assert(join_words(seq!["whoami"@]) == "whoami"@);
}

/// The keywords are words without whitespace, and no two of them are the same.
pub proof fn lemma_keywords()
    ensures
        "nick"@.len() == 4 && no_whitespace("nick"@),
        "exit"@.len() == 4 && no_whitespace("exit"@),
        "add"@.len() == 3 && no_whitespace("add"@),
        "whoami"@.len() == 6 && no_whitespace("whoami"@),
        "list"@.len() == 4 && no_whitespace("list"@),
        "nick"@ != "exit"@,
        "nick"@ != "list"@,
        "exit"@ != "list"@,
{
    reveal_strlit("nick");
    reveal_strlit("exit");
    reveal_strlit("add");
    reveal_strlit("whoami");
    reveal_strlit("list");
    assert("nick"@[0] == 'n' && "exit"@[0] == 'e' && "list"@[0] == 'l');
}

/// Words behind the keyword `add` make the command to add what they name.
pub proof fn lemma_add_words(words: Seq<Seq<char>>)
    requires
        words.len() >= 1,
        words[0] == "add"@,
    ensures
        command_of(words) == CommandView::Add(destination_of(words.skip(1))),
{
    lemma_keywords();
}

/// The line `/add` and the text of an address is read as the command to add
/// that address.
pub proof fn law_add_address_line(address: Address)
    requires
        address.wf(),
    ensures
        parsed(command_line(seq!["add"@, address_text(address)])) == InputView::Command(
            CommandView::Add(Some(address)),
        ),
{
    let words = seq!["add"@, address_text(address)];
    assert(forall|i: int|
        0 <= i < words.len() ==> (#[trigger] words[i]).len() > 0 && no_whitespace(words[i])) by {
        lemma_keywords();
        lemma_address_word(address);
    }
    law_command_line(words);
    lemma_add_words(words);
    assert(destination_of(words.skip(1)) == Some(address)) by {
        law_one_word_destination(address, words.skip(1));
    }
}

/// The line `/add`, the text of a host and the numeral of a port is read as
/// the command to add that host and port.
pub proof fn law_add_host_line(host: Host, port: u16)
    ensures
        parsed(command_line(seq!["add"@, host_text(host), decimal(port as nat)]))
            == InputView::Command(CommandView::Add(Some(Address { host, port, scope: 0 }))),
{
    let words = seq!["add"@, host_text(host), decimal(port as nat)];
    assert(forall|i: int|
        0 <= i < words.len() ==> (#[trigger] words[i]).len() > 0 && no_whitespace(words[i])) by {
        lemma_keywords();
        lemma_host_word(host);
        lemma_decimal_word(port as nat);
    }
    law_command_line(words);
    lemma_add_words(words);
    assert(destination_of(words.skip(1)) == Some(Address { host, port, scope: 0 })) by {
        law_two_word_destination(host, port, words.skip(1));
    }
}

/// The line `/add` with one word that holds no colon changes nothing and shows
/// the usage, whatever the state.
pub proof fn law_add_line_without_port(state: SessionView, word: Seq<char>)
    requires
        word.len() > 0,
        no_whitespace(word),
        forall|i: int| 0 <= i < word.len() ==> word[i] != ':',
    ensures
        next_state(state, parsed(command_line(seq!["add"@, word]))) == state,
        reply_to(state, parsed(command_line(seq!["add"@, word]))) == (ReplyView {
            status: Some(usage_text()),
            ..silence()
        }),
{
    lemma_keywords();
    let words = seq!["add"@, word];
    law_command_line(words);
    assert(words.skip(1) =~= seq![word]);
    law_missing_port(words.skip(1));
}

/// The line `/add not-an-ip` changes nothing and shows the usage.
pub proof fn law_add_not_an_ip(state: SessionView)
    ensures
        next_state(state, parsed(command_line(seq!["add"@, "not-an-ip"@]))) == state,
        reply_to(state, parsed(command_line(seq!["add"@, "not-an-ip"@]))).status == Some(
            "usage: /add [address:port] or [address port]"@,
        ),
{
    reveal_strlit("not-an-ip");
    let word = "not-an-ip"@;
    assert(word.len() == 9);
    assert forall|i: int| 0 <= i < word.len() implies word[i] != ':' && !is_whitespace(
        #[trigger] word[i],
    ) by {
        if i == 0 {
        } else if i == 1 {
        } else if i == 2 {
        } else if i == 3 {
        } else if i == 4 {
        } else if i == 5 {
        } else if i == 6 {
        } else if i == 7 {
        } else {
            assert(i == 8);
        }
    }
    law_add_line_without_port(state, word);
}

/// What one instance sends for a typed line appears in the transcript of the
/// peer that receives it as that line, behind the sender's nickname, a colon and
/// a space where a nickname is set, then a tab and the sender's address.
pub proof fn law_round_trip(nick: Seq<char>, line: Seq<char>, from: Address)
    ensures
        entry_text(decoded(encode_utf8(outgoing_text(nick, line))), from) == outgoing_text(
            nick,
            line,
        ) + seq!['\t'] + address_text(from),
        nick.len() > 0 ==> entry_text(decoded(encode_utf8(outgoing_text(nick, line))), from)
            == nick + ": "@ + line + seq!['\t'] + address_text(from),
{
    let text = outgoing_text(nick, line);
    vstd::utf8::encode_utf8_valid_utf8(text);
    vstd::utf8::encode_utf8_decode_utf8(text);
}

} // verus!
