//! The endpoint seen from the chat: the registry of destinations, the datagrams
//! to send, and the text of what was received.

use crate::address::{
    address_text, destination_of, parse_destination, parse_sockaddr, words_view, Address, Host,
};
use crate::history::History;
use crate::text::{push_char, to_chars, words_chars, words_of};
use vstd::prelude::*;
use vstd::string::StringExecFns;
use vstd::utf8::{decode_utf8, valid_utf8};

verus! {

/// The text that `String::from_utf8_lossy` of the standard library makes of
/// bytes that are no valid UTF-8.
pub uninterp spec fn utf8_lossy(bytes: Seq<u8>) -> Seq<char>;

/// The text of received bytes: the text they encode where they are valid UTF-8,
/// and otherwise that text with a replacement marker for what is invalid.
pub open spec fn decoded(bytes: Seq<u8>) -> Seq<char> {
    if valid_utf8(bytes) {
        decode_utf8(bytes)
    } else {
        utf8_lossy(bytes)
    }
}

/// Calls `String::from_utf8_lossy`. Nothing is proved of it. The contract
/// claims that valid UTF-8 is decoded as it stands, and gives the text made of
/// other bytes the name `utf8_lossy`.
#[verifier::external_body]
pub(crate) fn decode_lossy(bytes: &[u8]) -> (text: String)
    ensures
        text@ == (if valid_utf8(bytes@) {
            decode_utf8(bytes@)
        } else {
            utf8_lossy(bytes@)
        }),
{
    String::from_utf8_lossy(bytes).into_owned()
}

/// One datagram to send: the bytes and the peer they go to.
#[derive(Debug, PartialEq, Eq)]
pub struct Datagram {
    pub payload: Vec<u8>,
    pub destination: Address,
}

/// What a `Datagram` says, with its bytes as a sequence.
pub struct DatagramView {
    pub payload: Seq<u8>,
    pub destination: Address,
}

impl View for Datagram {
    type V = DatagramView;

    open spec fn view(&self) -> DatagramView {
        DatagramView { payload: self.payload@, destination: self.destination }
    }
}

/// The views of the datagrams in `datagrams`, in order.
pub open spec fn datagrams_view(datagrams: Seq<Datagram>) -> Seq<DatagramView> {
    datagrams.map_values(|d: Datagram| d@)
}

/// One datagram of `payload` for each of `destinations`, in their order.
pub open spec fn broadcast(destinations: Seq<Address>, payload: Seq<u8>) -> Seq<DatagramView> {
    destinations.map_values(|d: Address| DatagramView { payload, destination: d })
}

/// A broadcast is one datagram for each destination, in the order of the
/// registry, each with the same bytes: as many sends as there are destinations,
/// fixed before the first of them is made.
pub proof fn law_broadcast(destinations: Seq<Address>, payload: Seq<u8>)
    ensures
        broadcast(destinations, payload).len() == destinations.len(),
        forall|i: int|
            0 <= i < destinations.len() ==> broadcast(destinations, payload)[i] == (DatagramView {
                payload,
                destination: destinations[i],
            }),
{
}

/// Why a destination was not added.
#[derive(Clone, Copy, Debug, PartialEq, Eq, Structural)]
pub enum AddError {
    /// The words name no address.
    InvalidAddress,
}

/// The registry of destinations, in the order in which they were added. A
/// destination may stand in it more than once, and none is ever removed.
pub struct Sender {
    destinations: Vec<Address>,
}

impl View for Sender {
    type V = Seq<Address>;

    /// The destinations, in the order in which they were added.
    closed spec fn view(&self) -> Seq<Address> {
        self.destinations@
    }
}

impl Sender {
    /// A registry without destinations.
    pub fn new() -> (sender: Sender)
        ensures
            sender@ == Seq::<Address>::empty(),
    {
        Sender { destinations: Vec::new() }
    }

    /// Adds `address` at the end of the registry.
    pub fn register(&mut self, address: Address)
        ensures
            final(self)@ == old(self)@.push(address),
    {
        self.destinations.push(address);
    }

    /// Adds the destination that `addresses` names: the text of an address in
    /// one word, or the text of a host and a port in two words. Where the text
    /// names none, the registry stays as it is.
    pub fn add_destination(&mut self, addresses: &str) -> (added: Result<Address, AddError>)
        ensures
            added == match destination_of(words_of(addresses@)) {
                Some(address) => Ok::<Address, AddError>(address),
                None => Err(AddError::InvalidAddress),
            },
            final(self)@ == match destination_of(words_of(addresses@)) {
                Some(address) => old(self)@.push(address),
                None => old(self)@,
            },
    {
        let words = words_chars(to_chars(addresses).as_slice());
        match parse_destination(words.as_slice()) {
            Some(address) => {
                self.register(address);
                Ok(address)
            },
            None => Err(AddError::InvalidAddress),
        }
    }

    /// Adds the destination that the words of an `add` command name. Where they
    /// name none, the registry stays as it is.
    pub fn add(&mut self, arguments: &[&str]) -> (added: Result<Address, AddError>)
        ensures
            added == match destination_of(words_view(arguments@)) {
                Some(address) => Ok::<Address, AddError>(address),
                None => Err(AddError::InvalidAddress),
            },
            final(self)@ == match destination_of(words_view(arguments@)) {
                Some(address) => old(self)@.push(address),
                None => old(self)@,
            },
    {
        match parse_sockaddr(arguments) {
            Some(address) => {
                self.register(address);
                Ok(address)
            },
            None => Err(AddError::InvalidAddress),
        }
    }

    /// The destinations, in the order in which they were added.
    pub fn list(&self) -> (destinations: Vec<Address>)
        ensures
            destinations@ == self@,
    {
        self.destinations.clone()
    }

    /// The number of destinations.
    pub fn len(&self) -> (n: usize)
        ensures
            n == self@.len(),
    {
        self.destinations.len()
    }

    /// The datagram that carries `message` to `destination`.
    pub fn send_to(&self, message: &[u8], destination: Address) -> (datagram: Datagram)
        ensures
            datagram@ == (DatagramView { payload: message@, destination }),
    {
        Datagram { payload: vstd::slice::slice_to_vec(message), destination }
    }

    /// The datagrams that carry `message` to every destination: one for each,
    /// in the order of the registry.
    pub fn send_to_destinations(&self, message: &[u8]) -> (datagrams: Vec<Datagram>)
        ensures
            datagrams_view(datagrams@) == broadcast(self@, message@),
            datagrams@.len() == self@.len(),
            forall|i: int|
                0 <= i < self@.len() ==> (#[trigger] datagrams@[i])@ == (DatagramView {
                    payload: message@,
                    destination: self@[i],
                }),
    {
        let mut datagrams: Vec<Datagram> = Vec::new();
        let mut i: usize = 0;
        while i < self.destinations.len()
            invariant
                i <= self.destinations@.len(),
                datagrams_view(datagrams@) == broadcast(self@.take(i as int), message@),
            decreases self.destinations@.len() - i,
        {
            let ghost before = datagrams@;
            let datagram = self.send_to(message, self.destinations[i]);
            datagrams.push(datagram);
            proof {
                assert(datagrams_view(datagrams@) =~= datagrams_view(before).push(datagram@));
                assert(self@.take(i + 1) =~= self@.take(i as int).push(self@[i as int]));
                assert(broadcast(self@.take(i + 1), message@) =~= broadcast(
                    self@.take(i as int),
                    message@,
                ).push(datagram@));
            }
            i += 1;
        }
        proof {
            assert(self@.take(self.destinations@.len() as int) =~= self@);
            assert forall|i: int| 0 <= i < self@.len() implies (#[trigger] datagrams@[i])@ == (
            DatagramView { payload: message@, destination: self@[i] }) by {
                assert(datagrams_view(datagrams@)[i] == datagrams@[i]@);
            }
        }
        datagrams
    }
}

/// The text of a transcript entry: what was received, a tab, and the text of
/// the sender's address.
pub open spec fn entry_text(payload: Seq<char>, from: Address) -> Seq<char> {
    payload + seq!['\t'] + address_text(from)
}

/// The transcript entry for `payload`, received from `from`.
pub fn format_entry(payload: &str, from: Address) -> (entry: String)
    ensures
        entry@ == entry_text(payload@, from),
{
    let mut entry = String::from_str(payload);
    push_char(&mut entry, '\t');
    let address = from.to_text();
    entry.append(address.as_str());
    entry
}

/// The side of the endpoint that takes datagrams in.
pub struct Receiver {
    /// The size of the buffer that a datagram is read into.
    pub capacity: usize,
}

impl Receiver {
    /// A receiver that reads datagrams of up to 10000 bytes.
    pub fn new() -> (receiver: Receiver)
        ensures
            receiver.capacity == 10000,
    {
        Receiver { capacity: 10000 }
    }

    /// The text of the bytes `received` from the peer `from`, and that peer.
    /// Bytes that are no valid UTF-8 are not refused: a replacement marker
    /// stands for them in the text.
    pub fn get_datagram(&self, received: &[u8], from: Address) -> (datagram: (String, Address))
        ensures
            datagram.0@ == decoded(received@),
            datagram.1 == from,
    {
        (decode_lossy(received), from)
    }

    /// Takes the bytes `received` from the peer `from` into the transcript:
    /// their text and the peer's address become its newest entry.
    pub fn record(&self, history: &mut History, received: &[u8], from: Address)
        ensures
            final(history)@ == old(history)@.push(entry_text(decoded(received@), from)),
    {
        let datagram = self.get_datagram(received, from);
        history.append(format_entry(datagram.0.as_str(), datagram.1));
    }
}

/// The endpoint of one chat instance: the local port, the registry of
/// destinations and the receiving side.
pub struct SenderReceiver {
    pub port: u16,
    pub sender: Sender,
    pub receiver: Receiver,
}

impl SenderReceiver {
    /// The endpoint for `port`, with no destinations yet.
    pub fn new(port: u16) -> (endpoint: SenderReceiver)
        ensures
            endpoint.port == port,
            endpoint.sender@ == Seq::<Address>::empty(),
            endpoint.receiver.capacity == 10000,
    {
        SenderReceiver { port, sender: Sender::new(), receiver: Receiver::new() }
    }

    /// The address that the endpoint is bound to: its port on 127.0.0.1.
    pub fn local_address(&self) -> (address: Address)
        ensures
            address == (Address { host: Host::V4(127, 0, 0, 1), port: self.port, scope: 0 }),
    {
        Address::loopback(self.port)
    }
}

} // verus!
