//! Command dialogues with the radio: each step writes some bytes and then needs one
//! particular reply. The task that owns the serial writer runs a dialogue by
//! writing `next_write` and handing each reply to `on_reply`.
use vstd::prelude::*;

use crate::at_address::ATAddress;
use crate::config::{decimal, push_decimal};
use crate::error::Error;
use crate::read_replies::{ok_bytes, sended_bytes, sending_bytes, ATReply};

verus! {

/// The reply that a step of a dialogue needs.
#[derive(Clone, Copy, PartialEq, Eq, Debug, Structural)]
pub enum ExpectedReply {
    /// `OK`
    Okay,
    /// `SENDING`
    Sending,
    /// `SENDED`
    Sent,
}

/// The text of the expected reply.
pub open spec fn expected_bytes(expected: ExpectedReply) -> Seq<u8> {
    match expected {
        ExpectedReply::Okay => ok_bytes(),
        ExpectedReply::Sending => sending_bytes(),
        ExpectedReply::Sent => sended_bytes(),
    }
}

/// One step of a dialogue: bytes to write (possibly none), then the reply it needs.
#[derive(Debug)]
pub struct Exchange {
    pub write: Vec<u8>,
    pub expect: ExpectedReply,
}

/// `AT+<name>=<argument>\r\n`.
pub open spec fn command_bytes(name: Seq<u8>, argument: Seq<u8>) -> Seq<u8> {
    seq![0x41u8, 0x54u8, 0x2Bu8] + name + seq![0x3Du8] + argument + seq![0x0Du8, 0x0Au8]
}

/// `DEST`
pub open spec fn dest_name() -> Seq<u8> {
    seq![0x44u8, 0x45u8, 0x53u8, 0x54u8]
}

/// `SEND`
pub open spec fn send_name() -> Seq<u8> {
    seq![0x53u8, 0x45u8, 0x4Eu8, 0x44u8]
}

/// A sequence of exchanges with the radio, and how far it has come.
#[derive(Debug)]
pub struct Dialogue {
    exchanges: Vec<Exchange>,
    position: usize,
    failed: bool,
}

/// The steps of a dialogue as values.
pub open spec fn exchange_values(exchanges: Seq<Exchange>) -> Seq<(Seq<u8>, ExpectedReply)> {
    exchanges.map_values(|e: Exchange| (e.write@, e.expect))
}

impl Dialogue {
    /// The steps, as values.
    pub closed spec fn steps(&self) -> Seq<(Seq<u8>, ExpectedReply)> {
        exchange_values(self.exchanges@)
    }

    /// How many steps got their reply.
    pub closed spec fn done_steps(&self) -> nat {
        self.position as nat
    }

    /// A reply was not the one needed.
    pub closed spec fn has_failed(&self) -> bool {
        self.failed
    }

    pub closed spec fn wf(&self) -> bool {
        self.position <= self.exchanges@.len()
    }

    /// A dialogue at its first step.
    pub fn new(exchanges: Vec<Exchange>) -> (r: Dialogue)
        ensures
            r.wf(),
            r.steps() == exchange_values(exchanges@),
            r.done_steps() == 0,
            !r.has_failed(),
    {
        Dialogue { exchanges, position: 0, failed: false }
    }

    /// The dialogue is over: it failed, or every step got its reply.
    pub open spec fn spec_is_finished(&self) -> bool {
        self.has_failed() || self.done_steps() >= self.steps().len()
    }

    /// Whether the dialogue is over.
    pub fn is_finished(&self) -> (r: bool)
        requires
            self.wf(),
        ensures
            r == self.spec_is_finished(),
    {
        self.failed || self.position >= self.exchanges.len()
    }

    /// The bytes to write before waiting for the next reply.
    pub fn next_write(&self) -> (r: &[u8])
        requires
            self.wf(),
            !self.spec_is_finished(),
        ensures
            r@ == self.steps()[self.done_steps() as int].0,
    {
        assert(self.steps().len() == self.exchanges@.len());
        self.exchanges[self.position].write.as_slice()
    }

    /// Takes the reply to the current step. Returns the outcome once the dialogue
    /// is over: success after the last step's reply, a `Protocol` error at the first
    /// reply that is not the one needed.
    pub fn on_reply(&mut self, reply: &ATReply) -> (r: Option<Result<(), Error>>)
        requires
            old(self).wf(),
            !old(self).spec_is_finished(),
        ensures
            final(self).wf(),
            final(self).steps() == old(self).steps(),
            ({
                let expected = expected_bytes(old(self).steps()[old(self).done_steps() as int].1);
                if reply@ == expected {
                    &&& final(self).done_steps() == old(self).done_steps() + 1
                    &&& !final(self).has_failed()
                    &&& r == (if final(self).done_steps() == old(self).steps().len() {
                        Some(Ok::<(), Error>(()))
                    } else {
                        None
                    })
                } else {
                    &&& final(self).done_steps() == old(self).done_steps()
                    &&& final(self).has_failed()
                    &&& r == Some(Err::<(), Error>(Error::Protocol))
                }
            }),
    {
        assert(self.steps().len() == self.exchanges@.len());
        let expect = self.exchanges[self.position].expect;
        assert(self.steps()[self.done_steps() as int].1 == expect);
        let matches = match expect {
            ExpectedReply::Okay => reply.is_ok(),
            ExpectedReply::Sending => reply.is_sending(),
            ExpectedReply::Sent => reply.is_sent(),
        };
        if !matches {
            self.failed = true;
            return Some(Err(Error::Protocol));
        }
        let count = self.exchanges.len();
        self.position = self.position + 1;
        if self.position == count {
            Some(Ok(()))
        } else {
            None
        }
    }
}

/// The dialogue that sends `data` to `destination`: `AT+DEST=<address>` and
/// `AT+SEND=<length>`, each answered by `OK`, then the data itself, answered by
/// `SENDING` and then `SENDED`.
pub open spec fn send_message_steps(destination: ATAddress, data: Seq<u8>) -> Seq<(Seq<u8>, ExpectedReply)> {
    seq![
        (command_bytes(dest_name(), destination@), ExpectedReply::Okay),
        (command_bytes(send_name(), decimal(data.len())), ExpectedReply::Okay),
        (data, ExpectedReply::Sending),
        (Seq::<u8>::empty(), ExpectedReply::Sent),
    ]
}

/// Writes `AT+<name>=` followed by `argument` and `\r\n`.
pub fn command(name: &[u8], argument: &[u8]) -> (r: Vec<u8>)
    ensures
        r@ == command_bytes(name@, argument@),
{
    let mut out: Vec<u8> = Vec::new();
    out.push(0x41);
    out.push(0x54);
    out.push(0x2B);
    let mut name_bytes = vstd::slice::slice_to_vec(name);
    out.append(&mut name_bytes);
    out.push(0x3D);
    let mut argument_bytes = vstd::slice::slice_to_vec(argument);
    out.append(&mut argument_bytes);
    out.push(0x0D);
    out.push(0x0A);
    assert(out@ =~= command_bytes(name@, argument@));
    out
}

/// The dialogue that sends `data` to `destination`.
pub fn send_message(destination: ATAddress, data: &[u8]) -> (r: Dialogue)
    ensures
        r.wf(),
        r.steps() == send_message_steps(destination, data@),
        r.done_steps() == 0,
        !r.has_failed(),
{
    let dest: [u8; 4] = [0x44, 0x45, 0x53, 0x54];
    let send: [u8; 4] = [0x53, 0x45, 0x4E, 0x44];
    assert(dest@ =~= dest_name());
    assert(send@ =~= send_name());
    let mut length: Vec<u8> = Vec::new();
    push_decimal(&mut length, data.len() as u64);
    assert(length@ =~= decimal(data@.len()));
    let mut exchanges: Vec<Exchange> = Vec::new();
    exchanges.push(Exchange { write: command(dest.as_slice(), destination.as_bytes()), expect: ExpectedReply::Okay });
    exchanges.push(Exchange { write: command(send.as_slice(), length.as_slice()), expect: ExpectedReply::Okay });
    exchanges.push(Exchange { write: vstd::slice::slice_to_vec(data), expect: ExpectedReply::Sending });
    exchanges.push(Exchange { write: Vec::new(), expect: ExpectedReply::Sent });
    assert(exchange_values(exchanges@) =~= send_message_steps(destination, data@));
    Dialogue::new(exchanges)
}

} // verus!
