//! The link to the radio as the routing layer sees it: this node's address, and the
//! command dialogues that configure the radio and send data.
use vstd::prelude::*;

use crate::at_address::{broadcast_address, ATAddress};
use crate::command_sender::{
    command, command_bytes, exchange_values, send_message, send_message_steps, Dialogue, Exchange,
    ExpectedReply,
};
use crate::config::{comma_separated, ATConfig};

verus! {

/// `CFG`
pub open spec fn config_name() -> Seq<u8> {
    seq![0x43u8, 0x46u8, 0x47u8]
}

/// `ADDR`
pub open spec fn address_name() -> Seq<u8> {
    seq![0x41u8, 0x44u8, 0x44u8, 0x52u8]
}

/// The dialogue that sets the radio up: `AT+CFG=<settings>` and then
/// `AT+ADDR=<address>`, each answered by `OK`.
pub open spec fn setup_steps(config: ATConfig, address: ATAddress) -> Seq<(Seq<u8>, ExpectedReply)> {
    seq![
        (command_bytes(config_name(), comma_separated(config.values())), ExpectedReply::Okay),
        (command_bytes(address_name(), address@), ExpectedReply::Okay),
    ]
}

/// The radio link of the node `address`.
pub struct ATModule {
    address: ATAddress,
}

impl ATModule {
    pub closed spec fn spec_address(&self) -> ATAddress {
        self.address
    }

    /// The link of the node `address`.
    pub fn new(address: ATAddress) -> (r: ATModule)
        ensures
            r.spec_address() == address,
    {
        ATModule { address }
    }

    /// The node's address.
    pub fn address(&self) -> (r: ATAddress)
        ensures
            r == self.spec_address(),
    {
        self.address
    }

    /// The dialogue that configures the radio with `config` and gives it the node's
    /// address; the link is ready once it ends in success.
    pub fn setup(&self, config: &ATConfig) -> (r: Dialogue)
        ensures
            r.wf(),
            r.steps() == setup_steps(*config, self.spec_address()),
            r.done_steps() == 0,
            !r.has_failed(),
    {
        let cfg: [u8; 3] = [0x43, 0x46, 0x47];
        let addr: [u8; 4] = [0x41, 0x44, 0x44, 0x52];
        assert(cfg@ =~= config_name());
        assert(addr@ =~= address_name());
        let settings = config.to_bytes();
        let mut exchanges: Vec<Exchange> = Vec::new();
        exchanges.push(Exchange { write: command(cfg.as_slice(), settings.as_slice()), expect: ExpectedReply::Okay });
        exchanges.push(Exchange { write: command(addr.as_slice(), self.address.as_bytes()), expect: ExpectedReply::Okay });
        assert(exchange_values(exchanges@) =~= setup_steps(*config, self.spec_address()));
        Dialogue::new(exchanges)
    }

    /// The dialogue that sends `data` to `destination`; the broadcast address
    /// reaches every neighbour.
    pub fn send(&self, destination: ATAddress, data: &[u8]) -> (r: Dialogue)
        ensures
            r.wf(),
            r.steps() == send_message_steps(destination, data@),
            r.done_steps() == 0,
            !r.has_failed(),
    {
        send_message(destination, data)
    }

    /// The dialogue that sends `data` to every neighbour.
    pub fn broadcast(&self, data: &[u8]) -> (r: Dialogue)
        ensures
            r.wf(),
            r.steps() == send_message_steps(broadcast_address(), data@),
            r.done_steps() == 0,
            !r.has_failed(),
    {
        self.send(ATAddress::broadcast(), data)
    }
}

} // verus!
