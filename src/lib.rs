//! A mesh-networking node for a LoRa radio module driven by AT commands.
//!
//! The radio link: [`at_address`] (node addresses), [`hex`] (fixed-width ASCII
//! hex), [`read_replies`] (splitting the radio's output into command replies and
//! received frames), [`command_sender`] and [`at_module`] (the command dialogues
//! that configure the radio and send data), [`config`] (the radio settings).
//!
//! Routing: [`packets`] (the AODV packets and their ASCII form),
//! [`routing_table`], and [`aodv`], the controller: a state machine whose steps
//! return the transmissions and deliveries for the caller to carry out.
//!
//! The radio's side of the command protocol, for a stand-in radio: [`address`]
//! (addresses as the radio itself stores them), [`command_parser`] (splitting the
//! commands that a host writes into lines) and [`mock`] (answering them).
pub mod error;
pub mod hex;
pub mod at_address;
pub mod read_replies;
pub mod packets;
pub mod aodv;
pub mod routing_table;
pub mod config;
pub mod command_sender;
pub mod at_module;
pub mod address;
pub mod command_parser;
pub mod mock;
