//! The listening port as the preferences show and set it.
use vstd::prelude::*;

verus! {

/// The port the preferences offer until the user picks another; the port BitTorrent is known
/// by, which a torrent counts up from.
pub const DEFAULT_PORT: u16 = 6881;

/// The listening port as the preferences show it: chosen by each torrent itself, or counted up
/// from a port.
#[derive(Clone, Copy, Debug, PartialEq, Eq, Structural)]
pub struct PortChoice {
    pub automatic: bool,
    /// The port to count up from, or to offer for that.
    pub port: u16,
}

/// What the preferences show for a stored port.
pub open spec fn choice_for(stored: u16) -> PortChoice {
    PortChoice {
        automatic: stored == 0,
        port: if stored == 0 {
            DEFAULT_PORT
        } else {
            stored
        },
    }
}

/// What is stored for a choice: zero is how a port of the torrent's own is stored.
pub open spec fn stored_for(choice: PortChoice) -> u16 {
    if choice.automatic {
        0
    } else {
        choice.port
    }
}

/// What the preferences show for a stored port.
pub fn port_choice(stored: u16) -> (choice: PortChoice)
    ensures
        choice == choice_for(stored),
{
    PortChoice {
        automatic: stored == 0,
        port: if stored == 0 {
            DEFAULT_PORT
        } else {
            stored
        },
    }
}

/// What is stored for a choice.
pub fn stored_port(choice: PortChoice) -> (stored: u16)
    ensures
        stored == stored_for(choice),
{
    if choice.automatic {
        0
    } else {
        choice.port
    }
}

/// A stored port comes back from what the preferences show for it.
pub proof fn stored_ports_come_back(stored: u16)
    ensures
        stored_for(choice_for(stored)) == stored,
{
}

/// A stored port of 0 means an automatic one, with the default offered; any other is itself. And
/// what is stored is 0 for an automatic port and the port chosen otherwise.
pub proof fn no_port_means_an_automatic_one(stored: u16, choice: PortChoice)
    ensures
        choice_for(stored).automatic <==> stored == 0,
        stored != 0 ==> choice_for(stored).port == stored,
        choice_for(0).port == 6881,
        choice.automatic ==> stored_for(choice) == 0,
        !choice.automatic ==> stored_for(choice) == choice.port,
{
}

} // verus!
