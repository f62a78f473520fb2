//! Event queue and network adapter building blocks.

pub mod adapters;
pub mod address;
pub mod books;
pub mod channel;
pub mod clock;
pub mod event_laws;
pub mod events;
pub mod inbox;
pub mod ledger;
pub mod network_adapter;
pub mod network_laws;
pub mod queue_laws;
pub mod status;
pub mod text;
pub mod timer_laws;
pub mod timers;
