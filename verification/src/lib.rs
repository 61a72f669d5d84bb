//! Client-side logic for the SPORTident Reader BT, which reads orienteering cards over Bluetooth
//! Low Energy.
//!
//! * [`wire`]: little-endian integers and framed messages
//! * [`reassembly`]: messages that arrive in segments
//! * [`card`] and [`owner`]: card states, card readouts and the owner of a card
//! * [`time`]: times of the week
//! * [`display`] and [`message`]: what a message makes the client show
//! * [`session`]: the notifications of a connected reader
//! * [`setup`]: finding the reader and its characteristics
//! * [`text`] and [`search`]: helpers for building and searching text
pub mod card;
pub mod display;
pub mod message;
pub mod owner;
pub mod reassembly;
pub mod search;
pub mod session;
pub mod setup;
pub mod text;
pub mod time;
pub mod wire;
