//! Rendering of structured records into nested tagged text for a
//! remote-procedure message protocol.
//!
//! A record's fields opt into named groups. The library decides which group
//! wrapper tags are written, how they nest, and which fields are left out
//! because their value is absent, and it frames a rendered body in the
//! protocol's envelope.

pub mod action;
pub mod attr;
pub mod data;
pub mod display;
pub mod envelope;
pub mod error;
pub mod field;
pub mod hierarchy;
pub mod meta;
pub mod number;
pub mod render;

pub use action::{impl_display_action, written, Action, Message};
pub use attr::{Attr, AttrView, Group, GroupView};
pub use data::Data;
pub use display::DisplayAction;
pub use envelope::{Envelope, Request};
pub use error::SoapError;
pub use field::Field;
pub use hierarchy::{calculate_supersets, group_fields, ConfigError, Grouped, Root};
pub use meta::{Literal, Meta, MetaError, MetaForm, Pair};
pub use minidom::{Children, Element};
pub use render::Value;
