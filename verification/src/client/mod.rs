//! The publishing side of a connection.

pub mod event;
pub mod laws;
pub mod outgoing;
pub mod session;
pub mod setup;
pub mod url;

pub use self::event::{classify_command, CallCommand, ClientEvent};
pub use self::session::{ClientStep, RtmpClient};
pub use self::setup::{Connecting, SetupStep};
pub use self::url::{resolve_tc_url, RtmpUrl};
