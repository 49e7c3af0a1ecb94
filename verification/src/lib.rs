//! The deciding parts of a game proxy's networking: what outgoing traffic is
//! counted as, how recent traffic and pings are accounted for per peer, and how
//! messages are framed on a stream socket.
//!
//! Nothing here touches a socket, a thread or a clock. Times are handed in as
//! nanosecond counts, bytes as vectors, and what a socket or a channel did as
//! plain events.

pub mod classify;
pub mod classify_laws;
pub mod clock;
pub mod diagnostics;
pub mod diagnostics_laws;
pub mod effect_laws;
pub mod framing;
pub mod fx;
pub mod history;
pub mod history_laws;
pub mod message;
pub mod message_socket;
pub mod ranking;
pub mod report_laws;
pub mod stream_laws;
pub mod traffic;
pub mod traffic_laws;
pub mod window_laws;
