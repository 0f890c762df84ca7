//! Producer-side client for a length-prefixed binary broker wire protocol.
//!
//! The library holds the verified core: the binary codec that defines the
//! wire format (scalars, variable-width strings, fixed-point values, blobs),
//! the partition selector, the message schema that encodes a push into one
//! outbound frame and decodes a response frame back into its fields, and the
//! runtime's decision logic (the round-robin dispatch cursor and the frame
//! reassembly done by each connection's reader). The sockets, tasks and the
//! bounded queue around it are the embedding's concern: delivery is
//! best-effort and fire-and-forget, a caller of `push` gets no delivery
//! confirmation or failure signal.

pub mod codec;
pub mod producer;
pub mod runtime;
pub mod select_partition;
pub mod simple_random;
