//! A verified decoder for the mDNS / DNS wire format.
//!
//! Given the UDP payload of an mDNS datagram (a DNS message buffer), the
//! decoder produces a strongly typed representation of the header, the
//! question section and the answer section, resolving DNS name-compression
//! pointers and decoding per-type resource data (RDATA).
//!
//! Every decoding function carries a contract that pins its result down to a
//! specification-level decoder written over `Seq<u8>`; the executable code is
//! proved to match it exactly, including which error is returned on which
//! malformed input, and where the cursor lands.

pub mod laws;
pub mod name;
pub mod parser;
pub mod reader;
pub mod types;

pub use name::parse_label;
pub use name::parse_name;
pub use parser::is_mdns_packet;
pub use parser::parse_mdns_answers;
pub use parser::parse_mdns_header;
pub use parser::parse_mdns_message;
pub use parser::parse_mdns_questions;
pub use parser::parse_rdata;
pub use reader::ByteReader;
pub use types::DecodeError;
pub use types::MDNSAnswer;
pub use types::MDNSMessage;
pub use types::MDNSMessageHeader;
pub use types::MDNSQueryClass;
pub use types::MDNSQuestion;
pub use types::MDNSRData;
pub use types::MDNSRecordType;
