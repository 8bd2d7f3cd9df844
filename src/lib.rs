//! Encoding of DNS messages (header and question section) into their wire layout.
pub mod error;
pub mod header;
pub mod name;
pub mod packet;
pub mod record;

pub use error::EncodingError;
pub use header::DnsHeader;
pub use name::encode_name;
pub use packet::{assemble, AnswerSection, DnsPacket};
pub use record::{QuestionSection, ResourceRecord};
