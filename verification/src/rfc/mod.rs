//! The message format: the header and its flag word, names, questions and
//! resource records.

pub mod domain;
pub mod flags;
pub mod header;
pub mod message;
pub mod opcode;
pub mod packet_type;
pub mod qclass;
pub mod qtype;
pub mod question;
pub mod rdata;
pub mod resource_record;
pub mod response_code;
