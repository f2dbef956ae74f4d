//! IS-IS packets.

pub mod checksum;
pub mod consts;
pub mod entries;
pub mod error;
pub mod header;
pub mod hello;
pub mod id;
pub mod lsp;
pub mod lsp_tlvs;
pub mod pdu;
pub mod reach;
pub mod received;
pub mod sent;
pub mod snp;
pub mod tlv;
