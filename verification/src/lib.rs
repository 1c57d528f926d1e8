//! Reading the parts of an OFD document package: its XML model, the ASN.1 DER
//! structure of electronic seals and signatures, and the small rules that
//! connect them.

pub mod annotation;
pub mod asn1;
pub mod attachment;
pub mod container;
pub mod custom_tag;
pub mod der;
pub mod document;
pub mod dom;
pub mod encode;
pub mod duration;
pub mod error;
pub mod extension;
pub mod gm;
pub mod graphic;
pub mod ofd_file;
pub mod ofd_utils;
pub mod page;
pub mod render;
pub mod res;
pub mod seal;
pub mod sign;
pub mod stamps;
pub mod signature;
pub mod v1;
pub mod v4;
pub mod value;
pub mod version;
pub mod xml;
