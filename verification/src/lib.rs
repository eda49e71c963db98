//! Embroidery pattern library: thread colours, colour groups, command
//! constants, format detection and the binary/text decoders of the
//! supported embroidery file formats.

pub mod constants;
pub mod text;

pub mod assoc;
pub mod error;
pub mod thread;
pub mod color_group;
pub mod detector;
pub mod bytes;
pub mod ops;
pub mod readers;
