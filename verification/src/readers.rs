//! Decoders of the embroidery file formats: each turns the bytes of a file
//! into the operations, threads and metadata of a pattern.

pub mod pec;
pub mod pes;
pub mod phb;
pub mod phc;
pub mod dst;
pub mod dat;
pub mod bro;
pub mod ksm;
pub mod emd;
pub mod pmv;
pub mod sew;
pub mod dsz;
pub mod dsb;
pub mod jpx;
pub mod inb;
pub mod new;
pub mod stc;
pub mod mit;
pub mod pcd;
pub mod pcm;
pub mod max;
pub mod spx;
pub mod exp;
pub mod jef;
pub mod hus;
pub mod shv;
pub mod tap;
pub mod exy;
pub mod fxy;
pub mod gt;
pub mod stx;
pub mod pcq;
pub mod pcs;
pub mod edr;
pub mod inf;
pub mod csv;
pub mod col;
pub mod json;
pub mod gcode;
