//! A Universal Machine interpreter core: the segmented memory, the
//! instruction decoder and the dispatch step, together with a small
//! bit-field packing library.

pub mod bitpack;
pub mod memory;
pub mod rumdis;
pub mod machine;
pub mod rumload;
