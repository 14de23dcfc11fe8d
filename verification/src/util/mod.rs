//! Building blocks that are not specific to the store.

pub mod debug_check;
pub mod lcg;
pub mod pow2;
pub mod sum;
pub mod sync;
pub mod text;
