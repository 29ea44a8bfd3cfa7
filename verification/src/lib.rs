//! Verified core of the LoRaWAN modulation visualizer: payload encryption,
//! message integrity code, frame assembly, symbol packing and Gray coding.

pub mod math;
pub mod gray;
pub mod symbols;
pub mod blocks;
pub mod crypto;
pub mod payload;
pub mod frame;
pub mod stream;
pub mod state;
pub mod text;
pub mod hex;
pub mod ui;
pub mod export;
pub mod pipeline;
