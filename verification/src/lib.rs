//! The logic of a software modem: the command set it is driven with, and the
//! data pumps behind it.
//!
//! What is here decides. It turns bits into symbols and symbols into bits,
//! lays out and reads the sequences modems exchange, and carries each
//! start-up procedure from one state to the next. Waveforms are left to the
//! caller: filters, oscillators and equalisers hand this library plain
//! integers and take plain integers back.
pub mod at;
pub mod bell103;
pub mod bits;
pub mod carrier;
pub mod framing;
pub mod octets;
pub mod scrambling;
pub mod v17;
pub mod v8;
pub mod v22bis;
pub mod v27ter;
pub mod v29;
pub mod v32;
pub mod v34;
