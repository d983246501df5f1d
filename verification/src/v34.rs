//! V.34: the INFO sequences, the start-up, and data mode.
pub mod coding;
pub mod data;
pub mod data_laws;
pub mod decoder;
pub mod dpsk;
pub mod encoder;
pub mod frame;
pub mod hearing_laws;
pub mod info;
pub mod info1;
pub mod info_laws;
pub mod listening;
pub mod mh;
pub mod mp;
pub mod phase2;
pub mod phase2_laws;
pub mod receiver;
pub mod signals;
pub mod source;
pub mod startup;
pub mod through;
pub mod training;
pub mod training_laws;
pub mod viterbi;
