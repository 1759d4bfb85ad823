//! Emulation of a thermal receipt printer: an ESC/POS byte-stream decoder
//! producing marker-annotated lines, and a renderer turning those lines into
//! styled or plain text.
pub mod config;
pub mod console;
pub mod decoder_lemmas;
pub mod escpos;
pub mod format;
pub mod plain_lemmas;
pub mod renderer;
pub mod session;
pub mod text;
