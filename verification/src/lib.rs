//! The verified core of a small TCP file-transfer tool: the command bytes of
//! its protocol, the length-prefixed framing of strings and files, the text
//! handling of the interactive client, and the decisions the server and the
//! client take while serving and receiving requests.
#![allow(unused_imports)]

pub mod commands;
pub mod wire;
pub mod text;
pub mod client;
pub mod server;
pub mod bench;
