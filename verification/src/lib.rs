//! Stemify: pitch-shifts and separates Spotify's audio on Windows by routing it
//! through a virtual cable. This crate holds the decisions of the engine and the
//! backend, each with its contract.

pub mod spotify;
pub mod text;
pub mod stems;
pub mod routing;
pub mod flows;
pub mod controller;
pub mod supervisor;
pub mod backend;
pub mod nowplaying;
pub mod pipeline;
pub mod experiments;
