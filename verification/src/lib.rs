//! A bridge between a soft modem and a SIP trunk: the signalling, media and
//! control logic.

pub mod ari_control;
pub mod ari_external_media;
pub mod ari_session;
pub mod ari_url;
pub mod bridge;
pub mod codec;
pub mod companding;
pub mod config;
pub mod credentials;
pub mod dial_string;
pub mod digest;
pub mod exchange;
pub mod ids;
pub mod invitation;
pub mod message;
pub mod net;
pub mod numeral;
pub mod read_back;
pub mod registration;
pub mod relay;
pub mod requests;
pub mod responses;
pub mod rtp;
pub mod sdp;
pub mod sip;
pub mod text;
