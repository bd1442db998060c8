use vstd::prelude::*;

pub mod text;
pub mod decimal;
pub mod danmu;
pub mod reflow;
pub mod asr;
pub mod paths;
pub mod media;
pub mod bilibili;
pub mod config;
pub mod hotwords;
pub mod filetrans;
pub mod realtime;
pub mod ass;
pub mod clip;
pub mod batch;
pub mod player;

verus! {

} // verus!
