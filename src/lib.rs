//! A multi-room playlist scheduler: a duration parser, the shared table of
//! play/skip commands, the selection of each room's next video, and the
//! protocol by which one worker per room plays its queue.

pub mod commands;
pub mod duration;
pub mod models;
pub mod player;
pub mod playlist;
