//! Scores of the daily SUTOM word game, as shared by the members of a chat channel.

pub mod bot;
pub mod calendar;
pub mod clock;
pub mod daily;
pub mod duration;
pub mod leaderboard;
pub mod pattern;
pub mod player;
pub mod report;
pub mod scan;
pub mod share;
pub mod text;
pub mod times;
mod walk;
