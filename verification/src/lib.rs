pub mod chars;
pub mod random;
pub mod words;
pub mod text;
pub mod table;
pub mod rules;
pub mod sources;
pub mod store;
pub mod standings;
pub mod html;
pub mod digits;
pub mod layout;
pub mod clock;
pub mod update;
pub mod event;
pub mod apply;
pub mod achievements;
pub mod cuckold;
pub mod markov;
pub mod commands;
pub mod intake;
pub mod reactions;
pub mod replies;
pub mod cron;
pub mod laws;
