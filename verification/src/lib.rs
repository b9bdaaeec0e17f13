pub mod achievements;
pub mod copying;
pub mod json;
pub mod listing;
pub mod media;
pub mod meta;
pub mod names;
pub mod order;
pub mod poster;
pub mod poster_job;
pub mod portal;
pub mod setup;
pub mod text;
