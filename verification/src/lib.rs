pub mod text;
pub mod hashing;
pub mod history;
pub mod web;
pub mod keys;
pub mod dashboard;
pub mod epub;
pub mod cli;
pub mod search;
pub mod headless;
pub mod style;
pub mod image;
pub mod shelf;
pub mod app;
pub mod xml;
pub mod xhtml;
pub mod markdown;
pub mod prompt;
pub mod suggest;
pub mod screen;
pub mod session;
pub mod webload;
