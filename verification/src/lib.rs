//! Pinterest video downloader: the link, file-name and download-history logic,
//! with its contracts and proofs.

pub mod app;
pub mod cli;
pub mod downloader;
pub mod icons;
pub mod output;
pub mod printer;
pub mod state;
pub mod text;
pub mod widgets;
