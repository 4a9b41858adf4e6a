//! Commit-pinned GitHub source links, and whether the lines they name still stand.

pub mod account;
pub mod agreement;
pub mod cache;
pub mod candidate;
pub mod check;
pub mod course;
pub mod failure;
pub mod git;
pub mod group;
pub mod history;
pub mod index;
pub mod isolation;
pub mod lines;
pub mod listener;
pub mod order;
pub mod outcome;
pub mod phases;
pub mod plan;
pub mod porcelain;
pub mod progress;
pub mod quiet;
pub mod report;
pub mod repository;
pub mod scan;
pub mod service;
pub mod style;
pub mod summary;
pub mod text;
pub mod tree;
pub mod url;
pub mod verdict;
pub mod world;

pub use check::{check_urls, check_urls_with, check_urls_with_phases};
pub use index::{FoundUrl, Occurrence};
pub use listener::CheckProgress;
pub use outcome::CheckOutcome;
pub use report::{ColoredStaleReport, CommitInfo, StaleReport};
pub use scan::{scan, scan_with, scan_with_counted, ScanResult};
pub use style::{
    styled, Styled, BOLD_MAGENTA, BOLD_RED, BOLD_YELLOW, CYAN, DIM, GREEN, RED, RESET,
};
pub use url::SourceUrl;
