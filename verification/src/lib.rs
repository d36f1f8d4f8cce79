//! Verified core of Rebarr, a manga library manager: canonical chapter
//! selection and overrides, the stored chapter rows and how scrapes merge into
//! them, the task table and its listings, provider scores, settings and
//! failures, trusted groups, webhooks, imports and disk scans, library
//! suggestions and what the user hid of them, ComicInfo generation, chapter
//! downloads and the metadata rate limiter's bookkeeping.

pub mod anilist;
pub mod canonical;
pub mod chapter_store;
pub mod canonical_override;
pub mod chapters;
pub mod cli;
pub mod comicinfo;
pub mod downloader;
pub mod errors;
pub mod fixtures;
pub mod ids;
pub mod importer;
pub mod libraries;
pub mod library_suggestions;
pub mod manga;
pub mod metadata_rules;
pub mod provider_failure;
pub mod provider_scores;
pub mod provider_settings;
pub mod provider_table;
pub mod quality_rules;
pub mod rate_limiter;
pub mod scanner;
pub mod settings;
pub mod suggestion_list;
pub mod suggestion_visibility;
pub mod suggestions;
pub mod system;
pub mod task;
pub mod task_list;
pub mod task_listing;
pub mod task_table;
pub mod text;
pub mod trusted_groups;
pub mod upgrades;
pub mod webhook;
pub mod webhook_store;
