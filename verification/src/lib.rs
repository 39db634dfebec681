//! Analytics pipeline for two-domain lottery draw histories.
//!
//! The library ingests a history of draw records (a sequence index, a date,
//! one "blue" ball and six distinct "red" balls) and produces statistical
//! signals: occurrence-interval statistics, pairwise co-occurrence
//! relationships and frequent-pattern mining results, which feed a final
//! candidate-selection stage. Stages communicate through a typed, named
//! attribute store shared along an ordered, fail-fast processor chain.

pub mod business_obj;
pub mod collector;
pub mod context;
pub mod context_obj;
pub mod counts;
pub mod domain;
pub mod error;
pub mod final_result;
pub mod generate_normalize_data;
pub mod mining;
pub mod occur;
pub mod occur_based;
pub mod official;
pub mod prepare;
pub mod processor;
pub mod relationship;
pub mod relationship_based;
pub mod service;
pub mod sorting;
pub mod summary;
