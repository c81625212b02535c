use vstd::prelude::*;

pub mod auth;
pub mod error;
pub mod text;
pub mod md;
pub mod structure_parser;
pub mod markdown;
pub mod validation;
pub mod space_member;
pub mod clock;
pub mod document;
pub mod comment;
pub mod installer;
pub mod notification;
pub mod stats;
pub mod chunking;
pub mod concurrency;
pub mod embedding;
pub mod vector;
pub mod quality;
pub mod chunk_suite;
pub mod cache;
pub mod resources;
pub mod chunker;
pub mod queries;
pub mod benchmark;
pub mod doc_tree;
pub mod cache_strategy;

verus! {

} // verus!
