//! Planning of Parquet scans: which row groups and rows of a file are read,
//! in which order, and when their bytes are fetched.

pub mod access_plan;
pub mod bloom;
pub mod calls;
pub mod changes;
pub mod columns;
pub mod constants;
mod cursor;
pub mod decoder;
pub mod decoder_config;
pub mod decoding;
pub mod error;
pub mod filters;
pub mod inversion;
pub mod metadata;
pub mod open_state;
pub mod opener;
pub mod prefetch;
pub mod prepared;
pub mod pruner;
pub mod push_decoder;
pub mod row_filter;
pub mod row_group_filter;
pub mod rows;
pub mod scan;
pub mod scheduling;
pub mod selection;
pub mod soundness;
pub mod values;
pub mod virtual_columns;

