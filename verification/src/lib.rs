pub mod config;
pub mod document;
pub mod gateway;
pub mod guards;
pub mod layer;
pub mod metadata;
pub mod normalize;
pub mod paths;
pub mod profile;
pub mod rate_limit;
pub mod text;
pub mod workspace;
pub mod order;
pub mod listing;
pub mod error;
pub mod patch;
pub mod ops;
pub mod prompt;
pub mod tools;
pub mod seed;
pub mod memdoc;
