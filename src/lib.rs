pub mod claim_parser;
pub mod collections;
pub mod compression;
pub mod error;
pub mod filter;
pub mod json_record;
pub mod lexer;
pub mod ntriples;
pub mod pipeline;
pub mod rdf;
pub mod structured;
pub mod text;
