//! Path expressions, header values and matching rule definitions of Pact
//! documents, with their parsers.
pub mod text;
pub mod path_exp;
pub mod path_laws;
pub mod headers;
pub mod header_laws;
pub mod expressions;
pub mod expression_laws;
pub mod definition_lexer;
pub mod definition_report;
pub mod definition_spec;
pub mod definition_parser;
pub mod definition_laws;
pub mod xml_model;
pub mod xml_query;
pub mod json_utils;
pub mod binary_utils;
pub mod mock_server;
pub mod message_iterators;
pub mod multipart;
pub mod json_laws;
