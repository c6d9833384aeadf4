//! Reading, editing and writing Office Open XML workbooks: the XML document
//! model, the relationship graph between parts, the content-type manifest,
//! the workbook's sheet collection and the style tables that cells index.

pub mod archive;
pub mod calculation_chain;
pub mod codec;
pub mod common_service;
pub mod content_types;
pub mod converters;
pub mod element_dictionary;
pub mod error;
pub mod excel;
pub mod numbering;
pub mod office_document;
pub mod order_dictionary;
pub mod package_new;
pub mod package_round_trip;
pub mod package_state;
pub mod part;
pub mod part_store;
pub mod relations;
pub mod share_string;
pub mod store_round_trip;
pub mod style;
pub mod style_models;
pub mod style_read;
pub mod style_round_trip;
pub mod style_store_round_trip;
pub mod style_tables;
pub mod style_write;
pub mod text;
pub mod theme;
pub mod workbook;
pub mod workbook_model;
pub mod workbook_round_trip;
pub mod workbook_store;
pub mod worksheet;
pub mod xml_deserialize;
pub mod xml_document;
pub mod xml_grammar;
pub mod xml_namespace;
pub mod xml_node;
pub mod xml_order;
pub mod xml_parsed;
pub mod xml_prune;
pub mod xml_round_trip;
pub mod xml_serialize;
pub mod xml_sound;
pub mod xml_tree;
