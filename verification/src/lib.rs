//! A geocoder: reverse, forward and autocomplete lookups over memory-mapped
//! index files, and the pipeline that builds those files.

pub mod text;
pub mod bytes;
pub mod unicode;
pub mod housenumber;
pub mod ieee;
pub mod cells;
pub mod cell_index;
pub mod paths;
pub mod address_points;
pub mod point_schema;
pub mod fold;
pub mod string_pool;
pub mod sorting;
pub mod postcode;
pub mod postcode_build;
pub mod limits;
pub mod metrics;
pub mod i18n;
pub mod openaddresses;
pub mod admin_config;
pub mod h3_cell;
pub mod address;
pub mod records;
pub mod reverse;
pub mod index;
pub mod gnaf;
pub mod admin;
pub mod admin_laws;
pub mod query;
pub mod query_laws;
pub mod reverse_laws;
pub mod fst_map;
pub mod abbreviations;
pub mod normal_form;
pub mod automaton;
pub mod autocomplete;
pub mod suggest;
pub mod articles;
pub mod name_index;
pub mod name_files;
pub mod name_unified;
pub mod country_list;
pub mod name_candidates;
pub mod name_build;
pub mod name_laws;
pub mod postal;
pub mod address_build;
pub mod address_laws;
pub mod gnaf_build;
pub mod csv;
pub mod data_laws;
pub mod forward;
pub mod forward_search;
pub mod forward_laws;
pub mod forward_build;
pub mod lines;
pub mod replication;
pub mod region;
pub mod mismatch;
pub mod fetch;
pub mod checksum;
pub mod sources;
pub mod fetch_laws;
pub mod requests;
pub mod search_flow;
pub mod rpc;
pub mod responses;
pub mod request_laws;
pub mod manifest;
pub mod layout_laws;
