//! A minimal HTTP/1.1 server core: a path trie with literal, parameter and
//! wildcard segments, a route table, request parsing and response framing.

pub mod text;

pub mod fields;

pub mod route_matcher;

pub mod route_laws;

pub mod response;

pub mod request;

pub mod router;

pub mod app;

pub mod static_files;
