//! Conflation of geospatial address and street-network records.
//!
//! Given a freshly collected dataset and a persistent, spatially indexed
//! dataset, the library decides per incoming record whether it is new
//! (`Create`), a revision of one persistent record (`Update`), already
//! represented (`NoAction`), or collapses several persistent duplicates
//! (`Merge`).  It also provides the streaming bulk-row codec used to move
//! records in and out of the store, including a lossless hex geometry
//! encoding.
//!
//! Coordinates are carried as the 64-bit patterns of their binary64
//! longitude/latitude values, so the geometry codec is byte exact; distance
//! logic interprets those patterns as fixed-point degrees (see `geomath`).

pub mod config;
pub mod conflate;
pub mod entity;
pub mod geomath;
pub mod hexcodec;
pub mod jsontext;
pub mod loader;
pub mod normalize;
pub mod pipeline;
pub mod retrieve;
pub mod textutil;
