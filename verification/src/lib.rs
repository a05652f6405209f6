//! Statistics over delivery records.
//!
//! A top-level JSON array of delivery records is decoded from bytes one
//! element at a time ([`decoder`]), and the records are folded into counts
//! per recipe and per postcode, a count of the deliveries to one postcode
//! within a window of hours, and a selection of recipe names
//! ([`calculator`]), from which the report is derived ([`report`]).
//!
//! The JSON of one element is parsed by `serde_json`, the delivery window is
//! found in a delivery text by `regex`, and texts are put in lowercase by
//! the standard library. What is believed of the three is stated on the
//! private functions that call them, in [`decoder`], [`window`] and
//! [`text`]; everything else is proved.

#![allow(non_snake_case)]

pub mod calculator;
pub mod decoder;
pub mod record;
pub mod render;
pub mod report;
pub mod tally;
pub mod text;
pub mod window;
