//! Reading and writing amateur-radio contact logs in ADIF, together with the
//! request and response rules of the QRZ logbook service.
//!
//! Every function of this library is verified with Verus against the
//! contract it states. What the library takes on trust from `chrono`,
//! `urlencoding` and the standard library is marked as such where it is
//! declared.

pub mod adif;
pub mod adif_laws;
pub mod calendar;
pub mod client;
pub mod decimal;
pub mod error;
pub mod fields;
pub mod frequency;
pub mod models;
pub mod text;

pub use calendar::{Date, Time};
pub use client::QrzLogbookClient;
pub use error::{QrzLogbookError, QrzLogbookResult};
pub use fields::FieldTable;
pub use frequency::Frequency;
pub use models::{
    DeleteResponse, FetchOptions, FetchResponse, InsertResponse, QsoRecord, QsoRecordBuilder,
    StatusResponse,
};
