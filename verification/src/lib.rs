//! Source addons for the anime-dm host: the scraping and decoding logic of
//! each site, written as functions from fetched pages to catalogue values.

use vstd::prelude::*;

pub mod text;
pub mod outside;
pub mod api;
pub mod json;
pub mod abi;
pub mod common;
pub mod frenchstream;
pub mod wiflix;
pub mod voiranime;

verus! {

} // verus!
