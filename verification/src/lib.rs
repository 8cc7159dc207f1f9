use vstd::prelude::*;

pub mod text;
pub mod i18n;
pub mod codecs;
pub mod panel;
pub mod settings;
pub mod pipeline;
pub mod jobs;
pub mod exceptions;
pub mod session;
pub mod raster;
pub mod paths;

verus! {

} // verus!
