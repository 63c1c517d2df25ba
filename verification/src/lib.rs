use vstd::prelude::*;

pub mod adb;
pub mod apk;
pub mod error;
pub mod exec;
pub mod gradle;
pub mod manifest;
pub mod model;
pub mod project;
pub mod text;

verus! {
} // verus!
