pub mod collections;
pub mod strutil;
pub mod definitions;
pub mod config;
pub mod media;
pub mod endpoints;
pub mod steps;
pub mod runner;
pub mod manager;
pub mod reactor;
pub mod h264;
pub mod http_api;

use vstd::prelude::*;

verus! {

} // verus!
