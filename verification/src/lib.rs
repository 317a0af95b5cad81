//! A miniature CSS renderer: style cascade, block layout, and rasterization.
#![verifier::loop_isolation(false)]
use vstd::prelude::*;

pub mod assoc;
pub mod css;
pub mod dom;
pub mod html;
pub mod layout;
pub mod painting;
pub mod px;
pub mod scan;
pub mod strutil;
pub mod style;
