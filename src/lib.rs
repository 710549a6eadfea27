//! Detection of machine-generated text in documents: byte-exact paragraph and sentence
//! segmentation, content filtering, document profiles, evidence and sensitivity gates,
//! and the comparison of the paragraph and sentence passes.
use vstd::prelude::*;

pub mod text;
pub mod sentences;
pub mod blocks;
pub mod spans;
pub mod evidence;
pub mod sensitivity;
pub mod providers;
pub mod boundaries;
pub mod models;
pub mod catalog;
pub mod domains;
pub mod paragraphs;
pub mod language;
pub mod comparison;
pub mod filter;
pub mod normalize;
pub mod routing;
pub mod digest;
pub mod prompts;
pub mod anchor;

verus! {

} // verus!
