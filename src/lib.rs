//! The analysis and planning core of an error-type derivation: a model of the
//! annotated struct or enum, the annotation parser, the display-template
//! compiler, the role resolver, the validator, the bound inferencer, and the
//! generator that decides the shape of the emitted implementations.
pub mod aserror;
pub mod ast;
pub mod attr;
pub mod diag;
pub mod display;
mod text;
pub mod expand;
pub mod fallback;
pub mod fmt;
pub mod generics;
pub mod pretty_bt;
pub mod prop;
pub mod provide;
pub mod ty;
pub mod unraw;
pub mod valid;
pub mod var;
