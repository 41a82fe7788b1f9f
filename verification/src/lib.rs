//! A Bitcoin spending-policy toolkit: concrete policies with satisfaction
//! probabilities, a Taproot compiler pass that extracts an internal key and
//! arranges the remaining branches into a probability-weighted tree, and
//! iterators over Miniscript syntax trees.

pub mod compile;
pub mod descriptor;
pub mod errors;
pub mod iter;
pub mod keyexpr;
pub mod miniscript;
pub mod policy;
pub mod text;
pub mod timelock;
pub mod translate;
pub mod util;

pub use compile::{DescriptorCtx, LeafCompiler};
pub use descriptor::{Descriptor, TapTree};
pub use errors::{CompilerError, Error};
pub use iter::PkPkh;
pub use keyexpr::KeyExpr;
pub use miniscript::Miniscript;
pub use policy::{Policy, PolicyError};
pub use translate::{TableTranslator, Translator};
