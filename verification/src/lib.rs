//! A compile-cache-and-test-runner core for standalone source files:
//! it fingerprints a source file, decides whether recompilation is
//! needed, prepares the build command from a per-language template,
//! parses test-definition files into input / expected-output records,
//! evaluates selector expressions, and classifies execution outcomes.
//! All file, terminal and process work stays with the caller, which
//! hands plain values in and out.
pub mod format;
pub mod hash;
pub mod registry;
pub mod runner;
pub mod selector;
pub mod template;
pub mod testfile;
pub mod text;
