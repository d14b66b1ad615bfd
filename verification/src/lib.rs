//! Build tooling for Xcode projects in the Zed editor: the debug-adapter
//! configuration of the editor extension, and the logic of a Build Server
//! Protocol server that synthesizes compiler arguments for SourceKit-LSP.

pub mod build_settings;
pub mod dap;
pub mod json;
pub mod path;
pub mod pbxproj;
pub mod protocol;
pub mod sort;
pub mod state;
pub mod synth;
pub mod text;
pub mod uri;
pub mod workspace;
