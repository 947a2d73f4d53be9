//! A small compiler for an extended lightweight markup language: a
//! backtracking recursive-descent parser that turns a document into a typed
//! node sequence, and a code generator that renders that sequence into an
//! HTML fragment together with the import declarations and component
//! bindings the document references.

use vstd::prelude::*;

pub mod codegen;
pub mod grammar;
pub mod laws;
pub mod parser;
pub mod text;

verus! {

/// The external `PathBuf` type, held opaquely: the library only stores and
/// hands back paths, it never inspects them.
#[verifier::external_type_specification]
#[verifier::external_body]
pub struct ExPathBuf(std::path::PathBuf);

/// Configuration for a site build: where the client bundle is built, where
/// the bundles and the page template live, and which port the server uses.
pub struct Kaffe {
    pub client_build_dir: std::path::PathBuf,
    pub client_bundle_path: String,
    pub server_bundle_path: String,
    pub html_template_path: String,
    pub server_port: u16,
}

impl Kaffe {
    /// Builds a configuration that holds exactly the given values.
    pub fn new(
        client_build_dir: std::path::PathBuf,
        client_bundle_path: String,
        server_bundle_path: String,
        html_template_path: String,
        server_port: u16,
    ) -> (r: Self)
        ensures
            r.client_build_dir == client_build_dir,
            r.client_bundle_path == client_bundle_path,
            r.server_bundle_path == server_bundle_path,
            r.html_template_path == html_template_path,
            r.server_port == server_port,
    {
        Self {
            client_build_dir,
            client_bundle_path,
            server_bundle_path,
            html_template_path,
            server_port,
        }
    }
}

} // verus!
