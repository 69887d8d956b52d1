//! What serving a directory starts from: the options, and the checks made
//! before the endpoint listens.

use vstd::prelude::*;

use crate::patterns::{PatternsView, SourcePatterns, compiled_globs, patterns_error, some_include};
use crate::text::texts;

verus! {

/// The host the endpoint listens on unless told otherwise.
pub open spec fn default_host() -> Seq<char> {
    "127.0.0.1"@
}

/// The port the endpoint listens on unless told otherwise.
pub const DEFAULT_PORT: u16 = 7737;

/// Controls how a directory is served.
#[derive(Clone, Debug)]
pub struct ServeOptions {
    /// Reload the dataset when the directory changes.
    pub watch: bool,
    /// Glob patterns selecting source files relative to the served directory.
    pub patterns: Vec<String>,
}

impl Default for ServeOptions {
    fn default() -> (r: Self)
        ensures
            r.watch,
            r.patterns@.len() == 0,
    {
        ServeOptions { watch: true, patterns: Vec::new() }
    }
}

/// Everything the endpoint needs to start serving a directory.
pub struct ServePlan {
    /// The directory as it was asked for.
    pub directory: String,
    pub host: String,
    pub port: u16,
    pub watch: bool,
    /// The compiled source patterns.
    pub patterns: SourcePatterns,
}

/// The patterns that compiling `raw` gives.
pub open spec fn compiled(raw: Seq<Seq<char>>) -> PatternsView {
    PatternsView {
        includes: compiled_globs(raw, false),
        excludes: compiled_globs(raw, true),
        has_includes: some_include(raw),
    }
}

/// Plans serving `directory` on `host` and `port` with `options`: it fails
/// with the error of the first pattern that does not compile.
pub fn serve_at_with_options(directory: &str, host: &str, port: u16, options: ServeOptions) -> (r:
    Result<ServePlan, String>)
    ensures
        match r {
            Ok(plan) => {
                &&& patterns_error(texts(options.patterns@)) is None
                &&& plan.directory@ == directory@
                &&& plan.host@ == host@
                &&& plan.port == port
                &&& plan.watch == options.watch
                &&& plan.patterns.well_formed()
                &&& plan.patterns@ == compiled(texts(options.patterns@))
            },
            Err(e) => patterns_error(texts(options.patterns@)) == Some(e@),
        },
        options.patterns@.len() == 0 ==> r is Ok,
{
    match SourcePatterns::compile(&options.patterns) {
        Err(e) => Err(e),
        Ok(patterns) => Ok(
            ServePlan {
                directory: directory.to_owned(),
                host: host.to_owned(),
                port,
                watch: options.watch,
                patterns,
            },
        ),
    }
}

/// Plans serving `directory` on `host` and `port`, watching it, with every
/// recognised file a source.
pub fn serve_at(directory: &str, host: &str, port: u16) -> (r: Result<ServePlan, String>)
    ensures
        r matches Ok(plan) && plan.directory@ == directory@ && plan.host@ == host@ && plan.port
            == port && plan.watch && plan.patterns.well_formed() && !plan.patterns@.has_includes
            && plan.patterns@.excludes.len() == 0,
{
    let r = serve_at_with_options(directory, host, port, ServeOptions::default());
    proof {
        assert(texts(Seq::<String>::empty()) =~= Seq::<Seq<char>>::empty());
    }
    r
}

/// Plans serving `directory` on the default address.
pub fn serve(directory: &str) -> (r: Result<ServePlan, String>)
    ensures
        r matches Ok(plan) && plan.directory@ == directory@ && plan.host@ == default_host()
            && plan.port == DEFAULT_PORT && plan.watch && plan.patterns.well_formed()
            && !plan.patterns@.has_includes && plan.patterns@.excludes.len() == 0,
{
    serve_at(directory, "127.0.0.1", 7737)
}

/// The error for a host that names no address.
pub open spec fn no_addresses_message() -> Seq<char> {
    "host resolved to no addresses"@
}

/// Refuses to serve on a host that resolved to no address.
pub fn check_addresses(count: usize) -> (r: Result<(), String>)
    ensures
        r is Ok <==> count > 0,
        r matches Err(e) ==> e@ == no_addresses_message(),
{
    if count == 0 {
        Err("host resolved to no addresses".to_owned())
    } else {
        Ok(())
    }
}

} // verus!
