//! The lines the endpoint reports about the dataset it serves.

use vstd::prelude::*;

use crate::text::{decimal, push_decimal, push_str, string_of};

verus! {

/// Counts that describe a loaded dataset.
#[derive(Clone, Copy, Debug, PartialEq, Eq, Structural)]
pub struct DatasetStats {
    pub loaded_files: usize,
    pub failed_files: usize,
    pub ignored_files: usize,
    pub triples: usize,
}

/// The plural suffix for a count: none for one, `s` otherwise.
pub open spec fn plural(count: nat) -> Seq<char> {
    if count == 1 {
        seq![]
    } else {
        seq!['s']
    }
}

/// The plural suffix for a count: none for one, `s` otherwise.
pub fn plural_suffix(count: usize) -> (r: &'static str)
    ensures
        r@ == plural(count as nat),
{
    proof {
        reveal_strlit("");
        reveal_strlit("s");
    }
    if count == 1 {
        ""
    } else {
        "s"
    }
}

/// The one-line summary of a dataset's counts.
pub open spec fn summary_line(stats: DatasetStats) -> Seq<char> {
    "Dataset: "@ + decimal(stats.loaded_files as nat) + " source file"@ + plural(
        stats.loaded_files as nat,
    ) + " loaded; "@ + decimal(stats.failed_files as nat) + " source file"@ + plural(
        stats.failed_files as nat,
    ) + " failed; "@ + decimal(stats.ignored_files as nat) + " file"@ + plural(
        stats.ignored_files as nat,
    ) + " ignored; "@ + decimal(stats.triples as nat) + " triple"@ + plural(stats.triples as nat)
        + " total"@
}

/// Describes a dataset's counts in one line.
pub fn dataset_summary(stats: DatasetStats) -> (r: String)
    ensures
        r@ == summary_line(stats),
{
    let mut out: Vec<char> = Vec::new();
    push_str(&mut out, "Dataset: ");
    push_decimal(&mut out, stats.loaded_files);
    push_str(&mut out, " source file");
    push_str(&mut out, plural_suffix(stats.loaded_files));
    push_str(&mut out, " loaded; ");
    push_decimal(&mut out, stats.failed_files);
    push_str(&mut out, " source file");
    push_str(&mut out, plural_suffix(stats.failed_files));
    push_str(&mut out, " failed; ");
    push_decimal(&mut out, stats.ignored_files);
    push_str(&mut out, " file");
    push_str(&mut out, plural_suffix(stats.ignored_files));
    push_str(&mut out, " ignored; ");
    push_decimal(&mut out, stats.triples);
    push_str(&mut out, " triple");
    push_str(&mut out, plural_suffix(stats.triples));
    push_str(&mut out, " total");
    string_of(&out)
}

/// The line that announces where a directory is served.
pub open spec fn serving_line(directory: Seq<char>, host: Seq<char>, port: u16) -> Seq<char> {
    "Serving "@ + directory + " at "@ + host + ":"@ + decimal(port as nat)
}

/// Announces where a directory is served.
pub fn serving_message(directory: &str, host: &str, port: u16) -> (r: String)
    ensures
        r@ == serving_line(directory@, host@, port),
{
    let mut out: Vec<char> = Vec::new();
    push_str(&mut out, "Serving ");
    push_str(&mut out, directory);
    push_str(&mut out, " at ");
    push_str(&mut out, host);
    push_str(&mut out, ":");
    push_decimal(&mut out, port as usize);
    string_of(&out)
}

} // verus!
