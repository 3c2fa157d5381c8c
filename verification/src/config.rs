use vstd::prelude::*;

verus! {

/// The settings of one run.
#[derive(Debug, Clone)]
pub struct Cli {
    /// Do not echo accepted lines.
    pub quiet_mode: bool,
    /// Reorder the destination in natural order at the end.
    pub sort: bool,
    /// Strip surrounding white space before a line is looked at.
    pub trim: bool,
    /// Replace the destination by its deduplicated lines before any input.
    pub rewrite: bool,
    /// Leave the destination as it is.
    pub dry_run: bool,
    /// Where the destination lives.
    pub filepath: String,
}

/// Builds the settings of a run from the values of its options.
pub fn args(
    quiet_mode: bool,
    sort: bool,
    trim: bool,
    rewrite: bool,
    dry_run: bool,
    filepath: String,
) -> (cli: Cli)
    ensures
        cli.quiet_mode == quiet_mode,
        cli.sort == sort,
        cli.trim == trim,
        cli.rewrite == rewrite,
        cli.dry_run == dry_run,
        cli.filepath == filepath,
{
    Cli { quiet_mode, sort, trim, rewrite, dry_run, filepath }
}

} // verus!
