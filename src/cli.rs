use vstd::prelude::*;

verus! {

/// The highest verbosity level: removals and progress are reported.
pub const MAX_VERBOSITY: u8 = 2;

/// The usage line shown for `-h` and when no path is given.
pub fn usage_line(program_name: &str) -> (r: String)
    ensures
        r@ == "Usage: "@ + program_name@ + " [-h] [-v[v]] path [path ...]"@,
{
    let mut r = String::from_str("Usage: ");
    r.append(program_name);
    r.append(" [-h] [-v[v]] path [path ...]");
    r
}

/// What one command-line option asks for.
#[derive(Clone, Copy, Debug, PartialEq, Eq, Structural)]
pub enum Directive {
    /// Go on with this verbosity level.
    Verbosity(u8),
    /// Show the help and stop without processing any path.
    Help,
}

/// The verbosity after one more `-v`: one higher, capped at `MAX_VERBOSITY`.
pub open spec fn raised(verbosity: u8) -> u8 {
    if verbosity < MAX_VERBOSITY {
        (verbosity + 1) as u8
    } else {
        MAX_VERBOSITY
    }
}

/// Applies the option `opt` (`-v` or `-h`) to the current verbosity.
pub fn apply_option(verbosity: u8, opt: char) -> (r: Directive)
    requires
        opt == 'v' || opt == 'h',
    ensures
        opt == 'h' ==> r == Directive::Help,
        opt == 'v' ==> r == Directive::Verbosity(raised(verbosity)),
{
    if opt == 'h' {
        Directive::Help
    } else if verbosity < MAX_VERBOSITY {
        Directive::Verbosity(verbosity + 1)
    } else {
        Directive::Verbosity(MAX_VERBOSITY)
    }
}

/// Whether each removed entry is reported.
pub fn reports_removals(verbosity: u8) -> (r: bool)
    ensures
        r == (verbosity >= 1),
{
    verbosity >= 1
}

/// Whether each overwrite pass and rename is reported.
pub fn reports_progress(verbosity: u8) -> (r: bool)
    ensures
        r == (verbosity >= 2),
{
    verbosity >= 2
}

} // verus!
