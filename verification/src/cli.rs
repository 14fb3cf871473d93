//! Descriptions of the command-line surface: the options and flags a
//! front end offers. Reading the actual process arguments is the
//! front end's business, not the library's.

use vstd::prelude::*;

verus! {

/// A command-line option that takes a value.
pub struct CliOpt {
    /// The option's short name, a letter, or empty for none.
    pub short_name: &'static str,
    /// The option's long name, a word or `-`-separated words.
    pub long_name: &'static str,
    /// The option's description.
    pub description: &'static str,
    /// The placeholder shown for the value in the help message.
    pub placeholder: &'static str,
    /// The environment variable that backs the option, or empty.
    pub evar_name: &'static str,
}

impl CliOpt {
    /// Gather the five texts that describe one option.
    pub fn new(
        short_name: &'static str,
        long_name: &'static str,
        description: &'static str,
        placeholder: &'static str,
        evar_name: &'static str,
    ) -> (r: CliOpt)
        ensures
            r.short_name@ == short_name@,
            r.long_name@ == long_name@,
            r.description@ == description@,
            r.placeholder@ == placeholder@,
            r.evar_name@ == evar_name@,
    {
        CliOpt { short_name, long_name, description, placeholder, evar_name }
    }
}

/// A command-line flag: present or absent, with no value.
pub struct CliFlag {
    /// The flag's short name, a letter, or empty for none.
    pub short_name: &'static str,
    /// The flag's long name, a word or `-`-separated words.
    pub long_name: &'static str,
    /// The flag's description.
    pub description: &'static str,
}

impl CliFlag {
    /// Gather the three texts that describe one flag.
    pub fn new(
        short_name: &'static str,
        long_name: &'static str,
        description: &'static str,
    ) -> (r: CliFlag)
        ensures
            r.short_name@ == short_name@,
            r.long_name@ == long_name@,
            r.description@ == description@,
    {
        CliFlag { short_name, long_name, description }
    }
}

/// The interactive client shell. It keeps no state of its own; the
/// loop that reads lines and prints replies lives with the front end.
pub struct Cli {}

impl Cli {
    /// A fresh client shell.
    pub fn new() -> Cli {
        Cli {  }
    }
}

impl Default for Cli {
    /// A fresh client shell.
    fn default() -> Self {
        Cli::new()
    }
}

} // verus!
