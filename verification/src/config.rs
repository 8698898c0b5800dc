//! The configuration of one search, taken from a command line.

use vstd::prelude::*;

verus! {

/// What a search needs to run: the text to look for and the file to look in.
///
/// A value owns its two strings, so it outlives the command line that it was
/// read from.
pub struct Config {
    pub query: String,
    pub file_path: String,
}

/// The mathematical value of a [`Config`]: its two fields as character sequences.
pub ghost struct ConfigView {
    pub query: Seq<char>,
    pub file_path: Seq<char>,
}

impl View for Config {
    type V = ConfigView;

    open spec fn view(&self) -> ConfigView {
        ConfigView { query: self.query@, file_path: self.file_path@ }
    }
}

/// The message that [`Config::build`] fails with.
pub const NOT_ENOUGH_ARGUMENTS: &'static str = "not enough arguments";

impl Config {
    /// Reads the query and the file path from a command line, whose element 0
    /// is the program's name.
    ///
    /// Fails with [`NOT_ENOUGH_ARGUMENTS`] exactly when fewer than three
    /// elements are given. Otherwise the query is a copy of element 1 and the
    /// path a copy of element 2; what follows them is ignored. No element is
    /// looked into: an empty query or path is taken as it stands.
    pub fn build(args: &[String]) -> (built: Result<Config, &'static str>)
        ensures
            args@.len() < 3 ==> built is Err && built->Err_0@ == NOT_ENOUGH_ARGUMENTS@,
            args@.len() >= 3 ==> built is Ok && built->Ok_0@ == (ConfigView {
                query: args@[1]@,
                file_path: args@[2]@,
            }),
    {
        if args.len() < 3 {
            return Err(NOT_ENOUGH_ARGUMENTS);
        }
        let query = args[1].clone();
        let file_path = args[2].clone();
        Ok(Config { query, file_path })
    }
}

/// The message of a failed [`Config::build`] is not empty.
pub proof fn lemma_message_is_not_empty()
    ensures
        NOT_ENOUGH_ARGUMENTS@.len() > 0,
{
    reveal_strlit("not enough arguments");
}

} // verus!
