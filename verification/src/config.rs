//! The configuration of one search, how it is resolved from the arguments of
//! the program, and the search that it selects.

use vstd::prelude::*;
use crate::lines::{lines_of, views_of};
use crate::search::{
    matching_lines,
    matching_lines_ignoring_case,
    search,
    search_case_insensitive,
};

verus! {

/// What to search for, where, and how.
#[derive(Debug)]
pub struct Config {
    /// The text to search for.
    pub query: String,
    /// The path of the file to search.
    pub filename: String,
    /// Whether the case of letters counts.
    pub case_sensitive: bool,
}

/// A configuration as the contracts see it: its two texts as sequences of
/// characters.
pub struct ConfigView {
    /// The characters of the query.
    pub query: Seq<char>,
    /// The characters of the file's path.
    pub filename: Seq<char>,
    /// Whether the case of letters counts.
    pub case_sensitive: bool,
}

impl View for Config {
    type V = ConfigView;

    open spec fn view(&self) -> ConfigView {
        ConfigView {
            query: self.query@,
            filename: self.filename@,
            case_sensitive: self.case_sensitive,
        }
    }
}

/// Why no configuration could be resolved.
#[derive(Debug, Clone, Copy, PartialEq, Eq, Structural)]
pub enum ConfigError {
    /// No query stands after the program's name.
    MissingQuery,
    /// No file name stands after the query.
    MissingFilename,
}

impl ConfigError {
    /// The message to show for this error.
    pub fn message(&self) -> (text: &'static str)
        ensures
            text@ == match *self {
                ConfigError::MissingQuery => "Didn't get a query string"@,
                ConfigError::MissingFilename => "Didn't get a filename"@,
            },
    {
        match self {
            ConfigError::MissingQuery => "Didn't get a query string",
            ConfigError::MissingFilename => "Didn't get a filename",
        }
    }
}

impl Config {
    /// Resolves the configuration from the arguments of the program, the
    /// first of which is the program's name, and from the value of the
    /// variable `CASE_INSENSITIVE` of the environment, `None` where it is not
    /// set.
    ///
    /// The argument after the program's name is the query and the one after
    /// that the file name; further arguments are ignored, and an empty
    /// argument is taken as it is. The search is case sensitive unless the
    /// variable is set, whatever its value.
    pub fn new(args: &[String], case_insensitive: Option<&str>) -> (resolved: Result<
        Config,
        ConfigError,
    >)
        ensures
            args@.len() < 2 ==> resolved == Err::<Config, ConfigError>(ConfigError::MissingQuery),
            args@.len() == 2 ==> resolved == Err::<Config, ConfigError>(
                ConfigError::MissingFilename,
            ),
            args@.len() > 2 ==> resolved is Ok && resolved->Ok_0@ == (ConfigView {
                query: args@[1]@,
                filename: args@[2]@,
                case_sensitive: case_insensitive is None,
            }),
    {
        if args.len() < 2 {
            return Err(ConfigError::MissingQuery);
        }
        if args.len() < 3 {
            return Err(ConfigError::MissingFilename);
        }
        Ok(
            Config {
                query: args[1].clone(),
                filename: args[2].clone(),
                case_sensitive: case_insensitive.is_none(),
            },
        )
    }
}

/// The lines of `contents` that the search configured by `config` selects:
/// those of `search` where the case of letters counts, and those of
/// `search_case_insensitive` where it does not.
pub fn run<'a>(config: &Config, contents: &'a str) -> (found: Vec<&'a str>)
    ensures
        views_of(found@) == if config@.case_sensitive {
            matching_lines(config@.query, contents@)
        } else {
            matching_lines_ignoring_case(config@.query, contents@)
        },
        config@.query.len() == 0 ==> views_of(found@) == lines_of(contents@),
{
    if config.case_sensitive {
        search(config.query.as_str(), contents)
    } else {
        search_case_insensitive(config.query.as_str(), contents)
    }
}

} // verus!
