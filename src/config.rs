use vstd::prelude::*;
use vstd::string::StringSliceAdditionalSpecFns;
use vstd::utf8::encode_utf8;

use crate::search::{bytes_of, matching_lines, search_with_mode, MatchMode};

verus! {

/// What one invocation searches for, where, and how.
pub struct Config {
    pub query: String,
    pub file_path: String,
    pub ignore_case: bool,
}

impl Config {
    /// Builds a configuration from the command-line arguments, the first of
    /// which is the program's name: the second is the query and the third the
    /// file path; any after those are ignored. `ignore_case` selects
    /// case-insensitive matching.
    pub fn build(args: &Vec<String>, ignore_case: bool) -> (r: Result<Config, &'static str>)
        ensures
            args@.len() < 2 <==> (r is Err && r->Err_0@ == "didn't get query string"@),
            args@.len() == 2 <==> (r is Err && r->Err_0@ == "no file path passed"@),
            args@.len() >= 3 <==> r is Ok,
            r is Ok ==> r->Ok_0.query@ == args@[1]@ && r->Ok_0.file_path@ == args@[2]@
                && r->Ok_0.ignore_case == ignore_case,
    {
        proof {
            reveal_strlit("didn't get query string");
            reveal_strlit("no file path passed");
            assert("didn't get query string"@[0] != "no file path passed"@[0]);
        }
        if args.len() < 2 {
            return Err("didn't get query string");
        }
        if args.len() < 3 {
            return Err("no file path passed");
        }
        Ok(Config { query: args[1].clone(), file_path: args[2].clone(), ignore_case })
    }

    /// The comparison this configuration asks for.
    pub fn mode(&self) -> (r: MatchMode)
        ensures
            r == (if self.ignore_case {
                MatchMode::CaseInsensitive
            } else {
                MatchMode::CaseSensitive
            }),
    {
        if self.ignore_case {
            MatchMode::CaseInsensitive
        } else {
            MatchMode::CaseSensitive
        }
    }
}

/// The lines of `contents` that the configured query selects, in document
/// order: case-insensitively when `ignore_case` is set, exactly otherwise.
pub fn run<'a>(config: &Config, contents: &'a str) -> (r: Vec<&'a str>)
    ensures
        bytes_of(r@) == matching_lines(
            encode_utf8(config.query@),
            contents.spec_bytes(),
            if config.ignore_case {
                MatchMode::CaseInsensitive
            } else {
                MatchMode::CaseSensitive
            },
        ),
{
    search_with_mode(config.query.as_str(), contents, config.mode())
}

} // verus!
