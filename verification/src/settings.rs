//! The configuration that the pipeline consumes.

use vstd::prelude::*;

verus! {

/// The settings of one indexer process.
#[derive(Debug)]
pub struct Settings {
    /// The endpoint of the node.
    pub rpc_url: String,
    /// The location of the checkpoint store.
    pub db_url: String,
    /// How many fetches may run at once; positive.
    pub fetcher_max_concurrency: usize,
    /// How many fetches may start per second; positive.
    pub fetcher_max_rps: u32,
    /// After how many blocks a checkpoint is saved; positive.
    pub batch_save_size: usize,
}

/// The path of the settings file: the command-line argument if one was
/// given, else the value of the environment variable if it is set, else
/// `settings.toml`.
pub open spec fn chosen_settings_path(
    argument: Option<String>,
    variable: Option<String>,
) -> Seq<char> {
    match argument {
        Some(path) => path@,
        None => match variable {
            Some(path) => path@,
            None => "settings.toml"@,
        },
    }
}

/// The path of the settings file, given the first command-line argument
/// and the value of the environment variable, each if present.
pub fn settings_path(argument: Option<String>, variable: Option<String>) -> (path: String)
    ensures
        path@ == chosen_settings_path(argument, variable),
{
    match argument {
        Some(path) => path,
        None => match variable {
            Some(path) => path,
            None => "settings.toml".to_owned(),
        },
    }
}

impl Settings {
    /// Whether the three counts are positive.
    pub open spec fn wf(&self) -> bool {
        &&& self.fetcher_max_concurrency >= 1
        &&& self.fetcher_max_rps >= 1
        &&& self.batch_save_size >= 1
    }

    /// The settings with the given values, or `None` if one of the three
    /// counts is zero.
    pub fn new(
        rpc_url: String,
        db_url: String,
        fetcher_max_concurrency: usize,
        fetcher_max_rps: u32,
        batch_save_size: usize,
    ) -> (settings: Option<Settings>)
        ensures
            settings is Some <==> fetcher_max_concurrency >= 1 && fetcher_max_rps >= 1
                && batch_save_size >= 1,
            settings matches Some(s) ==> s.wf() && s.rpc_url == rpc_url && s.db_url == db_url
                && s.fetcher_max_concurrency == fetcher_max_concurrency && s.fetcher_max_rps
                == fetcher_max_rps && s.batch_save_size == batch_save_size,
    {
        if fetcher_max_concurrency == 0 || fetcher_max_rps == 0 || batch_save_size == 0 {
            None
        } else {
            Some(
                Settings {
                    rpc_url,
                    db_url,
                    fetcher_max_concurrency,
                    fetcher_max_rps,
                    batch_save_size,
                },
            )
        }
    }

    /// Whether the three counts are positive.
    pub fn is_valid(&self) -> (valid: bool)
        ensures
            valid == self.wf(),
    {
        self.fetcher_max_concurrency >= 1 && self.fetcher_max_rps >= 1 && self.batch_save_size >= 1
    }

    /// The request rate that the transport below the pipeline may reach:
    /// twenty times the pipeline's own, so that the pipeline's limit is the
    /// one that binds. `None` if that does not fit in 32 bits.
    pub fn transport_rate_ceiling(&self) -> (ceiling: Option<u32>)
        ensures
            ceiling is Some <==> self.fetcher_max_rps * 20 <= u32::MAX,
            ceiling matches Some(c) ==> c == self.fetcher_max_rps * 20,
    {
        self.fetcher_max_rps.checked_mul(20)
    }
}

} // verus!
