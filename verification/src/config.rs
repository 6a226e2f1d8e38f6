//! What one run is configured with.

use vstd::prelude::*;
use vstd::string::StringExecFns;

verus! {

/// The smallest truncation limit that can be configured.
pub const LIMIT_MIN: u8 = 20;

/// The largest truncation limit that can be configured.
pub const LIMIT_MAX: u8 = 100;

/// A configured truncation limit: a number of characters between
/// [`LIMIT_MIN`] and [`LIMIT_MAX`], both included.
#[derive(Clone, Copy, Debug)]
pub struct Limit {
    value: u8,
}

impl View for Limit {
    type V = nat;

    closed spec fn view(&self) -> nat {
        self.value as nat
    }
}

impl Limit {
    #[verifier::type_invariant]
    spec fn in_range(self) -> bool {
        LIMIT_MIN <= self.value <= LIMIT_MAX
    }

    /// The limit of `value` characters, where `value` is in range.
    pub fn new(value: i64) -> (limit: Option<Limit>)
        ensures
            limit is Some <==> LIMIT_MIN <= value <= LIMIT_MAX,
            limit matches Some(l) ==> l@ == value,
    {
        if 20 <= value && value <= 100 {
            Some(Limit { value: value as u8 })
        } else {
            None
        }
    }

    /// The number of characters.
    pub fn value(&self) -> (value: u8)
        ensures
            value == self@,
            LIMIT_MIN <= value <= LIMIT_MAX,
    {
        proof {
            use_type_invariant(self);
        }
        self.value
    }
}

/// Why a run cannot be configured.
#[derive(Clone, Copy, Debug, PartialEq, Eq)]
pub enum ConfigError {
    /// The truncation limit, which is given, is not between [`LIMIT_MIN`]
    /// and [`LIMIT_MAX`].
    LimitOutOfRange(i64),
}

/// The configuration of one run: the directory to walk, the truncation
/// limit if one is set, and the two modes. It does not change once made.
#[derive(Clone, Debug)]
pub struct RunConfiguration {
    root: String,
    limit: Option<Limit>,
    verbose: bool,
    dry_run: bool,
}

/// A [`RunConfiguration`] as plain values.
pub struct ConfigurationView {
    pub root: Seq<char>,
    pub limit: Option<nat>,
    pub verbose: bool,
    pub dry_run: bool,
}

/// The number of characters of a limit that may be absent.
pub open spec fn limit_view(limit: Option<Limit>) -> Option<nat> {
    match limit {
        Some(l) => Some(l@),
        None => None,
    }
}

/// The line that tells of a run without a limit.
pub open spec fn no_limit_notice() -> Seq<char> {
    "Limit was not provided, using default: 0"@
}

/// The message for a directory that does not exist.
pub open spec fn missing_directory_message(root: Seq<char>) -> Seq<char> {
    "Error: The directory '"@ + root + "' does not exist."@
}

impl View for RunConfiguration {
    type V = ConfigurationView;

    closed spec fn view(&self) -> ConfigurationView {
        ConfigurationView {
            root: self.root@,
            limit: limit_view(self.limit),
            verbose: self.verbose,
            dry_run: self.dry_run,
        }
    }
}

impl RunConfiguration {
    /// The configuration with these values; an error if a limit is given
    /// that is out of range.
    pub fn new(root: &str, limit: Option<i64>, verbose: bool, dry_run: bool) -> (made: Result<
        RunConfiguration,
        ConfigError,
    >)
        ensures
            match made {
                Ok(config) => {
                    &&& config@.root == root@
                    &&& config@.verbose == verbose
                    &&& config@.dry_run == dry_run
                    &&& match limit {
                        Some(value) => LIMIT_MIN <= value <= LIMIT_MAX && config@.limit == Some(
                            value as nat,
                        ),
                        None => config@.limit is None,
                    }
                },
                Err(error) => limit matches Some(value) && !(LIMIT_MIN <= value <= LIMIT_MAX)
                    && error == ConfigError::LimitOutOfRange(value),
            },
    {
        let limit = match limit {
            Some(value) => match Limit::new(value) {
                Some(l) => Some(l),
                None => {
                    return Err(ConfigError::LimitOutOfRange(value));
                },
            },
            None => None,
        };
        Ok(RunConfiguration { root: String::from_str(root), limit, verbose, dry_run })
    }

    /// The directory to walk.
    pub fn root(&self) -> (root: &str)
        ensures
            root@ == self@.root,
    {
        self.root.as_str()
    }

    /// The truncation limit, if one is set.
    pub fn limit(&self) -> (limit: Option<Limit>)
        ensures
            limit_view(limit) == self@.limit,
    {
        self.limit
    }

    /// Whether each renaming is reported.
    pub fn verbose(&self) -> (verbose: bool)
        ensures
            verbose == self@.verbose,
    {
        self.verbose
    }

    /// Whether the run only announces what it would rename.
    pub fn dry_run(&self) -> (dry_run: bool)
        ensures
            dry_run == self@.dry_run,
    {
        self.dry_run
    }

    /// The line that tells of a run without a limit; none where one is set.
    pub fn limit_notice(&self) -> (notice: Option<String>)
        ensures
            match notice {
                Some(line) => self@.limit is None && line@ == no_limit_notice(),
                None => self@.limit is Some,
            },
    {
        match self.limit {
            Some(_) => None,
            None => Some(String::from_str("Limit was not provided, using default: 0")),
        }
    }

    /// The message for the case that the directory to walk does not exist.
    pub fn missing_directory(&self) -> (message: String)
        ensures
            message@ == missing_directory_message(self@.root),
    {
        let mut message = String::from_str("Error: The directory '");
        message.append(self.root.as_str());
        message.append("' does not exist.");
        message
    }
}

} // verus!
