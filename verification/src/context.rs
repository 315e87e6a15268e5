//! The command context: the loaded configuration, the chosen output mode,
//! and the settings a transport client is built from.

use vstd::prelude::*;

use crate::config::Config;

verus! {

/// How results are written: as text tables or as raw JSON.
#[derive(Debug, Clone, Copy, PartialEq, Eq, Structural)]
pub enum OutputFormat {
    Table,
    Json,
}

impl From<&str> for OutputFormat {
    /// `json` selects JSON output; anything else selects tables.
    fn from(s: &str) -> (r: Self) {
        if crate::text::str_eq(s, "json") {
            OutputFormat::Json
        } else {
            OutputFormat::Table
        }
    }
}

impl vstd::std_specs::convert::FromSpecImpl<&str> for OutputFormat {
    open spec fn obeys_from_spec() -> bool {
        true
    }

    open spec fn from_spec(s: &str) -> Self {
        if s@ == "json"@ {
            OutputFormat::Json
        } else {
            OutputFormat::Table
        }
    }
}

/// What a transport client is built from: the server URL with trailing
/// slashes removed, and the API key to send, if any.
#[derive(Debug)]
pub struct ClientSettings {
    pub base_url: String,
    pub api_key: Option<String>,
}

/// `s` with every trailing slash removed.
pub open spec fn trim_end_slashes(s: Seq<char>) -> Seq<char>
    decreases s.len(),
{
    if s.len() > 0 && s.last() == '/' {
        trim_end_slashes(s.drop_last())
    } else {
        s
    }
}

impl ClientSettings {
    /// Settings for a server at `base_url`: the URL is kept without its
    /// trailing slashes.
    pub fn new(base_url: &str, api_key: Option<String>) -> (r: ClientSettings)
        ensures
            r.base_url@ == trim_end_slashes(base_url@),
            r.api_key == api_key,
    {
        let cs = crate::text::str_to_chars(base_url);
        let mut end = cs.len();
        proof {
            assert(base_url@.take(base_url@.len() as int) =~= base_url@);
        }
        while end > 0 && cs[end - 1] == '/'
            invariant
                0 <= end <= cs@.len(),
                cs@ == base_url@,
                trim_end_slashes(base_url@) == trim_end_slashes(base_url@.take(end as int)),
            decreases end,
        {
            end -= 1;
            proof {
                assert(base_url@.take(end + 1).drop_last() =~= base_url@.take(end as int));
            }
        }
        let mut out: Vec<char> = Vec::new();
        let mut i: usize = 0;
        while i < end
            invariant
                0 <= i <= end <= cs@.len(),
                cs@ == base_url@,
                out@ == base_url@.take(i as int),
            decreases end - i,
        {
            out.push(cs[i]);
            i += 1;
            proof {
                assert(out@ =~= base_url@.take(i as int));
            }
        }
        proof {
            if end == base_url@.len() {
                assert(base_url@.take(end as int) =~= base_url@);
            }
        }
        ClientSettings { base_url: crate::text::chars_to_string(&out), api_key }
    }
}

/// The state every command runs with.
#[derive(Debug)]
pub struct CliContext {
    pub config: Config,
    pub output_format: OutputFormat,
    pub compact: bool,
}

impl CliContext {
    /// A context over an already loaded configuration.
    pub fn new(config: Config, output_format: OutputFormat, compact: bool) -> (r: CliContext)
        ensures
            r.config == config,
            r.output_format == output_format,
            r.compact == compact,
    {
        CliContext { config, output_format, compact }
    }

    /// The settings for this context's transport client: the configured
    /// URL, trimmed, and a copy of the configured API key.
    pub fn get_client(&self) -> (r: ClientSettings)
        ensures
            r.base_url@ == trim_end_slashes(self.config.url@),
            match (r.api_key, self.config.api_key) {
                (Some(a), Some(b)) => a@ == b@,
                (None, None) => true,
                _ => false,
            },
    {
        let key = match &self.config.api_key {
            Some(s) => Some(s.clone()),
            None => None,
        };
        ClientSettings::new(self.config.url.as_str(), key)
    }
}

} // verus!
