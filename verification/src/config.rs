//! The client configuration: server URL, optional API key and user, and
//! the preferred output mode, with its JSON form.

use vstd::prelude::*;

use crate::error::Error;
use crate::json::{Json, JsonValue};
use crate::table::obj_get;

verus! {

/// The configuration, as the configuration file holds it.
#[derive(Debug)]
pub struct Config {
    pub url: String,
    pub api_key: Option<String>,
    pub user: Option<String>,
    pub output: String,
}

/// The mathematical view of a configuration.
pub ghost struct ConfigV {
    pub url: Seq<char>,
    pub api_key: Option<Seq<char>>,
    pub user: Option<Seq<char>>,
    pub output: Seq<char>,
}

impl Config {
    pub open spec fn view(self) -> ConfigV {
        ConfigV {
            url: self.url@,
            api_key: match self.api_key {
                Some(s) => Some(s@),
                None => None,
            },
            user: match self.user {
                Some(s) => Some(s@),
                None => None,
            },
            output: self.output@,
        }
    }
}

/// The server URL used when the configuration names none.
pub fn default_url() -> (r: String)
    ensures
        r@ == "http://localhost:1933"@,
{
    "http://localhost:1933".to_owned()
}

/// The output mode used when the configuration names none.
pub fn default_output_format() -> (r: String)
    ensures
        r@ == "table"@,
{
    "table".to_owned()
}

/// The view of the default configuration.
pub open spec fn default_config() -> ConfigV {
    ConfigV {
        url: "http://localhost:1933"@,
        api_key: None,
        user: None,
        output: "table"@,
    }
}

impl Default for Config {
    /// The default configuration: the local server, no key, no user,
    /// table output.
    fn default() -> (r: Config)
        ensures
            r@ == default_config(),
    {
        Config { url: default_url(), api_key: None, user: None, output: default_output_format() }
    }
}

/// A string field with a fallback: absent means the fallback, a string
/// means itself, anything else is a type error.
pub open spec fn field_str(
    f: Seq<(Seq<char>, Json)>,
    key: Seq<char>,
    fallback: Seq<char>,
) -> Option<Seq<char>> {
    match obj_get(f, key) {
        None => Some(fallback),
        Some(Json::Str(s)) => Some(s),
        Some(_) => None,
    }
}

/// An optional string field: absent or null means none, a string means
/// itself, anything else is a type error.
pub open spec fn field_opt_str(f: Seq<(Seq<char>, Json)>, key: Seq<char>) -> Option<
    Option<Seq<char>>,
> {
    match obj_get(f, key) {
        None => Some(None),
        Some(Json::Null) => Some(None),
        Some(Json::Str(s)) => Some(Some(s)),
        Some(_) => None,
    }
}

/// The configuration a JSON value describes: an object whose `url` and
/// `output` are strings with defaults, and whose `api_key` and `user` are
/// optional strings. Unknown fields are passed over; a field of the wrong
/// type makes the whole value invalid.
pub open spec fn spec_config_from(j: Json) -> Option<ConfigV> {
    match j {
        Json::Object(f) => {
            match (
                field_str(f, "url"@, "http://localhost:1933"@),
                field_opt_str(f, "api_key"@),
                field_opt_str(f, "user"@),
                field_str(f, "output"@, "table"@),
            ) {
                (Some(url), Some(api_key), Some(user), Some(output)) => Some(
                    ConfigV { url, api_key, user, output },
                ),
                _ => None,
            }
        },
        _ => None,
    }
}

/// A string field with a fallback, at the machine level.
fn read_field_str(fields: &Vec<(String, JsonValue)>, key: &str, fallback: String) -> (r: Option<
    String,
>)
    ensures
        match r {
            Some(s) => field_str(crate::json::view_fields(fields@), key@, fallback@) == Some(s@),
            None => field_str(crate::json::view_fields(fields@), key@, fallback@) is None,
        },
{
    match crate::table::get_field(fields, key) {
        None => Some(fallback),
        Some(v) => match v {
            JsonValue::Str(s) => Some(s.clone()),
            _ => None,
        },
    }
}

/// An optional string field, at the machine level.
fn read_field_opt_str(fields: &Vec<(String, JsonValue)>, key: &str) -> (r: Option<Option<String>>)
    ensures
        match r {
            Some(None) => field_opt_str(crate::json::view_fields(fields@), key@) == Some(
                Option::<Seq<char>>::None,
            ),
            Some(Some(s)) => field_opt_str(crate::json::view_fields(fields@), key@) == Some(
                Some(s@),
            ),
            None => field_opt_str(crate::json::view_fields(fields@), key@) is None,
        },
{
    match crate::table::get_field(fields, key) {
        None => Some(None),
        Some(v) => match v {
            JsonValue::Null => Some(None),
            JsonValue::Str(s) => Some(Some(s.clone())),
            _ => None,
        },
    }
}

impl Config {
    /// The configuration a JSON value describes, when it has the right
    /// shape.
    pub fn from_json_value(v: &JsonValue) -> (r: Option<Config>)
        ensures
            match r {
                Some(c) => spec_config_from(v@) == Some(c@),
                None => spec_config_from(v@) is None,
            },
    {
        match v {
            JsonValue::Object(fields) => {
                let url = read_field_str(fields, "url", default_url());
                let api_key = read_field_opt_str(fields, "api_key");
                let user = read_field_opt_str(fields, "user");
                let output = read_field_str(fields, "output", default_output_format());
                match (url, api_key, user, output) {
                    (Some(url), Some(api_key), Some(user), Some(output)) => Some(
                        Config { url, api_key, user, output },
                    ),
                    _ => None,
                }
            },
            _ => None,
        }
    }

    /// The configuration a JSON text describes: a text that does not parse
    /// or does not have the configuration's shape is a configuration
    /// error.
    pub fn from_json_str(content: &str) -> (r: Result<Config, Error>)
        ensures
            match r {
                Ok(c) => crate::parse::spec_parse_json(content@) matches Some(j)
                    && spec_config_from(j) == Some(c@),
                Err(e) => (e matches Error::Config(m) && (m@
                    == "Failed to parse config file: not valid JSON"@ || m@
                    == "Failed to parse config file: not a configuration object"@))
                    && (match crate::parse::spec_parse_json(content@) {
                    Some(j) => spec_config_from(j) is None,
                    None => true,
                }),
            },
    {
        match crate::parse::parse_json(content) {
            Some(v) => match Config::from_json_value(&v) {
                Some(c) => Ok(c),
                None => Err(
                    Error::Config(
                        "Failed to parse config file: not a configuration object".to_owned(),
                    ),
                ),
            },
            None => Err(Error::Config("Failed to parse config file: not valid JSON".to_owned())),
        }
    }

    /// The configuration to run with: read from the file's text when one
    /// was found, the default configuration when none was.
    pub fn load_default(contents: Option<&str>) -> (r: Result<Config, Error>)
        ensures
            match contents {
                None => r matches Ok(c) && c@ == default_config(),
                Some(text) => match r {
                    Ok(c) => crate::parse::spec_parse_json(text@) matches Some(j)
                        && spec_config_from(j) == Some(c@),
                    Err(e) => e is Config && (match crate::parse::spec_parse_json(text@) {
                        Some(j) => spec_config_from(j) is None,
                        None => true,
                    }),
                },
            },
    {
        match contents {
            None => Ok(Config::default()),
            Some(text) => match Config::from_json_str(text) {
                Ok(c) => Ok(c),
                Err(e) => Err(e),
            },
        }
    }

    /// The configuration to run with; the same as [`Config::load_default`].
    pub fn load(contents: Option<&str>) -> (r: Result<Config, Error>)
        ensures
            match contents {
                None => r matches Ok(c) && c@ == default_config(),
                Some(text) => match r {
                    Ok(c) => crate::parse::spec_parse_json(text@) matches Some(j)
                        && spec_config_from(j) == Some(c@),
                    Err(e) => e is Config && (match crate::parse::spec_parse_json(text@) {
                        Some(j) => spec_config_from(j) is None,
                        None => true,
                    }),
                },
            },
    {
        Config::load_default(contents)
    }

    /// The JSON form of the configuration, fields in declaration order; an
    /// absent key or user is written as null.
    pub fn to_json_value(&self) -> (r: JsonValue)
        ensures
            r.view() == Json::Object(
                seq![
                    ("url"@, Json::Str(self.url@)),
                    (
                        "api_key"@,
                        match self.api_key {
                            Some(s) => Json::Str(s@),
                            None => Json::Null,
                        },
                    ),
                    (
                        "user"@,
                        match self.user {
                            Some(s) => Json::Str(s@),
                            None => Json::Null,
                        },
                    ),
                    ("output"@, Json::Str(self.output@)),
                ],
            ),
    {
        let mut fields: Vec<(String, JsonValue)> = Vec::new();
        fields.push(("url".to_owned(), JsonValue::Str(self.url.clone())));
        let ak = match &self.api_key {
            Some(s) => JsonValue::Str(s.clone()),
            None => JsonValue::Null,
        };
        fields.push(("api_key".to_owned(), ak));
        let us = match &self.user {
            Some(s) => JsonValue::Str(s.clone()),
            None => JsonValue::Null,
        };
        fields.push(("user".to_owned(), us));
        fields.push(("output".to_owned(), JsonValue::Str(self.output.clone())));
        let r = JsonValue::Object(fields);
        proof {
            crate::json::lemma_view_fields(fields@);
            assert(r.view() matches Json::Object(f) && f =~= seq![
                ("url"@, Json::Str(self.url@)),
                (
                    "api_key"@,
                    match self.api_key {
                        Some(s) => Json::Str(s@),
                        None => Json::Null,
                    },
                ),
                (
                    "user"@,
                    match self.user {
                        Some(s) => Json::Str(s@),
                        None => Json::Null,
                    },
                ),
                ("output"@, Json::Str(self.output@)),
            ]);
        }
        r
    }

    /// The pretty-printed JSON text of the configuration, as the
    /// configuration file holds it.
    pub fn to_json_string(&self) -> (r: String)
        ensures
            r@ == crate::codec::ser(self.to_json_value_spec(), true, 0),
    {
        let v = self.to_json_value();
        crate::codec::to_json_string_pretty(&v)
    }

    /// The view of the JSON form of the configuration.
    pub open spec fn to_json_value_spec(&self) -> Json {
        Json::Object(
            seq![
                ("url"@, Json::Str(self.url@)),
                (
                    "api_key"@,
                    match self.api_key {
                        Some(s) => Json::Str(s@),
                        None => Json::Null,
                    },
                ),
                (
                    "user"@,
                    match self.user {
                        Some(s) => Json::Str(s@),
                        None => Json::Null,
                    },
                ),
                ("output"@, Json::Str(self.output@)),
            ],
        )
    }
}

} // verus!
