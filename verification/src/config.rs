//! The configuration: who the user is and the credentials to sign with.
//!
//! The values are read from the text of an environment file, `KEY=value`
//! line by line, and then replaced by the values that the process
//! environment holds.

use crate::chars::{chars_of, pieces_view, spells, split, split_chars, string_of, trim, trimmed};
use crate::error::{Credential, Error};
use vstd::prelude::*;

verus! {

/// The user's screen name and the five secrets of the API.
#[derive(Debug, PartialEq, Eq)]
pub struct Config {
    pub screen_name: String,
    /// The bearer token for reading.
    pub token: String,
    /// The consumer key.
    pub api_key: String,
    /// The consumer secret.
    pub api_secret: String,
    pub access_token: String,
    /// The token secret.
    pub access_secret: String,
}

/// A configuration as text.
pub struct ConfigView {
    pub screen_name: Seq<char>,
    pub token: Seq<char>,
    pub api_key: Seq<char>,
    pub api_secret: Seq<char>,
    pub access_token: Seq<char>,
    pub access_secret: Seq<char>,
}

impl View for Config {
    type V = ConfigView;

    open spec fn view(&self) -> ConfigView {
        ConfigView {
            screen_name: self.screen_name@,
            token: self.token@,
            api_key: self.api_key@,
            api_secret: self.api_secret@,
            access_token: self.access_token@,
            access_secret: self.access_secret@,
        }
    }
}

/// What the process environment holds for each value, where it holds
/// anything: `TW_NAME`, `TW_TOKEN`, `API_KEY`, `API_SECRET`, `ACCESS_TOKEN`
/// and `ACCESS_SECRET`.
#[derive(Debug, PartialEq, Eq)]
pub struct EnvVars {
    pub screen_name: Option<String>,
    pub token: Option<String>,
    pub api_key: Option<String>,
    pub api_secret: Option<String>,
    pub access_token: Option<String>,
    pub access_secret: Option<String>,
}

/// The environment's values as text.
pub struct EnvView {
    pub screen_name: Option<Seq<char>>,
    pub token: Option<Seq<char>>,
    pub api_key: Option<Seq<char>>,
    pub api_secret: Option<Seq<char>>,
    pub access_token: Option<Seq<char>>,
    pub access_secret: Option<Seq<char>>,
}

/// The text of a value that may be unset.
pub open spec fn text_of(value: Option<String>) -> Option<Seq<char>> {
    match value {
        Some(s) => Some(s@),
        None => None,
    }
}

impl View for EnvVars {
    type V = EnvView;

    open spec fn view(&self) -> EnvView {
        EnvView {
            screen_name: text_of(self.screen_name),
            token: text_of(self.token),
            api_key: text_of(self.api_key),
            api_secret: text_of(self.api_secret),
            access_token: text_of(self.access_token),
            access_secret: text_of(self.access_secret),
        }
    }
}

/// The configuration with nothing in it.
pub open spec fn empty_config() -> ConfigView {
    ConfigView {
        screen_name: Seq::empty(),
        token: Seq::empty(),
        api_key: Seq::empty(),
        api_secret: Seq::empty(),
        access_token: Seq::empty(),
        access_secret: Seq::empty(),
    }
}

/// `c` after `key` was given `value`. A key that names nothing changes
/// nothing.
pub open spec fn with_entry(c: ConfigView, key: Seq<char>, value: Seq<char>) -> ConfigView {
    if key == "TW_NAME"@ {
        ConfigView { screen_name: value, ..c }
    } else if key == "TW_TOKEN"@ {
        ConfigView { token: value, ..c }
    } else if key == "API_KEY"@ {
        ConfigView { api_key: value, ..c }
    } else if key == "API_SECRET"@ {
        ConfigView { api_secret: value, ..c }
    } else if key == "ACCESS_TOKEN"@ {
        ConfigView { access_token: value, ..c }
    } else if key == "ACCESS_SECRET"@ {
        ConfigView { access_secret: value, ..c }
    } else {
        c
    }
}

/// `c` after one line was read. A line counts when it holds exactly one
/// `=`; key and value are what stands on either side, without the white
/// space around it.
pub open spec fn with_line(c: ConfigView, line: Seq<char>) -> ConfigView {
    let parts = split(line, '=');
    if parts.len() == 2 {
        with_entry(c, trim(parts[0]), trim(parts[1]))
    } else {
        c
    }
}

/// `c` after the lines were read in turn: a later line wins.
pub open spec fn with_lines(c: ConfigView, lines: Seq<Seq<char>>) -> ConfigView
    decreases lines.len(),
{
    if lines.len() == 0 {
        c
    } else {
        with_line(with_lines(c, lines.drop_last()), lines.last())
    }
}

/// What the text of an environment file sets. Lines end at a line feed; a
/// carriage return before it is white space and falls to the trimming.
pub open spec fn parse_env_file(content: Seq<char>) -> ConfigView {
    with_lines(empty_config(), split(content, '\n'))
}

/// `value`, unless the environment holds something in its place.
pub open spec fn or_env(value: Seq<char>, env: Option<Seq<char>>) -> Seq<char> {
    match env {
        Some(v) => v,
        None => value,
    }
}

/// `c` with every value replaced that the environment holds.
pub open spec fn overwritten(c: ConfigView, env: EnvView) -> ConfigView {
    ConfigView {
        screen_name: or_env(c.screen_name, env.screen_name),
        token: or_env(c.token, env.token),
        api_key: or_env(c.api_key, env.api_key),
        api_secret: or_env(c.api_secret, env.api_secret),
        access_token: or_env(c.access_token, env.access_token),
        access_secret: or_env(c.access_secret, env.access_secret),
    }
}

/// The first value of `c` that is empty.
pub open spec fn first_missing(c: ConfigView) -> Option<Credential> {
    if c.screen_name.len() == 0 {
        Some(Credential::ScreenName)
    } else if c.token.len() == 0 {
        Some(Credential::Token)
    } else if c.api_key.len() == 0 {
        Some(Credential::ApiKey)
    } else if c.api_secret.len() == 0 {
        Some(Credential::ApiSecret)
    } else if c.access_token.len() == 0 {
        Some(Credential::AccessToken)
    } else if c.access_secret.len() == 0 {
        Some(Credential::AccessSecret)
    } else {
        None
    }
}

/// The configuration that file and environment give, or the first value
/// that neither of them sets.
pub open spec fn loaded(content: Seq<char>, env: EnvView) -> Result<ConfigView, Error> {
    let c = overwritten(parse_env_file(content), env);
    match first_missing(c) {
        Some(credential) => Err(Error::MissingCredential(credential)),
        None => Ok(c),
    }
}

impl Config {
    /// The configuration for the text of an environment file and the values
    /// of the process environment: the file's values, replaced by the
    /// environment's, and all of them present.
    pub fn new(content: &str, env: EnvVars) -> (r: Result<Config, Error>)
        ensures
            match r {
                Ok(config) => loaded(content@, env@) == Ok::<ConfigView, Error>(config@),
                Err(e) => loaded(content@, env@) == Err::<ConfigView, Error>(e),
            },
    {
        let mut config = Config::from_env_file(content);
        config.overwrite_with_env_vars(env);
        match config.validate() {
            Ok(()) => Ok(config),
            Err(e) => Err(e),
        }
    }

    /// What the text of an environment file sets; the rest is empty.
    pub fn from_env_file(content: &str) -> (r: Config)
        ensures
            r@ == parse_env_file(content@),
    {
        let mut config = Config {
            screen_name: String::new(),
            token: String::new(),
            api_key: String::new(),
            api_secret: String::new(),
            access_token: String::new(),
            access_secret: String::new(),
        };
        let chars = chars_of(content);
        let lines = split_chars(chars.as_slice(), '\n');
        let ghost all = pieces_view(lines@);
        assert(config@ == empty_config());
        let mut i: usize = 0;
        while i < lines.len()
            invariant
                i <= lines.len(),
                all == pieces_view(lines@),
                config@ == with_lines(empty_config(), all.take(i as int)),
            decreases lines.len() - i,
        {
            proof {
                assert(all[i as int] == lines@[i as int]@);
                assert(all.take(i + 1).drop_last() =~= all.take(i as int));
                assert(all.take(i + 1).last() == all[i as int]);
            }
            let entries = split_chars(lines[i].as_slice(), '=');
            if entries.len() == 2 {
                proof {
                    assert(pieces_view(entries@)[0] == entries@[0]@);
                    assert(pieces_view(entries@)[1] == entries@[1]@);
                }
                let key = trimmed(entries[0].as_slice());
                let val = trimmed(entries[1].as_slice());
                config.set_entry(key.as_slice(), val.as_slice());
            }
            i += 1;
        }
        proof {
            assert(all.take(lines.len() as int) =~= all);
        }
        config
    }

    /// Gives `key` the value `val`, where `key` names a value.
    fn set_entry(&mut self, key: &[char], val: &[char])
        ensures
            final(self)@ == with_entry(old(self)@, key@, val@),
    {
        if spells(key, "TW_NAME") {
            self.screen_name = string_of(val);
        } else if spells(key, "TW_TOKEN") {
            self.token = string_of(val);
        } else if spells(key, "API_KEY") {
            self.api_key = string_of(val);
        } else if spells(key, "API_SECRET") {
            self.api_secret = string_of(val);
        } else if spells(key, "ACCESS_TOKEN") {
            self.access_token = string_of(val);
        } else if spells(key, "ACCESS_SECRET") {
            self.access_secret = string_of(val);
        }
    }

    /// Replaces every value that the environment holds, an empty one too.
    pub fn overwrite_with_env_vars(&mut self, env: EnvVars)
        ensures
            final(self)@ == overwritten(old(self)@, env@),
    {
        if let Some(name) = env.screen_name {
            self.screen_name = name;
        }
        if let Some(token) = env.token {
            self.token = token;
        }
        if let Some(api_key) = env.api_key {
            self.api_key = api_key;
        }
        if let Some(api_secret) = env.api_secret {
            self.api_secret = api_secret;
        }
        if let Some(access_token) = env.access_token {
            self.access_token = access_token;
        }
        if let Some(access_secret) = env.access_secret {
            self.access_secret = access_secret;
        }
    }

    /// Whether every value is there; if not, the first that is empty.
    pub fn validate(&self) -> (r: Result<(), Error>)
        ensures
            match r {
                Ok(_) => first_missing(self@) is None,
                Err(e) => first_missing(self@) matches Some(credential) && e
                    == Error::MissingCredential(credential),
            },
    {
        if self.screen_name.as_str().is_empty() {
            return Err(Error::MissingCredential(Credential::ScreenName));
        }
        if self.token.as_str().is_empty() {
            return Err(Error::MissingCredential(Credential::Token));
        }
        if self.api_key.as_str().is_empty() {
            return Err(Error::MissingCredential(Credential::ApiKey));
        }
        if self.api_secret.as_str().is_empty() {
            return Err(Error::MissingCredential(Credential::ApiSecret));
        }
        if self.access_token.as_str().is_empty() {
            return Err(Error::MissingCredential(Credential::AccessToken));
        }
        if self.access_secret.as_str().is_empty() {
            return Err(Error::MissingCredential(Credential::AccessSecret));
        }
        Ok(())
    }
}

} // verus!
