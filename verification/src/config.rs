//! User preferences: the sections of the configuration file and their
//! built-in default values. Loading and saving the file itself is the
//! caller's concern; this module owns the shape and the defaults.

use vstd::prelude::*;

use crate::errors::StashError;
use crate::strutil::{
    dec_i64, dec_digits, i64_to_string, is_signed_decimal, parse_i64, signed_decimal_val,
    u64_to_string,
};

verus! {

/// Command and display preferences.
#[derive(Debug)]
pub struct Defaults {
    pub editor: String,
    pub browser: String,
    pub output_format: String,
    pub list_limit: i64,
    pub auto_read: bool,
}

/// Color preferences.
#[derive(Debug)]
pub struct Colors {
    pub theme: String,
}

/// Page-fetch preferences.
#[derive(Debug)]
pub struct Fetch {
    pub timeout_seconds: u64,
    pub follow_redirects: bool,
    pub user_agent: String,
}

/// The whole configuration file.
#[derive(Debug)]
pub struct Config {
    pub defaults: Defaults,
    pub colors: Colors,
    pub fetch: Fetch,
}

pub ghost struct ConfigV {
    pub editor: Seq<char>,
    pub browser: Seq<char>,
    pub output_format: Seq<char>,
    pub list_limit: i64,
    pub auto_read: bool,
    pub theme: Seq<char>,
    pub timeout_seconds: u64,
    pub follow_redirects: bool,
    pub user_agent: Seq<char>,
}

impl View for Config {
    type V = ConfigV;

    open spec fn view(&self) -> ConfigV {
        ConfigV {
            editor: self.defaults.editor@,
            browser: self.defaults.browser@,
            output_format: self.defaults.output_format@,
            list_limit: self.defaults.list_limit,
            auto_read: self.defaults.auto_read,
            theme: self.colors.theme@,
            timeout_seconds: self.fetch.timeout_seconds,
            follow_redirects: self.fetch.follow_redirects,
            user_agent: self.fetch.user_agent@,
        }
    }
}

impl Default for Defaults {
    /// The built-in defaults; the file loader may override the editor
    /// from the environment before the value reaches the library.
    fn default() -> (r: Defaults)
        ensures
            r.editor@ == "vim"@,
            r.browser@ == "default"@,
            r.output_format@ == "table"@,
            r.list_limit == 10,
            r.auto_read == true,
    {
        Defaults {
            editor: String::from_str("vim"),
            browser: default_browser(),
            output_format: default_output_format(),
            list_limit: default_list_limit(),
            auto_read: default_auto_read(),
        }
    }
}

impl Default for Colors {
    fn default() -> (r: Colors)
        ensures
            r.theme@ == "auto"@,
    {
        Colors { theme: default_theme() }
    }
}

impl Default for Fetch {
    fn default() -> (r: Fetch)
        ensures
            r.timeout_seconds == 10,
            r.follow_redirects == true,
            r.user_agent@ == "Stash/0.1.0"@,
    {
        Fetch {
            timeout_seconds: default_timeout_seconds(),
            follow_redirects: default_follow_redirects(),
            user_agent: default_user_agent(),
        }
    }
}

impl Default for Config {
    fn default() -> (r: Config)
        ensures
            r@.editor == "vim"@,
            r@.browser == "default"@,
            r@.output_format == "table"@,
            r@.list_limit == 10,
            r@.auto_read == true,
            r@.theme == "auto"@,
            r@.timeout_seconds == 10,
            r@.follow_redirects == true,
            r@.user_agent == "Stash/0.1.0"@,
    {
        Config {
            defaults: Defaults::default(),
            colors: Colors::default(),
            fetch: Fetch::default(),
        }
    }
}

/// Whether a value names an output format a listing can take.
pub open spec fn valid_output_format(v: Seq<char>) -> bool {
    v == "table"@ || v == "json"@ || v == "ids"@
}

/// Whether a value names a color theme.
pub open spec fn valid_theme_name(v: Seq<char>) -> bool {
    v == "auto"@ || v == "dark"@ || v == "light"@ || v == "none"@
}

/// Whether a value reads as a boolean.
pub open spec fn is_bool_text(v: Seq<char>) -> bool {
    v == "true"@ || v == "false"@
}

/// The configuration one assignment leaves behind, or nothing when the
/// key is unknown or the value is rejected.
pub open spec fn config_set_spec(c: ConfigV, key: Seq<char>, value: Seq<char>) -> Option<ConfigV> {
    if key == "defaults.editor"@ {
        Some(ConfigV { editor: value, ..c })
    } else if key == "defaults.browser"@ {
        Some(ConfigV { browser: value, ..c })
    } else if key == "defaults.output_format"@ {
        if valid_output_format(value) {
            Some(ConfigV { output_format: value, ..c })
        } else {
            None
        }
    } else if key == "defaults.list_limit"@ {
        if is_signed_decimal(value) && i64::MIN <= signed_decimal_val(value) <= i64::MAX {
            Some(ConfigV { list_limit: signed_decimal_val(value) as i64, ..c })
        } else {
            None
        }
    } else if key == "defaults.auto_read"@ {
        if is_bool_text(value) {
            Some(ConfigV { auto_read: value == "true"@, ..c })
        } else {
            None
        }
    } else if key == "colors.theme"@ {
        if valid_theme_name(value) {
            Some(ConfigV { theme: value, ..c })
        } else {
            None
        }
    } else if key == "fetch.timeout_seconds"@ {
        if is_signed_decimal(value) && 0 <= signed_decimal_val(value) <= i64::MAX {
            Some(ConfigV { timeout_seconds: signed_decimal_val(value) as u64, ..c })
        } else {
            None
        }
    } else if key == "fetch.follow_redirects"@ {
        if is_bool_text(value) {
            Some(ConfigV { follow_redirects: value == "true"@, ..c })
        } else {
            None
        }
    } else if key == "fetch.user_agent"@ {
        Some(ConfigV { user_agent: value, ..c })
    } else {
        None
    }
}

fn str_is(s: &String, lit: &str) -> (r: bool)
    ensures
        r == (s@ == lit@),
{
    let t = String::from_str(lit);
    s.eq(&t)
}

/// Applies one `section.key = value` assignment: the named field is
/// replaced, values with a restricted form are checked first, and an
/// unknown key or a rejected value leaves the configuration unchanged
/// and reports what was wrong.
pub fn config_set(c: Config, key: &str, value: String) -> (r: Result<Config, StashError>)
    ensures
        match r {
            Ok(c2) => config_set_spec(c@, key@, value@) == Some(c2@),
            Err(e) => e is ValidationError && config_set_spec(c@, key@, value@) is None,
        },
{
    let k = String::from_str(key);
    let mut c = c;
    if str_is(&k, "defaults.editor") {
        proof {
            reveal_strlit("defaults.editor");
        }
        c.defaults.editor = value;
        Ok(c)
    } else if str_is(&k, "defaults.browser") {
        proof {
            reveal_strlit("defaults.browser");
        }
        c.defaults.browser = value;
        Ok(c)
    } else if str_is(&k, "defaults.output_format") {
        proof {
            reveal_strlit("defaults.output_format");
        }
        if str_is(&value, "table") || str_is(&value, "json") || str_is(&value, "ids") {
            proof {
                reveal_strlit("table");
                reveal_strlit("json");
                reveal_strlit("ids");
            }
            c.defaults.output_format = value;
            Ok(c)
        } else {
            Err(StashError::ValidationError { message: value })
        }
    } else if str_is(&k, "defaults.list_limit") {
        proof {
            reveal_strlit("defaults.list_limit");
        }
        match parse_i64(value.as_str()) {
            Some(n) => {
                c.defaults.list_limit = n;
                Ok(c)
            },
            None => Err(StashError::ValidationError { message: value }),
        }
    } else if str_is(&k, "defaults.auto_read") {
        proof {
            reveal_strlit("defaults.auto_read");
        }
        if str_is(&value, "true") {
            proof {
                reveal_strlit("true");
            }
            c.defaults.auto_read = true;
            Ok(c)
        } else if str_is(&value, "false") {
            proof {
                reveal_strlit("false");
            }
            c.defaults.auto_read = false;
            Ok(c)
        } else {
            Err(StashError::ValidationError { message: value })
        }
    } else if str_is(&k, "colors.theme") {
        proof {
            reveal_strlit("colors.theme");
        }
        if str_is(&value, "auto") || str_is(&value, "dark") || str_is(&value, "light") || str_is(
            &value,
            "none",
        ) {
            proof {
                reveal_strlit("auto");
                reveal_strlit("dark");
                reveal_strlit("light");
                reveal_strlit("none");
            }
            c.colors.theme = value;
            Ok(c)
        } else {
            Err(StashError::ValidationError { message: value })
        }
    } else if str_is(&k, "fetch.timeout_seconds") {
        proof {
            reveal_strlit("fetch.timeout_seconds");
        }
        match parse_i64(value.as_str()) {
            Some(n) if n >= 0 => {
                c.fetch.timeout_seconds = n as u64;
                Ok(c)
            },
            _ => Err(StashError::ValidationError { message: value }),
        }
    } else if str_is(&k, "fetch.follow_redirects") {
        proof {
            reveal_strlit("fetch.follow_redirects");
        }
        if str_is(&value, "true") {
            proof {
                reveal_strlit("true");
            }
            c.fetch.follow_redirects = true;
            Ok(c)
        } else if str_is(&value, "false") {
            proof {
                reveal_strlit("false");
            }
            c.fetch.follow_redirects = false;
            Ok(c)
        } else {
            Err(StashError::ValidationError { message: value })
        }
    } else if str_is(&k, "fetch.user_agent") {
        proof {
            reveal_strlit("fetch.user_agent");
        }
        c.fetch.user_agent = value;
        Ok(c)
    } else {
        Err(StashError::ValidationError { message: value })
    }
}

/// The text one key reads as, or nothing for an unknown key.
pub open spec fn config_get_spec(c: ConfigV, key: Seq<char>) -> Option<Seq<char>> {
    if key == "defaults.editor"@ {
        Some(c.editor)
    } else if key == "defaults.browser"@ {
        Some(c.browser)
    } else if key == "defaults.output_format"@ {
        Some(c.output_format)
    } else if key == "defaults.list_limit"@ {
        Some(dec_i64(c.list_limit as int))
    } else if key == "defaults.auto_read"@ {
        Some(bool_text(c.auto_read))
    } else if key == "colors.theme"@ {
        Some(c.theme)
    } else if key == "fetch.timeout_seconds"@ {
        Some(dec_digits(c.timeout_seconds as nat))
    } else if key == "fetch.follow_redirects"@ {
        Some(bool_text(c.follow_redirects))
    } else if key == "fetch.user_agent"@ {
        Some(c.user_agent)
    } else {
        None
    }
}

/// The text a boolean reads as.
pub open spec fn bool_text(b: bool) -> Seq<char> {
    if b {
        "true"@
    } else {
        "false"@
    }
}

fn bool_to_string(b: bool) -> (r: String)
    ensures
        r@ == bool_text(b),
{
    if b {
        String::from_str("true")
    } else {
        String::from_str("false")
    }
}

/// Reads one `section.key` out of the configuration as text; an
/// unknown key is rejected.
pub fn config_get(c: &Config, key: &str) -> (r: Result<String, StashError>)
    ensures
        match r {
            Ok(s) => config_get_spec(c@, key@) == Some(s@),
            Err(e) => e is ValidationError && config_get_spec(c@, key@) is None,
        },
{
    let k = String::from_str(key);
    if str_is(&k, "defaults.editor") {
        proof {
            reveal_strlit("defaults.editor");
        }
        Ok(c.defaults.editor.clone())
    } else if str_is(&k, "defaults.browser") {
        proof {
            reveal_strlit("defaults.browser");
        }
        Ok(c.defaults.browser.clone())
    } else if str_is(&k, "defaults.output_format") {
        proof {
            reveal_strlit("defaults.output_format");
        }
        Ok(c.defaults.output_format.clone())
    } else if str_is(&k, "defaults.list_limit") {
        proof {
            reveal_strlit("defaults.list_limit");
        }
        Ok(i64_to_string(c.defaults.list_limit))
    } else if str_is(&k, "defaults.auto_read") {
        proof {
            reveal_strlit("defaults.auto_read");
        }
        Ok(bool_to_string(c.defaults.auto_read))
    } else if str_is(&k, "colors.theme") {
        proof {
            reveal_strlit("colors.theme");
        }
        Ok(c.colors.theme.clone())
    } else if str_is(&k, "fetch.timeout_seconds") {
        proof {
            reveal_strlit("fetch.timeout_seconds");
        }
        Ok(u64_to_string(c.fetch.timeout_seconds))
    } else if str_is(&k, "fetch.follow_redirects") {
        proof {
            reveal_strlit("fetch.follow_redirects");
        }
        Ok(bool_to_string(c.fetch.follow_redirects))
    } else if str_is(&k, "fetch.user_agent") {
        proof {
            reveal_strlit("fetch.user_agent");
        }
        Ok(c.fetch.user_agent.clone())
    } else {
        Err(StashError::ValidationError { message: String::from_str(key) })
    }
}

/// Default browser choice: defer to the platform.
pub fn default_browser() -> (r: String)
    ensures
        r@ == "default"@,
{
    String::from_str("default")
}

/// Default output format for listings.
pub fn default_output_format() -> (r: String)
    ensures
        r@ == "table"@,
{
    String::from_str("table")
}

/// Default maximum number of rows a listing shows.
pub fn default_list_limit() -> (n: i64)
    ensures
        n == 10,
{
    10
}

/// Whether opening an article marks it read by default.
pub fn default_auto_read() -> (b: bool)
    ensures
        b,
{
    true
}

/// Default color theme: detect from the terminal.
pub fn default_theme() -> (r: String)
    ensures
        r@ == "auto"@,
{
    String::from_str("auto")
}

/// Default timeout for page fetches, in seconds.
pub fn default_timeout_seconds() -> (n: u64)
    ensures
        n == 10,
{
    10
}

/// Whether page fetches follow redirects by default.
pub fn default_follow_redirects() -> (b: bool)
    ensures
        b,
{
    true
}

/// Default user agent sent with page fetches.
pub fn default_user_agent() -> (r: String)
    ensures
        r@ == "Stash/0.1.0"@,
{
    String::from_str("Stash/0.1.0")
}

} // verus!
