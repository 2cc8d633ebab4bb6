//! Server configuration: its values, the checks it must pass before the
//! server starts, and the parsing of the list-valued settings.

use vstd::prelude::*;
use crate::netaddr::{IpAddress, SocketAddress};
use crate::overrides::{debug_text, keep_nonempty_trimmed, nonempty_trimmed, str_debug, strings_of, HostOverrides};
use crate::rules::{is_valid_password_length, is_valid_username, password_length_ok, username_ok};
use crate::text::{chars_of, split_char, split_chars, trim, trim_chars};

verus! {

/// The service's settings.
pub struct ServerConfig {
    pub host: IpAddress,
    pub port: u16,
    pub web_dist_dir: String,
    pub database_url: String,
    pub cookie_secure: bool,
    pub session_ttl_minutes: i64,
    pub session_cleanup_interval_secs: u64,
    pub trust_proxy_headers: bool,
    pub login_max_attempts: usize,
    pub login_window_secs: u64,
    pub login_lockout_secs: u64,
    pub public_max_requests: usize,
    pub public_window_secs: u64,
    pub db_max_connections: u32,
    pub fetch_timeout_secs: u64,
    pub fetch_host_overrides: HostOverrides,
    pub concurrent_limit: usize,
    pub max_links_per_user: usize,
    pub max_users: usize,
    pub admin_user: String,
    pub admin_password: String,
    pub cors_allow_origin: Vec<String>,
}

pub open spec fn positive_message(name: Seq<char>) -> Seq<char> {
    name + " must be greater than 0"@
}

/// Refuses a zero value for the setting `name`.
pub fn validate_positive(name: &str, value: i128) -> (r: Result<(), String>)
    ensures
        value == 0 <==> r is Err,
        r matches Err(e) ==> e@ == positive_message(name@),
{
    if value == 0 {
        let mut m = name.to_owned();
        m.append(" must be greater than 0");
        Err(m)
    } else {
        Ok(())
    }
}

/// Characters that `http::HeaderValue::from_str` accepts: every byte of
/// their UTF-8 encoding is at least 32 and not 127, or is a tab.  A
/// character from U+0080 up is encoded in bytes from 0x80 up, all accepted.
pub open spec fn header_char_ok(c: char) -> bool {
    (c >= ' ' && c != '\u{7f}') || c == '\t'
}

pub open spec fn header_value_ok(s: Seq<char>) -> bool {
    forall|i: int| 0 <= i < s.len() ==> header_char_ok(#[trigger] s[i])
}

/// `http::HeaderValue::from_str` on `s`: `None` when it accepts the text,
/// otherwise the `Display` text of its error.  The contract states when the
/// text is accepted and the fixed error text, as the `http` source gives
/// them.
#[verifier::external_body]
pub(crate) fn header_value_error(s: &str) -> (r: Option<String>)
    ensures
        r is None <==> header_value_ok(s@),
        r matches Some(e) ==> e@ == "failed to parse header value"@,
{
    http::HeaderValue::from_str(s).err().map(|e| e.to_string())
}

pub open spec fn invalid_origin_message(origin: Seq<char>) -> Seq<char> {
    "CORS_ALLOW_ORIGIN contains invalid origin "@ + str_debug(origin) + ": "@
        + "failed to parse header value"@
}

/// The first origin that is not a valid header value, if any.
pub open spec fn first_invalid_origin(origins: Seq<Seq<char>>) -> Option<Seq<char>>
    decreases origins.len(),
{
    if origins.len() == 0 {
        None
    } else {
        match first_invalid_origin(origins.drop_last()) {
            Some(o) => Some(o),
            None => if header_value_ok(origins.last()) {
                None
            } else {
                Some(origins.last())
            },
        }
    }
}

/// The first check that the settings fail, as its message.
pub open spec fn config_problem(c: ServerConfig) -> Option<Seq<char>> {
    if c.port == 0 {
        Some(positive_message("PORT"@))
    } else if c.session_ttl_minutes == 0 {
        Some(positive_message("SESSION_TTL_MINUTES"@))
    } else if c.session_cleanup_interval_secs == 0 {
        Some(positive_message("SESSION_CLEANUP_INTERVAL_SECS"@))
    } else if c.login_max_attempts == 0 {
        Some(positive_message("LOGIN_MAX_ATTEMPTS"@))
    } else if c.login_window_secs == 0 {
        Some(positive_message("LOGIN_WINDOW_SECS"@))
    } else if c.login_lockout_secs == 0 {
        Some(positive_message("LOGIN_LOCKOUT_SECS"@))
    } else if c.public_max_requests == 0 {
        Some(positive_message("PUBLIC_MAX_REQUESTS"@))
    } else if c.public_window_secs == 0 {
        Some(positive_message("PUBLIC_WINDOW_SECS"@))
    } else if c.db_max_connections == 0 {
        Some(positive_message("DB_MAX_CONNECTIONS"@))
    } else if c.fetch_timeout_secs == 0 {
        Some(positive_message("FETCH_TIMEOUT_SECS"@))
    } else if c.concurrent_limit == 0 {
        Some(positive_message("CONCURRENT_LIMIT"@))
    } else if c.max_links_per_user == 0 {
        Some(positive_message("MAX_LINKS_PER_USER"@))
    } else if c.max_users == 0 {
        Some(positive_message("MAX_USERS"@))
    } else if trim(c.database_url@).len() == 0 {
        Some("DATABASE_URL must not be empty"@)
    } else if !username_ok(c.admin_user@) {
        Some("ADMIN_USER must be a valid username"@)
    } else if !password_length_ok(c.admin_password@) {
        Some("ADMIN_PASSWORD must be 1-128 characters"@)
    } else {
        match first_invalid_origin(c.cors_allow_origin@.map_values(|s: String| s@)) {
            Some(o) => Some(invalid_origin_message(o)),
            None => None,
        }
    }
}

impl ServerConfig {
    /// The address the server listens on.
    pub fn socket_addr(&self) -> (r: SocketAddress)
        ensures
            r == (SocketAddress { ip: self.host, port: self.port, flowinfo: 0, scope_id: 0 }),
    {
        SocketAddress::new(self.host, self.port)
    }

    /// Checks the settings and reports the first one that is wrong.
    pub fn validate(&self) -> (r: Result<(), String>)
        ensures
            match config_problem(*self) {
                Some(m) => r matches Err(e) && e@ == m,
                None => r is Ok,
            },
    {
        validate_positive("PORT", self.port as i128)?;
        validate_positive("SESSION_TTL_MINUTES", self.session_ttl_minutes as i128)?;
        validate_positive("SESSION_CLEANUP_INTERVAL_SECS", self.session_cleanup_interval_secs as i128)?;
        validate_positive("LOGIN_MAX_ATTEMPTS", self.login_max_attempts as i128)?;
        validate_positive("LOGIN_WINDOW_SECS", self.login_window_secs as i128)?;
        validate_positive("LOGIN_LOCKOUT_SECS", self.login_lockout_secs as i128)?;
        validate_positive("PUBLIC_MAX_REQUESTS", self.public_max_requests as i128)?;
        validate_positive("PUBLIC_WINDOW_SECS", self.public_window_secs as i128)?;
        validate_positive("DB_MAX_CONNECTIONS", self.db_max_connections as i128)?;
        validate_positive("FETCH_TIMEOUT_SECS", self.fetch_timeout_secs as i128)?;
        validate_positive("CONCURRENT_LIMIT", self.concurrent_limit as i128)?;
        validate_positive("MAX_LINKS_PER_USER", self.max_links_per_user as i128)?;
        validate_positive("MAX_USERS", self.max_users as i128)?;

        let url_chars = chars_of(self.database_url.as_str());
        let url_trimmed = trim_chars(&url_chars);
        if url_trimmed.len() == 0 {
            return Err("DATABASE_URL must not be empty".to_owned());
        }
        if !is_valid_username(self.admin_user.as_str()) {
            return Err("ADMIN_USER must be a valid username".to_owned());
        }
        if !is_valid_password_length(self.admin_password.as_str()) {
            return Err("ADMIN_PASSWORD must be 1-128 characters".to_owned());
        }

        let ghost origins = self.cors_allow_origin@.map_values(|s: String| s@);
        let ghost expected = match first_invalid_origin(origins) {
            Some(o) => Some(invalid_origin_message(o)),
            None => None,
        };
        assert(config_problem(*self) == expected);
        let mut i: usize = 0;
        while i < self.cors_allow_origin.len()
            invariant
                i <= self.cors_allow_origin.len(),
                origins == self.cors_allow_origin@.map_values(|s: String| s@),
                first_invalid_origin(origins.take(i as int)) is None,
                config_problem(*self) == expected,
                expected == match first_invalid_origin(origins) {
                    Some(o) => Some(invalid_origin_message(o)),
                    None => None,
                },
            decreases self.cors_allow_origin.len() - i,
        {
            let origin = &self.cors_allow_origin[i];
            proof {
                assert(origins.take(i + 1).drop_last() =~= origins.take(i as int));
                assert(origins.take(i + 1).last() == origin@);
            }
            match header_value_error(origin.as_str()) {
                Some(error) => {
                    let mut m = "CORS_ALLOW_ORIGIN contains invalid origin ".to_owned();
                    let d = debug_text(origin.as_str());
                    m.append(d.as_str());
                    m.append(": ");
                    m.append(error.as_str());
                    proof {
                        assert(first_invalid_origin(origins.take(i + 1)) == Some(origin@));
                        lemma_first_invalid_origin_prefix(origins, i as int + 1);
                    }
                    return Err(m);
                },
                None => {},
            }
            i += 1;
        }
        proof {
            assert(origins.take(self.cors_allow_origin.len() as int) =~= origins);
        }
        Ok(())
    }
}

proof fn lemma_first_invalid_origin_prefix(origins: Seq<Seq<char>>, k: int)
    requires
        0 <= k <= origins.len(),
        first_invalid_origin(origins.take(k)) is Some,
    ensures
        first_invalid_origin(origins) == first_invalid_origin(origins.take(k)),
    decreases origins.len() - k,
{
    if k < origins.len() {
        assert(origins.take(k + 1).drop_last() =~= origins.take(k));
        lemma_first_invalid_origin_prefix(origins, k + 1);
    } else {
        assert(origins.take(k) =~= origins);
    }
}

/// The origins listed in a `CORS_ALLOW_ORIGIN` text: the comma-separated
/// pieces, trimmed, without the empty ones.
pub fn parse_cors_origins(value: &str) -> (r: Vec<String>)
    ensures
        r@.map_values(|s: String| s@) == nonempty_trimmed(split_char(value@, ',')),
{
    let chars = chars_of(value);
    let pieces = split_chars(&chars, ',');
    let kept = keep_nonempty_trimmed(&pieces);
    strings_of(&kept)
}

/// Settings pass the checks only when every count and duration is non-zero,
/// the database URL is not blank and the administrator's name and password
/// are acceptable.
pub proof fn lemma_accepted_settings(c: ServerConfig)
    requires
        config_problem(c) is None,
    ensures
        c.port != 0,
        c.session_ttl_minutes != 0,
        c.session_cleanup_interval_secs != 0,
        c.login_max_attempts != 0,
        c.login_window_secs != 0,
        c.login_lockout_secs != 0,
        c.public_max_requests != 0,
        c.public_window_secs != 0,
        c.db_max_connections != 0,
        c.fetch_timeout_secs != 0,
        c.concurrent_limit != 0,
        c.max_links_per_user != 0,
        c.max_users != 0,
        trim(c.database_url@).len() != 0,
        username_ok(c.admin_user@),
        password_length_ok(c.admin_password@),
{
}

} // verus!
