use vstd::prelude::*;

use crate::base62::push_char;

verus! {

pub const DEFAULT_HOST: &'static str = "0.0.0.0";

pub const DEFAULT_PORT: &'static str = "3000";

pub const DATABASE_URL_VAR: &'static str = "DATABASE_URL";

pub const REDIS_URL_VAR: &'static str = "REDIS_URL";

pub const SERVER_PORT_VAR: &'static str = "SERVER_PORT";

/// Decimal digits of `n`, most significant first, without leading zeros.
pub open spec fn decimal_digits(n: nat) -> Seq<char>
    decreases n,
{
    if n < 10 {
        seq![((48 + n) as u8) as char]
    } else {
        decimal_digits(n / 10).push(((48 + n % 10) as u8) as char)
    }
}

/// The value of a string of decimal digits, or `None` if another character
/// occurs.
pub open spec fn digits_value(s: Seq<char>) -> Option<nat>
    decreases s.len(),
{
    if s.len() == 0 {
        Some(0)
    } else {
        match digits_value(s.drop_last()) {
            Some(p) => if '0' <= s.last() && s.last() <= '9' {
                Some(p * 10 + (s.last() as u32 - 48) as nat)
            } else {
                None
            },
            None => None,
        }
    }
}

/// `s` read as a port number: an optional `+`, then at least one decimal
/// digit, with a value of at most 65535.
pub open spec fn port_spec(s: Seq<char>) -> Option<u16> {
    let t = if s.len() > 0 && s[0] == '+' {
        s.drop_first()
    } else {
        s
    };
    if t.len() == 0 {
        None
    } else {
        match digits_value(t) {
            Some(v) => if v <= 65535 {
                Some(v as u16)
            } else {
                None
            },
            None => None,
        }
    }
}

/// Decimal text of `n`.
pub fn decimal(n: u16) -> (r: String)
    ensures
        r@ == decimal_digits(n as nat),
{
    let mut num: u16 = n;
    let mut rev: Vec<char> = Vec::new();
    loop
        invariant_except_break
            decimal_digits(n as nat) == decimal_digits(num as nat) + rev@.reverse(),
        ensures
            decimal_digits(n as nat) == rev@.reverse(),
        decreases num,
    {
        let c = ((48 + num % 10) as u8) as char;
        let ghost old_rev = rev@;
        rev.push(c);
        assert(rev@.reverse() =~= seq![c] + old_rev.reverse());
        if num < 10 {
            break;
        }
        assert(decimal_digits(num as nat) == decimal_digits((num / 10) as nat).push(c));
        assert(decimal_digits(num as nat) + old_rev.reverse() =~= decimal_digits(
            (num / 10) as nat,
        ) + rev@.reverse());
        num = num / 10;
    }
    let mut out = String::new();
    let mut j: usize = rev.len();
    while j > 0
        invariant
            j <= rev@.len(),
            out@ == rev@.reverse().take(rev@.len() - j),
        decreases j,
    {
        push_char(&mut out, rev[j - 1]);
        j = j - 1;
        assert(out@ =~= rev@.reverse().take(rev@.len() - j));
    }
    assert(out@ =~= rev@.reverse());
    out
}

/// Reads a port number as `u16::from_str` does.
pub fn parse_port(s: &str) -> (r: Option<u16>)
    ensures
        r == port_spec(s@),
{
    let n = s.unicode_len();
    let start: usize = if n > 0 && s.get_char(0) == '+' {
        1
    } else {
        0
    };
    let ghost t = if s@.len() > 0 && s@[0] == '+' {
        s@.drop_first()
    } else {
        s@
    };
    assert(t =~= s@.subrange(start as int, n as int));
    if start == n {
        return None;
    }
    let mut acc: u32 = 0;
    let mut i: usize = start;
    while i < n
        invariant
            start <= i <= n,
            n == s@.len(),
            t == s@.subrange(start as int, n as int),
            t == (if s@.len() > 0 && s@[0] == '+' {
                s@.drop_first()
            } else {
                s@
            }),
            acc <= 65536,
            match digits_value(t.take(i - start)) {
                Some(v) => acc == if v < 65536 {
                    v
                } else {
                    65536
                },
                None => false,
            },
        decreases n - i,
    {
        let c = s.get_char(i);
        proof {
            assert(t.take(i - start + 1).drop_last() =~= t.take(i - start));
            assert(t.take(i - start + 1).last() == c);
        }
        if c < '0' || c > '9' {
            proof {
                assert(t[i - start] == c);
                lemma_bad_digit(t, i - start);
            }
            return None;
        }
        let d = c as u32 - 48;
        let next = acc * 10 + d;
        acc = if next < 65536 {
            next
        } else {
            65536
        };
        i = i + 1;
    }
    assert(t.take(n - start) =~= t);
    if acc < 65536 {
        Some(acc as u16)
    } else {
        None
    }
}

proof fn lemma_bad_digit(s: Seq<char>, k: int)
    requires
        0 <= k < s.len(),
        !('0' <= s[k] && s[k] <= '9'),
    ensures
        digits_value(s) is None,
    decreases s.len(),
{
    if k < s.len() - 1 {
        lemma_bad_digit(s.drop_last(), k);
    }
}

/// Settings of the service.
pub struct Config {
    pub database_url: String,
    pub redis_url: String,
    pub server_host: String,
    pub server_port: u16,
}

/// A setting that is absent or cannot be read; holds the setting's name.
pub enum ConfigError {
    Missing(&'static str),
    Invalid(&'static str),
}

/// What `Config::from_values` returns for the given raw settings.
pub open spec fn config_spec(
    database_url: Option<Seq<char>>,
    redis_url: Option<Seq<char>>,
    server_host: Option<Seq<char>>,
    server_port: Option<Seq<char>>,
) -> Result<(Seq<char>, Seq<char>, Seq<char>, u16), ConfigError> {
    match (database_url, redis_url) {
        (None, _) => Err(ConfigError::Missing(DATABASE_URL_VAR)),
        (Some(_), None) => Err(ConfigError::Missing(REDIS_URL_VAR)),
        (Some(d), Some(r)) => {
            let host = match server_host {
                Some(h) => h,
                None => DEFAULT_HOST@,
            };
            let port_text = match server_port {
                Some(p) => p,
                None => DEFAULT_PORT@,
            };
            match port_spec(port_text) {
                Some(p) => Ok((d, r, host, p)),
                None => Err(ConfigError::Invalid(SERVER_PORT_VAR)),
            }
        },
    }
}

pub open spec fn opt_string_view(o: Option<String>) -> Option<Seq<char>> {
    match o {
        Some(s) => Some(s@),
        None => None,
    }
}

pub open spec fn config_result_view(r: Result<Config, ConfigError>) -> Result<
    (Seq<char>, Seq<char>, Seq<char>, u16),
    ConfigError,
> {
    match r {
        Ok(c) => Ok((c.database_url@, c.redis_url@, c.server_host@, c.server_port)),
        Err(e) => Err(e),
    }
}

impl Config {
    /// Builds the settings from raw values, `None` standing for an absent
    /// one. Both connection strings are required; the host defaults to
    /// `0.0.0.0` and the port to `3000`.
    pub fn from_values(
        database_url: Option<String>,
        redis_url: Option<String>,
        server_host: Option<String>,
        server_port: Option<String>,
    ) -> (r: Result<Config, ConfigError>)
        ensures
            config_result_view(r) == config_spec(
                opt_string_view(database_url),
                opt_string_view(redis_url),
                opt_string_view(server_host),
                opt_string_view(server_port),
            ),
    {
        let database_url = match database_url {
            Some(d) => d,
            None => return Err(ConfigError::Missing(DATABASE_URL_VAR)),
        };
        let redis_url = match redis_url {
            Some(r) => r,
            None => return Err(ConfigError::Missing(REDIS_URL_VAR)),
        };
        let server_host = match server_host {
            Some(h) => h,
            None => DEFAULT_HOST.to_owned(),
        };
        let port = match server_port {
            Some(p) => parse_port(p.as_str()),
            None => parse_port(DEFAULT_PORT),
        };
        match port {
            Some(server_port) => Ok(Config { database_url, redis_url, server_host, server_port }),
            None => Err(ConfigError::Invalid(SERVER_PORT_VAR)),
        }
    }

    /// `host:port`, the address to bind.
    pub fn server_addr(&self) -> (r: String)
        ensures
            r@ == self.server_host@ + ":"@ + decimal_digits(self.server_port as nat),
    {
        let mut s = self.server_host.clone();
        s.append(":");
        s.append(decimal(self.server_port).as_str());
        s
    }

    /// `http://host`, with `:port` unless the port is 80.
    pub fn base_url(&self) -> (r: String)
        ensures
            self.server_port == 80 ==> r@ == "http://"@ + self.server_host@,
            self.server_port != 80 ==> r@ == "http://"@ + self.server_host@ + ":"@
                + decimal_digits(self.server_port as nat),
    {
        let mut s = "http://".to_owned();
        s.append(self.server_host.as_str());
        if self.server_port != 80 {
            s.append(":");
            s.append(decimal(self.server_port).as_str());
        }
        s
    }
}

impl ConfigError {
    /// Text describing the error.
    pub fn message(&self) -> (r: String)
        ensures
            match self {
                ConfigError::Missing(n) => r@ == "Missing environment variable: "@ + n@,
                ConfigError::Invalid(n) => r@ == "Invalid environment variable: "@ + n@,
            },
    {
        let (mut s, n) = match self {
            ConfigError::Missing(n) => ("Missing environment variable: ".to_owned(), n),
            ConfigError::Invalid(n) => ("Invalid environment variable: ".to_owned(), n),
        };
        s.append(n);
        s
    }
}

} // verus!
