use vstd::prelude::*;
use crate::text::{all_digits, dec_val, is_digit};

verus! {

/// Process-wide configuration: remote server addresses, store URLs, and the
/// token-signing secret. The application edge reads the environment and
/// hands the raw optional values to [`resolve_config`].
pub struct Config {
    pub mailcow_api_url: String,
    pub mailcow_api_key: String,
    pub imap_host: String,
    pub imap_port: u16,
    pub smtp_host: String,
    pub smtp_port: u16,
    pub redis_url: String,
    pub database_url: String,
    pub jwt_secret: String,
}

/// A port setting with its optional leading `+` sign stripped.
pub open spec fn stripped(s: Seq<char>) -> Seq<char> {
    if s.len() > 0 && s[0] == '+' {
        s.drop_first()
    } else {
        s
    }
}

/// How a digit run values as a port: at least one digit, at most 65535.
pub open spec fn port_digits(t: Seq<char>) -> Option<u16> {
    if t.len() == 0 || !all_digits(t) {
        None
    } else if dec_val(t) <= 65535 {
        Some(dec_val(t) as u16)
    } else {
        None
    }
}

/// How a port setting reads as a number: an optional `+` sign, then at
/// least one digit, valuing at most 65535; anything else is no port.
pub open spec fn port_spec(s: Seq<char>) -> Option<u16> {
    port_digits(stripped(s))
}

/// Reads a decimal port number per [`port_spec`].
pub fn parse_port(s: &str) -> (r: Option<u16>)
    ensures
        r == port_spec(s@),
{
    let len = s.unicode_len();
    let start: usize = if len >= 1 && s.get_char(0) == '+' {
        1
    } else {
        0
    };
    let ghost t = stripped(s@);
    proof {
        assert(t =~= s@.subrange(start as int, len as int));
    }
    if start >= len {
        return None;
    }
    let mut val: u32 = 0;
    let mut i: usize = start;
    while i < len
        invariant
            start <= i <= len,
            len == s@.len(),
            t == stripped(s@),
            t == s@.subrange(start as int, len as int),
            all_digits(s@.subrange(start as int, i as int)),
            (val <= 65535 && val == dec_val(s@.subrange(start as int, i as int))) || (val == 70000
                && dec_val(s@.subrange(start as int, i as int)) > 65535),
        decreases len - i,
    {
        let c = s.get_char(i);
        let n: u32 = c as u32;
        if n < 48 || n > 57 {
            proof {
                assert(0 <= i - start < t.len());
                assert(t[i - start] == s@[i as int]);
                assert(!is_digit(t[i - start]));
                assert(!all_digits(t));
                assert(port_digits(t) is None);
                assert(port_spec(s@) is None);

            }
            return None;
        }
        let d: u32 = n - 48;
        proof {
            let pre = s@.subrange(start as int, i as int);
            let ext = s@.subrange(start as int, i as int + 1);
            assert(ext.drop_last() =~= pre);
            assert(ext.last() == s@[i as int]);
        }
        if val > 65535 {
            // already over the limit; stays over
        } else if val > 6553 || (val == 6553 && d > 5) {
            val = 70000;
        } else {
            val = val * 10 + d;
        }
        i = i + 1;
    }
    proof {
        assert(s@.subrange(start as int, len as int) =~= t);
    }
    if val > 65535 {
        None
    } else {
        Some(val as u16)
    }
}

/// A port setting resolved against its default: an absent or unreadable
/// value falls back.
pub fn resolve_port(setting: &Option<String>, default: u16) -> (r: u16)
    ensures
        r == (match setting {
            Some(s) => match port_spec(s@) {
                Some(p) => p,
                None => default,
            },
            None => default,
        }),
{
    match setting {
        Some(s) => match parse_port(s.as_str()) {
            Some(p) => p,
            None => default,
        },
        None => default,
    }
}

/// A string setting resolved against its default.
fn resolve_string(setting: Option<String>, default: &str) -> (r: String)
    ensures
        r@ == (match setting {
            Some(s) => s@,
            None => default@,
        }),
{
    match setting {
        Some(s) => s,
        None => default.to_owned(),
    }
}

/// Builds the configuration from raw environment values, applying the
/// documented defaults. The account-management API key and the durable
/// store URL have no default: the process refuses to start without them,
/// so the caller tests them before calling.
pub fn resolve_config(
    mailcow_api_url: Option<String>,
    mailcow_api_key: Option<String>,
    imap_host: Option<String>,
    imap_port: Option<String>,
    smtp_host: Option<String>,
    smtp_port: Option<String>,
    redis_url: Option<String>,
    database_url: Option<String>,
    jwt_secret: Option<String>,
) -> (r: Config)
    requires
        mailcow_api_key is Some,
        database_url is Some,
    ensures
        r.mailcow_api_url@ == (match mailcow_api_url {
            Some(s) => s@,
            None => "https://mail.mythofy.net"@,
        }),
        r.mailcow_api_key@ == mailcow_api_key->Some_0@,
        r.imap_host@ == (match imap_host {
            Some(s) => s@,
            None => "mail.mythofy.net"@,
        }),
        r.imap_port == (match imap_port {
            Some(s) => match port_spec(s@) {
                Some(p) => p,
                None => 993u16,
            },
            None => 993u16,
        }),
        r.smtp_host@ == (match smtp_host {
            Some(s) => s@,
            None => "mail.mythofy.net"@,
        }),
        r.smtp_port == (match smtp_port {
            Some(s) => match port_spec(s@) {
                Some(p) => p,
                None => 587u16,
            },
            None => 587u16,
        }),
        r.redis_url@ == (match redis_url {
            Some(s) => s@,
            None => "redis://127.0.0.1"@,
        }),
        r.database_url@ == database_url->Some_0@,
        r.jwt_secret@ == (match jwt_secret {
            Some(s) => s@,
            None => "change-me-in-production"@,
        }),
{
    let imap_port_v = resolve_port(&imap_port, 993);
    let smtp_port_v = resolve_port(&smtp_port, 587);
    Config {
        mailcow_api_url: resolve_string(mailcow_api_url, "https://mail.mythofy.net"),
        mailcow_api_key: match mailcow_api_key {
            Some(s) => s,
            None => String::new(),
        },
        imap_host: resolve_string(imap_host, "mail.mythofy.net"),
        imap_port: imap_port_v,
        smtp_host: resolve_string(smtp_host, "mail.mythofy.net"),
        smtp_port: smtp_port_v,
        redis_url: resolve_string(redis_url, "redis://127.0.0.1"),
        database_url: match database_url {
            Some(s) => s,
            None => String::new(),
        },
        jwt_secret: resolve_string(jwt_secret, "change-me-in-production"),
    }
}

} // verus!
