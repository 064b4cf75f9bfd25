//! Service configuration, and the connection URLs assembled from it.
//!
//! Reading the environment is the surrounding process's job; the library
//! holds the settled values and proves the exact text of the URLs built
//! from them, decimal rendering included.

use vstd::prelude::*;

verus! {

/// The decimal digit character for one digit value.
pub open spec fn dec_digit(d: int) -> char {
    if d == 0 {
        '0'
    } else if d == 1 {
        '1'
    } else if d == 2 {
        '2'
    } else if d == 3 {
        '3'
    } else if d == 4 {
        '4'
    } else if d == 5 {
        '5'
    } else if d == 6 {
        '6'
    } else if d == 7 {
        '7'
    } else if d == 8 {
        '8'
    } else {
        '9'
    }
}

/// The decimal rendering of a non-negative integer, most significant digit
/// first.
pub open spec fn dec_str(n: int) -> Seq<char>
    recommends
        n >= 0,
    decreases n,
{
    if n < 10 {
        seq![dec_digit(n)]
    } else {
        dec_str(n / 10).push(dec_digit(n % 10))
    }
}

/// The decimal rendering of a signed integer.
pub open spec fn dec_str_signed(n: int) -> Seq<char> {
    if n < 0 {
        seq!['-'] + dec_str(-n)
    } else {
        dec_str(n)
    }
}

/// Where the process listens.
pub struct ServerConfig {
    pub host: String,
    pub port: u16,
    pub environment: String,
}

/// How to reach the relational store.
pub struct DatabaseConfig {
    pub host: String,
    pub port: u16,
    pub user: String,
    pub password: String,
    pub database: String,
    pub ssl_mode: String,
    pub max_connections: u32,
}

/// How to reach the presence store and broadcast relay.
pub struct RedisConfig {
    pub host: String,
    pub port: u16,
    pub password: Option<String>,
    pub db: i64,
}

/// How to reach the blob store.
pub struct MinioConfig {
    pub endpoint: String,
    pub access_key: String,
    pub secret_key: String,
    pub use_ssl: bool,
    pub region: String,
    pub stickers_bucket: String,
    pub avatars_bucket: String,
    pub attachments_bucket: String,
    pub public_url: Option<String>,
}

/// Token issuing parameters, lifetimes in seconds.
pub struct JwtConfig {
    pub secret: String,
    pub access_token_ttl_secs: u64,
    pub refresh_token_ttl_secs: u64,
    pub issuer: String,
}

/// One-time-code parameters, lifetime in seconds.
pub struct OtpConfig {
    pub length: usize,
    pub ttl_secs: u64,
    pub max_attempts: u32,
}

/// The whole service configuration.
pub struct Config {
    pub server: ServerConfig,
    pub database: DatabaseConfig,
    pub redis: RedisConfig,
    pub minio: MinioConfig,
    pub jwt: JwtConfig,
    pub otp: OtpConfig,
}

/// The text of the relational store's connection URL.
pub open spec fn spec_database_url(c: &Config) -> Seq<char> {
    "postgres://"@ + c.database.user@ + ":"@ + c.database.password@ + "@"@ + c.database.host@
        + ":"@ + dec_str(c.database.port as int) + "/"@ + c.database.database@ + "?sslmode="@
        + c.database.ssl_mode@
}

/// The text of the presence/relay store's connection URL.
pub open spec fn spec_redis_url(c: &Config) -> Seq<char> {
    match c.redis.password {
        Some(p) => "redis://:"@ + p@ + "@"@ + c.redis.host@ + ":"@ + dec_str(c.redis.port as int)
            + "/"@ + dec_str_signed(c.redis.db as int),
        None => "redis://"@ + c.redis.host@ + ":"@ + dec_str(c.redis.port as int) + "/"@
            + dec_str_signed(c.redis.db as int),
    }
}

/// Append the decimal rendering of `n`.
fn push_decimal_u64(out: &mut String, n: u64)
    ensures
        final(out)@ == old(out)@ + dec_str(n as int),
    decreases n,
{
    if n >= 10 {
        push_decimal_u64(out, n / 10);
    }
    let d = n % 10;
    if d == 0 {
        out.append("0");
        proof {
            reveal_strlit("0");
        }
    } else if d == 1 {
        out.append("1");
        proof {
            reveal_strlit("1");
        }
    } else if d == 2 {
        out.append("2");
        proof {
            reveal_strlit("2");
        }
    } else if d == 3 {
        out.append("3");
        proof {
            reveal_strlit("3");
        }
    } else if d == 4 {
        out.append("4");
        proof {
            reveal_strlit("4");
        }
    } else if d == 5 {
        out.append("5");
        proof {
            reveal_strlit("5");
        }
    } else if d == 6 {
        out.append("6");
        proof {
            reveal_strlit("6");
        }
    } else if d == 7 {
        out.append("7");
        proof {
            reveal_strlit("7");
        }
    } else if d == 8 {
        out.append("8");
        proof {
            reveal_strlit("8");
        }
    } else {
        out.append("9");
        proof {
            reveal_strlit("9");
        }
    }
    proof {
        if n < 10 {
            assert(final(out)@ =~= old(out)@ + dec_str(n as int));
        } else {
            assert(final(out)@ =~= old(out)@ + dec_str(n as int));
        }
    }
}

/// Append the decimal rendering of a signed value.
fn push_decimal_i64(out: &mut String, n: i64)
    ensures
        final(out)@ == old(out)@ + dec_str_signed(n as int),
{
    if n < 0 {
        out.append("-");
        proof {
            reveal_strlit("-");
        }
        let m: u64 = if n == i64::MIN {
            9223372036854775808u64
        } else {
            (-n) as u64
        };
        push_decimal_u64(out, m);
        proof {
            assert(final(out)@ =~= old(out)@ + dec_str_signed(n as int));
        }
    } else {
        push_decimal_u64(out, n as u64);
    }
}

impl Config {
    /// The relational store's connection URL, assembled from the settled
    /// configuration.
    pub fn database_url(&self) -> (r: String)
        ensures
            r@ == spec_database_url(self),
    {
        let mut s = String::new();
        s.append("postgres://");
        s.append(self.database.user.as_str());
        s.append(":");
        s.append(self.database.password.as_str());
        s.append("@");
        s.append(self.database.host.as_str());
        s.append(":");
        push_decimal_u64(&mut s, self.database.port as u64);
        s.append("/");
        s.append(self.database.database.as_str());
        s.append("?sslmode=");
        s.append(self.database.ssl_mode.as_str());
        proof {
            assert(s@ =~= spec_database_url(self));
        }
        s
    }

    /// The presence/relay store's connection URL, assembled from the
    /// settled configuration.
    pub fn redis_url(&self) -> (r: String)
        ensures
            r@ == spec_redis_url(self),
    {
        let mut s = String::new();
        match &self.redis.password {
            Some(p) => {
                s.append("redis://:");
                s.append(p.as_str());
                s.append("@");
            },
            None => {
                s.append("redis://");
            },
        }
        s.append(self.redis.host.as_str());
        s.append(":");
        push_decimal_u64(&mut s, self.redis.port as u64);
        s.append("/");
        push_decimal_i64(&mut s, self.redis.db);
        proof {
            assert(s@ =~= spec_redis_url(self));
        }
        s
    }
}

} // verus!
