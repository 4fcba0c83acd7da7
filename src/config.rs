//! The tool's configuration file: `key = value` lines, the last one of a key winning.
use vstd::prelude::*;
use crate::influxdb_config::{InfluxDbConfig, InfluxDbProtocol};
use crate::lines::{entry, entry_bounds, line_list, line_ranges, range_eq, range_views};
use crate::text::{chars_of, digits_value, is_u16_text, parse_u16_range, push_range, unsigned_digits};

verus! {

/// What keeps a configuration from being used.
#[derive(Clone, Copy, Debug, PartialEq, Eq, Structural)]
pub enum ConfigError {
    /// A required value is missing or empty.
    MissingValues,
    /// A port is not a number from 0 to 65535.
    InvalidPort,
}

/// `l` is an entry `key=value` of the key `key`.
pub open spec fn entry_is(l: Seq<char>, key: Seq<char>) -> bool {
    match entry(l, '=') {
        Some((k, _)) => k == key,
        None => false,
    }
}

/// The trimmed value of the entry on `l`.
pub open spec fn entry_value(l: Seq<char>) -> Seq<char> {
    match entry(l, '=') {
        Some((_, v)) => v,
        None => Seq::empty(),
    }
}

/// The value of the last entry of `key` among `lines`.
pub open spec fn last_setting(lines: Seq<Seq<char>>, key: Seq<char>) -> Option<Seq<char>>
    decreases lines.len(),
{
    if lines.len() == 0 {
        None
    } else if entry_is(lines.last(), key) {
        Some(entry_value(lines.last()))
    } else {
        last_setting(lines.drop_last(), key)
    }
}

/// The value of the last entry of `key` among `lines`, or `dflt` where there is none.
pub open spec fn setting_or(lines: Seq<Seq<char>>, key: Seq<char>, dflt: Seq<char>) -> Seq<
    char,
> {
    match last_setting(lines, key) {
        Some(v) => v,
        None => dflt,
    }
}

pub open spec fn db_host(lines: Seq<Seq<char>>) -> Seq<char> {
    setting_or(lines, "host"@, "localhost"@)
}

pub open spec fn db_user(lines: Seq<Seq<char>>) -> Seq<char> {
    setting_or(lines, "user"@, "root"@)
}

pub open spec fn db_password(lines: Seq<Seq<char>>) -> Seq<char> {
    setting_or(lines, "password"@, Seq::empty())
}

pub open spec fn db_name(lines: Seq<Seq<char>>) -> Seq<char> {
    setting_or(lines, "database"@, "ups"@)
}

/// `mysql://<user>:<password>@<host>/<database>`
pub open spec fn db_url(lines: Seq<Seq<char>>) -> Seq<char> {
    "mysql://"@ + db_user(lines) + seq![':'] + db_password(lines) + seq!['@'] + db_host(lines)
        + seq!['/'] + db_name(lines)
}

/// Every `influx_port` entry holds a valid port.
pub open spec fn ports_valid(lines: Seq<Seq<char>>) -> bool {
    forall|i: int|
        0 <= i < lines.len() && entry_is(#[trigger] lines[i], "influx_port"@) ==> is_u16_text(
            entry_value(lines[i]),
        )
}

/// The port of the last `influx_port` entry, 8181 where there is none.
pub open spec fn influx_port(lines: Seq<Seq<char>>) -> nat {
    match last_setting(lines, "influx_port"@) {
        Some(t) => digits_value(unsigned_digits(t)),
        None => 8181,
    }
}

/// HTTPS where the last `influx_scheme` entry is `https`, else HTTP.
pub open spec fn influx_scheme(lines: Seq<Seq<char>>) -> InfluxDbProtocol {
    match last_setting(lines, "influx_scheme"@) {
        Some(t) => if t == "https"@ {
            InfluxDbProtocol::Https
        } else {
            InfluxDbProtocol::Http
        },
        None => InfluxDbProtocol::Http,
    }
}

pub open spec fn influx_host(lines: Seq<Seq<char>>) -> Seq<char> {
    setting_or(lines, "influx_host"@, Seq::empty())
}

pub open spec fn influx_token(lines: Seq<Seq<char>>) -> Seq<char> {
    setting_or(lines, "influx_token"@, Seq::empty())
}

pub open spec fn influx_database(lines: Seq<Seq<char>>) -> Seq<char> {
    setting_or(lines, "influx_database"@, Seq::empty())
}

proof fn lemma_setting_step(lines: Seq<Seq<char>>, i: int, key: Seq<char>)
    requires
        0 <= i < lines.len(),
    ensures
        last_setting(lines.take(i + 1), key) == if entry_is(lines[i], key) {
            Some(entry_value(lines[i]))
        } else {
            last_setting(lines.take(i), key)
        },
{
    assert(lines.take(i + 1).drop_last() =~= lines.take(i));
}

/// Replaces `s` by `v[lo..hi]`.
fn set_range(s: &mut String, v: &Vec<char>, lo: usize, hi: usize)
    requires
        lo <= hi <= v@.len(),
    ensures
        final(s)@ == v@.subrange(lo as int, hi as int),
{
    let mut t = String::new();
    push_range(&mut t, v, lo, hi);
    *s = t;
}

/// The connection URL of the status database.
pub fn parse_db_config(config: &str) -> (r: Result<String, ConfigError>)
    ensures
        ({
            let ls = line_list(config@);
            match r {
                Ok(u) => db_user(ls).len() > 0 && db_name(ls).len() > 0 && u@ == db_url(ls),
                Err(e) => e == ConfigError::MissingValues && (db_user(ls).len() == 0
                    || db_name(ls).len() == 0),
            }
        }),
{
    let v = chars_of(config);
    let rs = line_ranges(&v);
    let ghost ls = line_list(config@);
    let k_host = chars_of("host");
    let k_user = chars_of("user");
    let k_pass = chars_of("password");
    let k_db = chars_of("database");
    let mut host = String::from_str("localhost");
    let mut user = String::from_str("root");
    let mut pass = String::new();
    let mut db = String::from_str("ups");
    let mut i: usize = 0;
    while i < rs.len()
        invariant
            i <= rs@.len(),
            v@ == config@,
            ls == line_list(config@),
            range_views(v@, rs@) == ls,
            crate::lines::ranges_within(v@, rs@),
            k_host@ == "host"@,
            k_user@ == "user"@,
            k_pass@ == "password"@,
            k_db@ == "database"@,
            host@ == db_host(ls.take(i as int)),
            user@ == db_user(ls.take(i as int)),
            pass@ == db_password(ls.take(i as int)),
            db@ == db_name(ls.take(i as int)),
        decreases rs.len() - i,
    {
        let (lo, hi) = rs[i];
        assert(ls[i as int] == v@.subrange(lo as int, hi as int));
        proof {
            lemma_setting_step(ls, i as int, "host"@);
            lemma_setting_step(ls, i as int, "user"@);
            lemma_setting_step(ls, i as int, "password"@);
            lemma_setting_step(ls, i as int, "database"@);
        }
        match entry_bounds(&v, lo, hi, '=') {
            Some(((ka, kb), (va, vb))) => {
                if range_eq(&v, ka, kb, &k_host) {
                    set_range(&mut host, &v, va, vb);
                }
                if range_eq(&v, ka, kb, &k_user) {
                    set_range(&mut user, &v, va, vb);
                }
                if range_eq(&v, ka, kb, &k_pass) {
                    set_range(&mut pass, &v, va, vb);
                }
                if range_eq(&v, ka, kb, &k_db) {
                    set_range(&mut db, &v, va, vb);
                }
            },
            None => {},
        }
        i = i + 1;
    }
    assert(ls.take(i as int) =~= ls);
    if user.unicode_len() == 0 || db.unicode_len() == 0 {
        return Err(ConfigError::MissingValues);
    }
    let mut url = String::from_str("mysql://");
    url.append(user.as_str());
    crate::text::push_char(&mut url, ':');
    url.append(pass.as_str());
    crate::text::push_char(&mut url, '@');
    url.append(host.as_str());
    crate::text::push_char(&mut url, '/');
    url.append(db.as_str());
    assert(url@ =~= db_url(ls));
    Ok(url)
}

/// The metrics database's connection settings. A port that is no number from 0 to
/// 65535 is an error; so is, after that, an empty host, token or database.
pub fn parse_influx_config(config: &str) -> (r: Result<InfluxDbConfig, ConfigError>)
    ensures
        ({
            let ls = line_list(config@);
            match r {
                Ok(c) => {
                    &&& ports_valid(ls)
                    &&& influx_token(ls).len() > 0
                    &&& influx_host(ls).len() > 0
                    &&& influx_database(ls).len() > 0
                    &&& c.hostname@ == influx_host(ls)
                    &&& c.token@ == influx_token(ls)
                    &&& c.database@ == influx_database(ls)
                    &&& c.port as nat == influx_port(ls)
                    &&& c.protocol == influx_scheme(ls)
                },
                Err(ConfigError::InvalidPort) => !ports_valid(ls),
                Err(ConfigError::MissingValues) => ports_valid(ls) && (influx_token(ls).len()
                    == 0 || influx_host(ls).len() == 0 || influx_database(ls).len() == 0),
            }
        }),
{
    let v = chars_of(config);
    let rs = line_ranges(&v);
    let ghost ls = line_list(config@);
    let k_host = chars_of("influx_host");
    let k_token = chars_of("influx_token");
    let k_db = chars_of("influx_database");
    let k_port = chars_of("influx_port");
    let k_scheme = chars_of("influx_scheme");
    let https = chars_of("https");
    let mut host = String::new();
    let mut token = String::new();
    let mut database = String::new();
    let mut port: u16 = 8181;
    let mut scheme = InfluxDbProtocol::Http;
    let mut i: usize = 0;
    while i < rs.len()
        invariant
            i <= rs@.len(),
            v@ == config@,
            ls == line_list(config@),
            range_views(v@, rs@) == ls,
            crate::lines::ranges_within(v@, rs@),
            k_host@ == "influx_host"@,
            k_token@ == "influx_token"@,
            k_db@ == "influx_database"@,
            k_port@ == "influx_port"@,
            k_scheme@ == "influx_scheme"@,
            https@ == "https"@,
            host@ == influx_host(ls.take(i as int)),
            token@ == influx_token(ls.take(i as int)),
            database@ == influx_database(ls.take(i as int)),
            ports_valid(ls.take(i as int)),
            port as nat == influx_port(ls.take(i as int)),
            scheme == influx_scheme(ls.take(i as int)),
        decreases rs.len() - i,
    {
        let (lo, hi) = rs[i];
        let ghost l = ls[i as int];
        assert(l == v@.subrange(lo as int, hi as int));
        proof {
            lemma_setting_step(ls, i as int, "influx_host"@);
            lemma_setting_step(ls, i as int, "influx_token"@);
            lemma_setting_step(ls, i as int, "influx_database"@);
            lemma_setting_step(ls, i as int, "influx_port"@);
            lemma_setting_step(ls, i as int, "influx_scheme"@);
        }
        match entry_bounds(&v, lo, hi, '=') {
            Some(((ka, kb), (va, vb))) => {
                if range_eq(&v, ka, kb, &k_host) {
                    set_range(&mut host, &v, va, vb);
                }
                if range_eq(&v, ka, kb, &k_token) {
                    set_range(&mut token, &v, va, vb);
                }
                if range_eq(&v, ka, kb, &k_db) {
                    set_range(&mut database, &v, va, vb);
                }
                if range_eq(&v, ka, kb, &k_port) {
                    match parse_u16_range(&v, va, vb) {
                        Some(p) => {
                            port = p;
                        },
                        None => {
                            assert(entry_is(ls[i as int], "influx_port"@));
                            return Err(ConfigError::InvalidPort);
                        },
                    }
                }
                if range_eq(&v, ka, kb, &k_scheme) {
                    if range_eq(&v, va, vb, &https) {
                        scheme = InfluxDbProtocol::Https;
                    } else {
                        scheme = InfluxDbProtocol::Http;
                    }
                }
            },
            None => {},
        }
        assert forall|j: int|
            0 <= j < i + 1 && entry_is(#[trigger] ls.take(i + 1)[j], "influx_port"@) implies is_u16_text(
            entry_value(ls.take(i + 1)[j]),
        ) by {
            if j < i {
                assert(ls.take(i + 1)[j] == ls.take(i as int)[j]);
            }
        }
        i = i + 1;
    }
    assert(ls.take(i as int) =~= ls);
    if token.unicode_len() == 0 || host.unicode_len() == 0 || database.unicode_len() == 0 {
        return Err(ConfigError::MissingValues);
    }
    Ok(InfluxDbConfig { hostname: host, token, database, port, protocol: scheme })
}

} // verus!
