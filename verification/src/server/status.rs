//! The answer to a server list ping.
use base64::Engine;
use vstd::prelude::*;

use crate::server::{ProxyConfig, NAME};
use crate::util::push_str;
use crate::version::{is_supported, supported_versions, SUPPORTED_VERSION_RANGE};

verus! {

/// The status a client sees in its server list.
#[derive(Debug)]
pub struct StatusResponse {
    pub version: Version,
    pub players: Players,
    pub description: Option<String>,
    pub favicon: Option<String>,
}

/// The version part of a status: a name to show and the protocol number
/// (`-1` when the client's version is not supported).
#[derive(Debug)]
pub struct Version {
    pub name: String,
    pub protocol: i32,
}

/// The player counts of a status, with an optional sample of names.
#[derive(Debug)]
pub struct Players {
    pub max: i32,
    pub online: i32,
    pub sample: Option<Vec<Player>>,
}

/// A player in the sample of a status.
#[derive(Debug)]
pub struct Player {
    pub name: String,
    pub id: String,
}

/// The name a status shows: the proxy's name and the versions it supports.
pub open spec fn status_version_name() -> Seq<char> {
    NAME@ + " "@ + SUPPORTED_VERSION_RANGE@
}

/// The status for a client of `client_version`, with the configured
/// player limit and message of the day, `player_count` players online, and
/// the server icon (as a data URL) if there is one.
pub fn get_status_response(
    client_version: i32,
    config: &ProxyConfig,
    player_count: usize,
    favicon: &Option<String>,
) -> (r: StatusResponse)
    ensures
        r.version.name@ == status_version_name(),
        r.version.protocol == if supported_versions().contains(client_version) {
            client_version
        } else {
            -1i32
        },
        r.players.max == config.max_players,
        r.players.online == player_count as i32,
        r.players.sample is None,
        r.description matches Some(d) && d@ == config.motd@,
        match favicon {
            Some(f) => r.favicon matches Some(g) && g@ == f@,
            None => r.favicon is None,
        },
{
    let mut name = NAME.to_owned();
    push_str(&mut name, " ");
    push_str(&mut name, SUPPORTED_VERSION_RANGE);
    let protocol = if is_supported(client_version) { client_version } else { -1 };
    let favicon = match favicon {
        Some(f) => Some(f.clone()),
        None => None,
    };
    StatusResponse {
        version: Version { name, protocol },
        players: Players { max: config.max_players, online: player_count as i32, sample: None },
        description: Some(config.motd.clone()),
        favicon,
    }
}


/// The character of a six-bit value in the standard base64 alphabet.
pub open spec fn base64_char(v: int) -> char {
    if v < 26 {
        (65 + v) as char
    } else if v < 52 {
        (97 + v - 26) as char
    } else if v < 62 {
        (48 + v - 52) as char
    } else if v == 62 {
        '+'
    } else {
        '/'
    }
}

/// Standard base64 with padding: each three bytes become four characters,
/// and a last one or two bytes become four characters ending in `=`s.
pub open spec fn base64_standard(d: Seq<u8>) -> Seq<char>
    decreases d.len(),
{
    if d.len() == 0 {
        Seq::empty()
    } else {
        let a = d[0] as int;
        let b = if d.len() > 1 { d[1] as int } else { 0 };
        let c = if d.len() > 2 { d[2] as int } else { 0 };
        if d.len() == 1 {
            seq![base64_char(a / 4), base64_char((a % 4) * 16), '=', '=']
        } else if d.len() == 2 {
            seq![base64_char(a / 4), base64_char((a % 4) * 16 + b / 16), base64_char((b % 16) * 4), '=']
        } else {
            seq![
                base64_char(a / 4),
                base64_char((a % 4) * 16 + b / 16),
                base64_char((b % 16) * 4 + c / 64),
                base64_char(c % 64),
            ] + base64_standard(d.skip(3))
        }
    }
}

/// Encodes bytes with `base64::engine::general_purpose::STANDARD` (the
/// standard alphabet, with padding).
#[verifier::external_body]
fn base64_encode(data: &[u8]) -> (r: String)
    ensures
        r@ == base64_standard(data@),
{
    base64::engine::general_purpose::STANDARD.encode(data)
}

/// The favicon of the status, from the icon's PNG bytes: a `data:` URL of
/// type `image/png` holding them in base64.
pub fn favicon_data_url(png: &[u8]) -> (r: String)
    ensures
        r@ == "data:image/png;base64,"@ + base64_standard(png@),
{
    let mut url = "data:image/png;base64,".to_owned();
    let encoded = base64_encode(png);
    push_str(&mut url, encoded.as_str());
    url
}

} // verus!
