//! The dynamic-DNS providers: the three vendor descriptors, their derived
//! persistence keys, the exact update URL each one calls, and the config
//! parser that builds an ordered provider list from one input string.
use vstd::prelude::*;

use crate::addr::{addr_text, Address, AddressView};
use crate::text::{
    batch_core, normalize_batch, parse_u64, parse_u64_spec, split_char, split_on, str_eq, views_of,
};
use crate::IpVersion;

verus! {

/// A provider names the file its last pushed address is persisted under.
pub trait PersistsToFile {
    /// The persistence key this value derives from its identity.
    spec fn key_spec(&self) -> Seq<char>;

    /// Whether the stored key field agrees with the identity fields.
    spec fn inv(&self) -> bool;

    fn file_name(&self) -> (r: &str)
        requires
            self.inv(),
        ensures
            r@ == self.key_spec(),
    ;
}

// The keys join the tag, the identifying fields and the IP version with
// `_`. The join is not injective: identifying fields that themselves hold
// `_` can merge two distinct entries into one key, which then share one
// state file. Resolution is exact, so the sharing is at least
// deterministic; the key text itself is kept as the file names on disk
// already use it.
/// Key of a FreeDns entry: tag, token and IP version.
pub open spec fn free_dns_key(token: Seq<char>, v: IpVersion) -> Seq<char> {
    "FreeDNS_"@ + token + "_"@ + v.simple_name_spec()
}

/// Key of a DuckDns entry: tag, token, domain name and IP version.
pub open spec fn duck_dns_key(token: Seq<char>, name: Seq<char>, v: IpVersion) -> Seq<char> {
    "DuckDNS_"@ + token + "_"@ + name + "_"@ + v.simple_name_spec()
}

/// Key of an Ovh entry: tag, username, subdomain and IP version.
pub open spec fn ovh_key(username: Seq<char>, subdomain: Seq<char>, v: IpVersion) -> Seq<char> {
    "OVH_"@ + username + "_"@ + subdomain + "_"@ + v.simple_name_spec()
}

/// FreeDns (freedns.afraid.org) update entry.
#[derive(Debug)]
pub struct FreeDns {
    pub token: String,
    pub file_name: String,
    pub ip_version: IpVersion,
    pub poll_secs: u64,
}

impl FreeDns {
    pub open spec fn wf(&self) -> bool {
        self.file_name@ == free_dns_key(self.token@, self.ip_version)
    }

    pub fn new(token: String, ip_version: IpVersion, poll_secs: u64) -> (s: Self)
        ensures
            s.token@ == token@,
            s.ip_version == ip_version,
            s.poll_secs == poll_secs,
            s.wf(),
    {
        let file_name = String::from_str("FreeDNS_").concat(token.as_str()).concat("_").concat(
            ip_version.simple_name(),
        );
        proof {
            assert(file_name@ =~= free_dns_key(token@, ip_version));
        }
        Self { token, file_name, ip_version, poll_secs }
    }
}

impl PersistsToFile for FreeDns {
    open spec fn key_spec(&self) -> Seq<char> {
        free_dns_key(self.token@, self.ip_version)
    }

    open spec fn inv(&self) -> bool {
        self.wf()
    }

    fn file_name(&self) -> (r: &str) {
        self.file_name.as_str()
    }
}

/// DuckDns (duckdns.org) update entry.
#[derive(Debug)]
pub struct DuckDns {
    pub token: String,
    pub name: String,
    pub file_name: String,
    pub ip_version: IpVersion,
    pub poll_secs: u64,
}

impl DuckDns {
    pub open spec fn wf(&self) -> bool {
        self.file_name@ == duck_dns_key(self.token@, self.name@, self.ip_version)
    }

    pub fn new(token: String, name: String, ip_version: IpVersion, poll_secs: u64) -> (s: Self)
        ensures
            s.token@ == token@,
            s.name@ == name@,
            s.ip_version == ip_version,
            s.poll_secs == poll_secs,
            s.wf(),
    {
        let file_name = String::from_str("DuckDNS_").concat(token.as_str()).concat("_").concat(
            name.as_str(),
        ).concat("_").concat(ip_version.simple_name());
        proof {
            assert(file_name@ =~= duck_dns_key(token@, name@, ip_version));
        }
        Self { token, name, file_name, ip_version, poll_secs }
    }
}

impl PersistsToFile for DuckDns {
    open spec fn key_spec(&self) -> Seq<char> {
        duck_dns_key(self.token@, self.name@, self.ip_version)
    }

    open spec fn inv(&self) -> bool {
        self.wf()
    }

    fn file_name(&self) -> (r: &str) {
        self.file_name.as_str()
    }
}

/// Ovh (ovh.com) update entry.
#[derive(Debug)]
pub struct Ovh {
    pub username: String,
    pub password: String,
    pub subdomain: String,
    pub file_name: String,
    pub ip_version: IpVersion,
    pub poll_secs: u64,
}

impl Ovh {
    pub open spec fn wf(&self) -> bool {
        self.file_name@ == ovh_key(self.username@, self.subdomain@, self.ip_version)
    }

    pub fn new(
        username: String,
        password: String,
        subdomain: String,
        ip_version: IpVersion,
        poll_secs: u64,
    ) -> (s: Self)
        ensures
            s.username@ == username@,
            s.password@ == password@,
            s.subdomain@ == subdomain@,
            s.ip_version == ip_version,
            s.poll_secs == poll_secs,
            s.wf(),
    {
        let file_name = String::from_str("OVH_").concat(username.as_str()).concat("_").concat(
            subdomain.as_str(),
        ).concat("_").concat(ip_version.simple_name());
        proof {
            assert(file_name@ =~= ovh_key(username@, subdomain@, ip_version));
        }
        Self { username, password, subdomain, file_name, ip_version, poll_secs }
    }
}

impl PersistsToFile for Ovh {
    open spec fn key_spec(&self) -> Seq<char> {
        ovh_key(self.username@, self.subdomain@, self.ip_version)
    }

    open spec fn inv(&self) -> bool {
        self.wf()
    }

    fn file_name(&self) -> (r: &str) {
        self.file_name.as_str()
    }
}

// ---------------------------------------------------------------------------
// Update URLs and requests
// ---------------------------------------------------------------------------
/// FreeDns update URL: the address travels in `&address=` for V6 only; for
/// V4 the provider infers the source IP.
pub open spec fn free_dns_url(token: Seq<char>, a: AddressView) -> Seq<char> {
    "https://freedns.afraid.org/dynamic/update.php?"@ + token + (if a is V6 {
        "&address="@ + addr_text(a)
    } else {
        Seq::<char>::empty()
    })
}

/// DuckDns update URL: the address travels in `&ipv6=` for V6 only.
pub open spec fn duck_dns_url(token: Seq<char>, name: Seq<char>, a: AddressView) -> Seq<char> {
    "https://www.duckdns.org/update?domains="@ + name + "&token="@ + token + (if a is V6 {
        "&ipv6="@ + addr_text(a)
    } else {
        Seq::<char>::empty()
    })
}

/// Ovh update URL: the address always travels in `myip`.
pub open spec fn ovh_url(subdomain: Seq<char>, a: AddressView) -> Seq<char> {
    "https://www.ovh.com/nic/update?system=dyndns&hostname="@ + subdomain + "&myip="@ + addr_text(
        a,
    )
}

/// The V6 forms carry the literal address text after the documented query
/// parameter; the V4 forms end with no address parameter at all.
pub proof fn lemma_urls_carry_v6_address(token: Seq<char>, name: Seq<char>, a: AddressView)
    ensures
        a is V6 ==> free_dns_url(token, a) == "https://freedns.afraid.org/dynamic/update.php?"@
            + token + "&address="@ + addr_text(a),
        a is V4 ==> free_dns_url(token, a) == "https://freedns.afraid.org/dynamic/update.php?"@
            + token,
        a is V6 ==> duck_dns_url(token, name, a) == "https://www.duckdns.org/update?domains="@
            + name + "&token="@ + token + "&ipv6="@ + addr_text(a),
        a is V4 ==> duck_dns_url(token, name, a) == "https://www.duckdns.org/update?domains="@
            + name + "&token="@ + token,
{
    if a is V6 {
        assert(free_dns_url(token, a) =~= "https://freedns.afraid.org/dynamic/update.php?"@
            + token + "&address="@ + addr_text(a));
        assert(duck_dns_url(token, name, a) =~= "https://www.duckdns.org/update?domains="@ + name
            + "&token="@ + token + "&ipv6="@ + addr_text(a));
    } else {
        assert(free_dns_url(token, a) =~= "https://freedns.afraid.org/dynamic/update.php?"@
            + token);
        assert(duck_dns_url(token, name, a) =~= "https://www.duckdns.org/update?domains="@ + name
            + "&token="@ + token);
    }
}

/// Everything the HTTP collaborator needs to perform one update call.
pub struct UpdateRequest {
    pub url: String,
    pub basic_auth_user: Option<String>,
    pub basic_auth_password: Option<String>,
    pub timeout_secs: Option<u64>,
    pub max_redirects: Option<u64>,
}

/// An update failure: a non-2xx response status, or a transport fault the
/// HTTP collaborator reports as text.
#[derive(Debug)]
pub enum UpdateError {
    Status(u16),
    Transport(String),
}

/// Classifies a response status as the update outcome: success is exactly
/// the 2xx range, anything else fails with that status.
pub fn update_outcome(status: u16) -> (r: Result<(), UpdateError>)
    ensures
        r is Ok <==> 200 <= status <= 299,
        r is Err ==> r->Err_0 is Status && r->Err_0->Status_0 == status,
{
    if 200 <= status && status <= 299 {
        Ok(())
    } else {
        Err(UpdateError::Status(status))
    }
}

/// One configured provider entry: the closed set of vendors.
#[derive(Debug)]
pub enum Provider {
    FreeDns(FreeDns),
    DuckDns(DuckDns),
    Ovh(Ovh),
}

impl Provider {
    pub open spec fn wf(&self) -> bool {
        match self {
            Provider::FreeDns(p) => p.wf(),
            Provider::DuckDns(p) => p.wf(),
            Provider::Ovh(p) => p.wf(),
        }
    }

    pub open spec fn ip_version_spec(&self) -> IpVersion {
        match self {
            Provider::FreeDns(p) => p.ip_version,
            Provider::DuckDns(p) => p.ip_version,
            Provider::Ovh(p) => p.ip_version,
        }
    }

    pub open spec fn poll_secs_spec(&self) -> u64 {
        match self {
            Provider::FreeDns(p) => p.poll_secs,
            Provider::DuckDns(p) => p.poll_secs,
            Provider::Ovh(p) => p.poll_secs,
        }
    }

    /// The exact URL this provider's update call requests for `a`.
    pub open spec fn url_spec(&self, a: AddressView) -> Seq<char> {
        match self {
            Provider::FreeDns(p) => free_dns_url(p.token@, a),
            Provider::DuckDns(p) => duck_dns_url(p.token@, p.name@, a),
            Provider::Ovh(p) => ovh_url(p.subdomain@, a),
        }
    }

    pub fn get_ip_version(&self) -> (r: IpVersion)
        ensures
            r == self.ip_version_spec(),
    {
        match self {
            Provider::FreeDns(p) => p.ip_version,
            Provider::DuckDns(p) => p.ip_version,
            Provider::Ovh(p) => p.ip_version,
        }
    }

    pub fn get_poll_secs(&self) -> (r: u64)
        ensures
            r == self.poll_secs_spec(),
    {
        match self {
            Provider::FreeDns(p) => p.poll_secs,
            Provider::DuckDns(p) => p.poll_secs,
            Provider::Ovh(p) => p.poll_secs,
        }
    }

    /// Builds the one HTTP request that updates this provider with `ip`:
    /// the exact URL, Ovh's basic auth, and Ovh's transport bounds (a
    /// five-second total timeout, at most ten redirects).
    pub fn update_request(&self, ip: &Address) -> (r: UpdateRequest)
        requires
            ip.wf(),
        ensures
            r.url@ == self.url_spec(ip@),
            self is Ovh ==> ((r.basic_auth_user matches Some(u) && u@ == self->Ovh_0.username@)
                && (r.basic_auth_password matches Some(w) && w@ == self->Ovh_0.password@)
                && r.timeout_secs == Some(5u64) && r.max_redirects == Some(10u64)),
            !(self is Ovh) ==> r.basic_auth_user is None && r.basic_auth_password is None
                && r.timeout_secs is None && r.max_redirects is None,
    {
        match self {
            Provider::FreeDns(p) => {
                let mut url = String::from_str("https://freedns.afraid.org/dynamic/update.php?")
                    .concat(p.token.as_str());
                if let Address::V6 { .. } = ip {
                    url.append("&address=");
                    let a = crate::addr::address_to_text(ip);
                    url.append(a.as_str());
                    proof {
                        assert(url@ =~= free_dns_url(p.token@, ip@));
                    }
                } else {
                    proof {
                        assert(url@ =~= free_dns_url(p.token@, ip@));
                    }
                }
                UpdateRequest {
                    url,
                    basic_auth_user: None,
                    basic_auth_password: None,
                    timeout_secs: None,
                    max_redirects: None,
                }
            },
            Provider::DuckDns(p) => {
                let mut url = String::from_str("https://www.duckdns.org/update?domains=").concat(
                    p.name.as_str(),
                ).concat("&token=").concat(p.token.as_str());
                if let Address::V6 { .. } = ip {
                    url.append("&ipv6=");
                    let a = crate::addr::address_to_text(ip);
                    url.append(a.as_str());
                    proof {
                        assert(url@ =~= duck_dns_url(p.token@, p.name@, ip@));
                    }
                } else {
                    proof {
                        assert(url@ =~= duck_dns_url(p.token@, p.name@, ip@));
                    }
                }
                UpdateRequest {
                    url,
                    basic_auth_user: None,
                    basic_auth_password: None,
                    timeout_secs: None,
                    max_redirects: None,
                }
            },
            Provider::Ovh(p) => {
                let a = crate::addr::address_to_text(ip);
                let url = String::from_str(
                    "https://www.ovh.com/nic/update?system=dyndns&hostname=",
                ).concat(p.subdomain.as_str()).concat("&myip=").concat(a.as_str());
                proof {
                    assert(url@ =~= ovh_url(p.subdomain@, ip@));
                }
                UpdateRequest {
                    url,
                    basic_auth_user: Some(p.username.clone()),
                    basic_auth_password: Some(p.password.clone()),
                    timeout_secs: Some(5),
                    max_redirects: Some(10),
                }
            },
        }
    }
}

impl PersistsToFile for Provider {
    open spec fn key_spec(&self) -> Seq<char> {
        match self {
            Provider::FreeDns(p) => p.key_spec(),
            Provider::DuckDns(p) => p.key_spec(),
            Provider::Ovh(p) => p.key_spec(),
        }
    }

    open spec fn inv(&self) -> bool {
        self.wf()
    }

    fn file_name(&self) -> (r: &str) {
        match self {
            Provider::FreeDns(p) => p.file_name(),
            Provider::DuckDns(p) => p.file_name(),
            Provider::Ovh(p) => p.file_name(),
        }
    }
}

// ---------------------------------------------------------------------------
// Config parsing
// ---------------------------------------------------------------------------
/// Identity of a parsed provider entry.
pub enum ProviderView {
    FreeDns { token: Seq<char>, ip_version: IpVersion, poll_secs: u64 },
    DuckDns { token: Seq<char>, name: Seq<char>, ip_version: IpVersion, poll_secs: u64 },
    Ovh {
        username: Seq<char>,
        password: Seq<char>,
        subdomain: Seq<char>,
        ip_version: IpVersion,
        poll_secs: u64,
    },
}

impl View for Provider {
    type V = ProviderView;

    open spec fn view(&self) -> ProviderView {
        match self {
            Provider::FreeDns(p) => ProviderView::FreeDns {
                token: p.token@,
                ip_version: p.ip_version,
                poll_secs: p.poll_secs,
            },
            Provider::DuckDns(p) => ProviderView::DuckDns {
                token: p.token@,
                name: p.name@,
                ip_version: p.ip_version,
                poll_secs: p.poll_secs,
            },
            Provider::Ovh(p) => ProviderView::Ovh {
                username: p.username@,
                password: p.password@,
                subdomain: p.subdomain@,
                ip_version: p.ip_version,
                poll_secs: p.poll_secs,
            },
        }
    }
}

/// Each way one batch can be rejected, one variant per distinct failure.
#[derive(Clone, Copy, Debug, PartialEq, Eq, Structural)]
pub enum ConfigError {
    EmptyBatch,
    NoToken,
    NoVersion,
    NoPollSecs,
    NoName,
    NoUsername,
    NoPassword,
    NoSubdomain,
    BadVersion,
    BadPollSecs,
    UnknownTag,
}

impl ConfigError {
    pub open spec fn message_spec(self) -> Seq<char> {
        match self {
            ConfigError::EmptyBatch => "Empty Batch found"@,
            ConfigError::NoToken => "No TOKEN found in batch"@,
            ConfigError::NoVersion => "No VERSION found in batch"@,
            ConfigError::NoPollSecs => "No POLL_SECS found in batch"@,
            ConfigError::NoName => "No NAME found in batch"@,
            ConfigError::NoUsername => "No USERNAME found in batch"@,
            ConfigError::NoPassword => "No PASSWORD found in batch"@,
            ConfigError::NoSubdomain => "No SUBDOMAIN found in batch"@,
            ConfigError::BadVersion => "Invalid Ip version found in batch"@,
            ConfigError::BadPollSecs => "Couldn't parse POLL_SECS"@,
            ConfigError::UnknownTag => "Invalid Dynamic Dns Type found"@,
        }
    }

    /// The failure described in words.
    pub fn message(&self) -> (r: String)
        ensures
            r@ == self.message_spec(),
    {
        match self {
            ConfigError::EmptyBatch => String::from_str("Empty Batch found"),
            ConfigError::NoToken => String::from_str("No TOKEN found in batch"),
            ConfigError::NoVersion => String::from_str("No VERSION found in batch"),
            ConfigError::NoPollSecs => String::from_str("No POLL_SECS found in batch"),
            ConfigError::NoName => String::from_str("No NAME found in batch"),
            ConfigError::NoUsername => String::from_str("No USERNAME found in batch"),
            ConfigError::NoPassword => String::from_str("No PASSWORD found in batch"),
            ConfigError::NoSubdomain => String::from_str("No SUBDOMAIN found in batch"),
            ConfigError::BadVersion => String::from_str("Invalid Ip version found in batch"),
            ConfigError::BadPollSecs => String::from_str("Couldn't parse POLL_SECS"),
            ConfigError::UnknownTag => String::from_str("Invalid Dynamic Dns Type found"),
        }
    }
}

/// The version field: exactly `ipv4` or `ipv6`.
pub open spec fn version_spec(s: Seq<char>) -> Option<IpVersion> {
    if s == "ipv4"@ {
        Some(IpVersion::V4)
    } else if s == "ipv6"@ {
        Some(IpVersion::V6)
    } else {
        None
    }
}

fn parse_ip_version(s: &str) -> (r: Option<IpVersion>)
    ensures
        r == version_spec(s@),
{
    if str_eq(s, "ipv4") {
        Some(IpVersion::V4)
    } else if str_eq(s, "ipv6") {
        Some(IpVersion::V6)
    } else {
        None
    }
}

/// A FreeDns batch body: `FD;TOKEN;VERSION;POLL_SECS`.
pub open spec fn parse_fd_fields(fs: Seq<Seq<char>>) -> Result<ProviderView, ConfigError> {
    if fs.len() < 2 {
        Err(ConfigError::NoToken)
    } else if fs.len() < 3 {
        Err(ConfigError::NoVersion)
    } else {
        match version_spec(fs[2]) {
            None => Err(ConfigError::BadVersion),
            Some(v) => if fs.len() < 4 {
                Err(ConfigError::NoPollSecs)
            } else {
                match parse_u64_spec(fs[3]) {
                    None => Err(ConfigError::BadPollSecs),
                    Some(ps) => Ok(
                        ProviderView::FreeDns { token: fs[1], ip_version: v, poll_secs: ps },
                    ),
                }
            },
        }
    }
}

/// A DuckDns batch body: `DD;TOKEN;VERSION;POLL_SECS;NAME`.
pub open spec fn parse_dd_fields(fs: Seq<Seq<char>>) -> Result<ProviderView, ConfigError> {
    if fs.len() < 2 {
        Err(ConfigError::NoToken)
    } else if fs.len() < 3 {
        Err(ConfigError::NoVersion)
    } else {
        match version_spec(fs[2]) {
            None => Err(ConfigError::BadVersion),
            Some(v) => if fs.len() < 4 {
                Err(ConfigError::NoPollSecs)
            } else {
                match parse_u64_spec(fs[3]) {
                    None => Err(ConfigError::BadPollSecs),
                    Some(ps) => if fs.len() < 5 {
                        Err(ConfigError::NoName)
                    } else {
                        Ok(
                            ProviderView::DuckDns {
                                token: fs[1],
                                name: fs[4],
                                ip_version: v,
                                poll_secs: ps,
                            },
                        )
                    },
                }
            },
        }
    }
}

/// An Ovh batch body: `OVH;USERNAME;PASSWORD;SUBDOMAIN;VERSION;POLL_SECS`.
pub open spec fn parse_ovh_fields(fs: Seq<Seq<char>>) -> Result<ProviderView, ConfigError> {
    if fs.len() < 2 {
        Err(ConfigError::NoUsername)
    } else if fs.len() < 3 {
        Err(ConfigError::NoPassword)
    } else if fs.len() < 4 {
        Err(ConfigError::NoSubdomain)
    } else if fs.len() < 5 {
        Err(ConfigError::NoVersion)
    } else {
        match version_spec(fs[4]) {
            None => Err(ConfigError::BadVersion),
            Some(v) => if fs.len() < 6 {
                Err(ConfigError::NoPollSecs)
            } else {
                match parse_u64_spec(fs[5]) {
                    None => Err(ConfigError::BadPollSecs),
                    Some(ps) => Ok(
                        ProviderView::Ovh {
                            username: fs[1],
                            password: fs[2],
                            subdomain: fs[3],
                            ip_version: v,
                            poll_secs: ps,
                        },
                    ),
                }
            },
        }
    }
}

/// What one batch denotes: the batch is stripped of whitespace and the
/// optional parentheses, split at `;`, and dispatched on its first field.
pub open spec fn parse_batch_spec(b: Seq<char>) -> Result<ProviderView, ConfigError> {
    let fs = split_on(batch_core(b), ';');
    if fs[0].len() == 0 {
        Err(ConfigError::EmptyBatch)
    } else if fs[0] == "FD"@ {
        parse_fd_fields(fs)
    } else if fs[0] == "DD"@ {
        parse_dd_fields(fs)
    } else if fs[0] == "OVH"@ {
        parse_ovh_fields(fs)
    } else {
        Err(ConfigError::UnknownTag)
    }
}

/// What a batch list denotes: the first failing batch fails the whole
/// parse; otherwise one provider per batch, in order.
pub open spec fn parse_batches_spec(bs: Seq<Seq<char>>) -> Result<Seq<ProviderView>, ConfigError>
    decreases bs.len(),
{
    if bs.len() == 0 {
        Ok(Seq::empty())
    } else {
        match parse_batch_spec(bs[0]) {
            Err(e) => Err(e),
            Ok(p) => match parse_batches_spec(bs.drop_first()) {
                Err(e) => Err(e),
                Ok(rest) => Ok(seq![p] + rest),
            },
        }
    }
}

/// What the whole config string denotes.
pub open spec fn parse_config_spec(s: Seq<char>) -> Result<Seq<ProviderView>, ConfigError> {
    parse_batches_spec(split_on(s, ','))
}

/// The views of a vector of providers.
pub open spec fn provider_views(v: Seq<Provider>) -> Seq<ProviderView> {
    v.map_values(|p: Provider| p@)
}

/// All-or-nothing parsing in input order: a successful parse lists exactly
/// one provider per batch, each the meaning of its batch in input order; a
/// failed parse carries the error of some failing batch, and a parse with
/// no failing batch never fails.
pub proof fn lemma_parse_all_or_nothing(bs: Seq<Seq<char>>)
    ensures
        parse_batches_spec(bs) matches Ok(ps) ==> ps.len() == bs.len() && (forall|i: int|
            0 <= i < bs.len() ==> parse_batch_spec(#[trigger] bs[i]) == Ok::<ProviderView, ConfigError>(ps[i])),
        parse_batches_spec(bs) matches Err(e) ==> exists|i: int|
            0 <= i < bs.len() && parse_batch_spec(#[trigger] bs[i]) == Err::<ProviderView, ConfigError>(e),
        (forall|i: int| 0 <= i < bs.len() ==> parse_batch_spec(#[trigger] bs[i]) is Ok)
            ==> parse_batches_spec(bs) is Ok,
    decreases bs.len(),
{
    if bs.len() > 0 {
        lemma_parse_all_or_nothing(bs.drop_first());
        assert(forall|i: int|
            0 <= i < bs.len() - 1 ==> #[trigger] bs.drop_first()[i] == bs[i + 1]);
        match parse_batch_spec(bs[0]) {
            Err(e) => {
                assert(parse_batch_spec(bs[0]) == Err::<ProviderView, ConfigError>(e));
            },
            Ok(p) => {
                match parse_batches_spec(bs.drop_first()) {
                    Err(e) => {
                        let i = choose|i: int|
                            0 <= i < bs.drop_first().len() && parse_batch_spec(
                                #[trigger] bs.drop_first()[i],
                            ) == Err::<ProviderView, ConfigError>(e);
                        assert(parse_batch_spec(bs[i + 1]) == Err::<ProviderView, ConfigError>(e));
                    },
                    Ok(rest) => {
                        let ps = seq![p] + rest;
                        assert(ps[0] == p);
                        assert(forall|i: int| 0 <= i < rest.len() ==> #[trigger] ps[i + 1] == rest[i]);
                        assert forall|i: int|
                            0 <= i < bs.len() implies parse_batch_spec(#[trigger] bs[i])
                            == Ok::<ProviderView, ConfigError>(ps[i]) by {
                            if i > 0 {
                                assert(bs.drop_first()[i - 1] == bs[i]);
                                assert(ps[(i - 1) + 1] == rest[i - 1]);
                            }
                        }
                    },
                }
            },
        }
    }
}

/// Parses an ordered provider list from the config string, all-or-nothing.
pub fn parse_dns_tuples(to_parse: &str) -> (r: Result<Vec<Provider>, ConfigError>)
    ensures
        r matches Ok(v) ==> parse_config_spec(to_parse@) == Ok::<Seq<ProviderView>, ConfigError>(
            provider_views(v@),
        ) && (forall|i: int| 0 <= i < v@.len() ==> (#[trigger] v@[i]).wf()),
        r matches Err(e) ==> parse_config_spec(to_parse@) == Err::<Seq<ProviderView>, ConfigError>(
            e,
        ),
{
    let batches = split_char(to_parse, ',');
    let ghost bs = split_on(to_parse@, ',');
    let mut out: Vec<Provider> = Vec::new();
    let mut i: usize = 0;
    let n = batches.len();
    assert(bs.len() == n);
    while i < n
        invariant
            0 <= i <= n,
            n == batches@.len(),
            views_of(batches@) == bs,
            bs == split_on(to_parse@, ','),
            out@.len() == i,
            forall|j: int|
                0 <= j < i ==> parse_batch_spec(#[trigger] bs[j]) == Ok::<ProviderView, ConfigError>(out@[j]@) && out@[j].wf(),
        decreases n - i,
    {
        assert(batches@[i as int]@ == bs[i as int]);
        match parse_batch(batches[i].as_str()) {
            Ok(p) => {
                out.push(p);
            },
            Err(e) => {
                proof {
                    lemma_parse_batches_err_at(bs, i as int, e);
                }
                return Err(e);
            },
        }
        i = i + 1;
    }
    proof {
        assert(provider_views(out@).len() == out@.len());
        assert(forall|j: int| 0 <= j < out@.len() ==> #[trigger] provider_views(out@)[j] == out@[j]@);
        lemma_parse_batches_ok_all(bs, provider_views(out@));
        assert forall|k: int| 0 <= k < out@.len() implies (#[trigger] out@[k]).wf() by {
            assert(parse_batch_spec(bs[k]) == Ok::<ProviderView, ConfigError>(out@[k]@));
        }
    }
    Ok(out)
}

/// A failing batch after an all-good prefix fails the list with its error.
proof fn lemma_parse_batches_err_at(bs: Seq<Seq<char>>, i: int, e: ConfigError)
    requires
        0 <= i < bs.len(),
        forall|j: int| 0 <= j < i ==> parse_batch_spec(#[trigger] bs[j]) is Ok,
        parse_batch_spec(bs[i]) == Err::<ProviderView, ConfigError>(e),
    ensures
        parse_batches_spec(bs) == Err::<Seq<ProviderView>, ConfigError>(e),
    decreases i,
{
    if i == 0 {
    } else {
        assert(forall|j: int|
            0 <= j < bs.len() - 1 ==> #[trigger] bs.drop_first()[j] == bs[j + 1]);
        lemma_parse_batches_err_at(bs.drop_first(), i - 1, e);
    }
}

/// A list whose batches all parse to the given providers parses to them.
proof fn lemma_parse_batches_ok_all(bs: Seq<Seq<char>>, ps: Seq<ProviderView>)
    requires
        ps.len() == bs.len(),
        forall|j: int| 0 <= j < bs.len() ==> parse_batch_spec(#[trigger] bs[j]) == Ok::<ProviderView, ConfigError>(ps[j]),
    ensures
        parse_batches_spec(bs) == Ok::<Seq<ProviderView>, ConfigError>(ps),
    decreases bs.len(),
{
    if bs.len() == 0 {
        assert(ps =~= Seq::<ProviderView>::empty());
    } else {
        assert(forall|j: int|
            0 <= j < bs.len() - 1 ==> #[trigger] bs.drop_first()[j] == bs[j + 1]);
        assert(forall|j: int|
            0 <= j < ps.len() - 1 ==> #[trigger] ps.drop_first()[j] == ps[j + 1]);
        lemma_parse_batches_ok_all(bs.drop_first(), ps.drop_first());
        assert(ps =~= seq![ps[0]] + ps.drop_first());
    }
}

/// Parses one batch of the config string.
fn parse_batch(b: &str) -> (r: Result<Provider, ConfigError>)
    ensures
        r matches Ok(p) ==> parse_batch_spec(b@) == Ok::<ProviderView, ConfigError>(p@) && p.wf(),
        r matches Err(e) ==> parse_batch_spec(b@) == Err::<ProviderView, ConfigError>(e),
{
    let nb = normalize_batch(b);
    let fields = split_char(nb.as_str(), ';');
    let ghost fs = split_on(batch_core(b@), ';');
    proof {
        crate::text::lemma_split_when_len(batch_core(b@), crate::text::eq_char(';'));
    }
    assert(fields@.len() >= 1);
    assert(fields@[0]@ == fs[0]);
    if fields[0].as_str().unicode_len() == 0 {
        return Err(ConfigError::EmptyBatch);
    }
    if str_eq(fields[0].as_str(), "FD") {
        if fields.len() < 2 {
            return Err(ConfigError::NoToken);
        }
        let token = fields[1].clone();
        if fields.len() < 3 {
            return Err(ConfigError::NoVersion);
        }
        assert(fields@[2]@ == fs[2]);
        match parse_ip_version(fields[2].as_str()) {
            None => Err(ConfigError::BadVersion),
            Some(v) => {
                if fields.len() < 4 {
                    return Err(ConfigError::NoPollSecs);
                }
                assert(fields@[3]@ == fs[3]);
                match parse_u64(fields[3].as_str()) {
                    None => Err(ConfigError::BadPollSecs),
                    Some(ps) => {
                        assert(fields@[1]@ == fs[1]);
                        Ok(Provider::FreeDns(FreeDns::new(token, v, ps)))
                    },
                }
            },
        }
    } else if str_eq(fields[0].as_str(), "DD") {
        if fields.len() < 2 {
            return Err(ConfigError::NoToken);
        }
        let token = fields[1].clone();
        if fields.len() < 3 {
            return Err(ConfigError::NoVersion);
        }
        assert(fields@[2]@ == fs[2]);
        match parse_ip_version(fields[2].as_str()) {
            None => Err(ConfigError::BadVersion),
            Some(v) => {
                if fields.len() < 4 {
                    return Err(ConfigError::NoPollSecs);
                }
                assert(fields@[3]@ == fs[3]);
                match parse_u64(fields[3].as_str()) {
                    None => Err(ConfigError::BadPollSecs),
                    Some(ps) => {
                        if fields.len() < 5 {
                            return Err(ConfigError::NoName);
                        }
                        let name = fields[4].clone();
                        assert(fields@[1]@ == fs[1]);
                        assert(fields@[4]@ == fs[4]);
                        Ok(Provider::DuckDns(DuckDns::new(token, name, v, ps)))
                    },
                }
            },
        }
    } else if str_eq(fields[0].as_str(), "OVH") {
        if fields.len() < 2 {
            return Err(ConfigError::NoUsername);
        }
        let username = fields[1].clone();
        if fields.len() < 3 {
            return Err(ConfigError::NoPassword);
        }
        let password = fields[2].clone();
        if fields.len() < 4 {
            return Err(ConfigError::NoSubdomain);
        }
        let subdomain = fields[3].clone();
        if fields.len() < 5 {
            return Err(ConfigError::NoVersion);
        }
        assert(fields@[4]@ == fs[4]);
        match parse_ip_version(fields[4].as_str()) {
            None => Err(ConfigError::BadVersion),
            Some(v) => {
                if fields.len() < 6 {
                    return Err(ConfigError::NoPollSecs);
                }
                assert(fields@[5]@ == fs[5]);
                match parse_u64(fields[5].as_str()) {
                    None => Err(ConfigError::BadPollSecs),
                    Some(ps) => {
                        assert(fields@[1]@ == fs[1]);
                        assert(fields@[2]@ == fs[2]);
                        assert(fields@[3]@ == fs[3]);
                        Ok(Provider::Ovh(Ovh::new(username, password, subdomain, v, ps)))
                    },
                }
            },
        }
    } else {
        Err(ConfigError::UnknownTag)
    }
}

} // verus!
