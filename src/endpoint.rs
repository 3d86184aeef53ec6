use vstd::prelude::*;
use vstd::arithmetic::power::pow;
use crate::license::{License, LicenseBundle};

verus! {

/// Lower-case hex digit of `n`, for `0 <= n < 16`.
pub open spec fn hex_digit(n: int) -> char {
    seq!['0', '1', '2', '3', '4', '5', '6', '7', '8', '9', 'a', 'b', 'c', 'd', 'e', 'f'][n]
}

/// The `d`-th hex digit of `v`, most significant first.
pub open spec fn nibble(v: u128, d: int) -> int {
    (v as int / pow(16, (31 - d) as nat)) % 16
}

/// Position among the 32 hex digits of character `i` of the hyphenated form.
pub open spec fn digit_at(i: int) -> int {
    if i < 8 {
        i
    } else if i < 13 {
        i - 1
    } else if i < 18 {
        i - 2
    } else if i < 23 {
        i - 3
    } else {
        i - 4
    }
}

/// The hyphenated text of a UUID: 32 lower-case hex digits, most significant
/// first, grouped 8-4-4-4-12.
pub open spec fn uuid_text(v: u128) -> Seq<char> {
    Seq::new(36, |i: int| if i == 8 || i == 13 || i == 18 || i == 23 { '-' } else { hex_digit(nibble(v, digit_at(i))) })
}

/// Relies on uuid::Uuid::from_u128 and the Display impl of uuid's Hyphenated
/// formatter: the lower-case 8-4-4-4-12 hex text of the value.
#[verifier::external_body]
fn uuid_hyphenated(v: u128) -> (r: String)
    ensures
        r@ == uuid_text(v),
{
    uuid::Uuid::from_u128(v).hyphenated().to_string()
}

/// The UUID that uuid::Uuid::parse_str reads from a text, if it reads one.
pub uninterp spec fn uuid_parsed(s: Seq<char>) -> Option<u128>;

/// Relies on uuid::Uuid::parse_str and Uuid::as_u128: the value of a UUID text
/// in any of the forms that uuid accepts, or `None` where it is no UUID.
#[verifier::external_body]
fn parse_uuid_text(s: &str) -> (r: Option<u128>)
    ensures
        r == uuid_parsed(s@),
{
    match uuid::Uuid::parse_str(s) {
        Ok(u) => Some(u.as_u128()),
        Err(_) => None,
    }
}

/// Why the stored endpoint settings cannot be used.
#[derive(Debug, Clone, Copy, PartialEq, Eq, Structural)]
pub enum ConfigError {
    /// The stored endpoint UUID is not a UUID.
    InvalidUuid,
}

/// The endpoint's durable settings.
pub struct Config;

impl Config {
    /// The endpoint UUID from its stored text: none stored is `None`, an
    /// unreadable one an error.
    pub fn get_uuid(stored: &Option<String>) -> (r: Result<Option<u128>, ConfigError>)
        ensures
            stored is None ==> r == Ok::<Option<u128>, ConfigError>(None),
            stored matches Some(s) ==> (uuid_parsed(s@) matches Some(u) ==> r == Ok::<Option<u128>, ConfigError>(Some(u))),
            stored matches Some(s) ==> (uuid_parsed(s@) is None ==> r == Err::<Option<u128>, ConfigError>(ConfigError::InvalidUuid)),
    {
        match stored {
            None => Ok(None),
            Some(s) => match parse_uuid_text(s.as_str()) {
                Some(u) => Ok(Some(u)),
                None => Err(ConfigError::InvalidUuid),
            },
        }
    }

    /// The text under which an endpoint UUID is stored.
    pub fn set_uuid(uuid: u128) -> (r: String)
        ensures
            r@ == uuid_text(uuid),
    {
        uuid_hyphenated(uuid)
    }
}

/// Where an endpoint sends its reports: the server's base address and the
/// UUID the endpoint registered under, if it has.
#[derive(Debug, Clone, PartialEq, Eq)]
pub struct Server {
    pub web_api: String,
    pub uuid: Option<u128>,
}

/// The address of a per-endpoint route: `before` and `after` around the UUID.
pub open spec fn route(s: Server, before: Seq<char>, after: Seq<char>) -> Option<Seq<char>> {
    match s.uuid {
        Some(u) => Some(s.web_api@ + before + uuid_text(u) + after),
        None => None,
    }
}

impl Server {
    fn route(&self, before: &str, after: &str) -> (r: Option<String>)
        ensures
            crate::text::text_of(r) == route(*self, before@, after@),
    {
        match self.uuid {
            None => None,
            Some(u) => {
                let mut s = self.web_api.clone();
                s.append(before);
                let id = uuid_hyphenated(u);
                s.append(id.as_str());
                s.append(after);
                Some(s)
            },
        }
    }

    /// Address of the registration route.
    pub fn register(&self) -> (r: String)
        ensures
            r@ == self.web_api@ + "/api/v1/register"@,
    {
        let mut s = self.web_api.clone();
        s.append("/api/v1/register");
        s
    }

    /// Address for operating-system facts; `None` before registration.
    pub fn os(&self) -> (r: Option<String>)
        ensures
            crate::text::text_of(r) == route(*self, "/api/v1/os/"@, ""@),
    {
        self.route("/api/v1/os/", "")
    }

    /// Address for hardware facts; `None` before registration.
    pub fn hardware(&self) -> (r: Option<String>)
        ensures
            crate::text::text_of(r) == route(*self, "/api/v2/hardware/"@, ""@),
    {
        self.route("/api/v2/hardware/", "")
    }

    /// Address for the software snapshot; `None` before registration.
    pub fn software(&self) -> (r: Option<String>)
        ensures
            crate::text::text_of(r) == route(*self, "/api/v1/software/"@, ""@),
    {
        self.route("/api/v1/software/", "")
    }

    /// Address for the profile snapshot; `None` before registration.
    pub fn profiles(&self) -> (r: Option<String>)
        ensures
            crate::text::text_of(r) == route(*self, "/api/v1/profiles/"@, ""@),
    {
        self.route("/api/v1/profiles/", "")
    }

    /// Address for license keys; `None` before registration.
    pub fn licenses(&self) -> (r: Option<String>)
        ensures
            crate::text::text_of(r) == route(*self, "/api/v1/licenses/"@, ""@),
    {
        self.route("/api/v1/licenses/", "")
    }

    /// Address for volume status; `None` before registration.
    pub fn status_volumes(&self) -> (r: Option<String>)
        ensures
            crate::text::text_of(r) == route(*self, "/api/v1/status/"@, "/volumes"@),
    {
        self.route("/api/v1/status/", "/volumes")
    }

    /// Address for battery status; `None` before registration.
    pub fn battery_status(&self) -> (r: Option<String>)
        ensures
            crate::text::text_of(r) == route(*self, "/api/v1/status/"@, "/battery"@),
    {
        self.route("/api/v1/status/", "/battery")
    }

    /// Address to fetch tasks from and report task status to; `None` before registration.
    pub fn tasks(&self) -> (r: Option<String>)
        ensures
            crate::text::text_of(r) == route(*self, "/api/v1/tasks/"@, ""@),
    {
        self.route("/api/v1/tasks/", "")
    }
}

/// Collector-side license keys.
pub struct Licenses;

impl Licenses {
    /// The license bundle of an endpoint: its Windows product key.
    pub fn collect_licenses(windows_key: License) -> (r: LicenseBundle)
        ensures
            r.licenses@ == seq![windows_key],
    {
        let mut licenses: Vec<License> = Vec::new();
        licenses.push(windows_key);
        assert(licenses@ =~= seq![windows_key]);
        LicenseBundle { licenses }
    }
}

} // verus!
