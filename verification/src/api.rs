//! The account that requests are made for, and the requests themselves as
//! plain data: where each one goes and with which credentials. Sending them is
//! left to the caller.

use vstd::prelude::*;
use vstd::string::StringExecFns;

use crate::error::Error;
use crate::text::trim_trailing_slashes;
use crate::text::without_trailing_slashes;

verus! {

/// After how many seconds a request that has not been answered is given up.
pub const REQUEST_TIMEOUT_SECS: u64 = 30;

/// What looking a variable up in the environment gave.
#[derive(Debug, Clone)]
pub enum EnvLookup {
    /// The variable is set to this value.
    Found(String),
    /// The variable is not set.
    Absent,
    /// The variable is set to something that cannot be read, for this reason.
    Unreadable(String),
}

/// The value of a required variable, or the error that says why there is
/// none.
pub open spec fn required_value(name: &'static str, found: EnvLookup) -> Result<String, Error> {
    match found {
        EnvLookup::Found(value) => Ok(value),
        EnvLookup::Absent => Err(Error::MissingEnvVar(name)),
        EnvLookup::Unreadable(reason) => Err(Error::InvalidEnvVar { name, source: reason }),
    }
}

/// The value of a required variable, or the error that says why there is
/// none.
pub fn required_env(name: &'static str, found: EnvLookup) -> (r: Result<String, Error>)
    ensures
        r == required_value(name, found),
{
    match found {
        EnvLookup::Found(value) => Ok(value),
        EnvLookup::Absent => Err(Error::MissingEnvVar(name)),
        EnvLookup::Unreadable(reason) => Err(Error::InvalidEnvVar { name, source: reason }),
    }
}

/// The account that requests are made for.
#[derive(Debug, Clone)]
pub struct Config {
    pub username: String,
    pub password: String,
    pub tenant: String,
}

impl Config {
    /// What the three variables of the environment give: the account where all
    /// of them were found, else the error for the first that was not, in the
    /// order user name, password, tenant.
    pub open spec fn read(username: EnvLookup, password: EnvLookup, tenant: EnvLookup) -> Result<
        Config,
        Error,
    > {
        match required_value("ANTITHESIS_USERNAME", username) {
            Err(e) => Err(e),
            Ok(u) => match required_value("ANTITHESIS_PASSWORD", password) {
                Err(e) => Err(e),
                Ok(p) => match required_value("ANTITHESIS_TENANT", tenant) {
                    Err(e) => Err(e),
                    Ok(t) => Ok(Config { username: u, password: p, tenant: t }),
                },
            },
        }
    }

    /// The account with these credentials at this tenant.
    pub fn new(username: String, password: String, tenant: String) -> (config: Self)
        ensures
            config == (Config { username, password, tenant }),
    {
        Self { username, password, tenant }
    }

    /// The account that the environment describes, given what looking up
    /// `ANTITHESIS_USERNAME`, `ANTITHESIS_PASSWORD` and `ANTITHESIS_TENANT` gave.
    pub fn from_env(username: EnvLookup, password: EnvLookup, tenant: EnvLookup) -> (r: Result<
        Self,
        Error,
    >)
        ensures
            r == Config::read(username, password, tenant),
    {
        let username = match required_env("ANTITHESIS_USERNAME", username) {
            Ok(value) => value,
            Err(e) => return Err(e),
        };
        let password = match required_env("ANTITHESIS_PASSWORD", password) {
            Ok(value) => value,
            Err(e) => return Err(e),
        };
        let tenant = match required_env("ANTITHESIS_TENANT", tenant) {
            Ok(value) => value,
            Err(e) => return Err(e),
        };
        Ok(Self { username, password, tenant })
    }
}

/// How a request is made.
#[derive(Debug, Clone, Copy)]
pub enum Method {
    Get,
    Post,
}

/// A request to the service: where it goes and the credentials of its basic
/// authentication.
#[derive(Debug, Clone)]
pub struct Request {
    pub method: Method,
    pub url: String,
    pub username: String,
    pub password: String,
}

/// The texts of a [`Request`].
pub ghost struct RequestView {
    pub method: Method,
    pub url: Seq<char>,
    pub username: Seq<char>,
    pub password: Seq<char>,
}

impl View for Request {
    type V = RequestView;

    open spec fn view(&self) -> RequestView {
        RequestView {
            method: self.method,
            url: self.url@,
            username: self.username@,
            password: self.password@,
        }
    }
}

/// The service as seen from one account: the address that every path is
/// appended to, and the credentials.
#[derive(Debug, Clone)]
pub struct AntithesisApi {
    base_url: String,
    username: String,
    password: String,
}

/// The texts of an [`AntithesisApi`].
pub ghost struct ApiView {
    pub base_url: Seq<char>,
    pub username: Seq<char>,
    pub password: Seq<char>,
}

/// The address of a tenant's service.
pub open spec fn tenant_url(tenant: Seq<char>) -> Seq<char> {
    "https://"@ + tenant + ".antithesis.com/api/v1"@
}

impl View for AntithesisApi {
    type V = ApiView;

    closed spec fn view(&self) -> ApiView {
        ApiView { base_url: self.base_url@, username: self.username@, password: self.password@ }
    }
}

impl AntithesisApi {
    /// The service of the account's tenant.
    pub fn new(config: Config) -> (r: Result<Self, Error>)
        ensures
            r matches Ok(api) && api@ == (ApiView {
                base_url: tenant_url(config.tenant@),
                username: config.username@,
                password: config.password@,
            }),
    {
        let base_url = String::from_str("https://").concat(config.tenant.as_str()).concat(
            ".antithesis.com/api/v1",
        );
        proof {
            reveal_strlit(".antithesis.com/api/v1");
            let url = tenant_url(config.tenant@);
            assert(url.last() == '1');
            assert(without_trailing_slashes(url) == url);
        }
        Self::with_base_url(config, base_url.as_str())
    }

    /// The service of the account that the environment describes.
    pub fn from_env(username: EnvLookup, password: EnvLookup, tenant: EnvLookup) -> (r: Result<
        Self,
        Error,
    >)
        ensures
            (match Config::read(username, password, tenant) {
                Ok(config) => r matches Ok(api) && api@ == (ApiView {
                    base_url: tenant_url(config.tenant@),
                    username: config.username@,
                    password: config.password@,
                }),
                Err(e) => r matches Err(f) && f == e,
            }),
    {
        match Config::from_env(username, password, tenant) {
            Ok(config) => Self::new(config),
            Err(e) => Err(e),
        }
    }

    /// The service at `base_url`, whose trailing slashes are dropped.
    pub fn with_base_url(config: Config, base_url: &str) -> (r: Result<Self, Error>)
        ensures
            r matches Ok(api) && api@ == (ApiView {
                base_url: without_trailing_slashes(base_url@),
                username: config.username@,
                password: config.password@,
            }),
    {
        Ok(
            Self {
                base_url: String::from_str(trim_trailing_slashes(base_url)),
                username: config.username,
                password: config.password,
            },
        )
    }

    /// The address that every path is appended to.
    pub fn base_url(&self) -> (url: &str)
        ensures
            url@ == self@.base_url,
    {
        self.base_url.as_str()
    }

    /// A request that reads `path`.
    pub fn get(&self, path: &str) -> (request: Request)
        ensures
            request@ == (RequestView {
                method: Method::Get,
                url: self@.base_url + path@,
                username: self@.username,
                password: self@.password,
            }),
    {
        Request {
            method: Method::Get,
            url: self.base_url.clone().concat(path),
            username: self.username.clone(),
            password: self.password.clone(),
        }
    }

    /// A request that posts to `path`.
    pub fn post(&self, path: &str) -> (request: Request)
        ensures
            request@ == (RequestView {
                method: Method::Post,
                url: self@.base_url + path@,
                username: self@.username,
                password: self@.password,
            }),
    {
        Request {
            method: Method::Post,
            url: self.base_url.clone().concat(path),
            username: self.username.clone(),
            password: self.password.clone(),
        }
    }
}

} // verus!
