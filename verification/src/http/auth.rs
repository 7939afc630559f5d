//! Authentication of HTTP requests: the header that each way of
//! authenticating adds, and a rotation among several of them.

use vstd::prelude::*;
use crate::encoding::{base64_text, standard_encode};
use crate::error::{Error, ErrorView};
use crate::text::{decimal_string, decimal_text, join2, join3, join4, owned};

verus! {

/// A way of authenticating a request.
#[derive(Debug, Clone)]
pub enum AuthConfig {
    /// A bearer token.
    Bearer(String),
    /// A user name and a password.
    Basic { username: String, password: String },
    /// An API key in a header of the caller's choice.
    ApiKey { key: String, header: String },
    /// Any header with any value.
    Custom { header: String, value: String },
}

/// The content of a way of authenticating.
pub enum AuthView {
    Bearer(Seq<char>),
    Basic { username: Seq<char>, password: Seq<char> },
    ApiKey { key: Seq<char>, header: Seq<char> },
    Custom { header: Seq<char>, value: Seq<char> },
}

impl View for AuthConfig {
    type V = AuthView;

    open spec fn view(&self) -> AuthView {
        match self {
            AuthConfig::Bearer(token) => AuthView::Bearer(token@),
            AuthConfig::Basic { username, password } => AuthView::Basic {
                username: username@,
                password: password@,
            },
            AuthConfig::ApiKey { key, header } => AuthView::ApiKey { key: key@, header: header@ },
            AuthConfig::Custom { header, value } => AuthView::Custom {
                header: header@,
                value: value@,
            },
        }
    }
}

impl AuthView {
    /// The name of the way of authenticating.
    pub open spec fn kind(self) -> Seq<char> {
        match self {
            AuthView::Bearer(_) => "Bearer"@,
            AuthView::Basic { .. } => "Basic"@,
            AuthView::ApiKey { .. } => "API Key"@,
            AuthView::Custom { .. } => "Custom"@,
        }
    }

    /// Whether no part is empty.
    pub open spec fn is_valid(self) -> bool {
        match self {
            AuthView::Bearer(token) => token.len() > 0,
            AuthView::Basic { username, password } => username.len() > 0 && password.len() > 0,
            AuthView::ApiKey { key, header } => key.len() > 0 && header.len() > 0,
            AuthView::Custom { header, value } => header.len() > 0 && value.len() > 0,
        }
    }

    /// The name of the header that this way of authenticating adds.
    pub open spec fn header_name(self) -> Seq<char> {
        match self {
            AuthView::Bearer(_) => "authorization"@,
            AuthView::Basic { .. } => "authorization"@,
            AuthView::ApiKey { key, header } => header,
            AuthView::Custom { header, value } => header,
        }
    }

    /// The value of that header, given the Base64 text of the credentials
    /// `username:password` where there are any.
    pub open spec fn header_value(self, credentials: Seq<char>) -> Seq<char> {
        match self {
            AuthView::Bearer(token) => "Bearer "@ + token,
            AuthView::Basic { .. } => "Basic "@ + credentials,
            AuthView::ApiKey { key, header } => key,
            AuthView::Custom { header, value } => value,
        }
    }
}

/// The Base64 text of `username:password`.
pub open spec fn encoded_credentials(username: Seq<char>, password: Seq<char>) -> Seq<char> {
    base64_text(vstd::utf8::encode_utf8(username + ":"@ + password))
}

impl AuthConfig {
    /// A bearer token.
    pub fn bearer(token: &str) -> (a: AuthConfig)
        ensures
            a@ == AuthView::Bearer(token@),
    {
        AuthConfig::Bearer(owned(token))
    }

    /// A user name and a password.
    pub fn basic(username: &str, password: &str) -> (a: AuthConfig)
        ensures
            a@ == (AuthView::Basic { username: username@, password: password@ }),
    {
        AuthConfig::Basic { username: owned(username), password: owned(password) }
    }

    /// An API key for the header `header`.
    pub fn api_key(key: &str, header: &str) -> (a: AuthConfig)
        ensures
            a@ == (AuthView::ApiKey { key: key@, header: header@ }),
    {
        AuthConfig::ApiKey { key: owned(key), header: owned(header) }
    }

    /// The header `header` with the value `value`.
    pub fn custom(header: &str, value: &str) -> (a: AuthConfig)
        ensures
            a@ == (AuthView::Custom { header: header@, value: value@ }),
    {
        AuthConfig::Custom { header: owned(header), value: owned(value) }
    }

    /// The name of the way of authenticating.
    pub fn auth_type(&self) -> (name: &'static str)
        ensures
            name@ == self@.kind(),
    {
        match self {
            AuthConfig::Bearer(_) => "Bearer",
            AuthConfig::Basic { .. } => "Basic",
            AuthConfig::ApiKey { .. } => "API Key",
            AuthConfig::Custom { .. } => "Custom",
        }
    }

    /// Whether no part is empty.
    pub fn is_valid(&self) -> (b: bool)
        ensures
            b == self@.is_valid(),
    {
        match self {
            AuthConfig::Bearer(token) => !token.as_str().is_empty(),
            AuthConfig::Basic { username, password } => !username.as_str().is_empty()
                && !password.as_str().is_empty(),
            AuthConfig::ApiKey { key, header } => !key.as_str().is_empty()
                && !header.as_str().is_empty(),
            AuthConfig::Custom { header, value } => !header.as_str().is_empty()
                && !value.as_str().is_empty(),
        }
    }

    /// The header that this way of authenticating adds, given the Base64
    /// text of the credentials where there are any.
    pub fn header_with(&self, credentials: &str) -> (h: (String, String))
        ensures
            h.0@ == self@.header_name(),
            h.1@ == self@.header_value(credentials@),
    {
        match self {
            AuthConfig::Bearer(token) => (owned("authorization"), join2("Bearer ", token.as_str())),
            AuthConfig::Basic { .. } => (owned("authorization"), join2("Basic ", credentials)),
            AuthConfig::ApiKey { key, header } => (header.clone(), key.clone()),
            AuthConfig::Custom { header, value } => (header.clone(), value.clone()),
        }
    }

    /// The header that this way of authenticating adds to a request: its name and its value.
    pub fn header(&self) -> (h: (String, String))
        ensures
            h.0@ == self@.header_name(),
            h.1@ == self@.header_value(
                match self {
                    AuthConfig::Basic { username, password } => encoded_credentials(
                        username@,
                        password@,
                    ),
                    _ => Seq::empty(),
                },
            ),
    {
        match self {
            AuthConfig::Basic { username, password } => {
                let plain = join3(username.as_str(), ":", password.as_str());
                let encoded = standard_encode(plain.as_str().as_bytes());
                self.header_with(encoded.as_str())
            },
            _ => {
                proof {
                    reveal_strlit("");
                    assert(""@ =~= Seq::<char>::empty());
                }
                self.header_with("")
            },
        }
    }
}

/// The content of each way of authenticating, in order.
pub open spec fn auth_views(list: Seq<AuthConfig>) -> Seq<AuthView> {
    Seq::new(list.len(), |i: int| list[i]@)
}

/// Several ways of authenticating, one of them the current one.
pub struct AuthManager {
    auth_configs: Vec<AuthConfig>,
    current_index: usize,
}

/// The message for an index that names no way of authenticating.
pub open spec fn invalid_index(index: nat, available: nat) -> Seq<char> {
    "Invalid auth index: "@ + decimal_text(index) + ". Available: "@ + decimal_text(available)
}

impl AuthManager {
    /// The current index names a stored way of authenticating, or is 0
    /// where none is stored.
    #[verifier::type_invariant]
    spec fn well_formed(self) -> bool {
        if self.auth_configs@.len() == 0 {
            self.current_index == 0
        } else {
            self.current_index < self.auth_configs@.len()
        }
    }

    /// The ways of authenticating, in the order in which they were added.
    pub closed spec fn configs(&self) -> Seq<AuthView> {
        auth_views(self.auth_configs@)
    }

    /// The position of the current way of authenticating.
    pub closed spec fn current(&self) -> nat {
        self.current_index as nat
    }

    pub fn new() -> (m: AuthManager)
        ensures
            m.configs() == Seq::<AuthView>::empty(),
            m.current() == 0,
    {
        let m = AuthManager { auth_configs: Vec::new(), current_index: 0 };
        assert(m.configs() =~= Seq::empty());
        m
    }

    /// Takes the parts out of the manager and leaves it empty.
    fn take_parts(&mut self) -> (parts: (Vec<AuthConfig>, usize))
        ensures
            auth_views(parts.0@) == old(self).configs(),
            parts.1 == old(self).current(),
            if parts.0@.len() == 0 {
                parts.1 == 0
            } else {
                parts.1 < parts.0@.len()
            },
            final(self).configs() == Seq::<AuthView>::empty(),
            final(self).current() == 0,
    {
        let mut taken = AuthManager::new();
        core::mem::swap(self, &mut taken);
        proof {
            use_type_invariant(&taken);
        }
        let AuthManager { auth_configs, current_index } = taken;
        (auth_configs, current_index)
    }

    /// Adds a way of authenticating behind the others.
    pub fn add_auth(&mut self, auth: AuthConfig)
        ensures
            final(self).configs() == old(self).configs().push(auth@),
            final(self).current() == old(self).current(),
    {
        let (mut configs, index) = self.take_parts();
        configs.push(auth);
        *self = AuthManager { auth_configs: configs, current_index: index };
        assert(final(self).configs() =~= old(self).configs().push(auth@));
    }

    /// The current way of authenticating: there is one exactly when a way
    /// of authenticating is stored.
    pub fn current_auth(&self) -> (r: Option<&AuthConfig>)
        ensures
            match r {
                Some(a) => self.configs().len() > 0 && self.current() < self.configs().len()
                    && a@ == self.configs()[self.current() as int],
                None => self.configs().len() == 0 && self.current() == 0,
            },
    {
        proof {
            use_type_invariant(self);
        }
        if self.current_index < self.auth_configs.len() {
            assert(self.configs()[self.current_index as int]
                == self.auth_configs@[self.current_index as int]@);
            Some(&self.auth_configs[self.current_index])
        } else {
            None
        }
    }

    /// Moves on to the next way of authenticating, from the last to the
    /// first, and gives the new current one.
    pub fn rotate_auth(&mut self) -> (r: Option<&AuthConfig>)
        ensures
            final(self).configs() == old(self).configs(),
            match r {
                Some(a) => old(self).configs().len() > 0 && final(self).current() == (old(self).current() + 1) % old(self).configs().len() && a@ == final(self).configs()[final(self).current() as int],
                None => old(self).configs().len() == 0 && final(self).current() == old(self).current(),
            },
    {
        proof {
            use_type_invariant(&*self);
        }
        if self.auth_configs.is_empty() {
            return None;
        }
        let len = self.auth_configs.len();
        proof {
            if self.current_index + 1 == len {
                vstd::arithmetic::div_mod::lemma_mod_self_0(len as int);
            } else {
                vstd::arithmetic::div_mod::lemma_small_mod(
                    (self.current_index + 1) as nat,
                    len as nat,
                );
            }
        }
        self.current_index = if self.current_index + 1 == len {
            0
        } else {
            self.current_index + 1
        };
        self.current_auth()
    }

    /// Makes the way of authenticating at `index` the current one.
    pub fn set_current_index(&mut self, index: usize) -> (r: Result<(), Error>)
        ensures
            final(self).configs() == old(self).configs(),
            match r {
                Ok(()) => index < old(self).configs().len() && final(self).current() == index,
                Err(e) => index >= old(self).configs().len() && final(self).current() == old(self).current() && e@ == ErrorView::Http(
                    invalid_index(index as nat, old(self).configs().len()),
                ),
            },
    {
        if index >= self.auth_configs.len() {
            return Err(
                Error::Http(
                    join4(
                        "Invalid auth index: ",
                        decimal_string(index as u64).as_str(),
                        ". Available: ",
                        decimal_string(self.auth_configs.len() as u64).as_str(),
                    ),
                ),
            );
        }
        self.current_index = index;
        Ok(())
    }

    /// How many ways of authenticating there are.
    pub fn auth_count(&self) -> (n: usize)
        ensures
            n == self.configs().len(),
    {
        self.auth_configs.len()
    }

    /// Forgets every way of authenticating.
    pub fn clear(&mut self)
        ensures
            final(self).configs() == Seq::<AuthView>::empty(),
            final(self).current() == 0,
    {
        let _ = self.take_parts();
    }
}

/// Fetches a fresh token by means that the caller supplies.
pub struct TokenRefresher<F: Fn() -> Result<String, Error>> {
    refresh_fn: F,
}

impl<F: Fn() -> Result<String, Error>> TokenRefresher<F> {
    #[verifier::type_invariant]
    spec fn callable(self) -> bool {
        call_requires(self.refresh_fn, ())
    }

    /// The caller's means of fetching a token.
    pub closed spec fn source(&self) -> F {
        self.refresh_fn
    }

    /// A refresher that calls `refresh_fn` for each fresh token.
    pub fn new(refresh_fn: F) -> (r: TokenRefresher<F>)
        requires
            call_requires(refresh_fn, ()),
        ensures
            r.source() == refresh_fn,
    {
        TokenRefresher { refresh_fn }
    }

    /// A fresh token, or the error of the caller's means: whatever they give.
    pub fn refresh(&self) -> (r: Result<String, Error>)
        ensures
            call_ensures(self.source(), (), r),
    {
        proof {
            use_type_invariant(self);
        }
        (self.refresh_fn)()
    }
}

/// A way of authenticating, with the means to refresh its token if there are any.
pub struct AutoRefreshAuth<F: Fn() -> Result<String, Error>> {
    auth_config: AuthConfig,
    refresher: Option<TokenRefresher<F>>,
}

impl<F: Fn() -> Result<String, Error>> AutoRefreshAuth<F> {
    /// The way of authenticating.
    pub closed spec fn config(&self) -> AuthView {
        self.auth_config@
    }

    /// The means of fetching a token, if there are any.
    pub closed spec fn refresh_source(&self) -> Option<F> {
        match self.refresher {
            Some(r) => Some(r.source()),
            None => None,
        }
    }

    /// The way of authenticating, without means to refresh its token.
    pub fn new(auth_config: AuthConfig) -> (a: AutoRefreshAuth<F>)
        ensures
            a.config() == auth_config@,
            a.refresh_source() is None,
    {
        AutoRefreshAuth { auth_config, refresher: None }
    }

    /// The same way of authenticating, with the means to refresh its token.
    pub fn with_refresher(self, refresher: TokenRefresher<F>) -> (a: AutoRefreshAuth<F>)
        ensures
            a.config() == self.config(),
            a.refresh_source() == Some(refresher.source()),
    {
        AutoRefreshAuth { auth_config: self.auth_config, refresher: Some(refresher) }
    }

    /// The way of authenticating.
    pub fn auth_config(&self) -> (r: &AuthConfig)
        ensures
            r@ == self.config(),
    {
        &self.auth_config
    }

    /// A fresh token where there are means to fetch one, their error where
    /// they fail, and nothing where there are none.
    pub fn refresh_token(&self) -> (r: Result<Option<String>, Error>)
        ensures
            match self.refresh_source() {
                None => r == Ok::<Option<String>, Error>(None),
                Some(f) => match r {
                    Ok(Some(token)) => call_ensures(f, (), Ok::<String, Error>(token)),
                    Ok(None) => false,
                    Err(e) => call_ensures(f, (), Err::<String, Error>(e)),
                },
            },
    {
        match &self.refresher {
            Some(refresher) => match refresher.refresh() {
                Ok(token) => Ok(Some(token)),
                Err(e) => Err(e),
            },
            None => Ok(None),
        }
    }
}

} // verus!
