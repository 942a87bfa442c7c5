use crate::json::{json_parsed, member_text, opt_view, parse, text_member};
use vstd::prelude::*;

verus! {

/// The base endpoint that is used where none is stored.
pub const DEFAULT_BASE: &'static str = "https://demo.plone.org/++api++/";

/// A held credential and what is known about it.
#[derive(Debug, Clone, PartialEq, Eq)]
pub struct AuthData {
    pub mode: String,
    pub token: String,
    pub updated_at: i64,
    pub username: Option<String>,
    pub token_exp: Option<i64>,
}

/// The mathematical content of an `AuthData`.
pub struct AuthView {
    pub mode: Seq<char>,
    pub token: Seq<char>,
    pub updated_at: int,
    pub username: Option<Seq<char>>,
    pub token_exp: Option<int>,
}

impl View for AuthData {
    type V = AuthView;

    open spec fn view(&self) -> AuthView {
        AuthView {
            mode: self.mode@,
            token: self.token@,
            updated_at: self.updated_at as int,
            username: opt_view(self.username),
            token_exp: match self.token_exp {
                Some(e) => Some(e as int),
                None => None,
            },
        }
    }
}

/// The base endpoint and the session held against it, if any.
#[derive(Debug, Clone, PartialEq, Eq)]
pub struct Config {
    pub base: String,
    pub auth: Option<AuthData>,
}

/// The mathematical content of a `Config`.
pub struct ConfigView {
    pub base: Seq<char>,
    pub auth: Option<AuthView>,
}

/// The view of an optional session.
pub open spec fn auth_view(auth: Option<AuthData>) -> Option<AuthView> {
    match auth {
        Some(a) => Some(a@),
        None => None,
    }
}

impl View for Config {
    type V = ConfigView;

    open spec fn view(&self) -> ConfigView {
        ConfigView { base: self.base@, auth: auth_view(self.auth) }
    }
}

/// The configuration that is used where nothing is stored: the default base
/// endpoint and no session.
pub open spec fn default_config() -> ConfigView {
    ConfigView { base: DEFAULT_BASE@, auth: None }
}

/// The configuration that a stored document gives. Nothing stored, or a text
/// that is no JSON document, gives the default; a document gives its `base`
/// member where that is a string, else the default base, and the session that
/// was read from it.
pub open spec fn loaded_config(content: Option<Seq<char>>, auth: Option<AuthView>) -> ConfigView {
    match content {
        None => default_config(),
        Some(text) => match json_parsed(vstd::utf8::encode_utf8(text)) {
            None => default_config(),
            Some(doc) => ConfigView {
                base: match text_member(doc, "base"@) {
                    Some(b) => b,
                    None => DEFAULT_BASE@,
                },
                auth,
            },
        },
    }
}

impl AuthData {
    /// A copy of the session.
    pub fn copy(&self) -> (r: AuthData)
        ensures
            r@ == self@,
    {
        AuthData {
            mode: self.mode.clone(),
            token: self.token.clone(),
            updated_at: self.updated_at,
            username: match &self.username {
                Some(u) => Some(u.clone()),
                None => None,
            },
            token_exp: self.token_exp,
        }
    }
}

impl Config {
    /// The configuration that is used where nothing is stored.
    pub fn new() -> (r: Config)
        ensures
            r@ == default_config(),
    {
        Config { base: DEFAULT_BASE.to_owned(), auth: None }
    }

    /// The configuration that the stored text `content` gives, with `auth` the
    /// session that was read from it.
    pub fn load(content: Option<&str>, auth: Option<AuthData>) -> (r: Config)
        ensures
            r@ == loaded_config(
                match content {
                    Some(c) => Some(c@),
                    None => None,
                },
                auth_view(auth),
            ),
    {
        match content {
            None => Config::new(),
            Some(text) => match parse(text.as_bytes()) {
                None => Config::new(),
                Some(doc) => {
                    let base = match member_text(&doc, "base") {
                        Some(b) => b,
                        None => DEFAULT_BASE.to_owned(),
                    };
                    Config { base, auth }
                },
            },
        }
    }

    /// A copy of the configuration.
    pub fn copy(&self) -> (r: Config)
        ensures
            r@ == self@,
    {
        Config {
            base: self.base.clone(),
            auth: match &self.auth {
                Some(a) => Some(a.copy()),
                None => None,
            },
        }
    }

    /// The base endpoint.
    pub fn get_base_url(&self) -> (r: String)
        ensures
            r@ == self@.base,
    {
        self.base.clone()
    }

    /// Sets the base endpoint. The session was held against the endpoint before
    /// and is dropped.
    pub fn set_base_url(&mut self, base: String)
        ensures
            final(self)@ == (ConfigView { base: base@, auth: None }),
    {
        self.base = base;
        self.auth = None;
    }

    /// Drops the session; the base endpoint stays.
    pub fn clear(&mut self)
        ensures
            final(self)@ == (ConfigView { base: old(self)@.base, auth: None }),
    {
        self.auth = None;
    }

    /// Replaces the endpoint and the session together, as a login does.
    pub fn set_session(&mut self, base: String, auth: AuthData)
        ensures
            final(self)@ == (ConfigView { base: base@, auth: Some(auth@) }),
    {
        self.base = base;
        self.auth = Some(auth);
    }

    /// Replaces the session and keeps the endpoint, as a renewal does.
    pub fn renew_session(&mut self, auth: AuthData)
        ensures
            final(self)@ == (ConfigView { base: old(self)@.base, auth: Some(auth@) }),
    {
        self.auth = Some(auth);
    }
}

} // verus!
