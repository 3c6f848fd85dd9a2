//! The clients attached to an account, asked of the server at most once a
//! minute: a fresh answer is served from a cache.
use vstd::prelude::*;
use crate::error::Error;
use crate::rows::copy_text;

verus! {

/// For how many milliseconds an answer of the server counts as fresh.
pub const ATTACHED_CLIENTS_FRESHNESS_THRESHOLD: u64 = 60_000;

/// The kind of device that a client runs on.
#[derive(Debug, Clone, Copy, PartialEq, Eq)]
pub enum DeviceType {
    Desktop,
    Mobile,
    Tablet,
    VR,
    TV,
    Unknown,
}

/// One client attached to the account, as the server describes it.
#[derive(Debug, PartialEq, Eq)]
pub struct AttachedClient {
    pub client_id: Option<String>,
    pub session_token_id: Option<String>,
    pub refresh_token_id: Option<String>,
    pub device_id: Option<String>,
    pub device_type: Option<DeviceType>,
    pub is_current_session: bool,
    pub name: Option<String>,
    pub created_time: Option<u64>,
    pub last_access_time: Option<u64>,
    pub scope: Option<Vec<String>>,
    pub user_agent: String,
    pub os: Option<String>,
}

pub struct AttachedClientView {
    pub client_id: Option<Seq<char>>,
    pub session_token_id: Option<Seq<char>>,
    pub refresh_token_id: Option<Seq<char>>,
    pub device_id: Option<Seq<char>>,
    pub device_type: Option<DeviceType>,
    pub is_current_session: bool,
    pub name: Option<Seq<char>>,
    pub created_time: Option<u64>,
    pub last_access_time: Option<u64>,
    pub scope: Option<Seq<Seq<char>>>,
    pub user_agent: Seq<char>,
    pub os: Option<Seq<char>>,
}

impl View for AttachedClient {
    type V = AttachedClientView;

    open spec fn view(&self) -> AttachedClientView {
        AttachedClientView {
            client_id: self.client_id.deep_view(),
            session_token_id: self.session_token_id.deep_view(),
            refresh_token_id: self.refresh_token_id.deep_view(),
            device_id: self.device_id.deep_view(),
            device_type: self.device_type,
            is_current_session: self.is_current_session,
            name: self.name.deep_view(),
            created_time: self.created_time,
            last_access_time: self.last_access_time,
            scope: self.scope.deep_view(),
            user_agent: self.user_agent@,
            os: self.os.deep_view(),
        }
    }
}

pub open spec fn client_views(clients: Seq<AttachedClient>) -> Seq<AttachedClientView> {
    clients.map_values(|c: AttachedClient| c@)
}

fn copy_texts(texts: &Vec<String>) -> (copy: Vec<String>)
    ensures
        copy.deep_view() == texts.deep_view(),
{
    let mut copy: Vec<String> = Vec::new();
    let mut idx: usize = 0;
    while idx < texts.len()
        invariant
            idx <= texts.len(),
            copy.len() == idx,
            forall|j: int| 0 <= j < idx ==> (#[trigger] copy[j])@ == texts[j]@,
        decreases texts.len() - idx,
    {
        copy.push(texts[idx].clone());
        idx += 1;
    }
    copy
}

impl AttachedClient {
    /// A copy of the description.
    pub fn duplicate(&self) -> (copy: AttachedClient)
        ensures
            copy@ == self@,
    {
        AttachedClient {
            client_id: copy_text(&self.client_id),
            session_token_id: copy_text(&self.session_token_id),
            refresh_token_id: copy_text(&self.refresh_token_id),
            device_id: copy_text(&self.device_id),
            device_type: self.device_type,
            is_current_session: self.is_current_session,
            name: copy_text(&self.name),
            created_time: self.created_time,
            last_access_time: self.last_access_time,
            scope: match &self.scope {
                Some(scope) => Some(copy_texts(scope)),
                None => None,
            },
            user_agent: self.user_agent.clone(),
            os: copy_text(&self.os),
        }
    }
}

/// A copy of a list of clients.
pub fn copy_clients(clients: &Vec<AttachedClient>) -> (copy: Vec<AttachedClient>)
    ensures
        client_views(copy@) == client_views(clients@),
{
    let mut copy: Vec<AttachedClient> = Vec::new();
    let mut idx: usize = 0;
    while idx < clients.len()
        invariant
            idx <= clients.len(),
            copy.len() == idx,
            forall|j: int| 0 <= j < idx ==> (#[trigger] copy[j])@ == clients[j]@,
        decreases clients.len() - idx,
    {
        copy.push(clients[idx].duplicate());
        idx += 1;
    }
    copy
}

/// An answer of the server with the time at which it came.
#[derive(Debug, PartialEq, Eq)]
pub struct CachedResponse {
    pub response: Vec<AttachedClient>,
    pub cached_at: u64,
    pub etag: String,
}

/// Where the account's server is, and who asks.
#[derive(Debug, PartialEq, Eq)]
pub struct Config {
    pub content_url: String,
    pub client_id: String,
    pub redirect_uri: String,
}

impl Config {
    /// The configuration for the stable development server.
    pub fn stable_dev(client_id: &str, redirect_uri: &str) -> (config: Config)
        ensures
            config.content_url@ == "https://stable.dev.lcip.org"@,
            config.client_id@ == client_id@,
            config.redirect_uri@ == redirect_uri@,
    {
        Config {
            content_url: "https://stable.dev.lcip.org".to_owned(),
            client_id: client_id.to_owned(),
            redirect_uri: redirect_uri.to_owned(),
        }
    }
}

/// The token that the account speaks to the server with.
#[derive(Debug, PartialEq, Eq)]
pub struct RefreshToken {
    pub token: String,
    pub scopes: Vec<String>,
}

/// The account's server. Its answers come over the network: nothing is
/// known of them in advance.
pub trait FxAClient {
    fn attached_clients(&self, config: &Config, refresh_token: &str) -> Result<
        Vec<AttachedClient>,
        Error,
    >;

    fn destroy_attached_client(
        &self,
        config: &Config,
        refresh_token: &str,
        client_id: &str,
        session_token_id: Option<String>,
        device_id: Option<String>,
    ) -> Result<(), Error>;
}

/// The time of day, in milliseconds since the epoch.
pub trait Clock {
    fn now(&self) -> u64;
}

/// An account, with the server it speaks to and the clock it reads.
pub struct FirefoxAccount<C: FxAClient, K: Clock> {
    pub client: C,
    pub clock: K,
    pub config: Config,
    pub refresh_token: Option<RefreshToken>,
    pub attached_clients_cache: Option<CachedResponse>,
}

/// Whether an answer cached at `cached_at` is still fresh at `now`.
pub open spec fn is_fresh(cached_at: u64, now: u64) -> bool {
    now < cached_at + ATTACHED_CLIENTS_FRESHNESS_THRESHOLD
}

/// What the cache answers at `now`: the cached clients while they are fresh.
pub open spec fn cached_answer(cache: Option<CachedResponse>, now: u64) -> Option<
    Seq<AttachedClientView>,
> {
    match cache {
        Some(c) => if is_fresh(c.cached_at, now) {
            Some(client_views(c.response@))
        } else {
            None
        },
        None => None,
    }
}

impl<C: FxAClient, K: Clock> FirefoxAccount<C, K> {
    /// An account without a refresh token and with an empty cache.
    pub fn with_config(config: Config, client: C, clock: K) -> (account: Self)
        ensures
            account.config == config,
            account.client == client,
            account.clock == clock,
            account.refresh_token is None,
            account.attached_clients_cache is None,
    {
        FirefoxAccount { client, clock, config, refresh_token: None, attached_clients_cache: None }
    }

    /// The refresh token, or `Error::NoRefreshToken` where the account has
    /// none.
    pub fn get_refresh_token(&self) -> (result: Result<&String, Error>)
        ensures
            match result {
                Ok(token) => self.refresh_token matches Some(t) && t.token == *token,
                Err(e) => self.refresh_token is None && e == Error::NoRefreshToken,
            },
    {
        match &self.refresh_token {
            Some(t) => Ok(&t.token),
            None => Err(Error::NoRefreshToken),
        }
    }

    /// The cached clients, if the cache holds an answer that is fresh at
    /// `now`.
    pub fn cached_attached_clients(&self, now: u64) -> (cached: Option<Vec<AttachedClient>>)
        ensures
            match cached {
                Some(clients) => cached_answer(self.attached_clients_cache, now) == Some(
                    client_views(clients@),
                ),
                None => cached_answer(self.attached_clients_cache, now) is None,
            },
    {
        match &self.attached_clients_cache {
            Some(a) => {
                if now < a.cached_at || now - a.cached_at < ATTACHED_CLIENTS_FRESHNESS_THRESHOLD {
                    Some(copy_clients(&a.response))
                } else {
                    None
                }
            },
            None => None,
        }
    }

    /// Puts an answer of the server into the cache, as of `now`.
    pub fn cache_attached_clients(&mut self, response: &Vec<AttachedClient>, now: u64)
        ensures
            final(self).attached_clients_cache matches Some(c) && client_views(c.response@)
                == client_views(response@) && c.cached_at == now && c.etag@ == Seq::<char>::empty(),
            final(self).client == old(self).client,
            final(self).clock == old(self).clock,
            final(self).config == old(self).config,
            final(self).refresh_token == old(self).refresh_token,
    {
        self.attached_clients_cache = Some(
            CachedResponse { response: copy_clients(response), cached_at: now, etag: String::new() },
        );
    }

    /// The clients attached to the account: from the cache while it is fresh,
    /// from the server otherwise. An answer of the server is cached; an error
    /// leaves the cache as it was. Without a cached answer and without a
    /// refresh token the result is `Error::NoRefreshToken`.
    pub fn get_attached_clients(&mut self) -> (result: Result<Vec<AttachedClient>, Error>)
        ensures
            final(self).client == old(self).client,
            final(self).clock == old(self).clock,
            final(self).config == old(self).config,
            final(self).refresh_token == old(self).refresh_token,
            match result {
                Ok(clients) => final(self).attached_clients_cache matches Some(c) && client_views(
                    c.response@,
                ) == client_views(clients@),
                Err(_) => final(self).attached_clients_cache == old(self).attached_clients_cache,
            },
            old(self).attached_clients_cache is None && old(self).refresh_token is None ==> result
                == Err::<Vec<AttachedClient>, Error>(Error::NoRefreshToken),
    {
        if self.attached_clients_cache.is_some() {
            let now = self.clock.now();
            if let Some(cached) = self.cached_attached_clients(now) {
                return Ok(cached);
            }
        }
        let response = match self.get_refresh_token() {
            Ok(refresh_token) => {
                match self.client.attached_clients(&self.config, refresh_token.as_str()) {
                    Ok(response) => response,
                    Err(e) => {
                        return Err(e);
                    },
                }
            },
            Err(e) => {
                return Err(e);
            },
        };
        let cached_at = self.clock.now();
        self.cache_attached_clients(&response, cached_at);
        Ok(response)
    }

    /// Asks the server to detach a client. Without a refresh token the
    /// result is `Error::NoRefreshToken`; otherwise it is the server's answer.
    pub fn destroy_attached_client(
        &self,
        client_id: &str,
        session_token_id: Option<String>,
        device_id: Option<String>,
    ) -> (result: Result<(), Error>)
        ensures
            self.refresh_token is None ==> result == Err::<(), Error>(Error::NoRefreshToken),
    {
        match self.get_refresh_token() {
            Ok(refresh_token) => self.client.destroy_attached_client(
                &self.config,
                refresh_token.as_str(),
                client_id,
                session_token_id,
                device_id,
            ),
            Err(e) => Err(e),
        }
    }
}

} // verus!
