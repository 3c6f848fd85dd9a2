use std::cell::{Cell, RefCell};
use webext_sync::attached_client::{
    copy_clients, AttachedClient, Clock, Config, DeviceType, FirefoxAccount, FxAClient,
    RefreshToken, ATTACHED_CLIENTS_FRESHNESS_THRESHOLD,
};
use webext_sync::error::Error;

/// A server that answers each call with the next of the answers it was given.
struct FxAClientMock {
    attached_clients_answers: RefCell<Vec<Result<Vec<AttachedClient>, Error>>>,
    attached_clients_calls: Cell<u32>,
    destroy_answers: RefCell<Vec<Result<(), Error>>>,
    destroyed: RefCell<Vec<(String, Option<String>, Option<String>)>>,
    expected_token: String,
}

impl FxAClientMock {
    fn new() -> FxAClientMock {
        FxAClientMock {
            attached_clients_answers: RefCell::new(Vec::new()),
            attached_clients_calls: Cell::new(0),
            destroy_answers: RefCell::new(Vec::new()),
            destroyed: RefCell::new(Vec::new()),
            expected_token: "refreshtok".to_string(),
        }
    }

    fn expect_attached_clients(self, answer: Result<Vec<AttachedClient>, Error>) -> FxAClientMock {
        self.attached_clients_answers.borrow_mut().push(answer);
        self
    }

    fn expect_destroy(self, answer: Result<(), Error>) -> FxAClientMock {
        self.destroy_answers.borrow_mut().push(answer);
        self
    }
}

impl FxAClient for FxAClientMock {
    fn attached_clients(
        &self,
        _config: &Config,
        refresh_token: &str,
    ) -> Result<Vec<AttachedClient>, Error> {
        assert_eq!(refresh_token, self.expected_token);
        self.attached_clients_calls.set(self.attached_clients_calls.get() + 1);
        self.attached_clients_answers.borrow_mut().remove(0)
    }

    fn destroy_attached_client(
        &self,
        _config: &Config,
        refresh_token: &str,
        client_id: &str,
        session_token_id: Option<String>,
        device_id: Option<String>,
    ) -> Result<(), Error> {
        assert_eq!(refresh_token, self.expected_token);
        self.destroyed.borrow_mut().push((client_id.to_string(), session_token_id, device_id));
        self.destroy_answers.borrow_mut().remove(0)
    }
}

/// A clock that shows what it was last set to.
struct SetClock {
    now: Cell<u64>,
}

impl Clock for SetClock {
    fn now(&self) -> u64 {
        self.now.get()
    }
}

fn desktop_client() -> AttachedClient {
    AttachedClient {
        client_id: Some("12345678".to_string()),
        session_token_id: None,
        refresh_token_id: Some("refreshtok".to_string()),
        device_id: None,
        device_type: Some(DeviceType::Desktop),
        is_current_session: true,
        name: None,
        created_time: None,
        last_access_time: None,
        scope: None,
        user_agent: "attachedClientsUserAgent".to_string(),
        os: None,
    }
}

fn account(client: FxAClientMock, now: u64) -> FirefoxAccount<FxAClientMock, SetClock> {
    let config = Config::stable_dev("12345678", "https://foo.bar");
    let mut fxa = FirefoxAccount::with_config(config, client, SetClock { now: Cell::new(now) });
    fxa.refresh_token = Some(RefreshToken { token: "refreshtok".to_string(), scopes: Vec::new() });
    fxa
}

fn remote_error() -> Error {
    Error::RemoteError {
        code: 500,
        errno: 101,
        error: "Did not work!".to_owned(),
        message: "Did not work!".to_owned(),
        info: "Did not work!".to_owned(),
    }
}

#[test]
fn test_get_attached_clients() {
    let client = FxAClientMock::new().expect_attached_clients(Ok(vec![desktop_client()]));
    let mut fxa = account(client, 1_600_000_000_000);
    assert!(fxa.attached_clients_cache.is_none());

    let res = fxa.get_attached_clients();

    assert!(res.is_ok());
    assert!(fxa.attached_clients_cache.is_some());
    assert_eq!(fxa.client.attached_clients_calls.get(), 1);

    let cached_attached_clients_res = fxa.attached_clients_cache.unwrap();
    assert!(!cached_attached_clients_res.response.is_empty());
    assert!(cached_attached_clients_res.cached_at > 0);

    let cached_attached_client = &cached_attached_clients_res.response[0];
    assert_eq!(cached_attached_client.duplicate().client_id.unwrap(), "12345678".to_string());
}

#[test]
fn test_get_attached_clients_network_errors() {
    let client = FxAClientMock::new().expect_attached_clients(Err(remote_error()));
    let mut fxa = account(client, 1_600_000_000_000);
    assert!(fxa.attached_clients_cache.is_none());

    let res = fxa.get_attached_clients();
    assert!(res.is_err());
    assert!(fxa.attached_clients_cache.is_none());
    assert_eq!(res, Err(remote_error()));
    assert_eq!(fxa.client.attached_clients_calls.get(), 1);
}

#[test]
fn attached_clients_are_served_from_the_cache_while_fresh() {
    assert_eq!(ATTACHED_CLIENTS_FRESHNESS_THRESHOLD, 60_000);
    let mut second = desktop_client();
    second.name = Some("second answer".to_string());
    second.scope = Some(vec!["profile".to_string(), "sync".to_string()]);
    let client = FxAClientMock::new()
        .expect_attached_clients(Ok(vec![desktop_client()]))
        .expect_attached_clients(Ok(vec![desktop_client(), second.duplicate()]));
    let mut fxa = account(client, 1_000_000);

    assert_eq!(fxa.get_attached_clients(), Ok(vec![desktop_client()]));
    let cache = fxa.attached_clients_cache.as_ref().unwrap();
    assert_eq!(cache.cached_at, 1_000_000);
    assert_eq!(cache.etag, "");
    assert_eq!(cache.response, vec![desktop_client()]);

    // One millisecond before the answer goes stale: still from the cache.
    fxa.clock.now.set(1_059_999);
    assert_eq!(fxa.get_attached_clients(), Ok(vec![desktop_client()]));
    assert_eq!(fxa.client.attached_clients_calls.get(), 1);
    // A clock that went back finds the answer fresh.
    fxa.clock.now.set(5);
    assert_eq!(fxa.get_attached_clients(), Ok(vec![desktop_client()]));
    assert_eq!(fxa.client.attached_clients_calls.get(), 1);

    // At the threshold the server is asked again.
    fxa.clock.now.set(1_060_000);
    assert_eq!(fxa.get_attached_clients(), Ok(vec![desktop_client(), second.duplicate()]));
    assert_eq!(fxa.client.attached_clients_calls.get(), 2);
    let cache = fxa.attached_clients_cache.as_ref().unwrap();
    assert_eq!(cache.cached_at, 1_060_000);
    assert_eq!(cache.response, vec![desktop_client(), second]);
}

#[test]
fn cached_attached_clients_tells_fresh_from_stale() {
    let mut fxa = account(FxAClientMock::new(), 0);
    assert_eq!(fxa.cached_attached_clients(0), None);
    fxa.cache_attached_clients(&vec![desktop_client()], u64::MAX - 10);
    assert_eq!(fxa.cached_attached_clients(u64::MAX), Some(vec![desktop_client()]));
    assert_eq!(fxa.cached_attached_clients(0), Some(vec![desktop_client()]));
    fxa.cache_attached_clients(&vec![], 100);
    assert_eq!(fxa.cached_attached_clients(60_099), Some(vec![]));
    assert_eq!(fxa.cached_attached_clients(60_100), None);
    assert_eq!(fxa.cached_attached_clients(u64::MAX), None);
}

#[test]
fn a_stale_cache_stays_when_the_server_fails() {
    let client = FxAClientMock::new()
        .expect_attached_clients(Ok(vec![desktop_client()]))
        .expect_attached_clients(Err(remote_error()));
    let mut fxa = account(client, 1_000);
    assert!(fxa.get_attached_clients().is_ok());
    fxa.clock.now.set(100_000);
    assert_eq!(fxa.get_attached_clients(), Err(remote_error()));
    let cache = fxa.attached_clients_cache.as_ref().unwrap();
    assert_eq!(cache.cached_at, 1_000);
    assert_eq!(cache.response, vec![desktop_client()]);
}

#[test]
fn attached_clients_need_a_refresh_token() {
    let mut fxa = account(FxAClientMock::new(), 1_000);
    fxa.refresh_token = None;
    assert_eq!(fxa.get_refresh_token(), Err(Error::NoRefreshToken));
    assert_eq!(fxa.get_attached_clients(), Err(Error::NoRefreshToken));
    assert!(fxa.attached_clients_cache.is_none());
    assert_eq!(fxa.client.attached_clients_calls.get(), 0);
    assert_eq!(fxa.destroy_attached_client("id", None, None), Err(Error::NoRefreshToken));
    assert!(fxa.client.destroyed.borrow().is_empty());
}

#[test]
fn destroy_attached_client_hands_the_answer_on() {
    let client = FxAClientMock::new().expect_destroy(Ok(())).expect_destroy(Err(remote_error()));
    let fxa = account(client, 1_000);
    assert_eq!(fxa.get_refresh_token(), Ok(&"refreshtok".to_string()));
    assert_eq!(
        fxa.destroy_attached_client("client", Some("session".to_string()), None),
        Ok(())
    );
    assert_eq!(
        fxa.destroy_attached_client("other", None, Some("device".to_string())),
        Err(remote_error())
    );
    assert_eq!(
        *fxa.client.destroyed.borrow(),
        vec![
            ("client".to_string(), Some("session".to_string()), None),
            ("other".to_string(), None, Some("device".to_string())),
        ]
    );
}

#[test]
fn stable_dev_config() {
    let config = Config::stable_dev("12345678", "https://foo.bar");
    assert_eq!(config.content_url, "https://stable.dev.lcip.org");
    assert_eq!(config.client_id, "12345678");
    assert_eq!(config.redirect_uri, "https://foo.bar");
}

#[test]
fn copy_clients_copies_every_field() {
    let mut full = desktop_client();
    full.session_token_id = Some("s".to_string());
    full.device_id = Some("d".to_string());
    full.device_type = Some(DeviceType::Mobile);
    full.is_current_session = false;
    full.name = Some("n".to_string());
    full.created_time = Some(1);
    full.last_access_time = Some(2);
    full.scope = Some(vec!["a".to_string(), "b".to_string()]);
    full.os = Some("o".to_string());
    let clients = vec![desktop_client(), full];
    assert_eq!(copy_clients(&clients), clients);
}
