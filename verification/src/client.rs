use vstd::prelude::*;
use vstd::string::*;

use crate::codec::{enc_jar, sp_jar, sp_obj, ObjValue};
use crate::session::{HttpRequest, Session, UserData};
use crate::store::{
    find_cookie, fresh, has_key, key_unique, same_key, storable, Cookie, CookieModel, Store,
};
use crate::Error;

verus! {

/// Where the client stands in the login flow. A pending session awaits
/// code confirmation; a confirmed one authenticates requests.
pub enum SessionState {
    NoSession,
    Pending(Session),
    Confirmed(Session),
}

/// Configuration of a client, assembled step by step and sealed by
/// `build`.
pub struct ClientBuilder {
    pub store_path: String,
    pub session_cookie_domain: String,
    pub session_cookie_name: String,
    pub rpc_addr: String,
    pub broker_addr: String,
}

impl Default for ClientBuilder {
    fn default() -> (r: ClientBuilder)
        ensures
            r.store_path@ == "cookies.json"@,
            r.session_cookie_domain@ == "127.0.0.1"@,
            r.session_cookie_name@ == "id"@,
            r.rpc_addr@ == "http://127.0.0.1:8000"@,
            r.broker_addr@ == "http://127.0.0.1:3333"@,
    {
        ClientBuilder {
            store_path: "cookies.json".to_owned(),
            session_cookie_domain: "127.0.0.1".to_owned(),
            session_cookie_name: "id".to_owned(),
            rpc_addr: "http://127.0.0.1:8000".to_owned(),
            broker_addr: "http://127.0.0.1:3333".to_owned(),
        }
    }
}

impl ClientBuilder {
    pub fn new() -> (r: ClientBuilder)
        ensures
            r.store_path@ == "cookies.json"@,
            r.session_cookie_domain@ == "127.0.0.1"@,
            r.session_cookie_name@ == "id"@,
            r.rpc_addr@ == "http://127.0.0.1:8000"@,
            r.broker_addr@ == "http://127.0.0.1:3333"@,
    {
        Self::default()
    }

    pub fn with_store(self, path: String) -> (r: Self)
        ensures
            r.store_path == path,
            r.session_cookie_domain == self.session_cookie_domain,
            r.session_cookie_name == self.session_cookie_name,
            r.rpc_addr == self.rpc_addr,
            r.broker_addr == self.broker_addr,
    {
        ClientBuilder { store_path: path, ..self }
    }

    pub fn with_session_cookie_domain(self, endpoint: String) -> (r: Self)
        ensures
            r.session_cookie_domain == endpoint,
            r.store_path == self.store_path,
            r.session_cookie_name == self.session_cookie_name,
            r.rpc_addr == self.rpc_addr,
            r.broker_addr == self.broker_addr,
    {
        ClientBuilder { session_cookie_domain: endpoint, ..self }
    }

    pub fn with_session_cookie_name(self, name: String) -> (r: Self)
        ensures
            r.session_cookie_name == name,
            r.store_path == self.store_path,
            r.session_cookie_domain == self.session_cookie_domain,
            r.rpc_addr == self.rpc_addr,
            r.broker_addr == self.broker_addr,
    {
        ClientBuilder { session_cookie_name: name, ..self }
    }

    pub fn with_rpc_addr(self, addr: String) -> (r: Self)
        ensures
            r.rpc_addr == addr,
            r.store_path == self.store_path,
            r.session_cookie_domain == self.session_cookie_domain,
            r.session_cookie_name == self.session_cookie_name,
            r.broker_addr == self.broker_addr,
    {
        ClientBuilder { rpc_addr: addr, ..self }
    }

    pub fn with_broker_addr(self, addr: String) -> (r: Self)
        ensures
            r.broker_addr == addr,
            r.store_path == self.store_path,
            r.session_cookie_domain == self.session_cookie_domain,
            r.session_cookie_name == self.session_cookie_name,
            r.rpc_addr == self.rpc_addr,
    {
        ClientBuilder { broker_addr: addr, ..self }
    }

    /// Seal the configuration into a client. The configuration is
    /// validated first: an empty service address is refused before
    /// anything else is looked at. `contents` is what stands in the
    /// store file (`None` where the file is absent), `now` the current
    /// time in seconds. The session is recovered exactly when the jar
    /// holds a live cookie under the configured domain and name at path
    /// `/`; a recovered session counts as confirmed.
    pub fn build(self, contents: Option<&str>, now: u64) -> (r: Result<Client, Error>)
        ensures
            match r {
                Ok(c) => {
                    &&& c.wf()
                    &&& c.store.path@ == self.store_path@
                    &&& match contents {
                        None => c.store.jar@ == Seq::<CookieModel>::empty(),
                        Some(text) => sp_jar(text@) == Some(c.store.jar@),
                    }
                    &&& c.rpc_addr == self.rpc_addr
                    &&& c.broker_addr == self.broker_addr
                    &&& c.session_cookie_domain == self.session_cookie_domain
                    &&& c.session_cookie_name == self.session_cookie_name
                    &&& self.rpc_addr@.len() > 0
                    &&& self.broker_addr@.len() > 0
                    &&& match find_cookie(
                        c.store.jar@,
                        self.session_cookie_domain@,
                        "/"@,
                        self.session_cookie_name@,
                    ) {
                        Some(ck) => if fresh(ck, now) {
                            c.state matches SessionState::Confirmed(s) && s@ == ck.value
                        } else {
                            c.state is NoSession
                        },
                        None => c.state is NoSession,
                    }
                },
                Err(e) => if self.rpc_addr@.len() == 0 || self.broker_addr@.len() == 0 {
                    e == Error::InvalidConfiguration
                } else {
                    e == Error::StoreCorrupt && (contents matches Some(text) && (sp_jar(
                        text@,
                    ) is None || !key_unique(sp_jar(text@)->Some_0)))
                },
            },
    {
        if self.rpc_addr.as_str().is_empty() || self.broker_addr.as_str().is_empty() {
            return Err(Error::InvalidConfiguration);
        }
        let store = match Store::new(self.store_path, contents) {
            Ok(st) => st,
            Err(e) => {
                return Err(e);
            },
        };
        let (found, sid) = Session::load(
            &store.jar,
            self.session_cookie_domain.as_str(),
            self.session_cookie_name.as_str(),
            now,
        );
        let state = if found {
            SessionState::Confirmed(Session::new(sid))
        } else {
            SessionState::NoSession
        };
        Ok(
            Client {
                store,
                state,
                rpc_addr: self.rpc_addr,
                broker_addr: self.broker_addr,
                session_cookie_domain: self.session_cookie_domain,
                session_cookie_name: self.session_cookie_name,
            },
        )
    }
}

/// The login client: configuration, the cookie store, and the cached
/// session state. Network exchanges are described by `*_request` values
/// and interpreted by `*_response` calls; performing them is the
/// caller's part.
pub struct Client {
    pub store: Store,
    pub state: SessionState,
    pub rpc_addr: String,
    pub broker_addr: String,
    pub session_cookie_domain: String,
    pub session_cookie_name: String,
}

/// The parts of a client no exchange may alter.
pub open spec fn config_unchanged(a: Client, b: Client) -> bool {
    &&& a.rpc_addr == b.rpc_addr
    &&& a.broker_addr == b.broker_addr
    &&& a.session_cookie_domain == b.session_cookie_domain
    &&& a.session_cookie_name == b.session_cookie_name
}

impl Client {
    pub open spec fn wf(&self) -> bool {
        self.store.wf()
    }

    pub fn builder() -> (r: ClientBuilder)
        ensures
            r.store_path@ == "cookies.json"@,
            r.session_cookie_domain@ == "127.0.0.1"@,
            r.session_cookie_name@ == "id"@,
            r.rpc_addr@ == "http://127.0.0.1:8000"@,
            r.broker_addr@ == "http://127.0.0.1:3333"@,
    {
        ClientBuilder::new()
    }

    pub fn store(&self) -> (r: &Store)
        ensures
            r == &self.store,
    {
        &self.store
    }

    /// The cached session, pending or confirmed, if any.
    pub fn session(&self) -> (r: Option<Session>)
        ensures
            match self.state {
                SessionState::NoSession => r is None,
                SessionState::Pending(s) => r matches Some(x) && x@ == s@,
                SessionState::Confirmed(s) => r matches Some(x) && x@ == s@,
            },
    {
        match &self.state {
            SessionState::NoSession => None,
            SessionState::Pending(s) => Some(s.clone()),
            SessionState::Confirmed(s) => Some(s.clone()),
        }
    }

    /// The login exchange to perform for `email`.
    pub fn login_request(&self, email: &str) -> (r: HttpRequest)
        ensures
            r.method is Post,
            r.url@ == self.rpc_addr@ + "/login"@,
            r.form@.len() == 1,
            r.form@[0].0@ == "email"@,
            r.form@[0].1@ == email@,
    {
        Session::login_request(self.rpc_addr.as_str(), email)
    }

    /// Apply the login response: a session identifier in the body leaves
    /// the client pending on it; anything else is `LoginFailed` and
    /// changes nothing.
    pub fn login_response(&mut self, body: Option<&str>) -> (r: Result<(), Error>)
        ensures
            final(self).store == old(self).store,
            config_unchanged(*old(self), *final(self)),
            match body {
                None => r matches Err(e) && e == Error::LoginFailed && final(self).state == old(
                    self,
                ).state,
                Some(text) => match sp_obj(text@, "session"@) {
                    ObjValue::Text(v) => r is Ok && (final(self).state
                        matches SessionState::Pending(s) && s@ == v),
                    _ => r matches Err(e) && e == Error::LoginFailed && final(self).state == old(
                        self,
                    ).state,
                },
            },
    {
        match Session::login_response(body) {
            Ok(auth) => {
                self.state = SessionState::Pending(Session::new(auth.session));
                Ok(())
            },
            Err(e) => Err(e),
        }
    }

    /// The confirmation exchange for `code`, or `NoActiveSession` where
    /// no login preceded; the client itself is left as it stands either
    /// way.
    pub fn confirm_request(&self, code: &str) -> (r: Result<HttpRequest, Error>)
        ensures
            match self.state {
                SessionState::NoSession => r matches Err(e) && e == Error::NoActiveSession,
                SessionState::Pending(s) => r matches Ok(req) && req.method is Post && req.url@
                    == self.broker_addr@ + "/confirm"@ && req.form@.len() == 2 && req.form@[0].0@
                    == "session"@ && req.form@[0].1@ == s@ && req.form@[1].0@ == "code"@
                    && req.form@[1].1@ == code@,
                SessionState::Confirmed(s) => r matches Ok(req) && req.method is Post && req.url@
                    == self.broker_addr@ + "/confirm"@ && req.form@.len() == 2 && req.form@[0].0@
                    == "session"@ && req.form@[0].1@ == s@ && req.form@[1].0@ == "code"@
                    && req.form@[1].1@ == code@,
            },
    {
        match &self.state {
            SessionState::NoSession => Err(Error::NoActiveSession),
            SessionState::Pending(s) => Ok(
                Session::confirm_request(self.broker_addr.as_str(), s.id(), code),
            ),
            SessionState::Confirmed(s) => Ok(
                Session::confirm_request(self.broker_addr.as_str(), s.id(), code),
            ),
        }
    }

    /// Apply the broker's confirmation response: an identity token in the
    /// body yields the claim exchange to perform next; anything else is
    /// `ConfirmationFailed`. The cached session stands untouched until
    /// the claim succeeds.
    pub fn confirm_response(&self, body: Option<&str>) -> (r: Result<HttpRequest, Error>)
        ensures
            match body {
                None => r matches Err(e) && e == Error::ConfirmationFailed,
                Some(text) => match sp_obj(text@, "id_token"@) {
                    ObjValue::Text(v) => r matches Ok(req) && req.method is Post && req.url@
                        == self.rpc_addr@ + "/claim"@ && req.form@.len() == 1 && req.form@[0].0@
                        == "id_token"@ && req.form@[0].1@ == v,
                    _ => r matches Err(e) && e == Error::ConfirmationFailed,
                },
            },
    {
        match Session::confirm_response(body) {
            Ok(verify) => Ok(
                Session::claim_request(self.rpc_addr.as_str(), verify.id_token.as_str()),
            ),
            Err(e) => Err(e),
        }
    }

    /// Apply the claim response: any body text is the confirmed session
    /// identifier; a missing body is `ClaimFailed` and leaves the
    /// pending session as it was.
    pub fn claim_response(&mut self, body: Option<&str>) -> (r: Result<(), Error>)
        ensures
            final(self).store == old(self).store,
            config_unchanged(*old(self), *final(self)),
            match body {
                None => r matches Err(e) && e == Error::ClaimFailed && final(self).state == old(
                    self,
                ).state,
                Some(text) => r is Ok && (final(self).state matches SessionState::Confirmed(s)
                    && s@ == text@),
            },
    {
        match Session::claim_response(body) {
            Ok(s) => {
                self.state = SessionState::Confirmed(s);
                Ok(())
            },
            Err(e) => Err(e),
        }
    }

    /// The identity query to perform.
    pub fn whoami_request(&self) -> (r: HttpRequest)
        ensures
            r.method is Get,
            r.url@ == self.rpc_addr@ + "/whoami"@,
            r.form@.len() == 0,
    {
        Session::whoami_request(self.rpc_addr.as_str())
    }

    /// Interpret the identity response; the email member is optional,
    /// and the cached session is never touched, whatever came back.
    pub fn whoami_response(&self, body: Option<&str>) -> (r: Result<UserData, Error>)
        ensures
            match body {
                None => r matches Err(e) && e == Error::WhoAmIFailed,
                Some(text) => match sp_obj(text@, "email"@) {
                    ObjValue::Text(v) => r matches Ok(u) && (u.email matches Some(m) && m@ == v),
                    ObjValue::Null => r matches Ok(u) && u.email is None,
                    ObjValue::Missing => r matches Ok(u) && u.email is None,
                    ObjValue::Malformed => r matches Err(e) && e == Error::WhoAmIFailed,
                },
            },
    {
        Session::whoami_response(body)
    }

    /// The logout exchange to perform.
    pub fn logout_request(&self) -> (r: HttpRequest)
        ensures
            r.method is Post,
            r.url@ == self.rpc_addr@ + "/logout"@,
            r.form@.len() == 0,
    {
        Session::logout_request(self.rpc_addr.as_str())
    }

    /// Apply the logout outcome: on success the cached session is
    /// dropped and the session cookie leaves the jar; on failure
    /// `LogoutFailed` is returned and nothing local changes.
    pub fn logout_response(&mut self, success: bool) -> (r: Result<(), Error>)
        requires
            old(self).wf(),
        ensures
            final(self).wf(),
            config_unchanged(*old(self), *final(self)),
            final(self).store.path == old(self).store.path,
            success ==> r is Ok && final(self).state is NoSession && final(self).store.jar@ == old(
                self,
            ).store.jar@.filter(
                |e: CookieModel|
                    !has_key(
                        e,
                        old(self).session_cookie_domain@,
                        "/"@,
                        old(self).session_cookie_name@,
                    ),
            ),
            !success ==> (r matches Err(e) && e == Error::LogoutFailed) && *final(self) == *old(
                self,
            ),
    {
        if success {
            self.state = SessionState::NoSession;
            let domain = self.session_cookie_domain.clone();
            let name = self.session_cookie_name.clone();
            self.store.jar.remove(domain.as_str(), "/", name.as_str());
            Ok(())
        } else {
            Err(Error::LogoutFailed)
        }
    }

    /// Record a cookie the transport observed, overwriting any cookie of
    /// the same scope; refused (returning false, changing nothing) only
    /// where a field cannot stand in the snapshot format.
    pub fn record_cookie(&mut self, c: Cookie) -> (r: bool)
        requires
            old(self).wf(),
        ensures
            final(self).wf(),
            config_unchanged(*old(self), *final(self)),
            final(self).state == old(self).state,
            final(self).store.path == old(self).store.path,
            r == storable(c@),
            r ==> final(self).store.jar@ == old(self).store.jar@.filter(
                |e: CookieModel| !same_key(e, c@),
            ).push(c@),
            !r ==> final(self).store.jar@ == old(self).store.jar@,
    {
        self.store.jar.insert(c)
    }

    /// The snapshot text to persist at the configured store path. The
    /// text is a function of the jar alone: with no mutation in
    /// between, two saves yield identical contents.
    pub fn save_session(&self) -> (r: String)
        ensures
            r@ == enc_jar(self.store.jar@),
    {
        self.store.save()
    }

    /// The configured path of the store file.
    pub fn store_path(&self) -> (r: &str)
        ensures
            r@ == self.store.path@,
    {
        self.store.path.as_str()
    }
}

/// Saving twice with no mutation in between yields identical snapshot
/// text: what `save_session` returns is a function of the jar alone.
pub proof fn lemma_save_idempotent(c: Client, first: Seq<char>, second: Seq<char>)
    requires
        first == enc_jar(c.store.jar@),
        second == enc_jar(c.store.jar@),
    ensures
        first == second,
{
}

} // verus!
