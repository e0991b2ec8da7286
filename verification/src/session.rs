use vstd::prelude::*;
use vstd::string::*;

use crate::codec::{parse_obj, sp_obj, FieldValue, ObjValue};
use crate::store::{find_cookie, fresh, Jar};
use crate::Error;

verus! {

/// Body of a successful login exchange: the pending session identifier.
pub struct AuthResponse {
    pub session: String,
}

/// Attributes of the authenticated user: an email, if one is on record.
#[derive(Debug, PartialEq, Eq)]
pub struct UserData {
    pub email: Option<String>,
}

/// Body of a successful code confirmation: the identity token.
pub struct VerifyResponse {
    pub id_token: String,
}

/// A session identifier, pending or confirmed; which of the two it is,
/// the surrounding client state records.
pub struct Session {
    id: String,
}

impl View for Session {
    type V = Seq<char>;

    closed spec fn view(&self) -> Seq<char> {
        self.id@
    }
}

impl Clone for Session {
    fn clone(&self) -> (r: Session)
        ensures
            r@ == self@,
    {
        Session { id: self.id.clone() }
    }
}

impl Default for Session {
    fn default() -> (r: Session)
        ensures
            r@ == "0"@,
    {
        Session { id: "0".to_owned() }
    }
}

/// The HTTP method of a request of this protocol.
#[derive(Debug)]
pub enum Method {
    Get,
    Post,
}

/// One outbound exchange, described as data: every request of the
/// protocol carries `Accept: application/json`, so only the method, the
/// address and the form fields vary.
#[derive(Debug)]
pub struct HttpRequest {
    pub method: Method,
    pub url: String,
    pub form: Vec<(String, String)>,
}

/// `base` followed by `path`.
fn join_url(base: &str, path: &str) -> (r: String)
    ensures
        r@ == base@ + path@,
{
    let mut url = base.to_owned();
    url.append(path);
    url
}

impl Session {
    pub fn new(id: String) -> (r: Session)
        ensures
            r@ == id@,
    {
        Session { id }
    }

    pub fn id(&self) -> (r: &str)
        ensures
            r@ == self@,
    {
        self.id.as_str()
    }

    /// Recover a session identifier from the jar: the value of the
    /// configured cookie at path `/`, where present and live.
    pub fn load(jar: &Jar, session_cookie_domain: &str, session_cookie_name: &str, now: u64) -> (r:
        (bool, String))
        requires
            jar.wf(),
        ensures
            match find_cookie(jar@, session_cookie_domain@, "/"@, session_cookie_name@) {
                Some(c) => if fresh(c, now) {
                    r.0 && r.1@ == c.value
                } else {
                    !r.0 && r.1@ == Seq::<char>::empty()
                },
                None => !r.0 && r.1@ == Seq::<char>::empty(),
            },
    {
        match jar.lookup(session_cookie_domain, "/", session_cookie_name, now) {
            Some(v) => (true, v),
            None => (false, String::new()),
        }
    }

    /// The login exchange: email posted to the RPC service.
    pub fn login_request(rpc_addr: &str, email: &str) -> (r: HttpRequest)
        ensures
            r.method is Post,
            r.url@ == rpc_addr@ + "/login"@,
            r.form@.len() == 1,
            r.form@[0].0@ == "email"@,
            r.form@[0].1@ == email@,
    {
        let mut form: Vec<(String, String)> = Vec::new();
        form.push(("email".to_owned(), email.to_owned()));
        HttpRequest { method: Method::Post, url: join_url(rpc_addr, "/login"), form }
    }

    /// What a login response means: the new pending session identifier,
    /// or `LoginFailed` on a missing or malformed body.
    pub fn login_response(body: Option<&str>) -> (r: Result<AuthResponse, Error>)
        ensures
            match body {
                None => r matches Err(e) && e == Error::LoginFailed,
                Some(text) => match sp_obj(text@, "session"@) {
                    ObjValue::Text(v) => r matches Ok(a) && a.session@ == v,
                    _ => r matches Err(e) && e == Error::LoginFailed,
                },
            },
    {
        match body {
            None => Err(Error::LoginFailed),
            Some(text) => match parse_obj(text, "session") {
                Some(FieldValue::Text(v)) => Ok(AuthResponse { session: v }),
                _ => Err(Error::LoginFailed),
            },
        }
    }

    /// The confirmation exchange: pending session and one-time code
    /// posted to the broker.
    pub fn confirm_request(broker_addr: &str, session: &str, code: &str) -> (r: HttpRequest)
        ensures
            r.method is Post,
            r.url@ == broker_addr@ + "/confirm"@,
            r.form@.len() == 2,
            r.form@[0].0@ == "session"@,
            r.form@[0].1@ == session@,
            r.form@[1].0@ == "code"@,
            r.form@[1].1@ == code@,
    {
        let mut form: Vec<(String, String)> = Vec::new();
        form.push(("session".to_owned(), session.to_owned()));
        form.push(("code".to_owned(), code.to_owned()));
        HttpRequest { method: Method::Post, url: join_url(broker_addr, "/confirm"), form }
    }

    /// What a confirmation response means: the identity token, or
    /// `ConfirmationFailed` on a missing or malformed body.
    pub fn confirm_response(body: Option<&str>) -> (r: Result<VerifyResponse, Error>)
        ensures
            match body {
                None => r matches Err(e) && e == Error::ConfirmationFailed,
                Some(text) => match sp_obj(text@, "id_token"@) {
                    ObjValue::Text(v) => r matches Ok(a) && a.id_token@ == v,
                    _ => r matches Err(e) && e == Error::ConfirmationFailed,
                },
            },
    {
        match body {
            None => Err(Error::ConfirmationFailed),
            Some(text) => match parse_obj(text, "id_token") {
                Some(FieldValue::Text(v)) => Ok(VerifyResponse { id_token: v }),
                _ => Err(Error::ConfirmationFailed),
            },
        }
    }

    /// The claim exchange: identity token posted to the RPC service.
    pub fn claim_request(rpc_addr: &str, id_token: &str) -> (r: HttpRequest)
        ensures
            r.method is Post,
            r.url@ == rpc_addr@ + "/claim"@,
            r.form@.len() == 1,
            r.form@[0].0@ == "id_token"@,
            r.form@[0].1@ == id_token@,
    {
        let mut form: Vec<(String, String)> = Vec::new();
        form.push(("id_token".to_owned(), id_token.to_owned()));
        HttpRequest { method: Method::Post, url: join_url(rpc_addr, "/claim"), form }
    }

    /// What a claim response means: its whole text is the confirmed
    /// session identifier; only a missing body is `ClaimFailed`.
    pub fn claim_response(body: Option<&str>) -> (r: Result<Session, Error>)
        ensures
            match body {
                None => r matches Err(e) && e == Error::ClaimFailed,
                Some(text) => r matches Ok(s) && s@ == text@,
            },
    {
        match body {
            None => Err(Error::ClaimFailed),
            Some(text) => Ok(Session { id: text.to_owned() }),
        }
    }

    /// The identity query: a plain GET; the transport attaches the
    /// session cookie.
    pub fn whoami_request(rpc_addr: &str) -> (r: HttpRequest)
        ensures
            r.method is Get,
            r.url@ == rpc_addr@ + "/whoami"@,
            r.form@.len() == 0,
    {
        HttpRequest { method: Method::Get, url: join_url(rpc_addr, "/whoami"), form: Vec::new() }
    }

    /// What an identity response means: the user's attributes. The email
    /// member is optional: `null`, like a well-formed object without it,
    /// stands for an authenticated user with no email on record. A
    /// missing or malformed body is `WhoAmIFailed`.
    pub fn whoami_response(body: Option<&str>) -> (r: Result<UserData, Error>)
        ensures
            match body {
                None => r matches Err(e) && e == Error::WhoAmIFailed,
                Some(text) => match sp_obj(text@, "email"@) {
                    ObjValue::Text(v) => r matches Ok(u) && (u.email matches Some(m) && m@ == v),
                    ObjValue::Null => r matches Ok(u) && u.email is None,
                    ObjValue::Missing => r matches Ok(u) && u.email is None,
                    ObjValue::Malformed => r matches Err(e) && e == Error::WhoAmIFailed,
                },
            },
    {
        match body {
            None => Err(Error::WhoAmIFailed),
            Some(text) => match parse_obj(text, "email") {
                Some(FieldValue::Text(v)) => Ok(UserData { email: Some(v) }),
                Some(FieldValue::Null) => Ok(UserData { email: None }),
                Some(FieldValue::Absent) => Ok(UserData { email: None }),
                None => Err(Error::WhoAmIFailed),
            },
        }
    }

    /// The logout exchange: a bare POST to the RPC service.
    pub fn logout_request(rpc_addr: &str) -> (r: HttpRequest)
        ensures
            r.method is Post,
            r.url@ == rpc_addr@ + "/logout"@,
            r.form@.len() == 0,
    {
        HttpRequest { method: Method::Post, url: join_url(rpc_addr, "/logout"), form: Vec::new() }
    }
}

} // verus!
