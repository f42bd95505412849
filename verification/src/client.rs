//! The session with the modem: how requests are signed, and the two steps
//! of the login.
//!
//! Nothing here sends or receives. A request is handed out as the headers
//! and the body to post, and the reply is handed in as the transport's
//! status and the body that came back.

use crate::error::{Error, ErrorView, ProtocolError};
use crate::json::{json_document, member_views, parse_json, Json, JsonView};
use crate::payloads::s33::{
    GetMultipleHNAPsLogsResponse, GetMultipleHNAPsMetricsResponse, HasResult, LoginResponse,
    LoginWithChallengeResponse, Reply,
};
use crate::signature::{sign, sign_text};
use crate::text::{decimal_digits, decimal_of, distinct_names, string_of};
use vstd::prelude::*;

verus! {

/// The name space of the modem's actions.
pub open spec fn soap_domain() -> Seq<char> {
    "http://purenetworks.com/HNAP1/"@
}

/// The key that signs requests until the login has derived one.
pub open spec fn default_private_key() -> Seq<char> {
    "withoutloginkey"@
}

/// How far the login has come.
#[derive(Clone, Copy, Debug, PartialEq, Eq, Structural)]
pub enum AuthState {
    Unauthenticated,
    ChallengeObtained,
    Authenticated,
    /// The login was refused or broke off; nothing leads on from here.
    Failed,
}

/// Why the modem did not accept the credentials.
#[derive(Clone, Copy, Debug, PartialEq, Eq, Structural)]
pub enum LoginFailure {
    /// The user name or the password is wrong.
    Credentials,
    /// Too many logins were tried.
    Lockup,
    /// The account is locked until the modem is started again.
    Reboot,
    /// The modem asks for its login settings to be reset.
    SettingsChanged,
    /// The modem gave a status that is not known.
    Unrecognized,
}

impl LoginFailure {
    /// The failure that a status other than `OK` stands for.
    pub open spec fn of_status(status: Seq<char>) -> LoginFailure {
        if status == "FAILED"@ {
            LoginFailure::Credentials
        } else if status == "LOCKUP"@ {
            LoginFailure::Lockup
        } else if status == "REBOOT"@ {
            LoginFailure::Reboot
        } else if status == "OK_CHANGED"@ {
            LoginFailure::SettingsChanged
        } else {
            LoginFailure::Unrecognized
        }
    }

    /// What the failure is called in a message.
    pub open spec fn text(self) -> Seq<char> {
        match self {
            LoginFailure::Credentials => "Username or password error"@,
            LoginFailure::Lockup => "Max number of login attempts reached"@,
            LoginFailure::Reboot => "Account locked, reboot required to re-enable account"@,
            LoginFailure::SettingsChanged => "May need to reset login settings"@,
            LoginFailure::Unrecognized => "Unknown response from modem"@,
        }
    }

    /// Reads the status that a failed login handed back.
    pub fn from_status(status: &str) -> (failure: LoginFailure)
        ensures
            failure == LoginFailure::of_status(status@),
    {
        let status = String::from_str(status);
        if status == String::from_str("FAILED") {
            LoginFailure::Credentials
        } else if status == String::from_str("LOCKUP") {
            LoginFailure::Lockup
        } else if status == String::from_str("REBOOT") {
            LoginFailure::Reboot
        } else if status == String::from_str("OK_CHANGED") {
            LoginFailure::SettingsChanged
        } else {
            LoginFailure::Unrecognized
        }
    }

    /// What the failure is called in a message.
    pub fn message(&self) -> (text: String)
        ensures
            text@ == self.text(),
    {
        match self {
            LoginFailure::Credentials => String::from_str("Username or password error"),
            LoginFailure::Lockup => String::from_str("Max number of login attempts reached"),
            LoginFailure::Reboot => String::from_str(
                "Account locked, reboot required to re-enable account",
            ),
            LoginFailure::SettingsChanged => String::from_str("May need to reset login settings"),
            LoginFailure::Unrecognized => String::from_str("Unknown response from modem"),
        }
    }
}

/// The session with one modem.
#[derive(Debug)]
pub struct SOAPClient {
    endpoint: String,
    accept_invalid_certs: bool,
    private_key: String,
    cookie: String,
    state: AuthState,
}

/// A session as a mathematical value.
pub struct SOAPClientView {
    pub endpoint: Seq<char>,
    pub accept_invalid_certs: bool,
    pub private_key: Seq<char>,
    pub cookie: Seq<char>,
    pub state: AuthState,
}

impl View for SOAPClient {
    type V = SOAPClientView;

    closed spec fn view(&self) -> SOAPClientView {
        SOAPClientView {
            endpoint: self.endpoint@,
            accept_invalid_certs: self.accept_invalid_certs,
            private_key: self.private_key@,
            cookie: self.cookie@,
            state: self.state,
        }
    }
}

/// What is posted for one action: three headers and the body.
#[derive(Debug)]
pub struct SignedRequest {
    /// The header `SOAPAction`.
    pub soap_action: String,
    /// The header `HNAP_AUTH`.
    pub hnap_auth: String,
    /// The header `Cookie`.
    pub cookie: String,
    pub body: Json,
}

/// The texts of a list of parameters.
pub open spec fn pairs(params: Seq<(String, String)>) -> Seq<(Seq<char>, Seq<char>)> {
    Seq::new(params.len(), |i: int| (params[i].0@, params[i].1@))
}

/// The parameters as the members of a JSON object, each value a string.
pub open spec fn params_json(params: Seq<(Seq<char>, Seq<char>)>) -> Seq<(Seq<char>, JsonView)> {
    Seq::new(params.len(), |i: int| (params[i].0, JsonView::Str(params[i].1)))
}

/// The body of a request: the parameters, filed under the action's name.
pub open spec fn envelope(action: Seq<char>, params: Seq<(Seq<char>, Seq<char>)>) -> JsonView {
    JsonView::Object(seq![(action, JsonView::Object(params_json(params)))])
}

/// The text that is signed: the time in milliseconds, the name space and
/// the action.
pub open spec fn signed_message(action: Seq<char>, epoch_millis: nat) -> Seq<char> {
    decimal_digits(epoch_millis) + soap_domain() + action
}

/// The header `HNAP_AUTH`: the signature, a space, the time.
pub open spec fn auth_header(key: Seq<char>, action: Seq<char>, epoch_millis: nat) -> Seq<char> {
    sign_text(key, signed_message(action, epoch_millis)) + " "@ + decimal_digits(epoch_millis)
}

/// The header `Cookie`.
pub open spec fn cookie_header(cookie: Seq<char>, key: Seq<char>) -> Seq<char> {
    "Secure; uid="@ + cookie + "; PrivateKey="@ + key
}

/// The request that a session with `key` and `cookie` posts for `action`.
pub open spec fn is_signed(
    request: SignedRequest,
    key: Seq<char>,
    cookie: Seq<char>,
    action: Seq<char>,
    params: Seq<(Seq<char>, Seq<char>)>,
    epoch_millis: nat,
) -> bool {
    &&& request.soap_action@ == soap_domain() + action
    &&& request.hnap_auth@ == auth_header(key, action, epoch_millis)
    &&& request.cookie@ == cookie_header(cookie, key)
    &&& request.body@ == envelope(action, params)
}

/// The session key that the login derives from the modem's public key, the
/// password and the challenge.
pub open spec fn derived_private_key(
    public_key: Seq<char>,
    password: Seq<char>,
    challenge: Seq<char>,
) -> Seq<char> {
    sign_text(public_key + password, challenge)
}

/// The parameters of the request for a challenge.
pub open spec fn challenge_params(username: Seq<char>) -> Seq<(Seq<char>, Seq<char>)> {
    seq![("Action"@, "request"@), ("Username"@, username)]
}

/// The parameters of the request that presents the credentials.
pub open spec fn credential_params(
    username: Seq<char>,
    key: Seq<char>,
    challenge: Seq<char>,
) -> Seq<(Seq<char>, Seq<char>)> {
    seq![
        ("Action"@, "login"@),
        ("Username"@, username),
        ("LoginPassword"@, sign_text(key, challenge)),
        ("Captcha"@, ""@),
        ("PrivateLogin"@, "LoginPassword"@),
    ]
}

/// The parameters of the poll for metrics: the six reports, each asked for
/// with an empty value.
pub open spec fn metrics_params() -> Seq<(Seq<char>, Seq<char>)> {
    seq![
        ("GetArrisDeviceStatus"@, ""@),
        ("GetArrisRegisterInfo"@, ""@),
        ("GetCustomerStatusStartupSequence"@, ""@),
        ("GetCustomerStatusConnectionInfo"@, ""@),
        ("GetCustomerStatusDownstreamChannelInfo"@, ""@),
        ("GetCustomerStatusUpstreamChannelInfo"@, ""@),
    ]
}

/// The parameters of the poll for the log.
pub open spec fn logs_params() -> Seq<(Seq<char>, Seq<char>)> {
    seq![("GetCustomerStatusLog"@, ""@)]
}

/// No request of the session names a parameter twice: the parameters of
/// each are a mapping from names to values.
pub proof fn lemma_request_names_differ(username: Seq<char>, key: Seq<char>, challenge: Seq<char>)
    ensures
        distinct_names(challenge_params(username)),
        distinct_names(credential_params(username, key, challenge)),
        distinct_names(metrics_params()),
        distinct_names(logs_params()),
{
    reveal_strlit("Action");
    reveal_strlit("Username");
    reveal_strlit("LoginPassword");
    reveal_strlit("Captcha");
    reveal_strlit("PrivateLogin");
    reveal_strlit("GetArrisDeviceStatus");
    reveal_strlit("GetArrisRegisterInfo");
    reveal_strlit("GetCustomerStatusStartupSequence");
    reveal_strlit("GetCustomerStatusConnectionInfo");
    reveal_strlit("GetCustomerStatusDownstreamChannelInfo");
    reveal_strlit("GetCustomerStatusUpstreamChannelInfo");
    assert("Action"@.len() == 6);
    assert("Username"@.len() == 8);
    assert("LoginPassword"@.len() == 13);
    assert("Captcha"@.len() == 7);
    assert("PrivateLogin"@.len() == 12);
    assert("GetArrisDeviceStatus"@[8] == 'D');
    assert("GetArrisRegisterInfo"@[8] == 'R');
    assert("GetArrisRegisterInfo"@.len() == 20);
    assert("GetCustomerStatusStartupSequence"@.len() == 32);
    assert("GetCustomerStatusConnectionInfo"@.len() == 31);
    assert("GetCustomerStatusDownstreamChannelInfo"@.len() == 38);
    assert("GetCustomerStatusUpstreamChannelInfo"@.len() == 36);
}

/// The object that a reply files under the action's name, or why there is
/// none: a status other than 200 is a transport error; a body that is no
/// JSON document, or has no member `<action>Response`, is a decode error.
pub open spec fn reply_entry(action: Seq<char>, status: u16, body: Seq<char>) -> Result<
    JsonView,
    ErrorView,
> {
    if status != 200 {
        Err(ErrorView::TransportError(status))
    } else {
        match json_document(body) {
            None => Err(ErrorView::DecodeError),
            Some(document) => match document.member(action + "Response"@) {
                None => Err(ErrorView::DecodeError),
                Some(entry) => Ok(entry),
            },
        }
    }
}

/// Whether a reply to `action` decodes to a `T`, and the error where it does
/// not: after the entry was found and decoded, the status `ERROR` is an
/// application error and every other status passes.
pub open spec fn reply_outcome<T: Reply>(action: Seq<char>, status: u16, body: Seq<char>) -> Result<
    JsonView,
    ErrorView,
> {
    match reply_entry(action, status, body) {
        Err(e) => Err(e),
        Ok(entry) => match T::outcome(entry) {
            Err(e) => Err(e),
            Ok(()) => if entry.text_member(T::result_name()) == Some("ERROR"@) {
                Err(ErrorView::ApplicationError)
            } else {
                Ok(entry)
            },
        },
    }
}

/// A reply to the request for a challenge that lacks the challenge or the
/// public key is a decode error, whatever else it holds.
pub proof fn lemma_challenge_needs_its_fields(action: Seq<char>, status: u16, body: Seq<char>)
    requires
        reply_entry(action, status, body) matches Ok(entry) && (entry.text_member("Challenge"@)
            is None || entry.text_member("PublicKey"@) is None),
    ensures
        reply_outcome::<LoginResponse>(action, status, body) == Err::<JsonView, ErrorView>(
            ErrorView::DecodeError,
        ),
{
}

fn pair(name: &str, value: &str) -> (p: (String, String))
    ensures
        p.0@ == name@,
        p.1@ == value@,
{
    (String::from_str(name), String::from_str(value))
}

/// Takes a reply apart: finds the entry of `action` and decodes it.
pub fn decode_reply<T: Reply>(action: &str, status: u16, body: &str) -> (r: Result<T, Error>)
    ensures
        match reply_outcome::<T>(action@, status, body@) {
            Ok(entry) => r matches Ok(x) && x.holds(entry) && entry.text_member(T::result_name())
                == Some(x.status()) && x.status() != "ERROR"@,
            Err(e) => r matches Err(x) && x@ == e,
        },
{
    if status != 200 {
        return Err(Error::TransportError(status));
    }
    let document = match parse_json(body) {
        Some(document) => document,
        None => { return Err(Error::DecodeError); },
    };
    let mut name = String::from_str(action);
    name.append("Response");
    let entry = match document.member(name.as_str()) {
        Some(entry) => entry,
        None => { return Err(Error::DecodeError); },
    };
    let reply = T::from_json(entry)?;
    let result = reply.get_result();
    if result == String::from_str("ERROR") {
        Err(Error::ProtocolError(ProtocolError::ApplicationError))
    } else {
        Ok(reply)
    }
}

impl SOAPClient {
    /// A session that has not logged in: it signs with the default key and
    /// has no cookie.
    pub fn new(endpoint: String, accept_invalid_certs: bool) -> (client: SOAPClient)
        ensures
            client@ == (SOAPClientView {
                endpoint: endpoint@,
                accept_invalid_certs,
                private_key: default_private_key(),
                cookie: Seq::empty(),
                state: AuthState::Unauthenticated,
            }),
    {
        SOAPClient {
            endpoint,
            accept_invalid_certs,
            private_key: String::from_str("withoutloginkey"),
            cookie: String::new(),
            state: AuthState::Unauthenticated,
        }
    }

    /// Where the modem is reached.
    pub fn endpoint(&self) -> (r: &String)
        ensures
            r@ == self@.endpoint,
    {
        &self.endpoint
    }

    /// Whether the transport is to accept a certificate that it cannot verify.
    pub fn accept_invalid_certs(&self) -> (r: bool)
        ensures
            r == self@.accept_invalid_certs,
    {
        self.accept_invalid_certs
    }

    /// The key that requests are signed with.
    pub fn private_key(&self) -> (r: &String)
        ensures
            r@ == self@.private_key,
    {
        &self.private_key
    }

    /// The session cookie, empty before the login.
    pub fn cookie(&self) -> (r: &String)
        ensures
            r@ == self@.cookie,
    {
        &self.cookie
    }

    /// How far the login has come.
    pub fn state(&self) -> (r: AuthState)
        ensures
            r == self@.state,
    {
        self.state
    }

    /// Signs `action` with the session's key as of the time `epoch_millis`,
    /// in milliseconds since the start of 1970.
    pub fn send_soap_action(
        &self,
        action: &str,
        params: &Vec<(String, String)>,
        epoch_millis: u128,
    ) -> (request: SignedRequest)
        ensures
            is_signed(
                request,
                self@.private_key,
                self@.cookie,
                action@,
                pairs(params@),
                epoch_millis as nat,
            ),
    {
        let digits = decimal_of(epoch_millis);
        let time = string_of(&digits);
        let mut message = string_of(&digits);
        message.append("http://purenetworks.com/HNAP1/");
        message.append(action);
        let mut hnap_auth = sign(self.private_key.as_str(), message.as_str());
        hnap_auth.append(" ");
        hnap_auth.append(time.as_str());
        let mut soap_action = String::from_str("http://purenetworks.com/HNAP1/");
        soap_action.append(action);
        let mut cookie = String::from_str("Secure; uid=");
        cookie.append(self.cookie.as_str());
        cookie.append("; PrivateKey=");
        cookie.append(self.private_key.as_str());
        let mut members: Vec<(String, Json)> = Vec::new();
        let mut i: usize = 0;
        assert(member_views(members@) =~= params_json(pairs(params@).take(0)));
        while i < params.len()
            invariant
                i <= params.len(),
                member_views(members@) == params_json(pairs(params@).take(i as int)),
            decreases params.len() - i,
        {
            let ghost before = member_views(members@);
            let member = (params[i].0.clone(), Json::string(params[i].1.as_str()));
            members.push(member);
            assert(member_views(members@) =~= before.push(
                (params[i as int].0@, JsonView::Str(params[i as int].1@)),
            ));
            assert(member_views(members@) =~= params_json(pairs(params@).take(i + 1)));
            i += 1;
        }
        assert(pairs(params@).take(params.len() as int) =~= pairs(params@));
        let inner = Json::object(members);
        let mut outer: Vec<(String, Json)> = Vec::new();
        outer.push((String::from_str(action), inner));
        let body = Json::object(outer);
        assert(member_views(outer@) =~= seq![(action@, inner@)]);
        SignedRequest { soap_action, hnap_auth, cookie, body }
    }

    /// The first step of the login: the request for a challenge, signed
    /// with the key that the session has so far.
    pub fn login(&self, username: &str, epoch_millis: u128) -> (request: SignedRequest)
        ensures
            is_signed(
                request,
                self@.private_key,
                self@.cookie,
                "Login"@,
                challenge_params(username@),
                epoch_millis as nat,
            ),
    {
        let mut params: Vec<(String, String)> = Vec::new();
        params.push(pair("Action", "request"));
        params.push(pair("Username", username));
        assert(pairs(params@) =~= challenge_params(username@));
        self.send_soap_action("Login", &params, epoch_millis)
    }

    /// The second step of the login: takes over the cookie, derives the
    /// session key, and hands out the request that presents the credentials,
    /// signed with the new key.
    pub fn login_with_challenge(
        &mut self,
        username: &str,
        password: &str,
        public_key: &str,
        challenge: &str,
        cookie: &str,
        epoch_millis: u128,
    ) -> (request: SignedRequest)
        requires
            old(self)@.state == AuthState::Unauthenticated,
        ensures
            final(self)@ == (SOAPClientView {
                private_key: derived_private_key(public_key@, password@, challenge@),
                cookie: cookie@,
                state: AuthState::ChallengeObtained,
                ..old(self)@
            }),
            is_signed(
                request,
                final(self)@.private_key,
                cookie@,
                "Login"@,
                credential_params(username@, final(self)@.private_key, challenge@),
                epoch_millis as nat,
            ),
    {
        self.cookie = String::from_str(cookie);
        let mut key_text = String::from_str(public_key);
        key_text.append(password);
        self.private_key = sign(key_text.as_str(), challenge);
        self.state = AuthState::ChallengeObtained;
        let login_password = sign(self.private_key.as_str(), challenge);
        let mut params: Vec<(String, String)> = Vec::new();
        params.push(pair("Action", "login"));
        params.push(pair("Username", username));
        params.push(pair("LoginPassword", login_password.as_str()));
        params.push(pair("Captcha", ""));
        params.push(pair("PrivateLogin", "LoginPassword"));
        assert(pairs(params@) =~= credential_params(username@, self@.private_key, challenge@));
        self.send_soap_action("Login", &params, epoch_millis)
    }

    /// Takes the reply to the request for a challenge. Where it decodes, the
    /// login goes on to its second step; where it does not, the login has
    /// failed, the key and the cookie stay as they were, and no further
    /// request is handed out.
    pub fn challenge_reply(
        &mut self,
        username: &str,
        password: &str,
        status: u16,
        body: &str,
        epoch_millis: u128,
    ) -> (r: Result<SignedRequest, Error>)
        requires
            old(self)@.state == AuthState::Unauthenticated,
        ensures
            match reply_outcome::<LoginResponse>("Login"@, status, body@) {
                Ok(entry) => {
                    &&& r matches Ok(request)
                    &&& entry.text_member("PublicKey"@) matches Some(public_key)
                    &&& entry.text_member("Challenge"@) matches Some(challenge)
                    &&& entry.text_member("Cookie"@) matches Some(cookie)
                    &&& final(self)@ == (SOAPClientView {
                        private_key: derived_private_key(public_key, password@, challenge),
                        cookie,
                        state: AuthState::ChallengeObtained,
                        ..old(self)@
                    })
                    &&& is_signed(
                        request,
                        final(self)@.private_key,
                        cookie,
                        "Login"@,
                        credential_params(username@, final(self)@.private_key, challenge),
                        epoch_millis as nat,
                    )
                },
                Err(e) => {
                    &&& r matches Err(x) && x@ == e
                    &&& final(self)@ == (SOAPClientView { state: AuthState::Failed, ..old(self)@ })
                },
            },
    {
        match decode_reply::<LoginResponse>("Login", status, body) {
            Ok(reply) => Ok(
                self.login_with_challenge(
                    username,
                    password,
                    reply.public_key.as_str(),
                    reply.challenge.as_str(),
                    reply.cookie.as_str(),
                    epoch_millis,
                ),
            ),
            Err(e) => {
                self.state = AuthState::Failed;
                Err(e)
            },
        }
    }

    /// Takes the reply to the credentials. The status `OK` completes the
    /// login; every other outcome fails it for good, and a status that is
    /// not `OK` is handed back in the error.
    pub fn login_reply(&mut self, status: u16, body: &str) -> (r: Result<
        LoginWithChallengeResponse,
        Error,
    >)
        requires
            old(self)@.state == AuthState::ChallengeObtained,
        ensures
            match reply_outcome::<LoginWithChallengeResponse>("Login"@, status, body@) {
                Ok(entry) => if entry.text_member("LoginResult"@) == Some("OK"@) {
                    &&& r matches Ok(reply) && reply.status() == "OK"@
                    &&& final(self)@ == (SOAPClientView {
                        state: AuthState::Authenticated,
                        ..old(self)@
                    })
                } else {
                    &&& entry.text_member("LoginResult"@) matches Some(status)
                    &&& r matches Err(x) && x@ == ErrorView::UnexpectedStatus(status)
                    &&& final(self)@ == (SOAPClientView { state: AuthState::Failed, ..old(self)@ })
                },
                Err(e) => {
                    &&& r matches Err(x) && x@ == e
                    &&& final(self)@ == (SOAPClientView { state: AuthState::Failed, ..old(self)@ })
                },
            },
    {
        match decode_reply::<LoginWithChallengeResponse>("Login", status, body) {
            Ok(reply) => {
                let result = reply.get_result();
                if result == String::from_str("OK") {
                    self.state = AuthState::Authenticated;
                    Ok(reply)
                } else {
                    self.state = AuthState::Failed;
                    Err(Error::ProtocolError(ProtocolError::UnexpectedStatus(result)))
                }
            },
            Err(e) => {
                self.state = AuthState::Failed;
                Err(e)
            },
        }
    }

    /// The request that polls the metrics.
    pub fn metrics(&self, epoch_millis: u128) -> (request: SignedRequest)
        requires
            self@.state == AuthState::Authenticated,
        ensures
            is_signed(
                request,
                self@.private_key,
                self@.cookie,
                "GetMultipleHNAPs"@,
                metrics_params(),
                epoch_millis as nat,
            ),
    {
        let mut params: Vec<(String, String)> = Vec::new();
        params.push(pair("GetArrisDeviceStatus", ""));
        params.push(pair("GetArrisRegisterInfo", ""));
        params.push(pair("GetCustomerStatusStartupSequence", ""));
        params.push(pair("GetCustomerStatusConnectionInfo", ""));
        params.push(pair("GetCustomerStatusDownstreamChannelInfo", ""));
        params.push(pair("GetCustomerStatusUpstreamChannelInfo", ""));
        assert(pairs(params@) =~= metrics_params());
        self.send_soap_action("GetMultipleHNAPs", &params, epoch_millis)
    }

    /// Takes the reply to a poll for metrics. The session is not changed,
    /// whatever came back.
    pub fn metrics_reply(&self, status: u16, body: &str) -> (r: Result<
        GetMultipleHNAPsMetricsResponse,
        Error,
    >)
        ensures
            match reply_outcome::<GetMultipleHNAPsMetricsResponse>(
                "GetMultipleHNAPs"@,
                status,
                body@,
            ) {
                Ok(entry) => r matches Ok(x) && x.holds(entry) && entry.text_member(
                    "GetMultipleHNAPsResult"@,
                ) == Some(x.status()) && x.status() != "ERROR"@,
                Err(e) => r matches Err(x) && x@ == e,
            },
    {
        decode_reply::<GetMultipleHNAPsMetricsResponse>("GetMultipleHNAPs", status, body)
    }

    /// The request that polls the log.
    pub fn logs(&self, epoch_millis: u128) -> (request: SignedRequest)
        requires
            self@.state == AuthState::Authenticated,
        ensures
            is_signed(
                request,
                self@.private_key,
                self@.cookie,
                "GetMultipleHNAPs"@,
                logs_params(),
                epoch_millis as nat,
            ),
    {
        let mut params: Vec<(String, String)> = Vec::new();
        params.push(pair("GetCustomerStatusLog", ""));
        assert(pairs(params@) =~= logs_params());
        self.send_soap_action("GetMultipleHNAPs", &params, epoch_millis)
    }

    /// Takes the reply to a poll for the log. The session is not changed,
    /// whatever came back.
    pub fn logs_reply(&self, status: u16, body: &str) -> (r: Result<
        GetMultipleHNAPsLogsResponse,
        Error,
    >)
        ensures
            match reply_outcome::<GetMultipleHNAPsLogsResponse>(
                "GetMultipleHNAPs"@,
                status,
                body@,
            ) {
                Ok(entry) => r matches Ok(x) && x.holds(entry) && entry.text_member(
                    "GetMultipleHNAPsResult"@,
                ) == Some(x.status()) && x.status() != "ERROR"@,
                Err(e) => r matches Err(x) && x@ == e,
            },
    {
        decode_reply::<GetMultipleHNAPsLogsResponse>("GetMultipleHNAPs", status, body)
    }
}

} // verus!
