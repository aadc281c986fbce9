//! The Swarm login dialog's state machine. The dialog asks for a user name
//! and password; a check of the credentials runs in the background, and the
//! caller feeds its outcome and the user's button presses back in as events.

use vstd::prelude::*;

use crate::swarm_creds::{clear_ticket, load, load_user, store};
use crate::text::string_of_str;

verus! {

/// Where the login stands.
pub enum SwarmAuth {
    /// The form is shown; `busy` while a check of credentials is running.
    Pending {
        host: String,
        user_input: String,
        password_input: String,
        error: Option<String>,
        busy: bool,
    },
    /// The credentials were accepted.
    Ready { host: String, user: String, ticket: String },
    /// The user gave up.
    Cancelled,
}

/// What happened since the dialog was last driven.
pub enum AuthEvent {
    /// The background check ended: the user and ticket, or an error message.
    Checked(Result<(String, String), String>),
    /// The user pressed Login.
    LoginPressed,
    /// The user pressed Cancel.
    CancelPressed,
}

/// A check of credentials the caller is to run in the background, reporting
/// its outcome as `AuthEvent::Checked`.
pub enum AuthRequest {
    /// Check that `ticket` still works for `user` on `host`.
    Probe { host: String, user: String, ticket: String },
    /// Log `user` in to `host` with `password`, for a new ticket.
    Login { host: String, user: String, password: String },
}

/// The dialog for `host` as it opens: the form with the remembered user
/// name (or nothing), and, when a user and ticket are remembered, a probe
/// of them running.
pub open spec fn opened(
    s: SwarmAuth,
    req: Option<AuthRequest>,
    host: Seq<char>,
    prefill: Option<String>,
    cached: Option<(String, String)>,
) -> bool {
    &&& s matches SwarmAuth::Pending { host: h, user_input, password_input, error, busy } && {
        &&& h@ == host
        &&& user_input@ == match prefill {
            Some(u) => u@,
            None => Seq::empty(),
        }
        &&& password_input@.len() == 0
        &&& error is None
        &&& busy == cached is Some
    }
    &&& match cached {
        Some((u, t)) => req matches Some(AuthRequest::Probe { host: h, user, ticket }) && h@ == host
            && user@ == u@ && ticket@ == t@,
        None => req is None,
    }
}

/// The dialog for `host` given what the keychain remembers: the user name
/// `prefill` and the pair `cached`.
pub fn open_with(host: &str, prefill: Option<String>, cached: Option<(String, String)>) -> (r: (
    SwarmAuth,
    Option<AuthRequest>,
))
    ensures
        opened(r.0, r.1, host@, prefill, cached),
{
    let user_input = match prefill {
        Some(u) => u,
        None => String::new(),
    };
    let busy = cached.is_some();
    let req = match cached {
        Some((user, ticket)) => Some(
            AuthRequest::Probe { host: string_of_str(host), user, ticket },
        ),
        None => None,
    };
    let state = SwarmAuth::Pending {
        host: string_of_str(host),
        user_input,
        password_input: String::new(),
        error: None,
        busy,
    };
    (state, req)
}

impl SwarmAuth {
    /// Open the dialog for `host`, filling in what the keychain remembers;
    /// a remembered user and ticket are probed at once.
    pub fn new(host: &str) -> (r: (SwarmAuth, Option<AuthRequest>))
        ensures
            exists|prefill: Option<String>, cached: Option<(String, String)>|
                opened(r.0, r.1, host@, prefill, cached),
    {
        let prefill = load_user(host);
        let cached = load(host);
        open_with(host, prefill, cached)
    }

    /// Take one event. Returns whether the dialog is done (the login was
    /// accepted or cancelled) and the check to start, if any.
    ///
    /// While a check runs, its outcome is taken: success stores the user and
    /// ticket for the host and makes the login ready; failure forgets the
    /// host's ticket, shows the message and goes back to the form. While no
    /// check runs, Login starts one with the typed user name and password
    /// (the password field is cleared, any message dropped), and Cancel
    /// cancels. Any other event changes nothing.
    pub fn step(&mut self, ev: AuthEvent) -> (r: (bool, Option<AuthRequest>))
        ensures
            match *old(self) {
                SwarmAuth::Pending { host, user_input, password_input, error, busy } => match ev {
                    AuthEvent::Checked(Ok((u, t))) => if busy {
                        &&& r == (true, None::<AuthRequest>)
                        &&& *final(self) matches SwarmAuth::Ready { host: h, user, ticket }
                            && h@ == host@ && user@ == u@ && ticket@ == t@
                    } else {
                        r == (false, None::<AuthRequest>) && *final(self) == *old(self)
                    },
                    AuthEvent::Checked(Err(e)) => if busy {
                        &&& r == (false, None::<AuthRequest>)
                        &&& *final(self) matches SwarmAuth::Pending {
                            host: h,
                            user_input: ui,
                            password_input: pi,
                            error: er,
                            busy: b,
                        } && h@ == host@ && ui@ == user_input@ && pi@ == password_input@ && er
                            is Some && er.unwrap()@ == e@ && !b
                    } else {
                        r == (false, None::<AuthRequest>) && *final(self) == *old(self)
                    },
                    AuthEvent::LoginPressed => if !busy {
                        &&& !r.0
                        &&& r.1 matches Some(AuthRequest::Login { host: h, user, password })
                            && h@ == host@ && user@ == user_input@ && password@
                            == password_input@
                        &&& *final(self) matches SwarmAuth::Pending {
                            host: h,
                            user_input: ui,
                            password_input: pi,
                            error: er,
                            busy: b,
                        } && h@ == host@ && ui@ == user_input@ && pi@.len() == 0 && er is None
                            && b
                    } else {
                        r == (false, None::<AuthRequest>) && *final(self) == *old(self)
                    },
                    AuthEvent::CancelPressed => if !busy {
                        r == (true, None::<AuthRequest>) && *final(self) is Cancelled
                    } else {
                        r == (false, None::<AuthRequest>) && *final(self) == *old(self)
                    },
                },
                _ => r == (false, None::<AuthRequest>) && *final(self) == *old(self),
            },
    {
        let (is_pending, busy) = match self {
            SwarmAuth::Pending { busy, .. } => (true, *busy),
            _ => (false, false),
        };
        if !is_pending {
            return (false, None);
        }
        match ev {
            AuthEvent::Checked(outcome) => {
                if !busy {
                    return (false, None);
                }
                match outcome {
                    Ok((user, ticket)) => {
                        let host = match self {
                            SwarmAuth::Pending { host, .. } => host.clone(),
                            _ => String::new(),
                        };
                        store(host.as_str(), user.as_str(), ticket.as_str());
                        *self = SwarmAuth::Ready { host, user, ticket };
                        (true, None)
                    },
                    Err(message) => {
                        match self {
                            SwarmAuth::Pending { host, error, busy, .. } => {
                                clear_ticket(host.as_str());
                                *error = Some(message);
                                *busy = false;
                            },
                            _ => {},
                        }
                        (false, None)
                    },
                }
            },
            AuthEvent::LoginPressed => {
                if busy {
                    return (false, None);
                }
                match self {
                    SwarmAuth::Pending { host, user_input, password_input, error, busy } => {
                        let password = password_input.clone();
                        let req = AuthRequest::Login {
                            host: host.clone(),
                            user: user_input.clone(),
                            password,
                        };
                        *password_input = String::new();
                        *error = None;
                        *busy = true;
                        (false, Some(req))
                    },
                    _ => (false, None),
                }
            },
            AuthEvent::CancelPressed => {
                if busy {
                    return (false, None);
                }
                *self = SwarmAuth::Cancelled;
                (true, None)
            },
        }
    }
}

} // verus!
