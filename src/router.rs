//! The requests that callers send, how each maps to one pool operation, and
//! the envelopes in which results and errors go back.
use vstd::prelude::*;

use crate::address::{
    parse_url, url_host, url_password, url_port_text, url_user, well_shaped, SshAddress, UrlError,
};
use crate::pool::{has_id, Pool};
use crate::session::{CommandError, ConnectError};
use crate::text::{decimal_chars, decimal_of, parse_u16_spec, string_of};

verus! {

/// A request to the connection service.
#[derive(Clone, Debug)]
pub enum SshCommand {
    OpenConnection { id: usize, url: String },
    CloseConnection(usize),
    ExecuteQuery { id: usize, query: String },
    RetryInfoQuery(usize),
    CloseAllConnections,
}

/// The pool operation that a request comes to.
#[derive(Clone, Debug)]
pub enum Plan {
    /// Connect to `address`, then add the session under `id` and start polling it.
    Open { id: usize, address: SshAddress },
    /// Remove the session under the id, cancel its polling and disconnect.
    Close(usize),
    /// Run `command` on the session under `id`.
    Execute { id: usize, command: String },
    /// Read all five metric classes from the session under the id now.
    Snapshot(usize),
    /// Replace the polling task of the session under the id.
    Restart(usize),
    /// Close every session.
    CloseAll,
}

/// Everything that a request can fail with.
#[derive(Clone, Debug)]
pub enum ServiceError {
    MalformedUrl,
    InvalidPort,
    AlreadyOpen(usize),
    NotFound(usize),
    Connect(ConnectError),
    Command(CommandError),
}

/// The query text that asks for a snapshot rather than a remote command.
pub open spec fn snapshot_query() -> Seq<char> {
    "baseinfo"@
}

/// An address string that parses.
pub open spec fn url_accepted(u: Seq<char>) -> bool {
    well_shaped(u) && parse_u16_spec(url_port_text(u)) is Some
}

pub fn is_snapshot_query(query: &String) -> (r: bool)
    ensures
        r == (query@ == snapshot_query()),
{
    let reserved = String::from_str("baseinfo");
    query.eq(&reserved)
}

/// Checks a request against the pool and says which operation it asks for.
/// Nothing is changed: the caller performs the plan under the same lock.
pub fn plan<S, T>(pool: &Pool<S, T>, command: &SshCommand) -> (r: Result<Plan, ServiceError>)
    ensures
        match *command {
            SshCommand::OpenConnection { id, url } => {
                &&& (r matches Err(ServiceError::MalformedUrl)) <==> !well_shaped(url@)
                &&& (r matches Err(ServiceError::InvalidPort)) <==> (well_shaped(url@)
                    && parse_u16_spec(url_port_text(url@)) is None)
                &&& (r matches Err(ServiceError::AlreadyOpen(i)) && i == id) <==> (url_accepted(url@)
                    && has_id(pool@, id))
                &&& r is Ok <==> (url_accepted(url@) && !has_id(pool@, id))
                &&& r matches Ok(p) ==> (p matches Plan::Open { id: i, address: a } && i == id
                    && a.username@ == url_user(url@) && a.password@ == url_password(url@)
                    && a.host@ == url_host(url@) && Some(a.port) == parse_u16_spec(
                    url_port_text(url@),
                ))
            },
            SshCommand::CloseConnection(id) => if has_id(pool@, id) {
                r matches Ok(Plan::Close(i)) && i == id
            } else {
                r matches Err(ServiceError::NotFound(i)) && i == id
            },
            SshCommand::ExecuteQuery { id, query } => if !has_id(pool@, id) {
                r matches Err(ServiceError::NotFound(i)) && i == id
            } else if query@ == snapshot_query() {
                r matches Ok(Plan::Snapshot(i)) && i == id
            } else {
                r matches Ok(Plan::Execute { id: i, command: c }) && i == id && c@ == query@
            },
            SshCommand::RetryInfoQuery(id) => if has_id(pool@, id) {
                r matches Ok(Plan::Restart(i)) && i == id
            } else {
                r matches Err(ServiceError::NotFound(i)) && i == id
            },
            SshCommand::CloseAllConnections => r matches Ok(Plan::CloseAll),
        },
{
    match command {
        SshCommand::OpenConnection { id, url } => {
            match parse_url(url.as_str()) {
                Err(UrlError::Malformed) => Err(ServiceError::MalformedUrl),
                Err(UrlError::InvalidPort) => Err(ServiceError::InvalidPort),
                Ok(address) => {
                    if pool.contains(*id) {
                        Err(ServiceError::AlreadyOpen(*id))
                    } else {
                        Ok(Plan::Open { id: *id, address })
                    }
                },
            }
        },
        SshCommand::CloseConnection(id) => {
            if pool.contains(*id) {
                Ok(Plan::Close(*id))
            } else {
                Err(ServiceError::NotFound(*id))
            }
        },
        SshCommand::ExecuteQuery { id, query } => {
            if !pool.contains(*id) {
                Err(ServiceError::NotFound(*id))
            } else if is_snapshot_query(query) {
                Ok(Plan::Snapshot(*id))
            } else {
                Ok(Plan::Execute { id: *id, command: query.clone() })
            }
        },
        SshCommand::RetryInfoQuery(id) => {
            if pool.contains(*id) {
                Ok(Plan::Restart(*id))
            } else {
                Err(ServiceError::NotFound(*id))
            }
        },
        SshCommand::CloseAllConnections => Ok(Plan::CloseAll),
    }
}

fn decimal_string(n: u64) -> (r: String)
    ensures
        r@ == decimal_of(n as nat),
{
    let digits = decimal_chars(n);
    string_of(digits.as_slice())
}

/// The text in which an error reaches the caller.
pub open spec fn error_text(e: ServiceError) -> Seq<char> {
    match e {
        ServiceError::MalformedUrl => "invalid URL format"@,
        ServiceError::InvalidPort => "invalid port number"@,
        ServiceError::AlreadyOpen(id) => "connection already open, id "@ + decimal_of(id as nat),
        ServiceError::NotFound(id) => "no connection with id "@ + decimal_of(id as nat),
        ServiceError::Connect(ConnectError::Transport(d)) => "connection failed: "@ + d@,
        ServiceError::Connect(ConnectError::AuthFailed) => "authentication failed"@,
        ServiceError::Command(CommandError::NonZeroExit(code)) => "command exited with status "@
            + decimal_of(code as nat),
        ServiceError::Command(CommandError::Transport(m)) => m@,
    }
}

impl ServiceError {
    pub fn message(&self) -> (r: String)
        ensures
            r@ == error_text(*self),
    {
        match self {
            ServiceError::MalformedUrl => String::from_str("invalid URL format"),
            ServiceError::InvalidPort => String::from_str("invalid port number"),
            ServiceError::AlreadyOpen(id) => {
                let mut s = String::from_str("connection already open, id ");
                let d = decimal_string(*id as u64);
                s.append(d.as_str());
                s
            },
            ServiceError::NotFound(id) => {
                let mut s = String::from_str("no connection with id ");
                let d = decimal_string(*id as u64);
                s.append(d.as_str());
                s
            },
            ServiceError::Connect(ConnectError::Transport(d)) => {
                let mut s = String::from_str("connection failed: ");
                s.append(d.as_str());
                s
            },
            ServiceError::Connect(ConnectError::AuthFailed) => String::from_str(
                "authentication failed",
            ),
            ServiceError::Command(CommandError::NonZeroExit(code)) => {
                let mut s = String::from_str("command exited with status ");
                let d = decimal_string(*code as u64);
                s.append(d.as_str());
                s
            },
            ServiceError::Command(CommandError::Transport(m)) => m.clone(),
        }
    }
}

/// The envelope of a successful reply.
#[derive(Clone, Debug)]
pub struct ApiResponse<T> {
    pub code: u16,
    pub data: Option<T>,
    pub message: Option<String>,
}

impl<T> ApiResponse<T> {
    pub fn success(data: T) -> (r: Self)
        ensures
            r.code == 200,
            r.data == Some(data),
            r.message is None,
    {
        ApiResponse { code: 200, message: None, data: Some(data) }
    }
}

} // verus!
