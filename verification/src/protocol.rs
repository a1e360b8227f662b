//! The WebSocket protocol between the hub and a remote agent, and what each side
//! makes of the other's messages.

use vstd::prelude::*;

use crate::api::{ApiError, Status};
use crate::containers::ContainerInfo;
use crate::logs::LogLine;
use crate::text::push_str;

verus! {

/// A command from the hub to an agent.
#[derive(Clone, Debug, PartialEq, Eq)]
pub enum Cmd {
    List,
    Logs { container: String, since: Option<i32> },
    Stats { container: String },
    /// stop the stream started under this `id`
    Cancel,
}

/// Hub to agent. `id` correlates responses; it is also the handle to cancel a stream.
#[derive(Clone, Debug, PartialEq, Eq)]
pub struct ClientMsg {
    pub id: u64,
    pub cmd: Cmd,
}

/// A response frame from an agent; `S` is the stats sample it carries.
#[derive(Clone, Debug, PartialEq, Eq)]
pub enum Resp<S> {
    Containers(Vec<ContainerInfo>),
    Log(LogLine),
    Stat(S),
    /// stream finished (no more data for this id)
    End,
    Error(String),
}

/// Agent to hub, tagged with the originating request `id`.
#[derive(Clone, Debug, PartialEq, Eq)]
pub struct AgentMsg<S> {
    pub id: u64,
    pub resp: Resp<S>,
}

/// Whether a frame ends its request: after `End` or `Error` nothing more comes.
pub open spec fn ends_request<S>(r: Resp<S>) -> bool {
    r is End || r is Error
}

/// See `ends_request`.
pub fn is_terminal<S>(r: &Resp<S>) -> (b: bool)
    ensures
        b == ends_request(*r),
{
    match r {
        Resp::End => true,
        Resp::Error(_) => true,
        _ => false,
    }
}

/// Whether answering a command needs the agent's container listing.
pub fn needs_container_list(cmd: &Cmd) -> (b: bool)
    ensures
        b == (*cmd is List),
{
    match cmd {
        Cmd::List => true,
        _ => false,
    }
}

/// The frames an agent sends back for a command: for `List`, the listing (or
/// the error that prevented it) then `End`; log and stats streams are not
/// served yet, so an error then `End`; nothing for `Cancel`. The listing is
/// given exactly when the command is `List`.
pub fn agent_replies<S>(id: u64, cmd: &Cmd, listing: Option<Result<Vec<ContainerInfo>, String>>) -> (r:
    Vec<AgentMsg<S>>)
    requires
        (*cmd is List) ==> listing is Some,
    ensures
        forall|i: int| 0 <= i < r@.len() ==> (#[trigger] r@[i]).id == id,
        match *cmd {
            Cmd::List => r@.len() == 2 && r@[1].resp is End && match listing {
                Some(Ok(list)) => (r@[0].resp matches Resp::Containers(l) && l@ == list@),
                Some(Err(e)) => (r@[0].resp matches Resp::Error(m) && m@ == e@),
                None => false,
            },
            Cmd::Logs { .. } | Cmd::Stats { .. } => r@.len() == 2 && r@[1].resp is End && (
            r@[0].resp matches Resp::Error(m) && m@ == "not implemented yet"@),
            Cmd::Cancel => r@.len() == 0,
        },
{
    let mut out: Vec<AgentMsg<S>> = Vec::new();
    match cmd {
        Cmd::List => {
            let resp = match listing {
                Some(Ok(list)) => Resp::Containers(list),
                Some(Err(e)) => Resp::Error(e),
                None => Resp::Error(String::new()),
            };
            out.push(AgentMsg { id, resp });
            out.push(AgentMsg { id, resp: Resp::End });
        },
        Cmd::Logs { .. } | Cmd::Stats { .. } => {
            out.push(AgentMsg { id, resp: Resp::Error("not implemented yet".to_owned()) });
            out.push(AgentMsg { id, resp: Resp::End });
        },
        Cmd::Cancel => {},
    }
    out
}

/// What the hub answers a listing request for a remote host with, given the
/// agent's first frame: the containers, the agent's error, or a bad gateway.
pub fn remote_list_result<S>(first: Option<Resp<S>>) -> (r: Result<Vec<ContainerInfo>, ApiError>)
    ensures
        match first {
            Some(Resp::Containers(list)) => r matches Ok(l) && l@ == list@,
            Some(Resp::Error(e)) => r matches Err(x) && x.status == Status::BadGateway
                && x.message@ == e@,
            _ => r matches Err(x) && x.status == Status::BadGateway && x.message@
                == "no response from agent"@,
        },
{
    match first {
        Some(Resp::Containers(list)) => Ok(list),
        Some(Resp::Error(e)) => Err(ApiError { status: Status::BadGateway, message: e }),
        _ => Err(ApiError::new(Status::BadGateway, "no response from agent")),
    }
}

/// An item of a server-sent event stream relayed from an agent.
#[derive(Clone, Debug, PartialEq, Eq)]
pub enum SseItem<S> {
    Log(LogLine),
    Stat(S),
    /// sent as a `stream-error` event
    StreamError(String),
}

/// What an agent's frame becomes on the browser's event stream: log lines and
/// samples are relayed, errors become `stream-error` events, the rest is dropped.
pub fn sse_item<S>(resp: Resp<S>) -> (r: Option<SseItem<S>>)
    ensures
        match resp {
            Resp::Log(l) => r matches Some(SseItem::Log(x)) && x == l,
            Resp::Stat(s) => r matches Some(SseItem::Stat(x)) && x == s,
            Resp::Error(e) => r matches Some(SseItem::StreamError(x)) && x@ == e@,
            _ => r is None,
        },
{
    match resp {
        Resp::Log(l) => Some(SseItem::Log(l)),
        Resp::Stat(s) => Some(SseItem::Stat(s)),
        Resp::Error(e) => Some(SseItem::StreamError(e)),
        _ => None,
    }
}

/// The hub an agent connects to when none is configured.
pub const DEFAULT_HUB: &'static str = "ws://localhost:8080";

/// The path and query an agent connects to, before its token.
pub const CONNECT_PATH: &'static str = "/api/agents/connect?token=";

/// The WebSocket URL an agent connects to: the hub, the connect path and its token.
pub fn connect_url(hub: Option<String>, token: &str) -> (url: String)
    ensures
        url@ == match hub {
            Some(h) => h@,
            None => DEFAULT_HUB@,
        } + CONNECT_PATH@ + token@,
{
    let mut url = match hub {
        Some(h) => h,
        None => DEFAULT_HUB.to_owned(),
    };
    push_str(&mut url, CONNECT_PATH);
    push_str(&mut url, token);
    url
}

/// Which frames end a request: `End` and `Error` do; a log line, a stats
/// sample or a container listing never does, so the request stays open for
/// the frames that follow it.
pub proof fn lemma_ends_request_law<S>(r: Resp<S>)
    ensures
        r is End ==> ends_request(r),
        r is Error ==> ends_request(r),
        r is Log ==> !ends_request(r),
        r is Stat ==> !ends_request(r),
        r is Containers ==> !ends_request(r),
{
}

} // verus!
