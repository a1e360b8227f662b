//! Hosts: the hub's own Docker (`local`) and the remote agents registered with it.

use vstd::prelude::*;

use crate::api::{ApiError, Status};
use crate::random::{hex_text, rand_hex};
use crate::text::{blank, is_blank, text_eq};

verus! {

/// The id of the hub's own Docker host.
pub const LOCAL_HOST: &'static str = "local";

/// Status shown for a host that answers.
pub const ONLINE: &'static str = "online";

/// Status shown for a registered agent that is not connected.
pub const OFFLINE: &'static str = "offline";

/// A host as listed to the browser.
#[derive(Clone, Debug, PartialEq, Eq)]
pub struct HostInfo {
    pub id: String,
    pub name: String,
    pub status: &'static str,
}

/// A newly registered agent host; the token is shown once, for configuring the agent.
#[derive(Clone, Debug, PartialEq, Eq)]
pub struct CreatedHost {
    pub id: String,
    pub name: String,
    pub token: String,
}

/// Whether a host id names the hub's own Docker.
pub fn is_local(host: &str) -> (b: bool)
    ensures
        b == (host@ == LOCAL_HOST@),
{
    text_eq(host, LOCAL_HOST)
}

/// Only the local host is served; any other id is not found.
pub fn check_host(host: &str) -> (r: Result<(), Status>)
    ensures
        r is Ok <==> host@ == LOCAL_HOST@,
        r matches Err(s) ==> s == Status::NotFound,
{
    if is_local(host) {
        Ok(())
    } else {
        Err(Status::NotFound)
    }
}

/// Whether some text of a list equals `id`.
pub open spec fn listed(ids: Seq<String>, id: Seq<char>) -> bool {
    exists|k: int| 0 <= k < ids.len() && (#[trigger] ids[k])@ == id
}

fn is_listed(ids: &Vec<String>, id: &str) -> (b: bool)
    ensures
        b == listed(ids@, id@),
{
    let mut k: usize = 0;
    while k < ids.len()
        invariant
            k <= ids@.len(),
            forall|j: int| 0 <= j < k ==> (#[trigger] ids@[j])@ != id@,
        decreases ids@.len() - k,
    {
        if text_eq(ids[k].as_str(), id) {
            return true;
        }
        k = k + 1;
    }
    false
}

/// The host list: the local host first, named by the configured name or `local`
/// and always online, then each registered host in the given order, online when
/// its id is among the connected agents.
pub fn host_list(local_name: Option<String>, rows: Vec<(String, String)>, online: &Vec<String>) -> (r:
    Vec<HostInfo>)
    ensures
        r@.len() == rows@.len() + 1,
        r@[0].id@ == LOCAL_HOST@,
        r@[0].name@ == match local_name {
            Some(n) => n@,
            None => LOCAL_HOST@,
        },
        r@[0].status@ == ONLINE@,
        forall|i: int|
            0 <= i < rows@.len() ==> (#[trigger] r@[i + 1]).id@ == rows@[i].0@ && r@[i + 1].name@
                == rows@[i].1@ && r@[i + 1].status@ == if listed(online@, rows@[i].0@) {
                ONLINE@
            } else {
                OFFLINE@
            },
{
    let name = match local_name {
        Some(n) => n,
        None => LOCAL_HOST.to_owned(),
    };
    let mut hosts: Vec<HostInfo> = Vec::new();
    hosts.push(HostInfo { id: LOCAL_HOST.to_owned(), name, status: ONLINE });
    let mut i: usize = 0;
    while i < rows.len()
        invariant
            i <= rows@.len(),
            hosts@.len() == i + 1,
            hosts@[0].id@ == LOCAL_HOST@,
            hosts@[0].name@ == match local_name {
                Some(n) => n@,
                None => LOCAL_HOST@,
            },
            hosts@[0].status@ == ONLINE@,
            forall|j: int|
                0 <= j < i ==> (#[trigger] hosts@[j + 1]).id@ == rows@[j].0@ && hosts@[j + 1].name@
                    == rows@[j].1@ && hosts@[j + 1].status@ == if listed(online@, rows@[j].0@) {
                    ONLINE@
                } else {
                    OFFLINE@
                },
        decreases rows@.len() - i,
    {
        let id = rows[i].0.clone();
        let host_name = rows[i].1.clone();
        let status = if is_listed(online, id.as_str()) {
            ONLINE
        } else {
            OFFLINE
        };
        hosts.push(HostInfo { id, name: host_name, status });
        i = i + 1;
    }
    hosts
}

/// Registers a host by name: the name must not be blank; the host gets a random
/// id of 12 hex digits and a random token of 48.
pub fn create_host(name: String) -> (r: Result<CreatedHost, ApiError>)
    ensures
        match r {
            Ok(h) => !blank(name@) && h.name@ == name@ && (exists|b: Seq<u8>|
                b.len() == 6 && h.id@ == hex_text(b)) && (exists|b: Seq<u8>|
                b.len() == 24 && h.token@ == hex_text(b)),
            Err(e) => blank(name@) && e.status == Status::BadRequest && e.message@
                == "name required"@,
        },
{
    if is_blank(name.as_str()) {
        return Err(ApiError::new(Status::BadRequest, "name required"));
    }
    let id = rand_hex(6);
    let token = rand_hex(24);
    Ok(CreatedHost { id, name, token })
}

} // verus!
