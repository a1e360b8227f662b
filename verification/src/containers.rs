//! What the browser is told about a container.

use vstd::prelude::*;

use crate::text::{strip_leading, trim_start_char};

verus! {

/// A container as listed to the browser.
#[derive(Clone, Debug, PartialEq, Eq)]
pub struct ContainerInfo {
    pub id: String,
    pub name: String,
    pub image: String,
    pub state: String,
    pub status: String,
    /// docker compose project, empty for standalone containers
    pub project: String,
}

/// What Docker reports of a container, each field as it came (absent or not).
#[derive(Clone, Debug, PartialEq, Eq)]
pub struct ContainerSummary {
    pub id: Option<String>,
    /// The first of the container's names, with Docker's leading `/`.
    pub first_name: Option<String>,
    pub image: Option<String>,
    /// The state, already written out as text.
    pub state: Option<String>,
    pub status: Option<String>,
    /// The value of the `com.docker.compose.project` label.
    pub project_label: Option<String>,
}

/// The text of an optional field, empty when absent.
pub open spec fn or_empty(s: Option<String>) -> Seq<char> {
    match s {
        Some(x) => x@,
        None => seq![],
    }
}

fn unwrap_or_empty(s: Option<String>) -> (r: String)
    ensures
        r@ == or_empty(s),
{
    match s {
        Some(x) => x,
        None => String::new(),
    }
}

/// The listing entry of a container: absent fields become empty, and the name
/// loses the leading slashes Docker gives it.
pub fn container_info(s: ContainerSummary) -> (c: ContainerInfo)
    ensures
        c.id@ == or_empty(s.id),
        c.name@ == strip_leading(or_empty(s.first_name), '/'),
        c.image@ == or_empty(s.image),
        c.state@ == or_empty(s.state),
        c.status@ == or_empty(s.status),
        c.project@ == or_empty(s.project_label),
{
    let raw_name = unwrap_or_empty(s.first_name);
    ContainerInfo {
        id: unwrap_or_empty(s.id),
        name: trim_start_char(raw_name.as_str(), '/'),
        image: unwrap_or_empty(s.image),
        state: unwrap_or_empty(s.state),
        status: unwrap_or_empty(s.status),
        project: unwrap_or_empty(s.project_label),
    }
}

/// The listing entries of all containers, in Docker's order.
pub fn container_infos(list: Vec<ContainerSummary>) -> (r: Vec<ContainerInfo>)
    ensures
        r@.len() == list@.len(),
        forall|i: int|
            0 <= i < r@.len() ==> (#[trigger] r@[i]).id@ == or_empty(list@[i].id) && r@[i].name@
                == strip_leading(or_empty(list@[i].first_name), '/') && r@[i].image@ == or_empty(
                list@[i].image,
            ) && r@[i].state@ == or_empty(list@[i].state) && r@[i].status@ == or_empty(
                list@[i].status,
            ) && r@[i].project@ == or_empty(list@[i].project_label),
{
    let ghost orig = list@;
    let mut rest = list;
    let mut out: Vec<ContainerInfo> = Vec::new();
    while rest.len() > 0
        invariant
            out@.len() + rest@.len() == orig.len(),
            rest@ == orig.skip(out@.len() as int),
            forall|i: int|
                0 <= i < out@.len() ==> (#[trigger] out@[i]).id@ == or_empty(orig[i].id)
                    && out@[i].name@ == strip_leading(or_empty(orig[i].first_name), '/')
                    && out@[i].image@ == or_empty(orig[i].image) && out@[i].state@ == or_empty(
                    orig[i].state,
                ) && out@[i].status@ == or_empty(orig[i].status) && out@[i].project@
                    == or_empty(orig[i].project_label),
        decreases rest@.len(),
    {
        let s = rest.remove(0);
        assert(orig[out@.len() as int] == s);
        out.push(container_info(s));
        assert(rest@ =~= orig.skip(out@.len() as int));
    }
    out
}

/// A listing entry shows every reported field as it came, whatever its
/// length; only absent fields become empty, and only the name loses its
/// leading slashes.
pub proof fn lemma_listing_keeps_fields(s: ContainerSummary, x: String)
    ensures
        or_empty(Some(x)) == x@,
        or_empty(None) == Seq::<char>::empty(),
        s.id == Some(x) ==> or_empty(s.id) == x@,
        s.image == Some(x) ==> or_empty(s.image) == x@,
        s.state == Some(x) ==> or_empty(s.state) == x@,
        s.status == Some(x) ==> or_empty(s.status) == x@,
        s.project_label == Some(x) ==> or_empty(s.project_label) == x@,
{
}

} // verus!
