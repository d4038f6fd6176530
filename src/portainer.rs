use vstd::prelude::*;

use crate::engine::RemoteStackState;
use crate::envfile::EnvVar;
use crate::paths::strip_slashes_len;
use crate::text::{append_decimal, chars_of, decimal};

verus! {

/// A stack as the Portainer API lists it.
#[derive(Debug)]
pub struct Stack {
    pub id: u64,
    pub name: String,
    pub endpoint_id: u64,
    pub stack_type: u64,
    pub status: u64,
    pub env: Vec<EnvVar>,
    pub created_by: String,
    pub creation_date: u64,
    pub updated_by: String,
    pub update_date: u64,
}

/// The body of `GET /api/stacks/{id}/file`.
#[derive(Debug)]
pub struct StackFileResponse {
    pub stack_file_content: String,
}

/// The body of a stack creation request.
#[derive(Debug)]
pub struct CreateStackPayload {
    pub name: String,
    pub stack_file_content: String,
    pub env: Vec<EnvVar>,
}

/// The body of a stack update request.
#[derive(Debug)]
pub struct UpdateStackPayload {
    pub stack_file_content: String,
    pub env: Vec<EnvVar>,
    pub prune: bool,
    pub pull_image: bool,
}

/// The status code of a running stack.
pub const STATUS_ACTIVE: u64 = 1;

/// An update request: images are always pulled; forcing recreation also
/// prunes what the compose file no longer names.
pub fn update_payload(stack_file_content: String, env: Vec<EnvVar>, force_recreate: bool) -> (p:
    UpdateStackPayload)
    ensures
        p.stack_file_content == stack_file_content,
        p.env == env,
        p.prune == force_recreate,
        p.pull_image,
{
    UpdateStackPayload { stack_file_content, env, prune: force_recreate, pull_image: true }
}

/// The API's base URL: the host without trailing slashes, then `/api`.
pub fn base_url(host: &str) -> (r: String)
    ensures
        r@ == host@.subrange(0, strip_slashes_len(host@) as int) + "/api"@,
{
    let cs = chars_of(host);
    let mut k = cs.len();
    while k > 0 && cs[k - 1] == '/'
        invariant
            k <= cs.len(),
            cs@ == host@,
            forall|j: int| k <= j < cs.len() ==> #[trigger] cs@[j] == '/',
        decreases k,
    {
        k = k - 1;
    }
    proof {
        crate::paths::lemma_strip_slashes(host@, k as int);
    }
    let mut r = host.substring_char(0, k).to_string();
    r.append("/api");
    r
}

/// `/stacks/{id}/file`
pub fn stack_file_path(id: u64) -> (r: String)
    ensures
        r@ == "/stacks/"@ + decimal(id as nat) + "/file"@,
{
    let mut r = String::from_str("/stacks/");
    append_decimal(&mut r, id);
    r.append("/file");
    r
}

/// `/stacks/create/standalone/string?endpointId={endpoint_id}`
pub fn create_stack_path(endpoint_id: u64) -> (r: String)
    ensures
        r@ == "/stacks/create/standalone/string?endpointId="@ + decimal(endpoint_id as nat),
{
    let mut r = String::from_str("/stacks/create/standalone/string?endpointId=");
    append_decimal(&mut r, endpoint_id);
    r
}

/// `/stacks/{id}{action}?endpointId={endpoint_id}`
fn stack_action_path(id: u64, action: &str, endpoint_id: u64) -> (r: String)
    ensures
        r@ == "/stacks/"@ + decimal(id as nat) + action@ + "?endpointId="@ + decimal(
            endpoint_id as nat,
        ),
{
    let mut r = String::from_str("/stacks/");
    append_decimal(&mut r, id);
    r.append(action);
    r.append("?endpointId=");
    append_decimal(&mut r, endpoint_id);
    r
}

/// `/stacks/{id}?endpointId={endpoint_id}`
pub fn update_stack_path(id: u64, endpoint_id: u64) -> (r: String)
    ensures
        r@ == "/stacks/"@ + decimal(id as nat) + "?endpointId="@ + decimal(endpoint_id as nat),
{
    let r = stack_action_path(id, "", endpoint_id);
    proof {
        reveal_strlit("");
    }
    assert(r@ =~= "/stacks/"@ + decimal(id as nat) + "?endpointId="@ + decimal(endpoint_id as nat));
    r
}

/// `/stacks/{id}/start?endpointId={endpoint_id}`
pub fn start_stack_path(id: u64, endpoint_id: u64) -> (r: String)
    ensures
        r@ == "/stacks/"@ + decimal(id as nat) + "/start"@ + "?endpointId="@ + decimal(
            endpoint_id as nat,
        ),
{
    stack_action_path(id, "/start", endpoint_id)
}

/// `/stacks/{id}/stop?endpointId={endpoint_id}`
pub fn stop_stack_path(id: u64, endpoint_id: u64) -> (r: String)
    ensures
        r@ == "/stacks/"@ + decimal(id as nat) + "/stop"@ + "?endpointId="@ + decimal(
            endpoint_id as nat,
        ),
{
    stack_action_path(id, "/stop", endpoint_id)
}

/// Index of the first stack named `name`, or -1.
pub open spec fn find_named(stacks: Seq<Stack>, name: Seq<char>) -> int
    decreases stacks.len(),
{
    if stacks.len() == 0 {
        -1
    } else if stacks[0].name@ == name {
        0
    } else {
        let r = find_named(stacks.drop_first(), name);
        if r < 0 {
            -1
        } else {
            r + 1
        }
    }
}

proof fn lemma_find_named(stacks: Seq<Stack>, name: Seq<char>, k: int)
    requires
        0 <= k <= stacks.len(),
        forall|j: int| 0 <= j < k ==> #[trigger] stacks[j].name@ != name,
        k < stacks.len() ==> stacks[k].name@ == name,
    ensures
        find_named(stacks, name) == if k < stacks.len() {
            k
        } else {
            -1
        },
    decreases k,
{
    if k > 0 {
        let t = stacks.drop_first();
        assert forall|j: int| 0 <= j < k - 1 implies #[trigger] t[j].name@ != name by {
            assert(t[j] == stacks[j + 1]);
        }
        assert(stacks[0].name@ != name);
        lemma_find_named(t, name, k - 1);
    }
}

/// The first listed stack named `name`, if any.
pub fn find_stack_by_name(stacks: Vec<Stack>, name: &str) -> (r: Option<Stack>)
    ensures
        find_named(stacks@, name@) < 0 ==> r is None,
        find_named(stacks@, name@) >= 0 ==> r == Some(stacks@[find_named(stacks@, name@)]),
{
    let key = name.to_string();
    let mut list = stacks;
    let mut i: usize = 0;
    while i < list.len()
        invariant
            i <= list.len(),
            list@ == stacks@,
            key@ == name@,
            forall|j: int| 0 <= j < i ==> #[trigger] stacks@[j].name@ != name@,
        decreases list.len() - i,
    {
        if list[i].name == key {
            proof {
                lemma_find_named(stacks@, name@, i as int);
            }
            let s = list.remove(i);
            return Some(s);
        }
        i = i + 1;
    }
    proof {
        lemma_find_named(stacks@, name@, i as int);
    }
    None
}

/// What the stack's status code says: `active`, `inactive` or `unknown`.
pub fn status_label(status: u64) -> (r: &'static str)
    ensures
        status == 1 ==> r@ == "active"@,
        status == 2 ==> r@ == "inactive"@,
        status != 1 && status != 2 ==> r@ == "unknown"@,
{
    if status == 1 {
        "active"
    } else if status == 2 {
        "inactive"
    } else {
        "unknown"
    }
}

/// What the stack's type code says: `Swarm`, `Compose`, `Kubernetes` or `unknown`.
pub fn stack_type_label(stack_type: u64) -> (r: &'static str)
    ensures
        stack_type == 1 ==> r@ == "Swarm"@,
        stack_type == 2 ==> r@ == "Compose"@,
        stack_type == 3 ==> r@ == "Kubernetes"@,
        !(1 <= stack_type <= 3) ==> r@ == "unknown"@,
{
    if stack_type == 1 {
        "Swarm"
    } else if stack_type == 2 {
        "Compose"
    } else if stack_type == 3 {
        "Kubernetes"
    } else {
        "unknown"
    }
}

/// The observed state of a stack: `found` is the listed stack of that name,
/// if any, and `compose_content` its compose file. A stack runs when its
/// status is active.
pub fn remote_state(found: Option<Stack>, compose_content: String) -> (r: RemoteStackState)
    ensures
        match found {
            Some(s) => r == RemoteStackState {
                exists: true,
                running: s.status == STATUS_ACTIVE,
                compose_content,
                env: s.env,
            },
            None => !r.exists && !r.running && r.compose_content@.len() == 0 && r.env@.len() == 0,
        },
{
    match found {
        Some(s) => RemoteStackState {
            exists: true,
            running: s.status == STATUS_ACTIVE,
            compose_content,
            env: s.env,
        },
        None => RemoteStackState {
            exists: false,
            running: false,
            compose_content: String::new(),
            env: Vec::new(),
        },
    }
}

} // verus!
