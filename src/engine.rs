use vstd::prelude::*;

use crate::config::Config;
use crate::envfile::{env_view, EnvVar};
use crate::text::{is_ws, lemma_trim_end_skip, trim_end, trimmed_end};

verus! {

/// What is observed of a stack on the remote target.
#[derive(Debug)]
pub struct RemoteStackState {
    pub exists: bool,
    pub running: bool,
    pub compose_content: String,
    pub env: Vec<EnvVar>,
}

/// The branch of the decision table that a stack falls in.
#[derive(Debug, Clone, Copy, PartialEq, Eq, Structural)]
pub enum SyncDecision {
    /// Disabled, and absent on the target: nothing to stop.
    Disabled,
    Stop,
    AlreadyStopped,
    Create,
    Update,
    Start,
    UpToDate,
}

/// One call into the remote target.
#[derive(Debug)]
pub enum BackendCall {
    Create { name: String, compose: String, env: Vec<EnvVar> },
    Update { name: String, compose: String, env: Vec<EnvVar>, force_recreate: bool },
    Start { name: String },
    Stop { name: String },
}

/// What one reconciliation pass decides, and the one call it makes, if any.
#[derive(Debug)]
pub struct SyncPlan {
    pub decision: SyncDecision,
    pub call: Option<BackendCall>,
}

/// Why an operation on the remote target was refused.
#[derive(Debug, Clone, PartialEq, Eq)]
pub enum EngineError {
    /// The stack must exist on the target and does not.
    NotFound(String),
}

impl EngineError {
    /// What went wrong, naming the stack.
    pub fn message(&self) -> (r: String)
        ensures
            self matches EngineError::NotFound(name) ==> r@ == "Stack '"@ + name@
                + "' not found on the remote target. Use 'sync' to create it first."@,
    {
        match self {
            EngineError::NotFound(name) => {
                let mut m = String::from_str("Stack '");
                m.append(name.as_str());
                m.append("' not found on the remote target. Use 'sync' to create it first.");
                m
            },
        }
    }
}

/// The decision table of the reconciliation engine.
pub open spec fn decision_of(enabled: bool, exists: bool, in_sync: bool, running: bool) -> SyncDecision {
    if !enabled {
        if !exists {
            SyncDecision::Disabled
        } else if running {
            SyncDecision::Stop
        } else {
            SyncDecision::AlreadyStopped
        }
    } else if !exists {
        SyncDecision::Create
    } else if !in_sync {
        SyncDecision::Update
    } else if !running {
        SyncDecision::Start
    } else {
        SyncDecision::UpToDate
    }
}

/// The branches that change nothing on the target.
pub open spec fn is_noop(d: SyncDecision) -> bool {
    d == SyncDecision::Disabled || d == SyncDecision::AlreadyStopped || d == SyncDecision::UpToDate
}

pub fn decide(enabled: bool, exists: bool, in_sync: bool, running: bool) -> (d: SyncDecision)
    ensures
        d == decision_of(enabled, exists, in_sync, running),
{
    if !enabled {
        if !exists {
            SyncDecision::Disabled
        } else if running {
            SyncDecision::Stop
        } else {
            SyncDecision::AlreadyStopped
        }
    } else if !exists {
        SyncDecision::Create
    } else if !in_sync {
        SyncDecision::Update
    } else if !running {
        SyncDecision::Start
    } else {
        SyncDecision::UpToDate
    }
}

/// Compose texts match when they are equal once trailing whitespace is cut.
pub open spec fn compose_match(local: Seq<char>, remote: Seq<char>) -> bool {
    trim_end(local) == trim_end(remote)
}

pub fn compose_matches(local: &str, remote: &str) -> (b: bool)
    ensures
        b == compose_match(local@, remote@),
{
    let a = trimmed_end(local);
    let b = trimmed_end(remote);
    a == b
}

/// Whitespace added at the end of a compose text does not change whether it
/// matches: a local file with a final newline matches the same text without it.
pub proof fn lemma_trailing_whitespace_ignored(s: Seq<char>, w: Seq<char>)
    requires
        forall|i: int| 0 <= i < w.len() ==> is_ws(#[trigger] w[i]),
    ensures
        compose_match(s + w, s),
{
    let t = s + w;
    assert forall|j: int| s.len() <= j < t.len() implies is_ws(#[trigger] t[j]) by {
        assert(t[j] == w[j - s.len()]);
    }
    lemma_trim_end_skip(t, s.len() as int);
    assert(t.subrange(0, s.len() as int) =~= s);
}

/// The environment as a map from name to value; a later entry for a name
/// replaces an earlier one.
pub open spec fn env_map(es: Seq<(Seq<char>, Seq<char>)>) -> Map<Seq<char>, Seq<char>>
    decreases es.len(),
{
    if es.len() == 0 {
        Map::empty()
    } else {
        env_map(es.drop_last()).insert(es.last().0, es.last().1)
    }
}

/// Environments match when they map the same names to the same values,
/// whatever their order.
pub open spec fn env_match(local: Seq<EnvVar>, remote: Seq<EnvVar>) -> bool {
    env_map(env_view(local)) == env_map(env_view(remote))
}

proof fn lemma_env_map_suffix(es: Seq<(Seq<char>, Seq<char>)>, j: int, k: Seq<char>)
    requires
        0 <= j <= es.len(),
        forall|i: int| j <= i < es.len() ==> (#[trigger] es[i]).0 != k,
    ensures
        env_map(es).contains_key(k) == env_map(es.subrange(0, j)).contains_key(k),
        env_map(es).contains_key(k) ==> env_map(es)[k] == env_map(es.subrange(0, j))[k],
    decreases es.len() - j,
{
    if j < es.len() {
        let t = es.drop_last();
        assert forall|i: int| j <= i < t.len() implies (#[trigger] t[i]).0 != k by {
            assert(t[i] == es[i]);
        }
        lemma_env_map_suffix(t, j, k);
        assert(t.subrange(0, j) =~= es.subrange(0, j));
    } else {
        assert(es.subrange(0, j) =~= es);
    }
}

/// The value that `vars` gives `name`, the last one written.
fn last_value<'a>(vars: &'a Vec<EnvVar>, name: &String) -> (r: Option<&'a String>)
    ensures
        r is None <==> !env_map(env_view(vars@)).contains_key(name@),
        r matches Some(v) ==> v@ == env_map(env_view(vars@))[name@],
{
    let ghost es = env_view(vars@);
    let mut j: usize = vars.len();
    while j > 0
        invariant
            j <= vars.len(),
            es == env_view(vars@),
            forall|i: int| j <= i < es.len() ==> (#[trigger] es[i]).0 != name@,
        decreases j,
    {
        if vars[j - 1].name == *name {
            proof {
                lemma_env_map_suffix(es, j as int, name@);
                let p = es.subrange(0, j as int);
                assert(p.drop_last() =~= es.subrange(0, j - 1));
                assert(p.last() == es[j - 1]);
            }
            return Some(&vars[j - 1].value);
        }
        j = j - 1;
    }
    proof {
        lemma_env_map_suffix(es, 0, name@);
        assert(es.subrange(0, 0) =~= Seq::<(Seq<char>, Seq<char>)>::empty());
    }
    None
}

proof fn lemma_env_map_keys(es: Seq<(Seq<char>, Seq<char>)>, k: Seq<char>)
    ensures
        env_map(es).contains_key(k) <==> exists|i: int| 0 <= i < es.len() && (#[trigger] es[i]).0 == k,
    decreases es.len(),
{
    if es.len() > 0 {
        let t = es.drop_last();
        lemma_env_map_keys(t, k);
        if env_map(es).contains_key(k) && es.last().0 != k {
            let i = choose|i: int| 0 <= i < t.len() && (#[trigger] t[i]).0 == k;
            assert(es[i] == t[i]);
        }
        if exists|i: int| 0 <= i < es.len() && (#[trigger] es[i]).0 == k {
            let i = choose|i: int| 0 <= i < es.len() && (#[trigger] es[i]).0 == k;
            if i < es.len() - 1 {
                assert(t[i] == es[i]);
            }
        }
    }
}

/// Whether two environments match: same names, same last value for each.
pub fn env_matches(local: &Vec<EnvVar>, remote: &Vec<EnvVar>) -> (b: bool)
    ensures
        b == env_match(local@, remote@),
{
    let ghost lm = env_map(env_view(local@));
    let ghost rm = env_map(env_view(remote@));
    let mut i: usize = 0;
    while i < local.len()
        invariant
            i <= local.len(),
            lm == env_map(env_view(local@)),
            rm == env_map(env_view(remote@)),
            forall|j: int|
                0 <= j < i ==> rm.contains_key((#[trigger] local@[j]).name@) && lm.contains_key(
                    local@[j].name@,
                ) && rm[local@[j].name@] == lm[local@[j].name@],
        decreases local.len() - i,
    {
        let name = &local[i].name;
        proof {
            lemma_env_map_keys(env_view(local@), name@);
            assert(env_view(local@)[i as int].0 == name@);
        }
        let lv = last_value(local, name);
        let rv = last_value(remote, name);
        match (lv, rv) {
            (Some(a), Some(b)) => {
                if *a != *b {
                    return false;
                }
            },
            _ => {
                return false;
            },
        }
        i = i + 1;
    }
    let mut j: usize = 0;
    while j < remote.len()
        invariant
            j <= remote.len(),
            lm == env_map(env_view(local@)),
            rm == env_map(env_view(remote@)),
            forall|k: int| 0 <= k < j ==> lm.contains_key((#[trigger] remote@[k]).name@),
        decreases remote.len() - j,
    {
        let name = &remote[j].name;
        let lv = last_value(local, name);
        if lv.is_none() {
            proof {
                lemma_env_map_keys(env_view(remote@), name@);
                assert(env_view(remote@)[j as int].0 == name@);
            }
            return false;
        }
        j = j + 1;
    }
    proof {
        assert forall|k: Seq<char>| #[trigger] lm.contains_key(k) implies rm.contains_key(k) && rm[k]
            == lm[k] by {
            lemma_env_map_keys(env_view(local@), k);
            let x = choose|x: int| 0 <= x < local@.len() && (#[trigger] env_view(local@)[x]).0 == k;
            assert(local@[x].name@ == k);
        }
        assert forall|k: Seq<char>| #[trigger] rm.contains_key(k) implies lm.contains_key(k) by {
            lemma_env_map_keys(env_view(remote@), k);
            let x = choose|x: int| 0 <= x < remote@.len() && (#[trigger] env_view(remote@)[x]).0 == k;
            assert(remote@[x].name@ == k);
        }
        assert(lm =~= rm);
    }
    true
}

/// The local compose text and environment match what the target holds.
pub open spec fn in_sync(compose: Seq<char>, env: Seq<EnvVar>, remote: RemoteStackState) -> bool {
    compose_match(compose, remote.compose_content@) && env_match(env, remote.env@)
}

/// The branch a stack falls in.
pub open spec fn sync_decision(
    enabled: bool,
    compose: Seq<char>,
    env: Seq<EnvVar>,
    remote: RemoteStackState,
) -> SyncDecision {
    decision_of(enabled, remote.exists, in_sync(compose, env, remote), remote.running)
}

/// The call that a branch makes.
pub open spec fn call_for(d: SyncDecision, name: String, compose: String, env: Vec<EnvVar>) -> Option<
    BackendCall,
> {
    match d {
        SyncDecision::Create => Some(BackendCall::Create { name, compose, env }),
        SyncDecision::Update => Some(
            BackendCall::Update { name, compose, env, force_recreate: false },
        ),
        SyncDecision::Start => Some(BackendCall::Start { name }),
        SyncDecision::Stop => Some(BackendCall::Stop { name }),
        _ => None,
    }
}

/// Reconciles one stack: compares the local compose text and environment
/// with the observed remote state, picks the branch of the decision table,
/// and names the one call that carries it out. A disabled stack's local
/// content is not looked at.
pub fn plan_sync(stack: &Config, compose: String, env: Vec<EnvVar>, remote: &RemoteStackState) -> (p:
    SyncPlan)
    ensures
        p.decision == sync_decision(stack.enabled, compose@, env@, *remote),
        p.call == call_for(p.decision, stack.name, compose, env),
{
    let matching = if stack.enabled && remote.exists {
        compose_matches(compose.as_str(), remote.compose_content.as_str()) && env_matches(&env, &remote.env)
    } else {
        false
    };
    let decision = decide(stack.enabled, remote.exists, matching, remote.running);
    let name = stack.name.clone();
    let call = match decision {
        SyncDecision::Create => Some(BackendCall::Create { name, compose, env }),
        SyncDecision::Update => Some(BackendCall::Update { name, compose, env, force_recreate: false }),
        SyncDecision::Start => Some(BackendCall::Start { name }),
        SyncDecision::Stop => Some(BackendCall::Stop { name }),
        _ => None,
    };
    SyncPlan { decision, call }
}

/// What the target holds once `call` has been carried out on a stack that
/// was in state `before`, as each backend operation promises it: create and
/// update leave the given compose text (up to trailing whitespace) and
/// environment running; start and stop change only whether it runs.
pub open spec fn carried_out(before: RemoteStackState, call: Option<BackendCall>, after: RemoteStackState) -> bool {
    match call {
        None => after == before,
        Some(BackendCall::Create { compose, env, .. }) => after.exists && after.running
            && compose_match(compose@, after.compose_content@) && env_match(env@, after.env@),
        Some(BackendCall::Update { compose, env, .. }) => after.exists && after.running
            && compose_match(compose@, after.compose_content@) && env_match(env@, after.env@),
        Some(BackendCall::Start { .. }) => after.exists && after.running
            && after.compose_content@ == before.compose_content@ && env_match(before.env@, after.env@),
        Some(BackendCall::Stop { .. }) => after.exists && !after.running,
    }
}

/// Reconciling twice in a row is idempotent: once the first pass's call has
/// been carried out, and nothing else has changed, the second pass takes a
/// branch that changes nothing and makes no call.
pub proof fn lemma_sync_idempotent(
    stack: Config,
    compose: String,
    env: Vec<EnvVar>,
    before: RemoteStackState,
    after: RemoteStackState,
)
    requires
        carried_out(
            before,
            call_for(sync_decision(stack.enabled, compose@, env@, before), stack.name, compose, env),
            after,
        ),
    ensures
        is_noop(sync_decision(stack.enabled, compose@, env@, after)),
        call_for(sync_decision(stack.enabled, compose@, env@, after), stack.name, compose, env) is None,
{
}

/// A redeploy: on an enabled stack that exists on the target, one update
/// that forces recreation with the content the target already holds; on a
/// disabled stack nothing; on a stack absent from the target `NotFound`.
pub fn plan_redeploy(stack: &Config, remote: RemoteStackState) -> (r: Result<
    Option<BackendCall>,
    EngineError,
>)
    ensures
        !stack.enabled ==> r == Ok::<Option<BackendCall>, EngineError>(None),
        stack.enabled && !remote.exists ==> (r matches Err(EngineError::NotFound(n)) && n@
            == stack.name@),
        stack.enabled && remote.exists ==> r == Ok::<Option<BackendCall>, EngineError>(
            Some(
                BackendCall::Update {
                    name: stack.name,
                    compose: remote.compose_content,
                    env: remote.env,
                    force_recreate: true,
                },
            ),
        ),
{
    if !stack.enabled {
        return Ok(None);
    }
    if !remote.exists {
        return Err(EngineError::NotFound(stack.name.clone()));
    }
    Ok(
        Some(
            BackendCall::Update {
                name: stack.name.clone(),
                compose: remote.compose_content,
                env: remote.env,
                force_recreate: true,
            },
        ),
    )
}

} // verus!
