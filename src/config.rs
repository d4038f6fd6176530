use vstd::prelude::*;

use crate::paths::{join_path, join_path_spec, parent_dir, parent_dir_spec};
use crate::text::{append_decimal, decimal, sort_strings, sorted_strings};

verus! {

/// Which remote target the stacks are deployed to.
#[derive(Debug, Clone, Copy, PartialEq, Eq, Structural)]
pub enum DeployMode {
    Portainer,
    Ssh,
}

impl Default for DeployMode {
    fn default() -> (r: DeployMode)
        ensures
            r == DeployMode::Portainer,
    {
        DeployMode::Portainer
    }
}

/// A stack as one configuration file declares it.
#[derive(Debug, Clone)]
pub struct StackEntry {
    pub compose_file: String,
    pub env_file: Option<String>,
    pub endpoint_id: Option<u64>,
    pub enabled: Option<bool>,
}

/// A declared stack resolved against the global settings and the directory
/// of the file that declares it.
#[derive(Debug)]
pub struct Config {
    pub name: String,
    pub compose_file: String,
    pub env_file: Option<String>,
    pub host: String,
    pub endpoint_id: u64,
    pub enabled: bool,
    pub base_dir: String,
}

/// The endpoint used when no configuration file names one.
pub const DEFAULT_ENDPOINT_ID: u64 = 2;

pub fn default_endpoint_id() -> (r: u64)
    ensures
        r == DEFAULT_ENDPOINT_ID,
{
    DEFAULT_ENDPOINT_ID
}

/// What one configuration file holds: every global field is optional.
#[derive(Debug, Clone)]
pub struct PartialConfigFile {
    pub mode: Option<DeployMode>,
    pub portainer_api_key: Option<String>,
    pub host: Option<String>,
    pub endpoint_id: Option<u64>,
    pub ssh_user: Option<String>,
    pub ssh_key: Option<String>,
    pub host_dir: Option<String>,
    /// The declared stacks, by name.
    pub stacks: Vec<(String, StackEntry)>,
}

/// Settings of the Portainer target.
#[derive(Debug)]
pub struct PortainerGlobalConfig {
    pub api_key: String,
    pub host: String,
    pub endpoint_id: u64,
}

/// Settings of the SSH target.
#[derive(Debug)]
pub struct SshGlobalConfig {
    pub host: String,
    pub ssh_user: Option<String>,
    pub ssh_key: Option<String>,
    pub host_dir: String,
}

/// The validated global settings: one variant per target.
#[derive(Debug)]
pub enum ResolvedGlobalConfig {
    Portainer(PortainerGlobalConfig),
    Ssh(SshGlobalConfig),
}

/// Why configuration could not be resolved.
#[derive(Debug, Clone, PartialEq, Eq)]
pub enum ConfigError {
    /// No declared stack has this name.
    StackNotFound(String),
    /// No configuration file was found on the walk.
    NoConfigFile,
    MissingApiKey,
    MissingHost,
    MissingHostDir,
}

impl ConfigError {
    /// What went wrong, and which key or file supplies what is missing.
    pub fn message(&self) -> (r: String)
        ensures
            self matches ConfigError::StackNotFound(name) ==> r@ == "Stack '"@ + name@
                + "' not found in config"@,
            *self == ConfigError::NoConfigFile ==> r@
                == "No config file found. Create a .stack-sync.toml file with stack definitions."@,
            *self == ConfigError::MissingApiKey ==> r@
                == "API key not found. Set PORTAINER_API_KEY environment variable or add 'portainer_api_key' to a .stack-sync.toml config file."@,
            *self == ConfigError::MissingHost ==> r@
                == "Host not found. Add 'host' to a .stack-sync.toml config file."@,
            *self == ConfigError::MissingHostDir ==> r@
                == "host_dir not found. Add 'host_dir' to a .stack-sync.toml config file for SSH mode."@,
    {
        match self {
            ConfigError::StackNotFound(name) => {
                let mut m = String::from_str("Stack '");
                m.append(name.as_str());
                m.append("' not found in config");
                m
            },
            ConfigError::NoConfigFile => String::from_str(
                "No config file found. Create a .stack-sync.toml file with stack definitions.",
            ),
            ConfigError::MissingApiKey => String::from_str(
                "API key not found. Set PORTAINER_API_KEY environment variable or add 'portainer_api_key' to a .stack-sync.toml config file.",
            ),
            ConfigError::MissingHost => String::from_str(
                "Host not found. Add 'host' to a .stack-sync.toml config file.",
            ),
            ConfigError::MissingHostDir => String::from_str(
                "host_dir not found. Add 'host_dir' to a .stack-sync.toml config file for SSH mode.",
            ),
        }
    }
}

/// Index of the first stack named `name`, or -1.
pub open spec fn find_stack(stacks: Seq<(String, StackEntry)>, name: Seq<char>) -> int
    decreases stacks.len(),
{
    if stacks.len() == 0 {
        -1
    } else if stacks[0].0@ == name {
        0
    } else {
        let r = find_stack(stacks.drop_first(), name);
        if r < 0 {
            -1
        } else {
            r + 1
        }
    }
}

proof fn lemma_find_stack(stacks: Seq<(String, StackEntry)>, name: Seq<char>, k: int)
    requires
        0 <= k <= stacks.len(),
        forall|j: int| 0 <= j < k ==> #[trigger] stacks[j].0@ != name,
        k < stacks.len() ==> stacks[k].0@ == name,
    ensures
        find_stack(stacks, name) == if k < stacks.len() {
            k
        } else {
            -1
        },
    decreases k,
{
    if k > 0 {
        let t = stacks.drop_first();
        assert forall|j: int| 0 <= j < k - 1 implies #[trigger] t[j].0@ != name by {
            assert(t[j] == stacks[j + 1]);
        }
        assert(stacks[0].0@ != name);
        lemma_find_stack(t, name, k - 1);
    }
}

pub open spec fn global_host(g: ResolvedGlobalConfig) -> String {
    match g {
        ResolvedGlobalConfig::Portainer(p) => p.host,
        ResolvedGlobalConfig::Ssh(s) => s.host,
    }
}

/// The endpoint a stack resolves to: its own override, else the global one;
/// always 0 on the SSH target.
pub open spec fn stack_endpoint(g: ResolvedGlobalConfig, e: StackEntry) -> u64 {
    match g {
        ResolvedGlobalConfig::Portainer(p) => match e.endpoint_id {
            Some(id) => id,
            None => p.endpoint_id,
        },
        ResolvedGlobalConfig::Ssh(_) => 0,
    }
}

/// `c` is the stack `e`, named `name`, resolved against `g` in `base_dir`.
pub open spec fn resolved_as(
    c: Config,
    name: Seq<char>,
    e: StackEntry,
    g: ResolvedGlobalConfig,
    base_dir: Seq<char>,
) -> bool {
    &&& c.name@ == name
    &&& c.compose_file == e.compose_file
    &&& c.env_file == e.env_file
    &&& c.host == global_host(g)
    &&& c.endpoint_id == stack_endpoint(g, e)
    &&& c.enabled == match e.enabled {
        Some(b) => b,
        None => true,
    }
    &&& c.base_dir@ == base_dir
}

pub fn clone_opt_string(o: &Option<String>) -> (r: Option<String>)
    ensures
        r == *o,
{
    match o {
        Some(s) => Some(s.clone()),
        None => None,
    }
}

impl PartialConfigFile {
    /// Resolves the stack named `stack_name` against the global settings.
    pub fn resolve(&self, stack_name: &str, global: &ResolvedGlobalConfig, base_dir: &str) -> (r:
        Result<Config, ConfigError>)
        ensures
            find_stack(self.stacks@, stack_name@) < 0 ==> (r matches Err(
                ConfigError::StackNotFound(n),
            ) && n@ == stack_name@),
            find_stack(self.stacks@, stack_name@) >= 0 ==> (r matches Ok(c) && resolved_as(
                c,
                stack_name@,
                self.stacks@[find_stack(self.stacks@, stack_name@)].1,
                *global,
                base_dir@,
            )),
    {
        let key = stack_name.to_string();
        let mut i: usize = 0;
        while i < self.stacks.len()
            invariant
                i <= self.stacks.len(),
                key@ == stack_name@,
                forall|j: int| 0 <= j < i ==> #[trigger] self.stacks@[j].0@ != stack_name@,
            decreases self.stacks.len() - i,
        {
            if self.stacks[i].0 == key {
                proof {
                    lemma_find_stack(self.stacks@, stack_name@, i as int);
                }
                let entry = &self.stacks[i].1;
                let (host, endpoint_id) = match global {
                    ResolvedGlobalConfig::Portainer(p) => {
                        let id = match entry.endpoint_id {
                            Some(id) => id,
                            None => p.endpoint_id,
                        };
                        (p.host.clone(), id)
                    },
                    ResolvedGlobalConfig::Ssh(s) => (s.host.clone(), 0),
                };
                let enabled = match entry.enabled {
                    Some(b) => b,
                    None => true,
                };
                return Ok(
                    Config {
                        name: key,
                        compose_file: entry.compose_file.clone(),
                        env_file: clone_opt_string(&entry.env_file),
                        host,
                        endpoint_id,
                        enabled,
                        base_dir: base_dir.to_string(),
                    },
                );
            }
            i = i + 1;
        }
        proof {
            lemma_find_stack(self.stacks@, stack_name@, i as int);
        }
        Err(ConfigError::StackNotFound(key))
    }

    /// The names of the declared stacks, in declaration order.
    pub fn stack_names(&self) -> (names: Vec<String>)
        ensures
            names@.len() == self.stacks@.len(),
            forall|i: int| 0 <= i < names@.len() ==> names@[i] == #[trigger] self.stacks@[i].0,
    {
        let mut names: Vec<String> = Vec::new();
        let mut i: usize = 0;
        while i < self.stacks.len()
            invariant
                i <= self.stacks.len(),
                names@.len() == i,
                forall|j: int| 0 <= j < i ==> names@[j] == #[trigger] self.stacks@[j].0,
            decreases self.stacks.len() - i,
        {
            names.push(self.stacks[i].0.clone());
            i = i + 1;
        }
        names
    }
}

impl Config {
    /// The compose file's path: `compose_file` under `base_dir`.
    pub fn compose_path(&self) -> (r: String)
        ensures
            r@ == join_path_spec(self.base_dir@, self.compose_file@),
    {
        join_path(self.base_dir.as_str(), self.compose_file.as_str())
    }

    /// The environment file's path, when the stack has one.
    pub fn env_path(&self) -> (r: Option<String>)
        ensures
            match self.env_file {
                Some(f) => r matches Some(p) && p@ == join_path_spec(self.base_dir@, f@),
                None => r is None,
            },
    {
        match &self.env_file {
            Some(f) => Some(join_path(self.base_dir.as_str(), f.as_str())),
            None => None,
        }
    }
}

impl PartialConfigFile {
    /// The names of the declared stacks, in the order of `str`'s `Ord`.
    pub fn sorted_stack_names(&self) -> (names: Vec<String>)
        ensures
            sorted_strings(names@),
            names@.to_multiset() == self.stacks@.map_values(|e: (String, StackEntry)| e.0).to_multiset(),
    {
        let names = self.stack_names();
        assert(names@ =~= self.stacks@.map_values(|e: (String, StackEntry)| e.0));
        sort_strings(names)
    }
}

/// What the walk up the directory tree has gathered so far. Nearer
/// directories are visited first; a field keeps the first value found.
#[derive(Debug)]
pub struct ConfigChainResult {
    pub mode: Option<DeployMode>,
    pub api_key: Option<String>,
    pub host: Option<String>,
    pub endpoint_id: Option<u64>,
    pub ssh_user: Option<String>,
    pub ssh_key: Option<String>,
    pub host_dir: Option<String>,
    /// The local manifest: the first file found, or the file named at the start.
    pub local_config: Option<PartialConfigFile>,
    pub local_config_path: Option<String>,
}

/// `cur` if it is set, else `new`.
pub open spec fn inherit<T>(cur: Option<T>, new: Option<T>) -> Option<T> {
    if cur is Some {
        cur
    } else {
        new
    }
}

/// The chain once the file `f`, found at `path`, has been taken in.
pub open spec fn absorbed(a: ConfigChainResult, path: String, f: PartialConfigFile) -> ConfigChainResult {
    ConfigChainResult {
        mode: inherit(a.mode, f.mode),
        api_key: inherit(a.api_key, f.portainer_api_key),
        host: inherit(a.host, f.host),
        endpoint_id: inherit(a.endpoint_id, f.endpoint_id),
        ssh_user: inherit(a.ssh_user, f.ssh_user),
        ssh_key: inherit(a.ssh_key, f.ssh_key),
        host_dir: inherit(a.host_dir, f.host_dir),
        local_config: if a.local_config is Some {
            a.local_config
        } else {
            Some(f)
        },
        local_config_path: if a.local_config is Some {
            a.local_config_path
        } else {
            Some(path)
        },
    }
}

pub open spec fn mode_of(m: Option<DeployMode>) -> DeployMode {
    match m {
        Some(m) => m,
        None => DeployMode::Portainer,
    }
}

/// Every field that the chain's mode requires is present.
pub open spec fn chain_complete(a: ConfigChainResult) -> bool {
    match mode_of(a.mode) {
        DeployMode::Portainer => a.api_key is Some && a.host is Some && a.endpoint_id is Some,
        DeployMode::Ssh => a.host is Some && a.host_dir is Some,
    }
}

impl ConfigChainResult {
    /// The state before any directory is visited; `env_api_key` is the API key
    /// from the environment, which outranks every file.
    pub fn start(env_api_key: Option<String>) -> (r: ConfigChainResult)
        ensures
            r == (ConfigChainResult {
                mode: None,
                api_key: env_api_key,
                host: None,
                endpoint_id: None,
                ssh_user: None,
                ssh_key: None,
                host_dir: None,
                local_config: None,
                local_config_path: None,
            }),
    {
        ConfigChainResult {
            mode: None,
            api_key: env_api_key,
            host: None,
            endpoint_id: None,
            ssh_user: None,
            ssh_key: None,
            host_dir: None,
            local_config: None,
            local_config_path: None,
        }
    }

    /// The state before any directory is visited when a file was named at the
    /// start: it is the local manifest, and no file found on the walk replaces it.
    pub fn start_with_local(env_api_key: Option<String>, path: String, file: PartialConfigFile) -> (r:
        ConfigChainResult)
        ensures
            r == (ConfigChainResult {
                mode: None,
                api_key: env_api_key,
                host: None,
                endpoint_id: None,
                ssh_user: None,
                ssh_key: None,
                host_dir: None,
                local_config: Some(file),
                local_config_path: Some(path),
            }),
    {
        ConfigChainResult {
            mode: None,
            api_key: env_api_key,
            host: None,
            endpoint_id: None,
            ssh_user: None,
            ssh_key: None,
            host_dir: None,
            local_config: Some(file),
            local_config_path: Some(path),
        }
    }

    /// Whether the walk may look into a directory. `outside_home` says that the
    /// home directory is known and the directory is not inside it: once a local
    /// manifest is known, such a directory ends the walk.
    pub fn may_enter(&self, outside_home: bool) -> (b: bool)
        ensures
            b == !(outside_home && self.local_config is Some),
    {
        !(outside_home && self.local_config.is_some())
    }

    pub fn is_complete(&self) -> (b: bool)
        ensures
            b == chain_complete(*self),
    {
        let mode = match self.mode {
            Some(m) => m,
            None => DeployMode::Portainer,
        };
        match mode {
            DeployMode::Portainer => self.api_key.is_some() && self.host.is_some()
                && self.endpoint_id.is_some(),
            DeployMode::Ssh => self.host.is_some() && self.host_dir.is_some(),
        }
    }

    /// Takes in the file `f` found at `path`.
    pub fn absorb(&mut self, path: String, f: PartialConfigFile)
        ensures
            *final(self) == absorbed(*old(self), path, f),
    {
        if self.mode.is_none() {
            self.mode = f.mode;
        }
        if self.api_key.is_none() {
            self.api_key = clone_opt_string(&f.portainer_api_key);
        }
        if self.host.is_none() {
            self.host = clone_opt_string(&f.host);
        }
        if self.endpoint_id.is_none() {
            self.endpoint_id = f.endpoint_id;
        }
        if self.ssh_user.is_none() {
            self.ssh_user = clone_opt_string(&f.ssh_user);
        }
        if self.ssh_key.is_none() {
            self.ssh_key = clone_opt_string(&f.ssh_key);
        }
        if self.host_dir.is_none() {
            self.host_dir = clone_opt_string(&f.host_dir);
        }
        if self.local_config.is_none() {
            self.local_config = Some(f);
            self.local_config_path = Some(path);
        }
    }

    /// One directory of the walk: `found` is the configuration file it holds,
    /// if any, and `at_home` says that it is the home directory. Returns whether
    /// the walk goes on to the parent directory: it stops once the chain is
    /// complete after a file, and at the home directory.
    pub fn visit(&mut self, found: Option<(String, PartialConfigFile)>, at_home: bool) -> (go_on: bool)
        ensures
            match found {
                Some((p, f)) => *final(self) == absorbed(*old(self), p, f) && go_on == (!chain_complete(
                    *final(self),
                ) && !at_home),
                None => *final(self) == *old(self) && go_on == !at_home,
            },
    {
        match found {
            Some((p, f)) => {
                self.absorb(p, f);
                if self.is_complete() {
                    return false;
                }
            },
            None => {},
        }
        !at_home
    }
}

/// A field that is present and not empty.
pub open spec fn filled(o: Option<String>) -> bool {
    o matches Some(s) && s@.len() > 0
}

/// What validating the chain gives: the global settings of its mode, or the
/// first field that is missing.
pub open spec fn chain_outcome(c: ConfigChainResult) -> Result<ResolvedGlobalConfig, ConfigError> {
    match mode_of(c.mode) {
        DeployMode::Portainer => if !filled(c.api_key) {
            Err(ConfigError::MissingApiKey)
        } else if !filled(c.host) {
            Err(ConfigError::MissingHost)
        } else {
            Ok(
                ResolvedGlobalConfig::Portainer(
                    PortainerGlobalConfig {
                        api_key: c.api_key->0,
                        host: c.host->0,
                        endpoint_id: match c.endpoint_id {
                            Some(id) => id,
                            None => DEFAULT_ENDPOINT_ID,
                        },
                    },
                ),
            )
        },
        DeployMode::Ssh => if !filled(c.host) {
            Err(ConfigError::MissingHost)
        } else if !filled(c.host_dir) {
            Err(ConfigError::MissingHostDir)
        } else {
            Ok(
                ResolvedGlobalConfig::Ssh(
                    SshGlobalConfig {
                        host: c.host->0,
                        ssh_user: c.ssh_user,
                        ssh_key: c.ssh_key,
                        host_dir: c.host_dir->0,
                    },
                ),
            )
        },
    }
}

fn take_filled(o: Option<String>) -> (r: Option<String>)
    ensures
        filled(o) ==> r == o,
        !filled(o) ==> r is None,
{
    match o {
        Some(s) => if s.as_str().unicode_len() == 0 {
            None
        } else {
            Some(s)
        },
        None => None,
    }
}

/// Validates what the walk gathered: the global settings, the local manifest
/// and its path. Without a local manifest it fails with `NoConfigFile`; else
/// with the first field that the mode (Portainer unless set) requires and that
/// is missing or empty.
pub fn resolve_config_chain(chain: ConfigChainResult) -> (r: Result<
    (ResolvedGlobalConfig, PartialConfigFile, String),
    ConfigError,
>)
    ensures
        chain.local_config is None || chain.local_config_path is None ==> r == Err::<
            (ResolvedGlobalConfig, PartialConfigFile, String),
            ConfigError,
        >(ConfigError::NoConfigFile),
        chain.local_config is Some && chain.local_config_path is Some ==> match chain_outcome(chain) {
            Ok(g) => r == Ok::<(ResolvedGlobalConfig, PartialConfigFile, String), ConfigError>(
                (g, chain.local_config->0, chain.local_config_path->0),
            ),
            Err(e) => r == Err::<(ResolvedGlobalConfig, PartialConfigFile, String), ConfigError>(e),
        },
{
    let ghost c = chain;
    let ConfigChainResult {
        mode,
        api_key,
        host,
        endpoint_id,
        ssh_user,
        ssh_key,
        host_dir,
        local_config,
        local_config_path,
    } = chain;
    let (local, path) = match (local_config, local_config_path) {
        (Some(l), Some(p)) => (l, p),
        _ => {
            return Err(ConfigError::NoConfigFile);
        },
    };
    let mode = match mode {
        Some(m) => m,
        None => DeployMode::Portainer,
    };
    let global = match mode {
        DeployMode::Portainer => {
            let api_key = match take_filled(api_key) {
                Some(k) => k,
                None => {
                    return Err(ConfigError::MissingApiKey);
                },
            };
            let host = match take_filled(host) {
                Some(h) => h,
                None => {
                    return Err(ConfigError::MissingHost);
                },
            };
            let endpoint_id = match endpoint_id {
                Some(id) => id,
                None => default_endpoint_id(),
            };
            ResolvedGlobalConfig::Portainer(PortainerGlobalConfig { api_key, host, endpoint_id })
        },
        DeployMode::Ssh => {
            let host = match take_filled(host) {
                Some(h) => h,
                None => {
                    return Err(ConfigError::MissingHost);
                },
            };
            let host_dir = match take_filled(host_dir) {
                Some(d) => d,
                None => {
                    return Err(ConfigError::MissingHostDir);
                },
            };
            ResolvedGlobalConfig::Ssh(SshGlobalConfig { host, ssh_user, ssh_key, host_dir })
        },
    };
    Ok((global, local, path))
}

/// A nearer file's global field outranks a farther one's: after the walk
/// takes in `near` and then `far`, each global field that the chain did not
/// already hold is `near`'s when `near` sets it, and `far`'s otherwise. The
/// local manifest is the first file taken in.
pub proof fn lemma_nearer_file_wins(
    a: ConfigChainResult,
    near_path: String,
    near: PartialConfigFile,
    far_path: String,
    far: PartialConfigFile,
)
    ensures
        ({
            let r = absorbed(absorbed(a, near_path, near), far_path, far);
            &&& a.mode is None ==> r.mode == inherit(near.mode, far.mode)
            &&& a.api_key is None ==> r.api_key == inherit(near.portainer_api_key, far.portainer_api_key)
            &&& a.host is None ==> r.host == inherit(near.host, far.host)
            &&& a.endpoint_id is None ==> r.endpoint_id == inherit(near.endpoint_id, far.endpoint_id)
            &&& a.ssh_user is None ==> r.ssh_user == inherit(near.ssh_user, far.ssh_user)
            &&& a.ssh_key is None ==> r.ssh_key == inherit(near.ssh_key, far.ssh_key)
            &&& a.host_dir is None ==> r.host_dir == inherit(near.host_dir, far.host_dir)
            &&& a.local_config is None ==> r.local_config == Some(near) && r.local_config_path == Some(
                near_path,
            )
        }),
{
}

pub open spec fn config_names(cs: Seq<Config>) -> Seq<String> {
    cs.map_values(|c: Config| c.name)
}

pub open spec fn stack_keys(stacks: Seq<(String, StackEntry)>) -> Seq<String> {
    stacks.map_values(|e: (String, StackEntry)| e.0)
}

/// `cs` resolves each of `names`, in order.
pub open spec fn resolves_all(
    cs: Seq<Config>,
    names: Seq<String>,
    local: PartialConfigFile,
    g: ResolvedGlobalConfig,
    base_dir: Seq<char>,
) -> bool {
    &&& cs.len() == names.len()
    &&& config_names(cs) == names
    &&& forall|i: int|
        0 <= i < cs.len() ==> find_stack(local.stacks@, names[i]@) >= 0 && resolved_as(
            #[trigger] cs[i],
            names[i]@,
            local.stacks@[find_stack(local.stacks@, names[i]@)].1,
            g,
            base_dir,
        )
}

/// `r` resolves every name, or fails on the first that no stack has.
pub open spec fn resolve_names_outcome(
    r: Result<Vec<Config>, ConfigError>,
    names: Seq<String>,
    local: PartialConfigFile,
    g: ResolvedGlobalConfig,
    base_dir: Seq<char>,
) -> bool {
    if forall|i: int| 0 <= i < names.len() ==> find_stack(local.stacks@, #[trigger] names[i]@) >= 0 {
        r matches Ok(cs) && resolves_all(cs@, names, local, g, base_dir)
    } else {
        exists|k: int|
            0 <= k < names.len() && find_stack(local.stacks@, #[trigger] names[k]@) < 0 && (forall|
                j: int,
            | 0 <= j < k ==> find_stack(local.stacks@, #[trigger] names[j]@) >= 0) && (r matches Err(
                ConfigError::StackNotFound(n),
            ) && n@ == names[k]@)
    }
}

fn resolve_names(
    local: &PartialConfigFile,
    names: &Vec<String>,
    global: &ResolvedGlobalConfig,
    base_dir: &str,
) -> (r: Result<Vec<Config>, ConfigError>)
    ensures
        resolve_names_outcome(r, names@, *local, *global, base_dir@),
{
    let mut cs: Vec<Config> = Vec::new();
    let mut i: usize = 0;
    assert(config_names(cs@) =~= names@.subrange(0, 0));
    while i < names.len()
        invariant
            i <= names.len(),
            resolves_all(cs@, names@.subrange(0, i as int), *local, *global, base_dir@),
        decreases names.len() - i,
    {
        match local.resolve(names[i].as_str(), global, base_dir) {
            Ok(mut c) => {
                c.name = names[i].clone();
                let ghost pre = cs@;
                cs.push(c);
                proof {
                    assert(config_names(cs@) =~= config_names(pre).push(c.name));
                    assert(names@.subrange(0, i + 1) =~= names@.subrange(0, i as int).push(names@[i as int]));
                    assert forall|j: int| 0 <= j < cs@.len() implies find_stack(local.stacks@, names@.subrange(0, i + 1)[j]@) >= 0 && resolved_as(
                        #[trigger] cs@[j],
                        names@.subrange(0, i + 1)[j]@,
                        local.stacks@[find_stack(local.stacks@, names@.subrange(0, i + 1)[j]@)].1,
                        *global,
                        base_dir@,
                    ) by {
                        if j < i {
                            assert(cs@[j] == pre[j]);
                            assert(names@.subrange(0, i + 1)[j] == names@.subrange(0, i as int)[j]);
                        }
                    }
                }
            },
            Err(e) => {
                proof {
                    assert forall|j: int| 0 <= j < i implies find_stack(local.stacks@, #[trigger] names@[j]@) >= 0 by {
                        assert(names@[j] == names@.subrange(0, i as int)[j]);
                        assert(cs@[j] == cs@[j]);
                    }
                    assert(find_stack(local.stacks@, names@[i as int]@) < 0);
                }
                return Err(e);
            },
        }
        i = i + 1;
    }
    assert(names@.subrange(0, names.len() as int) =~= names@);
    Ok(cs)
}

/// Resolves the stacks named in `filter`, or every declared stack in name
/// order when `filter` is empty, against `global`, relative to the directory
/// of the local manifest found at `config_path`.
pub fn resolve_stacks(
    global: &ResolvedGlobalConfig,
    local_config: &PartialConfigFile,
    config_path: &str,
    filter: &Vec<String>,
) -> (r: Result<Vec<Config>, ConfigError>)
    ensures
        filter.len() > 0 ==> resolve_names_outcome(
            r,
            filter@,
            *local_config,
            *global,
            parent_dir_spec(config_path@),
        ),
        filter.len() == 0 ==> (r matches Ok(cs) && sorted_strings(config_names(cs@))
            && config_names(cs@).to_multiset() == stack_keys(local_config.stacks@).to_multiset()
            && resolves_all(
            cs@,
            config_names(cs@),
            *local_config,
            *global,
            parent_dir_spec(config_path@),
        )),
{
    let base_dir = parent_dir(config_path);
    if filter.len() > 0 {
        return resolve_names(local_config, filter, global, base_dir.as_str());
    }
    let names = local_config.sorted_stack_names();
    proof {
        lemma_sorted_names_found(*local_config, names@);
    }
    resolve_names(local_config, &names, global, base_dir.as_str())
}

proof fn lemma_sorted_names_found(c: PartialConfigFile, names: Seq<String>)
    requires
        names.to_multiset() == stack_keys(c.stacks@).to_multiset(),
    ensures
        forall|i: int| 0 <= i < names.len() ==> find_stack(c.stacks@, #[trigger] names[i]@) >= 0,
{
    broadcast use vstd::seq_lib::group_to_multiset_ensures;

    assert forall|i: int| 0 <= i < names.len() implies find_stack(c.stacks@, #[trigger] names[i]@)
        >= 0 by {
        let keys = stack_keys(c.stacks@);
        assert(names.to_multiset().count(names[i]) > 0);
        assert(keys.contains(names[i]));
        let k = choose|k: int| 0 <= k < keys.len() && keys[k] == names[i];
        lemma_find_stack_some(c.stacks@, names[i]@, k);
    }
}

proof fn lemma_find_stack_some(stacks: Seq<(String, StackEntry)>, name: Seq<char>, k: int)
    requires
        0 <= k < stacks.len(),
        stacks[k].0@ == name,
    ensures
        find_stack(stacks, name) >= 0,
    decreases k,
{
    if k > 0 && stacks[0].0@ != name {
        lemma_find_stack_some(stacks.drop_first(), name, k - 1);
    }
}

impl PartialConfigFile {
    /// Index of the first stack named `name`.
    pub fn find_stack_index(&self, name: &str) -> (r: Option<usize>)
        ensures
            find_stack(self.stacks@, name@) < 0 ==> r is None,
            find_stack(self.stacks@, name@) >= 0 ==> (r matches Some(i) && i as int == find_stack(
                self.stacks@,
                name@,
            )),
            r matches Some(i) ==> i < self.stacks@.len(),
    {
        let key = name.to_string();
        let mut i: usize = 0;
        while i < self.stacks.len()
            invariant
                i <= self.stacks.len(),
                key@ == name@,
                forall|j: int| 0 <= j < i ==> #[trigger] self.stacks@[j].0@ != name@,
            decreases self.stacks.len() - i,
        {
            if self.stacks[i].0 == key {
                proof {
                    lemma_find_stack(self.stacks@, name@, i as int);
                }
                return Some(i);
            }
            i = i + 1;
        }
        proof {
            lemma_find_stack(self.stacks@, name@, i as int);
        }
        None
    }

    /// Declares the stack `name` as `entry`: it replaces the entry of that
    /// name, or is added after the others.
    pub fn insert_stack(&mut self, name: String, entry: StackEntry)
        ensures
            find_stack(old(self).stacks@, name@) >= 0 ==> final(self).stacks@ == old(self).stacks@.update(
                find_stack(old(self).stacks@, name@),
                (name, entry),
            ),
            find_stack(old(self).stacks@, name@) < 0 ==> final(self).stacks@ == old(self).stacks@.push(
                (name, entry),
            ),
            final(self).mode == old(self).mode,
            final(self).portainer_api_key == old(self).portainer_api_key,
            final(self).host == old(self).host,
            final(self).endpoint_id == old(self).endpoint_id,
            final(self).ssh_user == old(self).ssh_user,
            final(self).ssh_key == old(self).ssh_key,
            final(self).host_dir == old(self).host_dir,
    {
        match self.find_stack_index(name.as_str()) {
            Some(i) => {
                self.stacks.set(i, (name, entry));
            },
            None => {
                self.stacks.push((name, entry));
            },
        }
    }
}

/// Relies on `<str as Debug>::fmt`, through `format!("{:?}")`: the string in
/// double quotes with its special characters escaped, which TOML reads back
/// as a basic string.
pub uninterp spec fn debug_quoted(s: Seq<char>) -> Seq<char>;

/// Relies on `<str as Debug>::fmt`: see `debug_quoted`.
#[verifier::external_body]
fn quoted(s: &str) -> (r: String)
    ensures
        r@ == debug_quoted(s@),
{
    format!("{:?}", s)
}

pub open spec fn views(v: Seq<String>) -> Seq<Seq<char>> {
    v.map_values(|s: String| s@)
}

/// `key = "value"` when the value is set.
pub open spec fn str_line(key: Seq<char>, o: Option<String>) -> Seq<Seq<char>> {
    match o {
        Some(v) => seq![key + " = "@ + debug_quoted(v@)],
        None => seq![],
    }
}

/// `key = n` when the number is set.
pub open spec fn num_line(key: Seq<char>, o: Option<u64>) -> Seq<Seq<char>> {
    match o {
        Some(n) => seq![key + " = "@ + decimal(n as nat)],
        None => seq![],
    }
}

pub open spec fn mode_line(m: Option<DeployMode>) -> Seq<Seq<char>> {
    match m {
        Some(DeployMode::Portainer) => seq!["mode = \"portainer\""@],
        Some(DeployMode::Ssh) => seq!["mode = \"ssh\""@],
        None => seq![],
    }
}

/// The lines of the global fields that are set, in a fixed order.
pub open spec fn global_lines(c: PartialConfigFile) -> Seq<Seq<char>> {
    mode_line(c.mode) + str_line("portainer_api_key"@, c.portainer_api_key) + str_line(
        "host"@,
        c.host,
    ) + num_line("endpoint_id"@, c.endpoint_id) + str_line("ssh_user"@, c.ssh_user) + str_line(
        "ssh_key"@,
        c.ssh_key,
    ) + str_line("host_dir"@, c.host_dir)
}

/// A blank line, the stack's table header, and the fields it sets;
/// `enabled` only when it is false.
pub open spec fn stack_lines(name: Seq<char>, e: StackEntry) -> Seq<Seq<char>> {
    seq![
        Seq::<char>::empty(),
        "[stacks."@ + name + "]"@,
        "compose_file = "@ + debug_quoted(e.compose_file@),
    ] + str_line("env_file"@, e.env_file) + num_line("endpoint_id"@, e.endpoint_id) + if e.enabled
        == Some(false) {
        seq!["enabled = false"@]
    } else {
        seq![]
    }
}

/// The lines of the stacks named in `names`, in that order.
pub open spec fn stacks_lines(c: PartialConfigFile, names: Seq<String>) -> Seq<Seq<char>>
    decreases names.len(),
{
    if names.len() == 0 {
        seq![]
    } else {
        stacks_lines(c, names.drop_last()) + stack_lines(
            names.last()@,
            c.stacks@[find_stack(c.stacks@, names.last()@)].1,
        )
    }
}

/// Lines joined by newlines, with one newline at the end.
pub open spec fn joined_lines(ls: Seq<Seq<char>>) -> Seq<char>
    decreases ls.len(),
{
    if ls.len() == 0 {
        Seq::<char>::empty()
    } else if ls.len() == 1 {
        ls[0]
    } else {
        joined_lines(ls.drop_last()) + seq!['\n'] + ls.last()
    }
}

fn push_str_line(lines: &mut Vec<String>, key: &str, o: &Option<String>)
    ensures
        views(final(lines)@) == views(old(lines)@) + str_line(key@, *o),
{
    match o {
        Some(v) => {
            let mut l = key.to_string();
            l.append(" = ");
            let q = quoted(v.as_str());
            l.append(q.as_str());
            lines.push(l);
        },
        None => {},
    }
    assert(views(final(lines)@) =~= views(old(lines)@) + str_line(key@, *o));
}

fn push_num_line(lines: &mut Vec<String>, key: &str, o: Option<u64>)
    ensures
        views(final(lines)@) == views(old(lines)@) + num_line(key@, o),
{
    match o {
        Some(n) => {
            let mut l = key.to_string();
            l.append(" = ");
            append_decimal(&mut l, n);
            lines.push(l);
        },
        None => {},
    }
    assert(views(final(lines)@) =~= views(old(lines)@) + num_line(key@, o));
}

fn push_stack_lines(lines: &mut Vec<String>, name: &str, entry: &StackEntry)
    ensures
        views(final(lines)@) == views(old(lines)@) + stack_lines(name@, *entry),
{
    let ghost pre = views(lines@);
    lines.push(String::new());
    let mut header = String::from_str("[stacks.");
    header.append(name);
    header.append("]");
    lines.push(header);
    let mut compose = String::from_str("compose_file = ");
    let q = quoted(entry.compose_file.as_str());
    compose.append(q.as_str());
    lines.push(compose);
    assert(views(lines@) =~= pre + seq![
        Seq::<char>::empty(),
        "[stacks."@ + name@ + "]"@,
        "compose_file = "@ + debug_quoted(entry.compose_file@),
    ]);
    push_str_line(lines, "env_file", &entry.env_file);
    push_num_line(lines, "endpoint_id", entry.endpoint_id);
    let ghost mid = views(lines@);
    match entry.enabled {
        Some(false) => lines.push(String::from_str("enabled = false")),
        _ => {},
    }
    assert(views(lines@) =~= mid + if entry.enabled == Some(false) {
        seq!["enabled = false"@]
    } else {
        seq![]
    });
    assert(views(lines@) =~= pre + stack_lines(name@, *entry));
}

/// The TOML text of a configuration file: the global fields that are set,
/// then one table per stack in name order; a newline ends each line.
pub fn serialize_config(config: &PartialConfigFile) -> (r: String)
    ensures
        exists|names: Seq<String>|
            sorted_strings(names) && names.to_multiset() == stack_keys(config.stacks@).to_multiset()
                && r@ == joined_lines(global_lines(*config) + stacks_lines(*config, names)) + seq![
                '\n',
            ],
{
    let mut lines: Vec<String> = Vec::new();
    match config.mode {
        Some(DeployMode::Portainer) => lines.push(String::from_str("mode = \"portainer\"")),
        Some(DeployMode::Ssh) => lines.push(String::from_str("mode = \"ssh\"")),
        None => {},
    }
    assert(views(lines@) =~= mode_line(config.mode));
    push_str_line(&mut lines, "portainer_api_key", &config.portainer_api_key);
    push_str_line(&mut lines, "host", &config.host);
    push_num_line(&mut lines, "endpoint_id", config.endpoint_id);
    push_str_line(&mut lines, "ssh_user", &config.ssh_user);
    push_str_line(&mut lines, "ssh_key", &config.ssh_key);
    push_str_line(&mut lines, "host_dir", &config.host_dir);
    assert(views(lines@) =~= global_lines(*config));
    let names = config.sorted_stack_names();
    proof {
        assert(stack_keys(config.stacks@) =~= config.stacks@.map_values(|e: (String, StackEntry)| e.0));
        lemma_sorted_names_found(*config, names@);
        assert(names@.subrange(0, 0) =~= Seq::<String>::empty());
    }
    let mut i: usize = 0;
    while i < names.len()
        invariant
            i <= names.len(),
            views(lines@) == global_lines(*config) + stacks_lines(*config, names@.subrange(0, i as int)),
            forall|k: int| 0 <= k < names@.len() ==> find_stack(config.stacks@, #[trigger] names@[k]@) >= 0,
        decreases names.len() - i,
    {
        let ghost pre = views(lines@);
        let idx = config.find_stack_index(names[i].as_str());
        let j = match idx {
            Some(j) => j,
            None => {
                return String::new();
            },
        };
        let entry = &config.stacks[j].1;
        push_stack_lines(&mut lines, names[i].as_str(), entry);
        proof {
            let sub = names@.subrange(0, i + 1);
            assert(sub.drop_last() =~= names@.subrange(0, i as int));
            assert(sub.last() == names@[i as int]);
            assert(views(lines@) =~= pre + stack_lines(names@[i as int]@, *entry));
            assert(stacks_lines(*config, sub) == stacks_lines(*config, names@.subrange(0, i as int))
                + stack_lines(names@[i as int]@, *entry));
            assert(views(lines@) =~= global_lines(*config) + stacks_lines(*config, sub));
        }
        i = i + 1;
    }
    assert(names@.subrange(0, names.len() as int) =~= names@);
    let mut r = String::new();
    let mut k: usize = 0;
    while k < lines.len()
        invariant
            k <= lines.len(),
            r@ == joined_lines(views(lines@).subrange(0, k as int)),
        decreases lines.len() - k,
    {
        if k > 0 {
            r.append("\n");
        }
        r.append(lines[k].as_str());
        proof {
            reveal_strlit("\n");
            let sub = views(lines@).subrange(0, k + 1);
            assert(sub.drop_last() =~= views(lines@).subrange(0, k as int));
            if k == 0 {
                assert(r@ =~= sub[0]);
            }
        }
        k = k + 1;
    }
    r.append("\n");
    proof {
        reveal_strlit("\n");
        assert(views(lines@).subrange(0, lines.len() as int) =~= views(lines@));
    }
    r
}

/// The path of the configuration file that a directory may hold.
pub fn local_config_path(dir: &str) -> (r: String)
    ensures
        r@ == join_path_spec(dir@, ".stack-sync.toml"@),
{
    join_path(dir, ".stack-sync.toml")
}

/// The local files that an imported stack is written to: its compose file
/// and its environment file, both named after the stack.
pub fn import_file_names(stack_name: &str) -> (r: (String, String))
    ensures
        r.0@ == stack_name@ + ".compose.yaml"@,
        r.1@ == stack_name@ + ".env"@,
{
    let mut compose = stack_name.to_string();
    compose.append(".compose.yaml");
    let mut env = stack_name.to_string();
    env.append(".env");
    (compose, env)
}

} // verus!
