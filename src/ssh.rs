use vstd::prelude::*;

use crate::config::SshGlobalConfig;
use crate::engine::RemoteStackState;
use crate::envfile::{env_view, parse_env, parse_env_str};
use crate::text::{trim, trimmed};

verus! {

/// The SSH target: where and as whom commands run, and the directory that
/// holds one subdirectory per stack. It builds the commands; running them
/// is left to the caller.
#[derive(Debug)]
pub struct SshClient {
    host: String,
    user: Option<String>,
    key: Option<String>,
    host_dir: String,
}

/// One step of a deployment over SSH.
#[derive(Debug)]
pub enum SshStep {
    /// Run a command on the host.
    Run(String),
    /// Stream `content` into the file at `path` on the host.
    Write { path: String, content: String },
}

/// `path` with a leading `~/` replaced by the home directory, when known.
pub open spec fn expand_tilde_spec(path: Seq<char>, home: Option<Seq<char>>) -> Seq<char> {
    if path.len() >= 2 && path[0] == '~' && path[1] == '/' && home is Some {
        home->0 + seq!['/'] + path.subrange(2, path.len() as int)
    } else {
        path
    }
}

pub fn expand_tilde(path: &str, home: Option<&str>) -> (r: String)
    ensures
        r@ == expand_tilde_spec(path@, match home {
            Some(h) => Some(h@),
            None => None,
        }),
{
    let n = path.unicode_len();
    match home {
        Some(h) => {
            if n >= 2 && path.get_char(0) == '~' && path.get_char(1) == '/' {
                let mut r = h.to_string();
                r.append("/");
                r.append(path.substring_char(2, n));
                proof {
                    reveal_strlit("/");
                }
                return r;
            }
        },
        None => {},
    }
    path.to_string()
}

impl SshClient {
    pub closed spec fn host_spec(&self) -> Seq<char> {
        self.host@
    }

    pub closed spec fn user_spec(&self) -> Option<Seq<char>> {
        match self.user {
            Some(u) => Some(u@),
            None => None,
        }
    }

    pub closed spec fn key_spec(&self) -> Option<Seq<char>> {
        match self.key {
            Some(k) => Some(k@),
            None => None,
        }
    }

    pub closed spec fn host_dir_spec(&self) -> Seq<char> {
        self.host_dir@
    }

    /// A client for the SSH settings; a key path starting with `~/` is taken
    /// relative to `home`.
    pub fn new(config: &SshGlobalConfig, home: Option<&str>) -> (c: SshClient)
        ensures
            c.host_spec() == config.host@,
            c.host_dir_spec() == config.host_dir@,
            c.user_spec() == match config.ssh_user {
                Some(u) => Some(u@),
                None => None::<Seq<char>>,
            },
            c.key_spec() == match config.ssh_key {
                Some(k) => Some(
                    expand_tilde_spec(
                        k@,
                        match home {
                            Some(h) => Some(h@),
                            None => None,
                        },
                    ),
                ),
                None => None::<Seq<char>>,
            },
    {
        let user = match &config.ssh_user {
            Some(u) => Some(u.clone()),
            None => None,
        };
        let key = match &config.ssh_key {
            Some(k) => Some(expand_tilde(k.as_str(), home)),
            None => None,
        };
        SshClient { host: config.host.clone(), user, key, host_dir: config.host_dir.clone() }
    }

    /// Where commands go: `user@host`, or the host alone.
    pub fn destination(&self) -> (r: String)
        ensures
            r@ == match self.user_spec() {
                Some(u) => u + seq!['@'] + self.host_spec(),
                None => self.host_spec(),
            },
    {
        match &self.user {
            Some(u) => {
                let mut r = u.clone();
                r.append("@");
                r.append(self.host.as_str());
                proof {
                    reveal_strlit("@");
                }
                r
            },
            None => self.host.clone(),
        }
    }

    /// The options given to `ssh` before the destination: `-i key` when a key is set.
    pub fn ssh_args(&self) -> (r: Vec<String>)
        ensures
            match self.key_spec() {
                Some(k) => r@.len() == 2 && r@[0]@ == "-i"@ && r@[1]@ == k,
                None => r@.len() == 0,
            },
    {
        let mut args: Vec<String> = Vec::new();
        match &self.key {
            Some(k) => {
                args.push(String::from_str("-i"));
                args.push(k.clone());
            },
            None => {},
        }
        args
    }

    /// The full argument list of `ssh` that runs `cmd` on the host.
    pub fn command_args(&self, cmd: &str) -> (r: Vec<String>)
        ensures
            r@.len() == (if self.key_spec() is Some { 4int } else { 2int }),
            self.key_spec() matches Some(k) ==> r@[0]@ == "-i"@ && r@[1]@ == k,
            r@[r@.len() - 2]@ == (match self.user_spec() {
                Some(u) => u + seq!['@'] + self.host_spec(),
                None => self.host_spec(),
            }),
            r@[r@.len() - 1]@ == cmd@,
    {
        let mut args = self.ssh_args();
        args.push(self.destination());
        args.push(cmd.to_string());
        args
    }

    pub fn host(&self) -> (r: &str)
        ensures
            r@ == self.host_spec(),
    {
        self.host.as_str()
    }

    /// The stack's directory on the host: `host_dir/name`.
    pub fn stack_dir(&self, name: &str) -> (r: String)
        ensures
            r@ == self.host_dir_spec() + seq!['/'] + name@,
    {
        let mut r = self.host_dir.clone();
        r.append("/");
        r.append(name);
        proof {
            reveal_strlit("/");
        }
        r
    }

    pub fn compose_file_path(&self, name: &str) -> (r: String)
        ensures
            r@ == self.host_dir_spec() + seq!['/'] + name@ + "/compose.yaml"@,
    {
        let mut r = self.stack_dir(name);
        r.append("/compose.yaml");
        r
    }

    pub fn env_file_path(&self, name: &str) -> (r: String)
        ensures
            r@ == self.host_dir_spec() + seq!['/'] + name@ + "/.env"@,
    {
        let mut r = self.stack_dir(name);
        r.append("/.env");
        r
    }

    /// The command that succeeds when the stack's compose file exists.
    pub fn exists_command(&self, name: &str) -> (r: String)
        ensures
            r@ == "test -f "@ + self.host_dir_spec() + seq!['/'] + name@ + "/compose.yaml"@,
    {
        let mut r = String::from_str("test -f ");
        let p = self.compose_file_path(name);
        r.append(p.as_str());
        r
    }

    /// The command that lists the ids of the stack's running containers.
    pub fn running_command(&self, name: &str) -> (r: String)
        ensures
            r@ == "cd "@ + self.host_dir_spec() + seq!['/'] + name@
                + " && docker compose ps -q 2>/dev/null"@,
    {
        let mut r = String::from_str("cd ");
        let d = self.stack_dir(name);
        r.append(d.as_str());
        r.append(" && docker compose ps -q 2>/dev/null");
        r
    }

    /// The command that prints the stack's compose file.
    pub fn get_compose_content(&self, name: &str) -> (r: String)
        ensures
            r@ == "cat "@ + self.host_dir_spec() + seq!['/'] + name@ + "/compose.yaml"@,
    {
        let mut r = String::from_str("cat ");
        let p = self.compose_file_path(name);
        r.append(p.as_str());
        r
    }

    /// The command that prints the stack's environment file, failing when there is none.
    pub fn env_content_command(&self, name: &str) -> (r: String)
        ensures
            r@ == "test -f "@ + (self.host_dir_spec() + seq!['/'] + name@ + "/.env"@) + " && cat "@
                + (self.host_dir_spec() + seq!['/'] + name@ + "/.env"@),
    {
        let p = self.env_file_path(name);
        let mut r = String::from_str("test -f ");
        r.append(p.as_str());
        r.append(" && cat ");
        r.append(p.as_str());
        r
    }

    /// The command that writes its standard input to `path`.
    pub fn write_command(&self, path: &str) -> (r: String)
        ensures
            r@ == "cat > "@ + path@,
    {
        let mut r = String::from_str("cat > ");
        r.append(path);
        r
    }

    /// The steps that deploy a stack: make its directory, write the compose
    /// file and, when given, the environment file, then bring it up.
    pub fn deploy_stack(&self, name: &str, compose_content: String, env_content: Option<String>) -> (r:
        Vec<SshStep>)
        ensures
            r@.len() == if env_content is Some {
                4int
            } else {
                3int
            },
            r@[0] matches SshStep::Run(c) && c@ == "mkdir -p "@ + self.host_dir_spec() + seq!['/']
                + name@,
            r@[1] matches SshStep::Write { path, content } && path@ == self.host_dir_spec() + seq![
                '/',
            ] + name@ + "/compose.yaml"@ && content == compose_content,
            env_content matches Some(e) ==> (r@[2] matches SshStep::Write { path, content } && path@
                == self.host_dir_spec() + seq!['/'] + name@ + "/.env"@ && content == e),
            r@[r@.len() - 1] matches SshStep::Run(c) && c@ == "cd "@ + self.host_dir_spec() + seq![
                '/',
            ] + name@ + " && docker compose up -d"@,
    {
        let dir = self.stack_dir(name);
        let mut steps: Vec<SshStep> = Vec::new();
        let mut mkdir = String::from_str("mkdir -p ");
        mkdir.append(dir.as_str());
        steps.push(SshStep::Run(mkdir));
        steps.push(SshStep::Write { path: self.compose_file_path(name), content: compose_content });
        match env_content {
            Some(e) => {
                steps.push(SshStep::Write { path: self.env_file_path(name), content: e });
            },
            None => {},
        }
        let mut up = String::from_str("cd ");
        up.append(dir.as_str());
        up.append(" && docker compose up -d");
        steps.push(SshStep::Run(up));
        steps
    }

    /// The command that brings the stack up with the files it has.
    pub fn start_stack(&self, name: &str) -> (r: String)
        ensures
            r@ == "cd "@ + self.host_dir_spec() + seq!['/'] + name@ + " && docker compose up -d"@,
    {
        let mut r = String::from_str("cd ");
        let d = self.stack_dir(name);
        r.append(d.as_str());
        r.append(" && docker compose up -d");
        r
    }

    /// The command that stops the stack.
    pub fn stop_stack(&self, name: &str) -> (r: String)
        ensures
            r@ == "cd "@ + self.host_dir_spec() + seq!['/'] + name@ + " && docker compose down"@,
    {
        let mut r = String::from_str("cd ");
        let d = self.stack_dir(name);
        r.append(d.as_str());
        r.append(" && docker compose down");
        r
    }

    /// The command that pulls the stack's images and recreates its containers.
    pub fn redeploy_stack(&self, name: &str) -> (r: String)
        ensures
            r@ == "cd "@ + self.host_dir_spec() + seq!['/'] + name@
                + " && docker compose pull && docker compose up -d --force-recreate"@,
    {
        let mut r = String::from_str("cd ");
        let d = self.stack_dir(name);
        r.append(d.as_str());
        r.append(" && docker compose pull && docker compose up -d --force-recreate");
        r
    }

    /// The command that lists the stack's containers.
    pub fn docker_compose_ps(&self, name: &str) -> (r: String)
        ensures
            r@ == "cd "@ + self.host_dir_spec() + seq!['/'] + name@ + " && docker compose ps"@,
    {
        let mut r = String::from_str("cd ");
        let d = self.stack_dir(name);
        r.append(d.as_str());
        r.append(" && docker compose ps");
        r
    }
}

/// A stack runs when the container listing succeeded and printed something
/// besides whitespace.
pub fn running_from_output(success: bool, stdout: &str) -> (b: bool)
    ensures
        b == (success && trim(stdout@).len() > 0),
{
    if !success {
        return false;
    }
    let t = trimmed(stdout);
    t.as_str().unicode_len() > 0
}

/// The remote environment file's text: none when reading it failed or it
/// holds only whitespace.
pub fn env_from_output(success: bool, stdout: String) -> (r: Option<String>)
    ensures
        !success || trim(stdout@).len() == 0 ==> r is None,
        success && trim(stdout@).len() > 0 ==> r == Some(stdout),
{
    if !success {
        return None;
    }
    let t = trimmed(stdout.as_str());
    if t.as_str().unicode_len() == 0 {
        None
    } else {
        Some(stdout)
    }
}

/// The observed state of a stack on the SSH target; `env_text` is the
/// remote environment file's text, when there is one.
pub fn remote_state(exists: bool, running: bool, compose_content: String, env_text: Option<String>) -> (r:
    RemoteStackState)
    ensures
        r.exists == exists,
        r.running == running,
        r.compose_content == compose_content,
        env_view(r.env@) == match env_text {
            Some(t) => parse_env(t@),
            None => parse_env(Seq::<char>::empty()),
        },
{
    let env = match &env_text {
        Some(t) => parse_env_str(t.as_str()),
        None => parse_env_str(""),
    };
    proof {
        reveal_strlit("");
    }
    RemoteStackState { exists, running, compose_content, env }
}

} // verus!
