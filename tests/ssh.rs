use stack_sync::config::SshGlobalConfig;
use stack_sync::ssh::{env_from_output, expand_tilde, remote_state, running_from_output, SshClient, SshStep};

fn test_config(user: Option<&str>, key: Option<&str>) -> SshGlobalConfig {
    SshGlobalConfig {
        host: "192.168.0.20".to_string(),
        ssh_user: user.map(String::from),
        ssh_key: key.map(String::from),
        host_dir: "/mnt/docker".to_string(),
    }
}

#[test]
fn test_destination_with_user() {
    let client = SshClient::new(&test_config(Some("root"), None), None);
    assert_eq!(client.destination(), "root@192.168.0.20");
}

#[test]
fn test_destination_without_user() {
    let client = SshClient::new(&test_config(None, None), None);
    assert_eq!(client.destination(), "192.168.0.20");
}

#[test]
fn test_ssh_args_without_key() {
    let client = SshClient::new(&test_config(None, None), None);
    let args = client.ssh_args();
    assert!(args.is_empty());
}

#[test]
fn test_ssh_args_with_key() {
    let client = SshClient::new(&test_config(None, Some("/home/user/.ssh/id_ed25519")), None);
    let args = client.ssh_args();
    assert_eq!(args, vec!["-i", "/home/user/.ssh/id_ed25519"]);
}

#[test]
fn test_stack_dir() {
    let client = SshClient::new(&test_config(None, None), None);
    assert_eq!(client.stack_dir("my-app"), "/mnt/docker/my-app");
}

#[test]
fn test_compose_file_path() {
    let client = SshClient::new(&test_config(None, None), None);
    assert_eq!(
        client.compose_file_path("my-app"),
        "/mnt/docker/my-app/compose.yaml"
    );
}

#[test]
fn test_env_file_path() {
    let client = SshClient::new(&test_config(None, None), None);
    assert_eq!(client.env_file_path("my-app"), "/mnt/docker/my-app/.env");
}

#[test]
fn test_shellexpand_tilde() {
    let expanded = expand_tilde("~/test/path", Some("/home/me"));
    assert_eq!(expanded, format!("{}/test/path", "/home/me"));
    assert_eq!(expand_tilde("/absolute/path", Some("/home/me")), "/absolute/path");
    assert_eq!(expand_tilde("~", Some("/home/me")), "~");
    assert_eq!(expand_tilde("~/x", None), "~/x");
}

#[test]
fn key_path_is_expanded_in_new() {
    let client = SshClient::new(&test_config(Some("root"), Some("~/.ssh/id")), Some("/root"));
    assert_eq!(client.ssh_args(), vec!["-i", "/root/.ssh/id"]);
    assert_eq!(
        client.command_args("ls"),
        vec!["-i", "/root/.ssh/id", "root@192.168.0.20", "ls"]
    );
    assert_eq!(client.host(), "192.168.0.20");
}

#[test]
fn commands_name_the_stack_directory() {
    let client = SshClient::new(&test_config(None, None), None);
    assert_eq!(client.exists_command("web"), "test -f /mnt/docker/web/compose.yaml");
    assert_eq!(
        client.running_command("web"),
        "cd /mnt/docker/web && docker compose ps -q 2>/dev/null"
    );
    assert_eq!(client.get_compose_content("web"), "cat /mnt/docker/web/compose.yaml");
    assert_eq!(
        client.env_content_command("web"),
        "test -f /mnt/docker/web/.env && cat /mnt/docker/web/.env"
    );
    assert_eq!(client.write_command("/tmp/x"), "cat > /tmp/x");
    assert_eq!(client.stop_stack("web"), "cd /mnt/docker/web && docker compose down");
    assert_eq!(
        client.redeploy_stack("web"),
        "cd /mnt/docker/web && docker compose pull && docker compose up -d --force-recreate"
    );
    assert_eq!(client.docker_compose_ps("web"), "cd /mnt/docker/web && docker compose ps");
}

#[test]
fn deploy_writes_files_then_brings_the_stack_up() {
    let client = SshClient::new(&test_config(None, None), None);
    let steps = client.deploy_stack("web", "c".to_string(), Some("E=1".to_string()));
    assert_eq!(steps.len(), 4);
    match &steps[0] {
        SshStep::Run(c) => assert_eq!(c, "mkdir -p /mnt/docker/web"),
        other => panic!("unexpected step {:?}", other),
    }
    match &steps[1] {
        SshStep::Write { path, content } => {
            assert_eq!(path, "/mnt/docker/web/compose.yaml");
            assert_eq!(content, "c");
        }
        other => panic!("unexpected step {:?}", other),
    }
    match &steps[2] {
        SshStep::Write { path, content } => {
            assert_eq!(path, "/mnt/docker/web/.env");
            assert_eq!(content, "E=1");
        }
        other => panic!("unexpected step {:?}", other),
    }
    match &steps[3] {
        SshStep::Run(c) => assert_eq!(c, "cd /mnt/docker/web && docker compose up -d"),
        other => panic!("unexpected step {:?}", other),
    }
    assert_eq!(client.deploy_stack("web", "c".to_string(), None).len(), 3);
}

#[test]
fn output_interpretation() {
    assert!(running_from_output(true, "abc123\n"));
    assert!(!running_from_output(true, " \n"));
    assert!(!running_from_output(false, "abc123\n"));
    assert_eq!(env_from_output(true, "A=1\n".to_string()), Some("A=1\n".to_string()));
    assert_eq!(env_from_output(true, "\n  ".to_string()), None);
    assert_eq!(env_from_output(false, "A=1".to_string()), None);
}

#[test]
fn ssh_remote_state_parses_env_text() {
    let r = remote_state(true, false, "c".to_string(), Some("# x\nA=1\n".to_string()));
    assert!(r.exists && !r.running);
    assert_eq!(r.env.len(), 1);
    assert_eq!(r.env[0].name, "A");
    assert!(remote_state(false, false, String::new(), None).env.is_empty());
}
