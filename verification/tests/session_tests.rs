use apt_remote::errors::TargetError;
use apt_remote::ssh::{connect_address, split_target, sudo_command};
use apt_remote::update::{update_post_script, update_pre_script, update_upload_jobs};

#[test]
fn target_splits_into_user_and_host() {
    assert_eq!(
        split_target("alice@box.example"),
        Ok(("alice".to_string(), "box.example".to_string()))
    );
    // only the part up to a second separator names the host
    assert_eq!(split_target("a@b@c"), Ok(("a".to_string(), "b".to_string())));
    assert_eq!(split_target("@host"), Ok(("".to_string(), "host".to_string())));
    assert_eq!(split_target("nohost"), Err(TargetError::MissingHost));
}

#[test]
fn session_command_shapes() {
    assert_eq!(sudo_command("apt-cache gencaches"), "sudo -S -p '' apt-cache gencaches");
    assert_eq!(connect_address("box.example"), "box.example:22");
}

#[test]
fn update_scripts_are_exact() {
    let pre = update_pre_script("/tmp/apt-remote/img");
    assert_eq!(pre.len(), 4);
    assert_eq!(pre[0].command, "mkdir -p /tmp/apt-remote/img");
    assert!(!pre[0].privileged);
    assert_eq!(pre[1].command, "mv /var/lib/apt/lists /var/lib/apt/lists.old");
    assert!(pre[1].privileged);
    assert_eq!(pre[2].command, "mkdir -p /var/lib/apt/lists/partial");
    assert!(pre[2].privileged);
    assert_eq!(pre[3].command, "touch /var/lib/apt/lists/lock");
    assert!(pre[3].privileged);

    let post = update_post_script("/tmp/apt-remote/img");
    assert_eq!(post.len(), 2);
    assert_eq!(post[0].command, "mv /tmp/apt-remote/img/* /var/lib/apt/lists");
    assert!(post[0].privileged);
    assert_eq!(post[1].command, "apt-cache gencaches");
    assert!(post[1].privileged);
}

#[test]
fn update_uploads_skip_missing_files() {
    let files = vec!["a.gz".to_string(), "b.gz".to_string(), "c.gz".to_string()];
    let present = vec![true, false, true];
    let jobs = update_upload_jobs(&files, &present, "/tmp/apt-remote/img");
    assert_eq!(
        jobs,
        vec![
            ("a.gz".to_string(), "/tmp/apt-remote/img/a.gz".to_string()),
            ("c.gz".to_string(), "/tmp/apt-remote/img/c.gz".to_string()),
        ]
    );
}
