use apt_remote::apply::{
    archive_move_command, checksum_command, checksum_matches, cleanup_command, configure_command,
    dpkg_install_command, join_path, mkdir_command, remote_dir_for, ApplyAction, ApplyMachine,
    ApplyPhase,
};
use apt_remote::errors::ApplyError;
use apt_remote::resolve::resolve_manifest;
use apt_remote::uri::{Checksum, ChecksumKind, PackageEntry, RemoteMode, UriFile};

fn entry(uri: &str, size: u64, checksum: Option<Checksum>) -> PackageEntry {
    PackageEntry { uri: uri.to_string(), size, checksum }
}

fn sha(value: &str) -> Option<Checksum> {
    Some(Checksum { kind: ChecksumKind::SHA256, value: value.to_string() })
}

#[test]
fn command_lines_are_exact() {
    assert_eq!(remote_dir_for("img"), "/tmp/apt-remote/img");
    assert_eq!(join_path("/tmp/apt-remote/img", "a.deb"), "/tmp/apt-remote/img/a.deb");
    assert_eq!(mkdir_command("/tmp/apt-remote/img"), "mkdir -p /tmp/apt-remote/img");
    assert_eq!(
        checksum_command(&ChecksumKind::SHA256, "/tmp/x.deb"),
        "sha256sum /tmp/x.deb"
    );
    assert_eq!(checksum_command(&ChecksumKind::MD5, "/tmp/x.deb"), "md5sum /tmp/x.deb");
    assert_eq!(dpkg_install_command("/tmp/x.deb"), "dpkg -i /tmp/x.deb");
    assert_eq!(configure_command(), "dpkg --configure -a");
    assert_eq!(
        archive_move_command("/tmp/apt-remote/img"),
        "mv /tmp/apt-remote/img/* /var/cache/apt/archives"
    );
    assert_eq!(cleanup_command("/tmp/apt-remote/img"), "rm -rf /tmp/apt-remote/img");
    assert_eq!(apt_remote::ssh::sudo_command("dpkg -i x"), "sudo -S -p '' dpkg -i x");
}

#[test]
fn checksum_output_comparison_uses_the_first_word() {
    assert!(checksum_matches("abc /tmp/apt-remote/img/x.deb", "abc"));
    assert!(checksum_matches("  abc\tx", "abc"));
    assert!(!checksum_matches("abcd /tmp/x", "abc"));
    assert!(!checksum_matches("", "abc"));
    assert!(!checksum_matches("   ", ""));
}

#[test]
fn update_manifests_are_refused_by_apply() {
    let m = UriFile {
        mode: RemoteMode::Update,
        arch: "amd64".to_string(),
        total_size: None,
        install_order: vec![],
        packages: vec![],
    };
    match ApplyMachine::new(m, "/cache/debs".to_string(), "/tmp/apt-remote/img".to_string()) {
        Err(ApplyError::UpdateMode) => {},
        _ => panic!("an update manifest must be refused"),
    }
}

/// Resolve an install manifest for curl, fetch it, and apply it against a
/// target whose checksum output matches: the run must succeed, ending with
/// the artifact moved into the remote archive directory.
#[test]
fn end_to_end_install_success() {
    // resolution, from the remote package manager's output
    let output = "'https://example/curl_1.0_amd64.deb' curl_1.0_amd64.deb 100000 SHA256sum:abc\n";
    let manifest = resolve_manifest(RemoteMode::Install, "amd64\n", output).unwrap();
    assert_eq!(manifest.total_size, Some(100000));
    assert_eq!(manifest.install_order, vec!["curl_1.0_amd64.deb".to_string()]);

    // persistence round trip
    let reloaded = UriFile::load(&manifest.save()).unwrap();
    assert_eq!(manifest, reloaded);

    // fetch: first run downloads, second run has nothing to do
    let plan = apt_remote::fetch::fetch_plan(&reloaded, &vec![false]);
    assert_eq!(plan.len(), 1);
    assert_eq!(plan[0].1, "https://example/curl_1.0_amd64.deb");
    assert!(apt_remote::fetch::fetch_plan(&reloaded, &vec![true]).is_empty());

    // apply
    let remote_dir = remote_dir_for("img");
    let mut m =
        ApplyMachine::new(reloaded, "/cache/img/debs".to_string(), remote_dir.clone()).unwrap();
    assert_eq!(m.phase, ApplyPhase::Uploading);
    match m.next() {
        ApplyAction::Upload { local, remote } => {
            assert_eq!(local, "/cache/img/debs/curl_1.0_amd64.deb");
            assert_eq!(remote, "/tmp/apt-remote/img/curl_1.0_amd64.deb");
        },
        _ => panic!("an upload must come first"),
    }
    m.on_upload_result(true);
    assert_eq!(m.phase, ApplyPhase::Verifying);
    match m.next() {
        ApplyAction::RunCheck { filename, command, expected } => {
            assert_eq!(filename, "curl_1.0_amd64.deb");
            assert_eq!(command, "sha256sum /tmp/apt-remote/img/curl_1.0_amd64.deb");
            assert_eq!(expected, "abc");
        },
        _ => panic!("verification must follow the uploads"),
    }
    m.on_check_output("abc /tmp/apt-remote/img/curl_1.0_amd64.deb");
    assert_eq!(m.phase, ApplyPhase::Installing);
    match m.next() {
        ApplyAction::RunInstall { command } => {
            assert_eq!(command, "dpkg -i /tmp/apt-remote/img/curl_1.0_amd64.deb");
        },
        _ => panic!("installation must follow a passed verification"),
    }
    m.on_install_result(true);
    assert_eq!(m.phase, ApplyPhase::Configuring);
    match m.next() {
        ApplyAction::RunConfigure { command } => assert_eq!(command, "dpkg --configure -a"),
        _ => panic!("reconfiguration must follow the installs"),
    }
    m.on_configure_result(true);
    match m.next() {
        ApplyAction::RunArchiveMove { command } => {
            assert_eq!(command, "mv /tmp/apt-remote/img/* /var/cache/apt/archives");
        },
        _ => panic!("archiving must follow reconfiguration"),
    }
    m.on_archive_result(true);
    match m.next() {
        ApplyAction::RunCleanup { command } => {
            assert_eq!(command, "rm -rf /tmp/apt-remote/img");
        },
        _ => panic!("cleanup must follow archiving"),
    }
    m.on_cleanup_result(true);
    assert!(m.finished());
    assert_eq!(m.phase, ApplyPhase::Done);
    match m.next() {
        ApplyAction::Report { ok } => assert!(ok),
        _ => panic!("a finished machine reports"),
    }
}

/// The same manifest, but the remote checksum output differs: the run must
/// abort during verification, and no install command may ever be issued.
#[test]
fn end_to_end_checksum_mismatch_aborts_before_install() {
    let output = "'https://example/curl_1.0_amd64.deb' curl_1.0_amd64.deb 100000 SHA256sum:abc\n";
    let manifest = resolve_manifest(RemoteMode::Install, "amd64\n", output).unwrap();
    let mut m = ApplyMachine::new(
        manifest,
        "/cache/img/debs".to_string(),
        remote_dir_for("img"),
    )
    .unwrap();
    let mut saw_install = false;
    loop {
        match m.next() {
            ApplyAction::Upload { .. } => m.on_upload_result(true),
            ApplyAction::RunCheck { .. } => {
                // the remote reports a different hash
                m.on_check_output("1deadbeef /tmp/apt-remote/img/curl_1.0_amd64.deb");
            },
            ApplyAction::RunInstall { .. } => {
                saw_install = true;
                m.on_install_result(true);
            },
            ApplyAction::RunConfigure { .. } => m.on_configure_result(true),
            ApplyAction::RunArchiveMove { .. } => m.on_archive_result(true),
            ApplyAction::RunCleanup { .. } => m.on_cleanup_result(true),
            ApplyAction::Report { ok } => {
                assert!(!ok);
                break;
            },
        }
    }
    assert!(!saw_install, "no install may run after a checksum mismatch");
    assert_eq!(m.phase, ApplyPhase::Aborted);
    assert_eq!(m.mismatches, vec!["curl_1.0_amd64.deb".to_string()]);
}

/// Install commands are issued exactly in the order of `install_order`,
/// never in the package map's order.
#[test]
fn installs_follow_install_order() {
    let manifest = UriFile {
        mode: RemoteMode::Install,
        arch: "amd64".to_string(),
        total_size: Some(3),
        install_order: vec!["c.deb".to_string(), "a.deb".to_string(), "b.deb".to_string()],
        packages: vec![
            ("a.deb".to_string(), entry("https://h/a.deb", 1, None)),
            ("b.deb".to_string(), entry("https://h/b.deb", 1, None)),
            ("c.deb".to_string(), entry("https://h/c.deb", 1, None)),
        ],
    };
    let mut m = ApplyMachine::new(manifest, "/c".to_string(), "/r".to_string()).unwrap();
    let mut installs: Vec<String> = Vec::new();
    loop {
        match m.next() {
            ApplyAction::Upload { .. } => m.on_upload_result(true),
            ApplyAction::RunCheck { .. } => m.on_check_output(""),
            ApplyAction::RunInstall { command } => {
                installs.push(command);
                m.on_install_result(true);
            },
            ApplyAction::RunConfigure { .. } => m.on_configure_result(true),
            ApplyAction::RunArchiveMove { .. } => m.on_archive_result(true),
            ApplyAction::RunCleanup { .. } => m.on_cleanup_result(true),
            ApplyAction::Report { .. } => break,
        }
    }
    assert_eq!(
        installs,
        vec![
            "dpkg -i /r/c.deb".to_string(),
            "dpkg -i /r/a.deb".to_string(),
            "dpkg -i /r/b.deb".to_string(),
        ]
    );
}

/// Packages without a checksum are skipped by verification, not treated as
/// errors; a failing upload is best effort and does not stop the run.
#[test]
fn verification_skips_unchecksummed_packages() {
    let manifest = UriFile {
        mode: RemoteMode::Upgrade,
        arch: "amd64".to_string(),
        total_size: Some(2),
        install_order: vec!["a.deb".to_string(), "b.deb".to_string()],
        packages: vec![
            ("a.deb".to_string(), entry("https://h/a.deb", 1, None)),
            ("b.deb".to_string(), entry("https://h/b.deb", 1, sha("bb"))),
        ],
    };
    let mut m = ApplyMachine::new(manifest, "/c".to_string(), "/r".to_string()).unwrap();
    let mut checks: Vec<String> = Vec::new();
    m.on_upload_result(false);
    m.on_upload_result(true);
    assert_eq!(m.phase, ApplyPhase::Verifying);
    while m.phase == ApplyPhase::Verifying {
        match m.next() {
            ApplyAction::RunCheck { filename, .. } => {
                checks.push(filename);
                m.on_check_output("bb /r/b.deb");
            },
            _ => unreachable!(),
        }
    }
    assert_eq!(checks, vec!["b.deb".to_string()]);
    assert_eq!(m.phase, ApplyPhase::Installing);
}

/// A remote failure of the checksum command itself (not a mismatch) ends
/// the run as failed without reaching installation.
#[test]
fn remote_check_failure_fails_the_run() {
    let manifest = UriFile {
        mode: RemoteMode::Install,
        arch: "amd64".to_string(),
        total_size: Some(1),
        install_order: vec!["a.deb".to_string()],
        packages: vec![("a.deb".to_string(), entry("https://h/a.deb", 1, sha("aa")))],
    };
    let mut m = ApplyMachine::new(manifest, "/c".to_string(), "/r".to_string()).unwrap();
    m.on_upload_result(true);
    assert_eq!(m.phase, ApplyPhase::Verifying);
    m.on_remote_check_failure();
    assert_eq!(m.phase, ApplyPhase::Failed);
    match m.next() {
        ApplyAction::Report { ok } => assert!(!ok),
        _ => panic!("a failed machine reports"),
    }
}

/// An empty manifest still runs the tail of the pipeline.
#[test]
fn empty_manifest_configures_and_finishes() {
    let manifest = UriFile {
        mode: RemoteMode::Install,
        arch: "amd64".to_string(),
        total_size: Some(0),
        install_order: vec![],
        packages: vec![],
    };
    let mut m = ApplyMachine::new(manifest, "/c".to_string(), "/r".to_string()).unwrap();
    assert_eq!(m.phase, ApplyPhase::Configuring);
    m.on_configure_result(false);
    m.on_archive_result(true);
    m.on_cleanup_result(true);
    assert_eq!(m.phase, ApplyPhase::Done);
}
