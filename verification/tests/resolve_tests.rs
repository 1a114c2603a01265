use apt_remote::errors::ResolveError;
use apt_remote::resolve::{
    arch_query_command, mode_of_flags, parse_uri_line, print_uris_command, resolve_manifest,
    source_key,
};
use apt_remote::uri::{ChecksumKind, RemoteMode};

#[test]
fn mode_selection_prefers_update_then_upgrade() {
    assert_eq!(mode_of_flags(false, false), RemoteMode::Install);
    assert_eq!(mode_of_flags(true, false), RemoteMode::Update);
    assert_eq!(mode_of_flags(false, true), RemoteMode::Upgrade);
    assert_eq!(mode_of_flags(true, true), RemoteMode::Update);
}

#[test]
fn arch_query_is_the_fixed_introspection_command() {
    assert_eq!(arch_query_command(), "dpkg --print-architecture");
}

#[test]
fn print_uris_command_matches_the_exact_format() {
    let pkgs = vec!["curl".to_string(), "wget".to_string()];
    assert_eq!(
        print_uris_command(&RemoteMode::Install, false, &pkgs),
        "apt-get install --print-uris -qqq  curl wget"
    );
    assert_eq!(
        print_uris_command(&RemoteMode::Install, true, &pkgs),
        "apt-get install --print-uris -qqq -f curl wget"
    );
    assert_eq!(
        print_uris_command(&RemoteMode::Update, false, &vec![]),
        "apt-get update --print-uris -q  "
    );
    assert_eq!(
        print_uris_command(&RemoteMode::Upgrade, false, &vec![]),
        "apt-get upgrade --print-uris -qqq  "
    );
}

#[test]
fn parse_line_with_sha256_checksum() {
    let (fname, entry) =
        parse_uri_line("'https://mirror.example/pool/curl_1.0_amd64.deb' curl_1.0_amd64.deb 100000 SHA256sum:abc123")
            .expect("line must parse");
    assert_eq!(fname, "curl_1.0_amd64.deb");
    assert_eq!(entry.uri, "https://mirror.example/pool/curl_1.0_amd64.deb");
    assert_eq!(entry.size, 100000);
    let ck = entry.checksum.expect("checksum expected");
    assert_eq!(ck.kind, ChecksumKind::SHA256);
    assert_eq!(ck.value, "abc123");
}

#[test]
fn parse_line_with_md5_checksum_folds_the_kind() {
    let (_, entry) = parse_uri_line("'http://h/p/x.deb' x.deb 5 MD5Sum:00ff").unwrap();
    let ck = entry.checksum.unwrap();
    assert_eq!(ck.kind, ChecksumKind::MD5);
    assert_eq!(ck.value, "00ff");
}

#[test]
fn parse_line_with_empty_checksum_field_means_none() {
    let (fname, entry) = parse_uri_line("'http://h/p/x.deb' x.deb 5 ").unwrap();
    assert_eq!(fname, "x.deb");
    assert_eq!(entry.checksum, None);
}

#[test]
fn parse_line_faults_name_what_failed() {
    match parse_uri_line("'http://h/p/x.deb' x.deb") {
        Err(ResolveError::MissingFields(line)) => assert_eq!(line, "'http://h/p/x.deb' x.deb"),
        other => panic!("expected missing fields, got {:?}", other),
    }
    match parse_uri_line("'http://h/p/x.deb' x.deb many ") {
        Err(ResolveError::BadSize(tok)) => assert_eq!(tok, "many"),
        other => panic!("expected a bad size, got {:?}", other),
    }
    match parse_uri_line("'http://h/p/x.deb' x.deb 5 garbage") {
        Err(ResolveError::NoChecksumValue(tok)) => assert_eq!(tok, "garbage"),
        other => panic!("expected a missing checksum value, got {:?}", other),
    }
    match parse_uri_line("'http://h/p/x.deb' x.deb 5 SHA512:aa") {
        Err(ResolveError::BadChecksumKind(fname)) => assert_eq!(fname, "x.deb"),
        other => panic!("expected a bad checksum kind, got {:?}", other),
    }
    match parse_uri_line("'nonsense' x 5 ") {
        Err(ResolveError::NoFilename(uri)) => assert_eq!(uri, "nonsense"),
        other => panic!("expected a missing filename, got {:?}", other),
    }
}

#[test]
fn parse_line_accepts_lenient_sizes() {
    let (_, entry) = parse_uri_line("'http://h/p/x.deb' x.deb +007 ").unwrap();
    assert_eq!(entry.size, 7);
}

#[test]
fn source_key_flattens_host_and_path() {
    assert_eq!(
        source_key("https://mirror.example/debian/dists/InRelease").unwrap(),
        "mirror.example_debian_dists_InRelease"
    );
    assert_eq!(source_key("http://h/a//b").unwrap(), "h_a");
    match source_key("no-separator") {
        Err(ResolveError::NoHostPath(uri)) => assert_eq!(uri, "no-separator"),
        other => panic!("expected a missing host-path, got {:?}", other),
    }
}

#[test]
fn resolve_install_keeps_emission_order_and_total() {
    let output = "'https://mirror.example/pool/b.deb' b.deb 70 SHA256sum:bb\n'https://mirror.example/pool/a.deb' a.deb 30 SHA256sum:aa\n";
    let m = resolve_manifest(RemoteMode::Install, "amd64\n", output).unwrap();
    assert_eq!(m.mode, RemoteMode::Install);
    assert_eq!(m.arch, "amd64");
    assert_eq!(m.total_size, Some(100));
    assert_eq!(m.install_order, vec!["b.deb".to_string(), "a.deb".to_string()]);
    assert_eq!(m.packages.len(), 2);
    assert_eq!(m.packages[0].0, "b.deb");
    assert_eq!(m.packages[1].0, "a.deb");
    assert_eq!(m.packages[1].1.uri, "https://mirror.example/pool/a.deb");
}

#[test]
fn resolve_overwrites_a_repeated_filename() {
    let output = "'https://mirror.example/pool/a.deb' a.deb 30 SHA256sum:old\n'https://other.example/pool/a.deb' a.deb 40 SHA256sum:new\n";
    let m = resolve_manifest(RemoteMode::Install, "amd64", output).unwrap();
    assert_eq!(m.packages.len(), 1);
    assert_eq!(m.packages[0].1.uri, "https://other.example/pool/a.deb");
    assert_eq!(m.packages[0].1.checksum.as_ref().unwrap().value, "new");
    // the order list keeps both emissions, the map keeps the last
    assert_eq!(m.install_order.len(), 2);
    assert_eq!(m.total_size, Some(70));
}

#[test]
fn resolve_update_keys_by_flattened_host_path() {
    let output = "'https://mirror.example/debian/dists/stable/InRelease' x 0 \n";
    let m = resolve_manifest(RemoteMode::Update, "amd64\n", output).unwrap();
    assert_eq!(m.mode, RemoteMode::Update);
    assert_eq!(m.total_size, None);
    assert!(m.install_order.is_empty());
    assert_eq!(m.packages.len(), 1);
    assert_eq!(m.packages[0].0, "mirror.example_debian_dists_stable_InRelease");
}

#[test]
fn resolve_aborts_on_the_first_bad_line() {
    let output = "'https://mirror.example/pool/a.deb' a.deb 30 SHA256sum:aa\n'https://mirror.example/pool/b.deb' b.deb 70 WEIRD:bb\n";
    match resolve_manifest(RemoteMode::Install, "amd64", output) {
        Err(ResolveError::BadChecksumKind(fname)) => assert_eq!(fname, "b.deb"),
        other => panic!("expected the resolution to abort, got {:?}", other),
    }
}

#[test]
fn resolve_fails_when_sizes_overflow_the_total() {
    let output = "'https://h/a.deb' a.deb 18446744073709551615 \n'https://h/b.deb' b.deb 1 \n";
    assert_eq!(
        resolve_manifest(RemoteMode::Install, "amd64", output),
        Err(ResolveError::SizeOverflow)
    );
    // the largest representable size alone still resolves
    let single = "'https://h/a.deb' a.deb 18446744073709551615 \n";
    let m = resolve_manifest(RemoteMode::Install, "amd64", single).unwrap();
    assert_eq!(m.total_size, Some(u64::MAX));
}

#[test]
fn resolved_manifests_satisfy_the_structural_invariants() {
    let output = "'https://h/a.deb' a.deb 1 \n'https://h/b.deb' b.deb 2 \n";
    let m = resolve_manifest(RemoteMode::Install, "amd64", output).unwrap();
    assert!(m.check_consistent());
    let upd = resolve_manifest(RemoteMode::Update, "amd64", "'https://h/x' x 0 \n").unwrap();
    assert!(upd.check_consistent());
}

#[test]
fn resolve_of_empty_output_is_an_empty_manifest() {
    let m = resolve_manifest(RemoteMode::Install, " amd64 \t\n", "").unwrap();
    assert!(m.packages.is_empty());
    assert!(m.install_order.is_empty());
    assert_eq!(m.total_size, Some(0));
    assert_eq!(m.arch, "amd64");
}
