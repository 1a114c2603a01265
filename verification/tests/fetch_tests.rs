use apt_remote::fetch::{
    decompressed_name, fetch_plan, fetch_subdir, packages_index_url, second_token_str,
    should_decompress, source_urls, surface_fetch_failure,
};
use apt_remote::uri::{PackageEntry, RemoteMode, UriFile};

fn manifest_with(names: &[&str]) -> UriFile {
    UriFile {
        mode: RemoteMode::Install,
        arch: "amd64".to_string(),
        total_size: Some(names.len() as u64),
        install_order: names.iter().map(|n| n.to_string()).collect(),
        packages: names
            .iter()
            .map(|n| {
                (
                    n.to_string(),
                    PackageEntry {
                        uri: format!("https://mirror.example/pool/{}", n),
                        size: 1,
                        checksum: None,
                    },
                )
            })
            .collect(),
    }
}

#[test]
fn fetch_dir_depends_on_mode() {
    assert_eq!(fetch_subdir(&RemoteMode::Install), "debs");
    assert_eq!(fetch_subdir(&RemoteMode::Upgrade), "debs");
    assert_eq!(fetch_subdir(&RemoteMode::Update), "sources");
}

#[test]
fn fetch_plan_lists_only_absent_files_in_order() {
    let m = manifest_with(&["a.deb", "b.deb", "c.deb"]);
    let plan = fetch_plan(&m, &vec![true, false, false]);
    assert_eq!(plan.len(), 2);
    assert_eq!(plan[0].0, "b.deb");
    assert_eq!(plan[0].1, "https://mirror.example/pool/b.deb");
    assert_eq!(plan[1].0, "c.deb");
}

#[test]
fn second_fetch_over_a_full_cache_plans_nothing() {
    let m = manifest_with(&["a.deb", "b.deb", "c.deb"]);
    // first run: nothing present, everything is fetched
    let first = fetch_plan(&m, &vec![false, false, false]);
    assert_eq!(first.len(), 3);
    // second run: every destination exists, zero requests are planned
    let second = fetch_plan(&m, &vec![true, true, true]);
    assert!(second.is_empty());
}

#[test]
fn failed_downloads_are_silent_only_in_install_mode() {
    assert!(!surface_fetch_failure(&RemoteMode::Install));
    assert!(surface_fetch_failure(&RemoteMode::Update));
    assert!(surface_fetch_failure(&RemoteMode::Upgrade));
}

#[test]
fn decompression_applies_to_update_mode_xz_files_only() {
    assert!(should_decompress(&RemoteMode::Update, "Packages.xz"));
    assert!(!should_decompress(&RemoteMode::Install, "Packages.xz"));
    assert!(!should_decompress(&RemoteMode::Update, "InRelease"));
    assert!(!should_decompress(&RemoteMode::Update, ".xz"));
    assert_eq!(decompressed_name("Packages.xz"), "Packages");
}

#[test]
fn second_token_reads_the_source_field() {
    assert_eq!(
        second_token_str("deb https://mirror.example/debian stable main"),
        Some("https://mirror.example/debian".to_string())
    );
    assert_eq!(second_token_str("deb"), None);
    assert_eq!(second_token_str("  deb   x  "), Some("x".to_string()));
    assert_eq!(second_token_str(""), None);
}

#[test]
fn source_urls_collects_deb_lines_once() {
    let a = "# a comment\ndeb https://mirror.example/debian stable main\ndeb-src https://mirror.example/debian stable main\ndeb https://security.example/debian stable-security main\n".to_string();
    let b = "deb https://mirror.example/debian stable main\ndeb ::notaurl stable\ndeb\n".to_string();
    let urls = source_urls(&vec![a, b]);
    assert_eq!(
        urls,
        vec![
            "https://mirror.example/debian".to_string(),
            "https://security.example/debian".to_string(),
        ]
    );
}

#[test]
fn index_url_is_the_base_plus_packages_gz() {
    assert_eq!(
        packages_index_url("https://mirror.example/debian"),
        "https://mirror.example/debian/Packages.gz"
    );
    assert_eq!(
        packages_index_url("https://mirror.example/debian/"),
        "https://mirror.example/debian/Packages.gz"
    );
}
