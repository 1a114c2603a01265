use apt_remote::errors::{ManifestError, UriError};
use apt_remote::uri::validate_uri;
use apt_remote::uri::{Checksum, ChecksumKind, PackageEntry, RemoteMode, UriFile};

fn entry(uri: &str, size: u64, checksum: Option<Checksum>) -> PackageEntry {
    PackageEntry { uri: uri.to_string(), size, checksum }
}

fn sha(value: &str) -> Option<Checksum> {
    Some(Checksum { kind: ChecksumKind::SHA256, value: value.to_string() })
}

fn md5(value: &str) -> Option<Checksum> {
    Some(Checksum { kind: ChecksumKind::MD5, value: value.to_string() })
}

fn install_manifest() -> UriFile {
    UriFile {
        mode: RemoteMode::Install,
        arch: "amd64".to_string(),
        total_size: Some(123456),
        install_order: vec!["a.deb".to_string(), "b.deb".to_string()],
        packages: vec![
            (
                "a.deb".to_string(),
                entry("https://mirror.example/pool/a.deb", 1000, sha("0123abc")),
            ),
            (
                "b.deb".to_string(),
                entry("http://mirror.example/pool/b.deb", 122456, md5("ffee00")),
            ),
        ],
    }
}

#[test]
fn round_trip_install_manifest() {
    let m = install_manifest();
    assert!(m.is_clean());
    let text = m.save();
    let loaded = UriFile::load(&text).expect("round trip must load");
    assert_eq!(m, loaded);
}

#[test]
fn round_trip_entry_without_checksum() {
    let mut m = install_manifest();
    m.packages[1].1.checksum = None;
    let text = m.save();
    let loaded = UriFile::load(&text).expect("round trip must load");
    assert_eq!(m, loaded);
}

#[test]
fn round_trip_update_manifest_without_total() {
    let m = UriFile {
        mode: RemoteMode::Update,
        arch: "arm64".to_string(),
        total_size: None,
        install_order: vec![],
        packages: vec![
            (
                "mirror.example_debian_dists_InRelease".to_string(),
                entry("https://mirror.example/debian/dists/InRelease", 0, None),
            ),
        ],
    };
    let text = m.save();
    let loaded = UriFile::load(&text).expect("round trip must load");
    assert_eq!(m, loaded);
}

#[test]
fn round_trip_empty_packages() {
    let m = UriFile {
        mode: RemoteMode::Upgrade,
        arch: "amd64".to_string(),
        total_size: Some(0),
        install_order: vec![],
        packages: vec![],
    };
    let text = m.save();
    let loaded = UriFile::load(&text).expect("round trip must load");
    assert_eq!(m, loaded);
}

#[test]
fn save_renders_the_documented_shape() {
    let m = UriFile {
        mode: RemoteMode::Install,
        arch: "amd64".to_string(),
        total_size: Some(100000),
        install_order: vec!["curl_1.0_amd64.deb".to_string()],
        packages: vec![
            (
                "curl_1.0_amd64.deb".to_string(),
                entry("https://example/curl_1.0_amd64.deb", 100000, sha("abc")),
            ),
        ],
    };
    let expected = "mode = \"Install\"\narch = \"amd64\"\ntotal_size = 100000\ninstall_order = [\"curl_1.0_amd64.deb\"]\n\n[packages.\"curl_1.0_amd64.deb\"]\nuri = \"https://example/curl_1.0_amd64.deb\"\nsize = 100000\nchecksum = { kind = \"SHA256\", value = \"abc\" }";
    assert_eq!(m.save(), expected);
}

#[test]
fn load_rejects_file_scheme_naming_the_package() {
    let mut m = install_manifest();
    m.packages[1].1.uri = "file:///etc/passwd".to_string();
    let text = m.save();
    match UriFile::load(&text) {
        Err(ManifestError::InvalidUri(package)) => assert_eq!(package, "b.deb"),
        other => panic!("expected an invalid-uri error, got {:?}", other),
    }
}

#[test]
fn load_rejects_malformed_url_naming_the_package() {
    let mut m = install_manifest();
    m.packages[0].1.uri = "not a url at all".to_string();
    let text = m.save();
    match UriFile::load(&text) {
        Err(ManifestError::InvalidUri(package)) => assert_eq!(package, "a.deb"),
        other => panic!("expected an invalid-uri error, got {:?}", other),
    }
}

#[test]
fn load_accepts_all_allowed_schemes() {
    let m = UriFile {
        mode: RemoteMode::Install,
        arch: "amd64".to_string(),
        total_size: Some(3),
        install_order: vec!["a".to_string(), "b".to_string(), "c".to_string()],
        packages: vec![
            ("a".to_string(), entry("http://h/a", 1, None)),
            ("b".to_string(), entry("https://h/b", 1, None)),
            ("c".to_string(), entry("ftp://h/c", 1, None)),
        ],
    };
    assert!(UriFile::load(&m.save()).is_ok());
}

#[test]
fn load_rejects_text_that_is_not_a_manifest() {
    assert_eq!(UriFile::load("not a manifest"), Err(ManifestError::Malformed));
    assert_eq!(UriFile::load(""), Err(ManifestError::Malformed));
    assert_eq!(
        UriFile::load("mode = \"Install\"\narch = \"amd64\""),
        Err(ManifestError::Malformed)
    );
}

#[test]
fn load_rejects_a_tampered_size_field() {
    let text = "mode = \"Install\"\narch = \"amd64\"\ntotal_size = 007\ninstall_order = []";
    assert_eq!(UriFile::load(text), Err(ManifestError::Malformed));
}

#[test]
fn round_trip_keeps_the_largest_sizes() {
    let m = UriFile {
        mode: RemoteMode::Install,
        arch: "amd64".to_string(),
        total_size: Some(u64::MAX),
        install_order: vec!["a.deb".to_string()],
        packages: vec![("a.deb".to_string(), entry("https://h/a.deb", u64::MAX, None))],
    };
    let loaded = UriFile::load(&m.save()).unwrap();
    assert_eq!(m, loaded);
    assert_eq!(loaded.total_size, Some(18446744073709551615));
}

#[test]
fn is_clean_spots_reserved_characters() {
    let mut m = install_manifest();
    assert!(m.is_clean());
    m.arch = "amd\n64".to_string();
    assert!(!m.is_clean());
    let mut m2 = install_manifest();
    m2.install_order[0] = "a\"b".to_string();
    assert!(!m2.is_clean());
}

#[test]
fn checksum_kind_from_tool_name() {
    assert_eq!(ChecksumKind::new("sha256sum"), Ok(ChecksumKind::SHA256));
    assert_eq!(ChecksumKind::new("md5sum"), Ok(ChecksumKind::MD5));
    assert!(ChecksumKind::new("sha256").is_err());
    assert!(ChecksumKind::new("").is_err());
    assert!(ChecksumKind::new("SHA256SUM").is_err());
}

#[test]
fn validate_uri_distinguishes_the_failures() {
    assert_eq!(validate_uri("https://mirror.example/x.deb"), Ok(()));
    assert_eq!(validate_uri("ftp://mirror.example/x.deb"), Ok(()));
    assert_eq!(validate_uri("file:///x.deb"), Err(UriError::BadScheme));
    assert_eq!(validate_uri("ssh://host/x"), Err(UriError::BadScheme));
    assert_eq!(validate_uri("://"), Err(UriError::Malformed));
    assert_eq!(validate_uri("plain words"), Err(UriError::Malformed));
}
