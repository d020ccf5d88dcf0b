use jammer::config::JammerConfig;
use jammer::digest::{digest_hex, FileDigest};
use jammer::manifest::{
    build_manifest, count_snapshots, entry_documents, hashable_files, is_snapshot_file, HashedFile,
    ManifestError,
};
use jammer::path::{path_less, relative_path};
use jammer::text::text_lt;

fn file(path: &str, digest: &str) -> HashedFile {
    HashedFile { path: path.to_string(), digest: digest.to_string() }
}

fn is_lower_hex(s: &str) -> bool {
    s.chars().all(|c| c.is_ascii_digit() || ('a'..='f').contains(&c))
}

#[test]
fn sha256_of_known_input() {
    assert_eq!(digest_hex(b"abc"), "ba7816bf8f01cfea414140de5dae2223b00361a396177a9cb410ff61f20015ad");
    assert_eq!(digest_hex(b""), "e3b0c44298fc1c149afbf4c8996fb92427ae41e4649b934ca495991b7852b855");
}

#[test]
fn chunked_digest_matches_whole() {
    let mut d = FileDigest::new();
    d.update(b"a");
    d.update(b"");
    d.update(b"bc");
    assert_eq!(d.finish_hex(), digest_hex(b"abc"));
}

#[test]
fn manifest_for_two_entry_documents() {
    let docs: Vec<String> = entry_documents()
        .into_iter()
        .map(|n| format!("/usr/share/nginx/html/{}", n))
        .collect();
    let files = hashable_files(docs, vec![]);
    assert_eq!(files.len(), 2);
    let hashed: Vec<HashedFile> = files
        .iter()
        .rev()
        .map(|p| HashedFile { path: p.clone(), digest: digest_hex(p.as_bytes()) })
        .collect();
    let text = build_manifest(hashed, "/usr/share/nginx/html").unwrap();
    let lines: Vec<&str> = text.lines().collect();
    assert_eq!(lines.len(), 2);
    assert!(text.ends_with('\n'));
    let names: Vec<&str> = lines.iter().map(|l| &l[66..]).collect();
    assert_eq!(names, vec!["index.html", "privacy.html"]);
    for l in &lines {
        assert_eq!(&l[64..66], "  ");
        assert!(is_lower_hex(&l[..64]));
    }
    assert_eq!(&lines[0][..64], digest_hex(b"/usr/share/nginx/html/index.html"));
}

#[test]
fn manifest_is_independent_of_input_order() {
    let a = vec![
        file("/r/jams/2.jam", "bb"),
        file("/r/index.html", "aa"),
        file("/r/jams/10.jam", "cc"),
    ];
    let b = vec![
        file("/r/jams/10.jam", "cc"),
        file("/r/jams/2.jam", "bb"),
        file("/r/index.html", "aa"),
    ];
    let ta = build_manifest(a, "/r").unwrap();
    let tb = build_manifest(b, "/r").unwrap();
    assert_eq!(ta, tb);
    assert_eq!(ta, "aa  index.html\ncc  jams/10.jam\nbb  jams/2.jam\n");
}

#[test]
fn empty_manifest_is_refused() {
    assert_eq!(build_manifest(vec![], "/r"), Err(ManifestError::NoFilesFound));
}

#[test]
fn files_outside_root_keep_their_path() {
    let t = build_manifest(vec![file("/other/1.jam", "ab")], "/r/").unwrap();
    assert_eq!(t, "ab  /other/1.jam\n");
    assert_eq!(relative_path("/r/x/y", "/r"), "x/y");
    assert_eq!(relative_path("/r/x/y", "/r/"), "x/y");
    assert_eq!(relative_path("/rx/y", "/r"), "/rx/y");
    assert_eq!(relative_path("/r", "/r"), "");
    assert_eq!(relative_path("/srv//www/index.html", "/srv/www"), "index.html");
    assert_eq!(relative_path("/srv/www/a/b", "/srv//www/"), "a/b");
    assert_eq!(relative_path("/srv/www/./a", "/srv/www"), "a");
    assert_eq!(relative_path("/a/b", ""), "/a/b");
    assert_eq!(relative_path("x/y", "x"), "y");
}

#[test]
fn snapshot_files_are_recognised_by_extension() {
    assert!(is_snapshot_file("/d/12.jam"));
    assert!(is_snapshot_file("a.jam"));
    assert!(!is_snapshot_file(".jam"));
    assert!(!is_snapshot_file("/d/.jam"));
    assert!(!is_snapshot_file("/d/12.jams"));
    assert!(!is_snapshot_file("/d/12.jam.tmp"));
    assert!(!is_snapshot_file("/d/SHA256SUMS"));
    let listing = vec![
        "/d/1.jam".to_string(),
        "/d/SHA256SUMS".to_string(),
        "/d/2.jam".to_string(),
        "/d/.jam".to_string(),
    ];
    assert_eq!(count_snapshots(&listing), 2);
    assert_eq!(count_snapshots(&vec![]), 0);
    let files = hashable_files(vec!["/h/index.html".to_string()], listing);
    assert_eq!(files, vec!["/h/index.html", "/d/1.jam", "/d/2.jam"]);
}

#[test]
fn text_order_is_by_character() {
    assert!(text_lt("a", "b"));
    assert!(text_lt("a", "ab"));
    assert!(!text_lt("ab", "a"));
    assert!(!text_lt("a", "a"));
    assert!(text_lt("", "a"));
    assert!(text_lt("Z", "a"));
}

#[test]
fn artifact_and_temp_paths() {
    let cfg = JammerConfig {
        html_root: "/h".to_string(),
        jams_dir: "/h/jams".to_string(),
        manifest_path: "/h/jams/SHA256SUMS".to_string(),
        nockchain_rpc: String::new(),
        nockchain_bin: String::new(),
        nockchain_dir: String::new(),
        checkpoints_dir: String::new(),
        export_flag: "--export-state-jam".to_string(),
        nockchain_user: Some("node".to_string()),
        nockchain_service: String::new(),
        export_timeout_secs: 900,
        poll_secs: 5,
    };
    assert_eq!(cfg.artifact_path(12345), "/h/jams/12345.jam");
    assert_eq!(cfg.manifest_temp_path(), "/h/jams/SHA256SUMS.tmp");
    let run = cfg.new_run();
    assert_eq!(run.timeout_secs, 900);
    assert_eq!(run.poll_secs, 5);
}

#[test]
fn paths_are_ordered_by_component() {
    assert!(path_less("/srv/www/index.html", "/srv/www.jams/1.jam"));
    assert!(!path_less("/srv/www.jams/1.jam", "/srv/www/index.html"));
    assert!(path_less("/a", "/a/b"));
    assert!(path_less("/z", "a"));
    assert!(path_less("./a", "../a"));
    assert!(path_less("../a", "a"));
    assert!(!path_less("/a//b", "/a/b"));
    assert!(!path_less("/a/b", "/a//b/"));
    let t = build_manifest(
        vec![file("/srv/www.jams/1.jam", "bb"), file("/srv/www/index.html", "aa")],
        "/srv/www",
    )
    .unwrap();
    assert_eq!(t, "aa  index.html\nbb  /srv/www.jams/1.jam\n");
}
