use lib::security::{
    audit_entry, check_trusted_host, extract_host, parse_trusted_hosts, require_https,
    verify_checksum, SecurityError, SymlinkFacts,
};

#[test]
fn https_required() {
    assert_eq!(require_https("https://github.com/x"), Ok(()));
    assert_eq!(
        require_https("http://github.com/x"),
        Err(SecurityError::InsecureScheme("http://github.com/x".to_string()))
    );
    assert!(require_https("HTTPS://github.com").is_err());
}

#[test]
fn host_extraction() {
    assert_eq!(extract_host("https://github.com/a/b").as_deref(), Some("github.com"));
    assert_eq!(extract_host("https://example.org:8443/x").as_deref(), Some("example.org"));
    assert_eq!(extract_host("https://host-only").as_deref(), Some("host-only"));
    assert_eq!(extract_host("https://").as_deref(), Some(""));
    assert_eq!(extract_host("http://github.com"), None);
}

#[test]
fn default_hosts_are_trusted() {
    for h in ["github.com", "raw.githubusercontent.com", "objects.githubusercontent.com", "codeload.github.com"] {
        assert_eq!(check_trusted_host(&format!("https://{h}/p.tar.gz"), &[]), Ok(()));
    }
}

#[test]
fn other_hosts_need_to_be_added() {
    let url = "https://example.org/p.tar.gz";
    assert_eq!(
        check_trusted_host(url, &[]),
        Err(SecurityError::UntrustedHost("example.org".to_string()))
    );
    assert_eq!(check_trusted_host(url, &["example.org".to_string()]), Ok(()));
    // host matching is exact
    assert!(check_trusted_host("https://evilgithub.com/x", &[]).is_err());
    assert!(check_trusted_host("https://github.com.evil.org/x", &[]).is_err());
}

#[test]
fn trusted_host_check_refuses_plain_http() {
    assert_eq!(
        check_trusted_host("http://github.com/x", &[]),
        Err(SecurityError::InsecureScheme("http://github.com/x".to_string()))
    );
}

#[test]
fn checksum_comparison_ignores_ascii_case() {
    assert_eq!(verify_checksum("abcDEF01", "ABCdef01"), Ok(()));
    assert_eq!(
        verify_checksum("abc", "abd"),
        Err(SecurityError::ChecksumMismatch { expected: "abd".to_string(), actual: "abc".to_string() })
    );
    assert!(verify_checksum("abc", "abcd").is_err());
}

#[test]
fn error_messages() {
    assert_eq!(
        SecurityError::InsecureScheme("http://x".to_string()).message(),
        "insecure URL (https is required): http://x"
    );
    assert_eq!(
        SecurityError::UntrustedHost("h".to_string()).message(),
        "untrusted host 'h'. Add it to ~/.config/katyusha/trusted_hosts.txt if you trust it"
    );
    assert_eq!(
        SecurityError::ChecksumMismatch { expected: "E".to_string(), actual: "A".to_string() }.message(),
        "SHA-256 mismatch (expected E, got A). The file may have been tampered with."
    );
    assert_eq!(
        SecurityError::PathTraversal("p".to_string()).message(),
        "unsafe path detected inside the package: p"
    );
}

#[test]
fn trusted_hosts_file() {
    let hosts = parse_trusted_hosts("# mine\n  example.org  \n\nmirror.net\n#x\r\n");
    assert_eq!(hosts, vec!["example.org".to_string(), "mirror.net".to_string()]);
    assert!(parse_trusted_hosts("").is_empty());
}

fn comps(v: &[&str]) -> Vec<Vec<u8>> {
    v.iter().map(|s| s.as_bytes().to_vec()).collect()
}

#[test]
fn audit_refuses_dotdot_names() {
    let root = comps(&["/", "tmp", "x"]);
    assert_eq!(
        audit_entry("/tmp/x/..evil", Some("..evil"), None, &root),
        Err(SecurityError::PathTraversal("/tmp/x/..evil".to_string()))
    );
    assert_eq!(audit_entry("/tmp/x/a.b", Some("a.b"), None, &root), Ok(()));
    assert_eq!(audit_entry("/tmp/x/?", None, None, &root), Ok(()));
}

fn link(dir: &[&str], target: Option<&[&str]>, canonical: Option<&[&str]>) -> Option<SymlinkFacts> {
    Some(SymlinkFacts {
        dir: comps(dir),
        target: target.map(comps),
        canonical: canonical.map(comps),
    })
}

#[test]
fn audit_refuses_links_leaving_the_root() {
    let root = comps(&["/", "tmp", "x"]);
    let escape = Err(SecurityError::PathTraversal("/tmp/x/l".to_string()));
    assert_eq!(
        audit_entry("/tmp/x/l", Some("l"), link(&[], Some(&["/", "etc", "passwd"]), Some(&["/", "etc", "passwd"])), &root),
        escape
    );
    assert_eq!(
        audit_entry("/tmp/x/l", Some("l"), link(&[], Some(&["bin"]), Some(&["/", "tmp", "x", "bin"])), &root),
        Ok(())
    );
    // component-wise: /tmp/xy is not inside /tmp/x
    assert_eq!(
        audit_entry("/tmp/x/l", Some("l"), link(&[], Some(&["..", "xy"]), None), &root),
        escape
    );
    assert_eq!(audit_entry("/tmp/x/l", Some("l"), link(&[], Some(&["."]), None), &root), Ok(()));
    // an existing target whose canonical path leaves the root
    assert_eq!(
        audit_entry("/tmp/x/l", Some("l"), link(&[], Some(&["bin"]), Some(&["/", "etc"])), &root),
        escape
    );
}

#[test]
fn audit_refuses_dangling_links_leaving_the_root() {
    let root = comps(&["/", "tmp", "x"]);
    let escape = Err(SecurityError::PathTraversal("/tmp/x/l".to_string()));
    assert_eq!(
        audit_entry("/tmp/x/l", Some("l"), link(&[], Some(&["/", "etc", "none"]), None), &root),
        escape
    );
    assert_eq!(
        audit_entry("/tmp/x/a/l", Some("l"), link(&["a"], Some(&["..", "..", "y"]), None), &root),
        Err(SecurityError::PathTraversal("/tmp/x/a/l".to_string()))
    );
    // a dangling target inside the root passes
    assert_eq!(
        audit_entry("/tmp/x/a/l", Some("l"), link(&["a"], Some(&["..", "b", ".", "c"]), None), &root),
        Ok(())
    );
    assert_eq!(
        audit_entry("/tmp/x/l", Some("l"), link(&[], Some(&["/", "tmp", "x", "gone"]), None), &root),
        Ok(())
    );
}

#[test]
fn audit_refuses_unreadable_links() {
    let root = comps(&["/", "tmp", "x"]);
    assert_eq!(
        audit_entry("/tmp/x/l", Some("l"), link(&[], None, None), &root),
        Err(SecurityError::PathTraversal("/tmp/x/l".to_string()))
    );
}

#[test]
fn audit_does_not_climb_above_the_file_system_root() {
    let root = comps(&["/"]);
    assert_eq!(
        audit_entry("/l", Some("l"), link(&[], Some(&["..", "..", "etc"]), None), &root),
        Ok(())
    );
    let root = comps(&["/", "tmp"]);
    assert!(audit_entry("/tmp/l", Some("l"), link(&[], Some(&["..", "..", "tmp"]), None), &root).is_ok());
    assert!(audit_entry("/tmp/l", Some("l"), link(&[], Some(&["..", "..", "etc"]), None), &root).is_err());
}

#[test]
fn checksum_match_is_symmetric_and_reflexive() {
    assert_eq!(verify_checksum("DeadBeef", "deadBEEF"), Ok(()));
    assert_eq!(verify_checksum("deadBEEF", "DeadBeef"), Ok(()));
    assert_eq!(verify_checksum("0f", "0f"), Ok(()));
    assert!(verify_checksum("0f", "1f").is_err() && verify_checksum("1f", "0f").is_err());
}

#[test]
fn audit_compares_raw_bytes() {
    let root = vec![b"/".to_vec(), vec![0xff, 0x61]];
    // different non-UTF-8 names that would both read as U+FFFD 'a' after a lossy conversion
    let other = vec![b"/".to_vec(), vec![0xfe, 0x61]];
    let facts = |t: Vec<Vec<u8>>| Some(SymlinkFacts { dir: vec![], target: Some(t), canonical: None });
    assert!(audit_entry("/x/l", Some("l"), facts(other), &root).is_err());
    let inside = vec![b"/".to_vec(), vec![0xff, 0x61], b"bin".to_vec()];
    assert_eq!(audit_entry("/x/l", Some("l"), facts(inside), &root), Ok(()));
}
