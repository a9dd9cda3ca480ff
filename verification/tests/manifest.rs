use lib::manifest::{add, find, parse_manifest, remove, serialize_manifest, InstalledPackage};

fn rec(name: &str, version: &str, sha: &str) -> InstalledPackage {
    InstalledPackage {
        name: name.to_string(),
        version: version.to_string(),
        sha256: sha.to_string(),
        prefix: format!("/opt/katyusha/{name}"),
    }
}

#[test]
fn manifest_roundtrip() {
    let ps = vec![rec("nano", "7.2", "AB12"), rec("htop", "3.3.0", "cd34")];
    let text = serialize_manifest(&ps);
    assert_eq!(
        text,
        "nano\t7.2\tAB12\t/opt/katyusha/nano\nhtop\t3.3.0\tcd34\t/opt/katyusha/htop\n"
    );
    assert_eq!(parse_manifest(&text), ps);
}

#[test]
fn serialize_empty_manifest() {
    assert_eq!(serialize_manifest(&[]), "");
    assert!(parse_manifest("").is_empty());
}

#[test]
fn parse_manifest_skips_malformed_lines() {
    let text = "a\t1\tx\t/p\nbad line\nb\t2\ty\nc\t3\tz\t/q\textra\nd\t4\tw\t/r\r\n";
    let ps = parse_manifest(text);
    assert_eq!(ps, vec![rec2("a", "1", "x", "/p"), rec2("d", "4", "w", "/r")]);
}

fn rec2(name: &str, version: &str, sha: &str, prefix: &str) -> InstalledPackage {
    InstalledPackage {
        name: name.to_string(),
        version: version.to_string(),
        sha256: sha.to_string(),
        prefix: prefix.to_string(),
    }
}

#[test]
fn parse_manifest_keeps_empty_fields() {
    let ps = parse_manifest("\t\t\t\n");
    assert_eq!(ps, vec![rec2("", "", "", "")]);
}

#[test]
fn add_replaces_same_name_and_appends() {
    let mut all = vec![rec("nano", "7.0", "old"), rec("htop", "3", "h"), rec("nano", "7.1", "older")];
    add(&mut all, rec("nano", "7.2", "new"));
    assert_eq!(all, vec![rec("htop", "3", "h"), rec("nano", "7.2", "new")]);
    assert_eq!(find(&all, "nano").unwrap().sha256, "new");
}

#[test]
fn add_to_empty() {
    let mut all = Vec::new();
    add(&mut all, rec("vim", "9", "s"));
    assert_eq!(all, vec![rec("vim", "9", "s")]);
}

#[test]
fn remove_takes_first_match() {
    let mut all = vec![rec("a", "1", "x"), rec("b", "2", "y"), rec("a", "3", "z")];
    let r = remove(&mut all, "a");
    assert_eq!(r, Some(rec("a", "1", "x")));
    assert_eq!(all, vec![rec("b", "2", "y"), rec("a", "3", "z")]);
}

#[test]
fn remove_missing_leaves_list() {
    let mut all = vec![rec("a", "1", "x")];
    assert_eq!(remove(&mut all, "A"), None);
    assert_eq!(all, vec![rec("a", "1", "x")]);
}

#[test]
fn remove_after_add_gives_back_the_package() {
    let mut all = vec![rec("a", "1", "x"), rec("b", "2", "y")];
    add(&mut all, rec("a", "5", "q"));
    let r = remove(&mut all, "a");
    assert_eq!(r, Some(rec("a", "5", "q")));
    assert_eq!(all, vec![rec("b", "2", "y")]);
    assert!(find(&all, "a").is_none());
}

#[test]
fn find_is_exact() {
    let all = vec![rec("Nano", "1", "x")];
    assert!(find(&all, "nano").is_none());
    assert_eq!(find(&all, "Nano").unwrap().version, "1");
}
