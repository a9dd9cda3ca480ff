use lib::distro::{parse_os_release, DistroFamily};

fn strs(v: &[&str]) -> Vec<String> {
    v.iter().map(|s| s.to_string()).collect()
}

#[test]
fn classify_known_ids() {
    assert_eq!(DistroFamily::classify("ubuntu", &[]), DistroFamily::Debian);
    assert_eq!(DistroFamily::classify("fedora", &[]), DistroFamily::RedHat);
    assert_eq!(DistroFamily::classify("manjaro", &[]), DistroFamily::Arch);
    assert_eq!(DistroFamily::classify("opensuse", &[]), DistroFamily::Suse);
    assert_eq!(DistroFamily::classify("alpine", &[]), DistroFamily::Alpine);
    assert_eq!(DistroFamily::classify("gentoo", &[]), DistroFamily::Gentoo);
    assert_eq!(DistroFamily::classify("nixos", &[]), DistroFamily::Unknown);
}

#[test]
fn classify_falls_back_to_id_like_in_order() {
    assert_eq!(DistroFamily::classify("pop", &strs(&["ubuntu", "debian"])), DistroFamily::Debian);
    assert_eq!(DistroFamily::classify("rocky", &strs(&["x", "rhel", "arch"])), DistroFamily::RedHat);
    // the id itself wins over id_like
    assert_eq!(DistroFamily::classify("arch", &strs(&["debian"])), DistroFamily::Arch);
    assert_eq!(DistroFamily::classify("x", &strs(&["y"])), DistroFamily::Unknown);
}

#[test]
fn parse_os_release_reads_fields() {
    let text = "NAME=\"Ubuntu\"\nVERSION_ID=\"24.04\"\nID=ubuntu\nID_LIKE=debian\nPRETTY_NAME=\"Ubuntu 24.04 LTS\"\n";
    let info = parse_os_release(text);
    assert_eq!(info.id, "ubuntu");
    assert_eq!(info.id_like, strs(&["debian"]));
    assert_eq!(info.name, "Ubuntu");
    assert_eq!(info.version, "24.04");
    assert_eq!(info.family, DistroFamily::Debian);
    assert_eq!(info.describe(), "Ubuntu 24.04 (Debian)");
}

#[test]
fn parse_os_release_defaults() {
    let info = parse_os_release("");
    assert_eq!(info.id, "unknown");
    assert!(info.id_like.is_empty());
    assert_eq!(info.name, "Unknown");
    assert_eq!(info.version, "?");
    assert_eq!(info.family, DistroFamily::Unknown);
    assert_eq!(info.describe(), "Unknown ? (Unknown)");
}

#[test]
fn parse_os_release_details() {
    let text = "ID=first\nbogus\nID_LIKE=\"  rhel   fedora \"\nID= \"second\" \n ID=ignored\nNAME=a=b\n";
    let info = parse_os_release(text);
    assert_eq!(info.id, "second");
    assert_eq!(info.id_like, strs(&["rhel", "fedora"]));
    assert_eq!(info.name, "a=b");
    assert_eq!(info.family, DistroFamily::RedHat);
}
