use lib::install::{
    descend_into, entry_point, step, DirEntryFacts, EntryPoint, InstallAction, InstallEvent, InstallState,
    InstallStep, Phase, Unwrapper,
};
use lib::manifest::InstalledPackage;
use lib::repo::Package;
use lib::security::SecurityError;
use lib::system_check::ExistingInstall;

fn nano() -> Package {
    Package {
        name: "nano".to_string(),
        version: "7.2".to_string(),
        url: "https://nano-editor.org".to_string(),
        url_pack: "https://raw.githubusercontent.com/K/p/main/nano.tar.gz".to_string(),
        description: Some("editor".to_string()),
    }
}

fn go(s: InstallState, e: InstallEvent) -> (InstallState, InstallStep) {
    step(s, e)
}

fn strs(v: &[&str]) -> Vec<String> {
    v.iter().map(|s| s.to_string()).collect()
}

fn finish_err(msg: &str) -> InstallAction {
    InstallAction::Finish { cleanup: vec![], result: Err(msg.to_string()) }
}

#[test]
fn not_root_is_refused() {
    let (s, st) = InstallState::new("nano", false, 7);
    assert_eq!(st.action, InstallAction::CheckRoot);
    let (s, st) = go(s, InstallEvent::Root(false));
    assert_eq!(s.phase, Phase::Finished);
    assert_eq!(st.action, finish_err("root privileges are required. Use: sudo katyusha -i <package>"));
}

#[test]
fn existing_copy_skips_install() {
    let (s, _) = InstallState::new("nano", false, 7);
    let (s, st) = go(s, InstallEvent::Root(true));
    assert_eq!(st.action, InstallAction::CheckExisting { name: "nano".to_string() });
    let e = ExistingInstall { source: "APT/dpkg".to_string(), detail: "d".to_string() };
    let (s, st) = go(s, InstallEvent::Existing(Some(e)));
    assert_eq!(s.phase, Phase::Finished);
    assert_eq!(st.action, InstallAction::Finish { cleanup: vec![], result: Ok(()) });
    assert_eq!(
        st.say,
        strs(&["[i] 'nano' is already installed on this system: APT/dpkg (d).\n[i] Skipping install. Use 'sudo katyusha -i nano --force' to install Katyusha's own copy alongside it anyway."])
    );
}

#[test]
fn forced_install_skips_existing_check() {
    let (s, _) = InstallState::new("nano", true, 7);
    let (s, st) = go(s, InstallEvent::Root(true));
    assert_eq!(s.phase, Phase::FetchingIndex);
    assert_eq!(st.action, InstallAction::FetchIndex);
    assert_eq!(st.say, strs(&["[*] Fetching the package index..."]));
}

fn to_hosts(name: &str, pkgs: Vec<Package>) -> (InstallState, InstallStep) {
    let (s, _) = InstallState::new(name, true, 42);
    let (s, _) = go(s, InstallEvent::Root(true));
    go(s, InstallEvent::Index(Ok(pkgs)))
}

#[test]
fn unknown_package_is_an_error() {
    let (s, st) = to_hosts("emacs", vec![nano()]);
    assert_eq!(s.phase, Phase::Finished);
    assert_eq!(st.action, finish_err("package 'emacs' not found in the index"));
}

#[test]
fn index_error_is_passed_on() {
    let (s, _) = InstallState::new("nano", true, 42);
    let (s, _) = go(s, InstallEvent::Root(true));
    let (_, st) = go(s, InstallEvent::Index(Err("curl failed".to_string())));
    assert_eq!(st.action, finish_err("curl failed"));
}

#[test]
fn plain_http_is_refused_before_download() {
    let mut p = nano();
    p.url_pack = "http://example.com/nano.tar.gz".to_string();
    let (s, st) = to_hosts("NANO", vec![p]);
    assert_eq!(s.phase, Phase::Finished);
    assert_eq!(st.say, strs(&["[*] Package: nano (7.2)", "    editor"]));
    assert_eq!(st.action, finish_err("insecure URL (https is required): http://example.com/nano.tar.gz"));
}

#[test]
fn untrusted_host_is_refused() {
    let mut p = nano();
    p.url_pack = "https://example.com/nano.tar.gz".to_string();
    let (s, st) = to_hosts("nano", vec![p]);
    assert_eq!(st.action, InstallAction::LoadTrustedHosts);
    let (s2, st2) = go(s, InstallEvent::TrustedHosts(vec![]));
    assert_eq!(s2.phase, Phase::Finished);
    assert_eq!(
        st2.action,
        finish_err("untrusted host 'example.com'. Add it to ~/.config/katyusha/trusted_hosts.txt if you trust it\nIf you trust this source, add the host to ~/.config/katyusha/trusted_hosts.txt and try again.")
    );
}

fn to_record(pkg: Package) -> (InstallState, InstallStep) {
    let (s, _) = to_hosts("nano", vec![pkg]);
    let (s, st) = go(s, InstallEvent::TrustedHosts(vec![]));
    assert_eq!(st.action, InstallAction::MakeDir { path: "/tmp/katyusha-install-nano-42".to_string() });
    let (s, st) = go(s, InstallEvent::Done(Ok(())));
    assert_eq!(
        st.action,
        InstallAction::Download {
            url: "https://raw.githubusercontent.com/K/p/main/nano.tar.gz".to_string(),
            dest: "/tmp/katyusha-install-nano-42/pkg.archive".to_string()
        }
    );
    assert_eq!(st.say, strs(&["[*] Downloading https://raw.githubusercontent.com/K/p/main/nano.tar.gz..."]));
    let (s, st) = go(s, InstallEvent::Done(Ok(())));
    assert_eq!(st.action, InstallAction::HashFile { path: "/tmp/katyusha-install-nano-42/pkg.archive".to_string() });
    let (s, st) = go(s, InstallEvent::Hashed(Ok("abcd".to_string())));
    assert_eq!(st.say, strs(&["[*] SHA-256: abcd"]));
    assert_eq!(st.action, InstallAction::LoadManifest);
    (s, st)
}

fn rec(name: &str, version: &str, sha: &str) -> InstalledPackage {
    InstalledPackage {
        name: name.to_string(),
        version: version.to_string(),
        sha256: sha.to_string(),
        prefix: format!("/opt/katyusha/{name}"),
    }
}

#[test]
fn changed_checksum_for_same_version_aborts() {
    let (s, _) = to_record(nano());
    let (s, st) = go(s, InstallEvent::Manifest(vec![rec("nano", "7.2", "ffff")]));
    assert_eq!(s.phase, Phase::Finished);
    assert_eq!(
        st.action,
        InstallAction::Finish {
            cleanup: strs(&["/tmp/katyusha-install-nano-42"]),
            result: Err("SHA-256 mismatch (expected ffff, got abcd). The file may have been tampered with.\nIf you intentionally repackaged 'nano' 7.2 with new content, run 'sudo katyusha -r nano' first to clear the old record, then reinstall.".to_string())
        }
    );
}

#[test]
fn full_install_records_checksum() {
    let (s, _) = to_record(nano());
    // another version recorded earlier is no conflict
    let (s, st) = go(s, InstallEvent::Manifest(vec![rec("nano", "7.0", "ffff")]));
    assert_eq!(st.say, strs(&["[*] Extracting package..."]));
    assert_eq!(
        st.action,
        InstallAction::Extract {
            archive: "/tmp/katyusha-install-nano-42/pkg.archive".to_string(),
            dest: "/tmp/katyusha-install-nano-42/extracted".to_string()
        }
    );
    let (s, st) = go(s, InstallEvent::Done(Ok(())));
    assert_eq!(st.action, InstallAction::Audit { dir: "/tmp/katyusha-install-nano-42/extracted".to_string() });
    let (s, st) = go(s, InstallEvent::Audited(Ok(())));
    assert_eq!(st.action, InstallAction::UnwrapSingleDir { dir: "/tmp/katyusha-install-nano-42/extracted".to_string() });
    let (s, st) = go(s, InstallEvent::Unwrapped(Ok("/tmp/r".to_string())));
    assert_eq!(st.action, InstallAction::DirExists { path: "/opt/katyusha/nano".to_string() });
    let (s, st) = go(s, InstallEvent::Exists(true));
    assert_eq!(st.action, InstallAction::RemoveDir { path: "/opt/katyusha/nano".to_string() });
    let (s, st) = go(s, InstallEvent::Done(Ok(())));
    assert_eq!(st.action, InstallAction::MakeDir { path: "/opt/katyusha/nano".to_string() });
    let (s, st) = go(s, InstallEvent::Done(Ok(())));
    assert_eq!(
        st.action,
        InstallAction::PlaceFiles {
            from: "/tmp/r".to_string(),
            dest: "/opt/katyusha/nano".to_string(),
            name: "nano".to_string()
        }
    );
    let (s, st) = go(s, InstallEvent::Placed(Ok(Some("/opt/katyusha/nano/nano".to_string()))));
    assert_eq!(
        st.action,
        InstallAction::LinkBinary {
            bin: "/opt/katyusha/nano/nano".to_string(),
            link: "/usr/local/bin/nano".to_string()
        }
    );
    let (s, st) = go(s, InstallEvent::Done(Ok(())));
    assert_eq!(st.say, strs(&["[*] Binary linked at /usr/local/bin/nano"]));
    assert_eq!(st.action, InstallAction::LoadManifest);
    let (s, st) = go(s, InstallEvent::Manifest(vec![rec("nano", "7.0", "ffff"), rec("htop", "3", "h")]));
    assert_eq!(
        st.action,
        InstallAction::SaveManifest { packages: vec![rec("htop", "3", "h"), rec("nano", "7.2", "abcd")] }
    );
    let (s, st) = go(s, InstallEvent::Done(Ok(())));
    assert_eq!(s.phase, Phase::Finished);
    assert_eq!(st.say, strs(&["[\u{2713}] 'nano' 7.2 installed successfully."]));
    assert_eq!(
        st.action,
        InstallAction::Finish { cleanup: strs(&["/tmp/katyusha-install-nano-42"]), result: Ok(()) }
    );
}

#[test]
fn audit_failure_and_placement_failure() {
    let (s, _) = to_record(nano());
    let (s, _) = go(s, InstallEvent::Manifest(vec![]));
    let (s, _) = go(s, InstallEvent::Done(Ok(())));
    let (_, st) = go(s, InstallEvent::Audited(Err(SecurityError::PathTraversal("/x".to_string()))));
    assert_eq!(st.action, finish_err("unsafe path detected inside the package: /x"));

    let (s, _) = to_record(nano());
    let (s, _) = go(s, InstallEvent::Manifest(vec![]));
    let (s, _) = go(s, InstallEvent::Done(Ok(())));
    let (s, _) = go(s, InstallEvent::Audited(Ok(())));
    let (s, _) = go(s, InstallEvent::Unwrapped(Ok("/tmp/r".to_string())));
    let (s, st) = go(s, InstallEvent::Exists(false));
    assert_eq!(st.action, InstallAction::MakeDir { path: "/opt/katyusha/nano".to_string() });
    let (s, _) = go(s, InstallEvent::Done(Ok(())));
    let (s, st) = go(s, InstallEvent::Placed(Err("no binary".to_string())));
    assert_eq!(s.phase, Phase::Finished);
    assert_eq!(
        st.action,
        InstallAction::Finish {
            cleanup: strs(&["/opt/katyusha/nano", "/tmp/katyusha-install-nano-42"]),
            result: Err("no binary".to_string())
        }
    );
}

#[test]
fn install_script_package_goes_straight_to_manifest() {
    let (s, _) = to_record(nano());
    let (s, _) = go(s, InstallEvent::Manifest(vec![]));
    let (s, _) = go(s, InstallEvent::Done(Ok(())));
    let (s, _) = go(s, InstallEvent::Audited(Ok(())));
    let (s, _) = go(s, InstallEvent::Unwrapped(Ok("/tmp/r".to_string())));
    let (s, _) = go(s, InstallEvent::Exists(false));
    let (s, _) = go(s, InstallEvent::Done(Ok(())));
    let (_, st) = go(s, InstallEvent::Placed(Ok(None)));
    assert_eq!(st.action, InstallAction::LoadManifest);
    assert!(st.say.is_empty());
}

#[test]
fn unwrapping_descends_only_into_a_lone_real_directory() {
    let d = |p: &str, dir: bool, link: bool| DirEntryFacts { path: p.to_string(), is_dir: dir, is_symlink: link };
    assert_eq!(descend_into(&[d("/x/a", true, false)]), Some("/x/a".to_string()));
    assert_eq!(descend_into(&[d("/x/a", true, true)]), None);
    assert_eq!(descend_into(&[d("/x/a", false, false)]), None);
    assert_eq!(descend_into(&[d("/x/a", true, false), d("/x/b", true, false)]), None);
    assert_eq!(descend_into(&[]), None);
}

#[test]
fn unwrapping_runs_down_to_a_directory_that_is_not_a_wrapper() {
    let d = |p: &str, dir: bool, link: bool| DirEntryFacts { path: p.to_string(), is_dir: dir, is_symlink: link };
    let mut u = Unwrapper::new("/x");
    assert_eq!(u.current(), "/x");
    assert!(!u.step(&[d("/x/pkg-1.0", true, false)]));
    assert_eq!(u.current(), "/x/pkg-1.0");
    assert!(!u.step(&[d("/x/pkg-1.0/inner", true, false)]));
    assert_eq!(u.current(), "/x/pkg-1.0/inner");
    assert!(u.step(&[d("/x/pkg-1.0/inner/bin", false, false), d("/x/pkg-1.0/inner/README", false, false)]));
    assert_eq!(u.current(), "/x/pkg-1.0/inner");
    // done stays done: the result is not unwrapped further
    assert!(u.step(&[d("/x/pkg-1.0/inner/bin", false, false), d("/x/pkg-1.0/inner/README", false, false)]));
    assert_eq!(u.current(), "/x/pkg-1.0/inner");

    let mut link = Unwrapper::new("/y");
    assert!(link.step(&[d("/y/l", true, true)]));
    assert_eq!(link.current(), "/y");
}

#[test]
fn entry_point_choice() {
    assert_eq!(entry_point("nano", true, Some("/d/nano".to_string()), &[]), EntryPoint::InstallScript);
    assert_eq!(
        entry_point("nano", false, Some("/d/nano".to_string()), &strs(&["/d/a", "/d/b"])),
        EntryPoint::Binary("/d/nano".to_string())
    );
    assert_eq!(entry_point("nano", false, None, &strs(&["/d/only"])), EntryPoint::Binary("/d/only".to_string()));
    assert_eq!(
        entry_point("nano", false, None, &strs(&["/d/a", "/d/b"])),
        EntryPoint::Missing("no single binary named 'nano' and no install.sh were found at the archive root. This package likely needs a build step (e.g. it's a source tarball) \u{2014} repackage it with just the built binary, or add an install.sh. See README.md's 'Publishing packages' section.".to_string())
    );
}

#[test]
fn checksum_differing_only_in_letter_case_counts_as_unchanged() {
    let (s, _) = to_record(nano());
    let (s, st) = go(s, InstallEvent::Manifest(vec![rec("nano", "7.2", "ABCD")]));
    assert_eq!(s.phase, Phase::Extracting);
    assert_eq!(
        st.action,
        InstallAction::Extract {
            archive: "/tmp/katyusha-install-nano-42/pkg.archive".to_string(),
            dest: "/tmp/katyusha-install-nano-42/extracted".to_string()
        }
    );
}
