use lib::manifest::InstalledPackage;
use lib::remove::{remove_step, RemoveAction, RemoveEvent, RemovePhase, RemoveState};

fn rec(name: &str, version: &str) -> InstalledPackage {
    InstalledPackage {
        name: name.to_string(),
        version: version.to_string(),
        sha256: "s".to_string(),
        prefix: format!("/opt/katyusha/{name}"),
    }
}

#[test]
fn removal_walkthrough() {
    let (s, st) = RemoveState::new("nano");
    assert_eq!(st.action, RemoveAction::CheckRoot);
    let (s, st) = remove_step(s, RemoveEvent::Root(true));
    assert_eq!(st.action, RemoveAction::LoadManifest);
    let (s, st) = remove_step(s, RemoveEvent::Manifest(vec![rec("htop", "3"), rec("nano", "7.2")]));
    assert_eq!(st.action, RemoveAction::SaveManifest { packages: vec![rec("htop", "3")] });
    let (s, st) = remove_step(s, RemoveEvent::Done(Ok(())));
    assert_eq!(st.say, vec!["[*] Removing nano (7.2)...".to_string()]);
    assert_eq!(st.action, RemoveAction::RemoveDir { path: "/opt/katyusha/nano".to_string() });
    let (s, st) = remove_step(s, RemoveEvent::Done(Ok(())));
    assert_eq!(st.action, RemoveAction::RemoveLink { path: "/usr/local/bin/nano".to_string() });
    let (s, st) = remove_step(s, RemoveEvent::Done(Err("ignored".to_string())));
    assert_eq!(s.phase, RemovePhase::Finished);
    assert_eq!(st.say, vec!["[\u{2713}] 'nano' removed successfully.".to_string()]);
    assert_eq!(st.action, RemoveAction::Finish(Ok(())));
}

#[test]
fn removal_errors() {
    let (s, _) = RemoveState::new("nano");
    let (_, st) = remove_step(s, RemoveEvent::Root(false));
    assert_eq!(
        st.action,
        RemoveAction::Finish(Err("root privileges are required. Use: sudo katyusha -r <package>".to_string()))
    );

    let (s, _) = RemoveState::new("vim");
    let (s, _) = remove_step(s, RemoveEvent::Root(true));
    let (s, st) = remove_step(s, RemoveEvent::Manifest(vec![rec("nano", "7.2")]));
    // the manifest is written back unchanged even when nothing was removed
    assert_eq!(st.action, RemoveAction::SaveManifest { packages: vec![rec("nano", "7.2")] });
    let (_, st) = remove_step(s, RemoveEvent::Done(Ok(())));
    assert_eq!(
        st.action,
        RemoveAction::Finish(Err("'vim' is not installed (or wasn't installed by Katyusha)".to_string()))
    );
}
