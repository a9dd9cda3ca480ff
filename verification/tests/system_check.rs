use lib::system_check::{after_probe, first_probe, probe_command, ExistingInstall, Probe, ProbeStep};

#[test]
fn probes_run_in_order_until_one_succeeds() {
    let mut p = first_probe();
    let mut seen = vec![p];
    loop {
        match after_probe("nano", p, false, "") {
            ProbeStep::Next(q) => {
                p = q;
                seen.push(q);
            }
            ProbeStep::NotFound => break,
            ProbeStep::Found(_) => panic!("nothing succeeded"),
        }
    }
    assert_eq!(
        seen,
        vec![Probe::Dpkg, Probe::Rpm, Probe::Pacman, Probe::Apk, Probe::Flatpak, Probe::Snap, Probe::Path]
    );
}

#[test]
fn successful_probe_reports_source() {
    assert_eq!(
        after_probe("nano", Probe::Dpkg, true, ""),
        ProbeStep::Found(ExistingInstall {
            source: "APT/dpkg".to_string(),
            detail: "package 'nano' is registered in dpkg's database".to_string()
        })
    );
    assert_eq!(
        after_probe("gimp", Probe::Flatpak, true, "ignored"),
        ProbeStep::Found(ExistingInstall {
            source: "Flatpak".to_string(),
            detail: "'gimp' is installed as a Flatpak app".to_string()
        })
    );
}

#[test]
fn which_needs_a_printed_path() {
    assert_eq!(after_probe("nano", Probe::Path, true, "  \n"), ProbeStep::NotFound);
    assert_eq!(
        after_probe("nano", Probe::Path, true, "/usr/bin/nano\n"),
        ProbeStep::Found(ExistingInstall {
            source: "PATH".to_string(),
            detail: "an executable named 'nano' already exists at /usr/bin/nano".to_string()
        })
    );
}

#[test]
fn probe_commands() {
    assert_eq!(probe_command(Probe::Apk, "nano"), ("apk".to_string(), vec!["info".to_string(), "-e".to_string(), "nano".to_string()]));
    assert_eq!(probe_command(Probe::Path, "nano"), ("which".to_string(), vec!["nano".to_string()]));
    assert_eq!(probe_command(Probe::Snap, "x"), ("snap".to_string(), vec!["list".to_string(), "x".to_string()]));
}

#[test]
fn existing_install_description() {
    let e = ExistingInstall { source: "RPM".to_string(), detail: "d".to_string() };
    assert_eq!(e.describe(), "RPM (d)");
}
