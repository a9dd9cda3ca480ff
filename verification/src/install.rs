//! The decisions of an installation, as a state machine: each step takes the
//! outcome of the previous action and gives the next action. The caller
//! performs the actions (privilege check, downloads, file system work) and
//! feeds their outcomes back.
//!
//! How a step is carried out: the lines in `say` are printed and then the
//! action is performed, except for `Finish`, whose `cleanup` directories are
//! removed (ignoring failures) before `say` is printed and the result returned.

use vstd::prelude::*;
use vstd::string::*;

use crate::manifest::{add_spec, find as find_record, find_index, installed_views, InstalledPackage, InstalledView};
use crate::repo::{find as find_package, first_index_where_named, Package, PackageView};
use crate::security::{check_trusted_host, error_message, require_https, trusted_host_check, verify_checksum, SecurityError};
use crate::system_check::ExistingInstall;
use crate::text::{concat, copy_str, decimal, decimal_string, eq_ignore_ascii_case, equal_ignoring_ascii_case, starts_with, str_eq, views};

verus! {

/// Where an installation stands.
#[derive(Clone, Copy, PartialEq, Eq, Debug, Structural)]
pub enum Phase {
    CheckingRoot,
    CheckingExisting,
    FetchingIndex,
    LoadingHosts,
    MakingTmp,
    Downloading,
    Hashing,
    CheckingRecord,
    Extracting,
    Auditing,
    Unwrapping,
    CheckingDest,
    ClearingDest,
    MakingDest,
    Placing,
    Linking,
    Recording,
    Saving,
    Finished,
}

/// An installation in progress. Fields are filled in as the installation
/// goes on; before that they hold empty values.
#[derive(Debug)]
pub struct InstallState {
    pub phase: Phase,
    /// The name the user asked for.
    pub name: String,
    pub force: bool,
    /// The process id, part of the temporary directory's name.
    pub pid: u32,
    /// The index entry, from `LoadingHosts` on.
    pub pkg: Package,
    /// The user's extra trusted hosts, from `MakingTmp` on.
    pub extra: Vec<String>,
    /// The archive's SHA-256, from `CheckingRecord` on.
    pub checksum: String,
    /// The manifest as read before extraction, from `Extracting` on.
    pub installed: Vec<InstalledPackage>,
    /// The directory the package's files are taken from, from `CheckingDest` on.
    pub root: String,
}

/// What the caller does next.
#[derive(Debug, PartialEq, Eq)]
pub enum InstallAction {
    /// Report whether the process runs as root (`Root`).
    CheckRoot,
    /// Look for a copy installed by other means (`Existing`).
    CheckExisting { name: String },
    /// Download and read the package index (`Index`).
    FetchIndex,
    /// Read the user's trusted-hosts file (`TrustedHosts`).
    LoadTrustedHosts,
    /// Create a directory and its parents (`Done`).
    MakeDir { path: String },
    /// Download `url` into the file `dest` (`Done`).
    Download { url: String, dest: String },
    /// Compute the SHA-256 of a file (`Hashed`).
    HashFile { path: String },
    /// Read the manifest of installed packages (`Manifest`).
    LoadManifest,
    /// Extract an archive into a directory (`Done`).
    Extract { archive: String, dest: String },
    /// Audit an extracted directory (`Audited`).
    Audit { dir: String },
    /// Descend through single wrapping directories (`Unwrapped`).
    UnwrapSingleDir { dir: String },
    /// Report whether a path exists (`Exists`).
    DirExists { path: String },
    /// Remove a directory recursively (`Done`).
    RemoveDir { path: String },
    /// Copy the package's files and find its entry point (`Placed`).
    PlaceFiles { from: String, dest: String, name: String },
    /// Link the binary into the binary directory (`Done`).
    LinkBinary { bin: String, link: String },
    /// Write the manifest (`Done`).
    SaveManifest { packages: Vec<InstalledPackage> },
    /// Remove `cleanup` (ignoring failures), then end with `result`.
    Finish { cleanup: Vec<String>, result: Result<(), String> },
}

/// The outcome of an action.
pub enum InstallEvent {
    Root(bool),
    Existing(Option<ExistingInstall>),
    Index(Result<Vec<Package>, String>),
    TrustedHosts(Vec<String>),
    Done(Result<(), String>),
    Hashed(Result<String, String>),
    Manifest(Vec<InstalledPackage>),
    Audited(Result<(), SecurityError>),
    Unwrapped(Result<String, String>),
    Exists(bool),
    Placed(Result<Option<String>, String>),
}

/// One step: lines to print and the next action.
#[derive(Debug, PartialEq, Eq)]
pub struct InstallStep {
    pub say: Vec<String>,
    pub action: InstallAction,
}

/// The contents of an `InstallAction`.
pub enum ActionView {
    CheckRoot,
    CheckExisting { name: Seq<char> },
    FetchIndex,
    LoadTrustedHosts,
    MakeDir { path: Seq<char> },
    Download { url: Seq<char>, dest: Seq<char> },
    HashFile { path: Seq<char> },
    LoadManifest,
    Extract { archive: Seq<char>, dest: Seq<char> },
    Audit { dir: Seq<char> },
    UnwrapSingleDir { dir: Seq<char> },
    DirExists { path: Seq<char> },
    RemoveDir { path: Seq<char> },
    PlaceFiles { from: Seq<char>, dest: Seq<char>, name: Seq<char> },
    LinkBinary { bin: Seq<char>, link: Seq<char> },
    SaveManifest { packages: Seq<InstalledView> },
    Finish { cleanup: Seq<Seq<char>>, result: Result<(), Seq<char>> },
}

pub open spec fn unit_result_view(r: Result<(), String>) -> Result<(), Seq<char>> {
    match r {
        Ok(()) => Ok(()),
        Err(e) => Err(e@),
    }
}

impl View for InstallAction {
    type V = ActionView;

    open spec fn view(&self) -> ActionView {
        match self {
            InstallAction::CheckRoot => ActionView::CheckRoot,
            InstallAction::CheckExisting { name } => ActionView::CheckExisting { name: name@ },
            InstallAction::FetchIndex => ActionView::FetchIndex,
            InstallAction::LoadTrustedHosts => ActionView::LoadTrustedHosts,
            InstallAction::MakeDir { path } => ActionView::MakeDir { path: path@ },
            InstallAction::Download { url, dest } => ActionView::Download { url: url@, dest: dest@ },
            InstallAction::HashFile { path } => ActionView::HashFile { path: path@ },
            InstallAction::LoadManifest => ActionView::LoadManifest,
            InstallAction::Extract { archive, dest } => ActionView::Extract {
                archive: archive@,
                dest: dest@,
            },
            InstallAction::Audit { dir } => ActionView::Audit { dir: dir@ },
            InstallAction::UnwrapSingleDir { dir } => ActionView::UnwrapSingleDir { dir: dir@ },
            InstallAction::DirExists { path } => ActionView::DirExists { path: path@ },
            InstallAction::RemoveDir { path } => ActionView::RemoveDir { path: path@ },
            InstallAction::PlaceFiles { from, dest, name } => ActionView::PlaceFiles {
                from: from@,
                dest: dest@,
                name: name@,
            },
            InstallAction::LinkBinary { bin, link } => ActionView::LinkBinary {
                bin: bin@,
                link: link@,
            },
            InstallAction::SaveManifest { packages } => ActionView::SaveManifest {
                packages: installed_views(packages@),
            },
            InstallAction::Finish { cleanup, result } => ActionView::Finish {
                cleanup: views(cleanup@),
                result: unit_result_view(*result),
            },
        }
    }
}

// ---------------------------------------------------------------------------
// Paths and messages
// ---------------------------------------------------------------------------

/// The temporary working directory of an installation.
pub open spec fn tmp_dir(pkg_name: Seq<char>, pid: u32) -> Seq<char> {
    "/tmp/katyusha-install-"@ + pkg_name + "-"@ + decimal(pid as nat)
}

pub open spec fn archive_path(tmp: Seq<char>) -> Seq<char> {
    tmp + "/pkg.archive"@
}

pub open spec fn extract_dir(tmp: Seq<char>) -> Seq<char> {
    tmp + "/extracted"@
}

/// Where a package's files are installed.
pub open spec fn dest_dir(pkg_name: Seq<char>) -> Seq<char> {
    "/opt/katyusha/"@ + pkg_name
}

/// Where a package's binary is linked.
pub open spec fn link_path(pkg_name: Seq<char>) -> Seq<char> {
    "/usr/local/bin/"@ + pkg_name
}

pub open spec fn not_root_message() -> Seq<char> {
    "root privileges are required. Use: sudo katyusha -i <package>"@
}

pub open spec fn fetching_message() -> Seq<char> {
    "[*] Fetching the package index..."@
}

pub open spec fn skip_message(name: Seq<char>, e: ExistingInstall) -> Seq<char> {
    "[i] '"@ + name + "' is already installed on this system: "@ + e.source@ + " ("@ + e.detail@
        + ")"@ + ".\n[i] Skipping install. Use 'sudo katyusha -i "@ + name
        + " --force' to install Katyusha's own copy alongside it anyway."@
}

pub open spec fn not_found_message(name: Seq<char>) -> Seq<char> {
    "package '"@ + name + "' not found in the index"@
}

pub open spec fn package_lines(p: PackageView) -> Seq<Seq<char>> {
    let first = "[*] Package: "@ + p.name + " ("@ + p.version + ")"@;
    match p.description {
        Some(d) => seq![first, "    "@ + d],
        None => seq![first],
    }
}

pub open spec fn untrusted_hint() -> Seq<char> {
    "\nIf you trust this source, add the host to ~/.config/katyusha/trusted_hosts.txt and try again."@
}

pub open spec fn tofu_message(checksum: Seq<char>, recorded: Seq<char>, p: PackageView) -> Seq<char> {
    error_message(
        crate::security::SecurityErrorView::ChecksumMismatch { expected: recorded, actual: checksum },
    ) + "\nIf you intentionally repackaged '"@ + p.name + "' "@ + p.version
        + " with new content, run 'sudo katyusha -r "@ + p.name
        + "' first to clear the old record, then reinstall."@
}

pub open spec fn success_message(p: PackageView) -> Seq<char> {
    "[\u{2713}] '"@ + p.name + "' "@ + p.version + " installed successfully."@
}

/// The record of the same package name and version whose checksum differs
/// from `checksum` (ignoring ASCII case, as checksums are compared), if the
/// manifest holds one as the first record of that name.
pub open spec fn tofu_conflict(installed: Seq<InstalledView>, p: PackageView, checksum: Seq<char>) -> Option<InstalledView> {
    match find_index(installed, p.name) {
        Some(i) => if installed[i].version == p.version && !eq_ignore_ascii_case(
            checksum,
            installed[i].sha256,
        ) {
            Some(installed[i])
        } else {
            None
        },
        None => None,
    }
}

/// The record written for an installed package.
pub open spec fn record_of(p: PackageView, checksum: Seq<char>) -> InstalledView {
    InstalledView { name: p.name, version: p.version, sha256: checksum, prefix: dest_dir(p.name) }
}

// ---------------------------------------------------------------------------
// The transition relation
// ---------------------------------------------------------------------------

/// The event kind each phase waits for.
pub open spec fn event_fits(s: InstallState, e: InstallEvent) -> bool {
    match s.phase {
        Phase::CheckingRoot => e is Root,
        Phase::CheckingExisting => e is Existing,
        Phase::FetchingIndex => e is Index,
        Phase::LoadingHosts => e is TrustedHosts,
        Phase::MakingTmp => e is Done,
        Phase::Downloading => e is Done,
        Phase::Hashing => e is Hashed,
        Phase::CheckingRecord => e is Manifest,
        Phase::Extracting => e is Done,
        Phase::Auditing => e is Audited,
        Phase::Unwrapping => e is Unwrapped,
        Phase::CheckingDest => e is Exists,
        Phase::ClearingDest => e is Done,
        Phase::MakingDest => e is Done,
        Phase::Placing => e is Placed,
        Phase::Linking => e is Done,
        Phase::Recording => e is Manifest,
        Phase::Saving => e is Done,
        Phase::Finished => false,
    }
}

/// `s2` keeps the installation's data of `s`.
pub open spec fn keeps_data(s: InstallState, s2: InstallState) -> bool {
    &&& s2.name == s.name
    &&& s2.force == s.force
    &&& s2.pid == s.pid
    &&& s2.pkg@ == s.pkg@
    &&& views(s2.extra@) == views(s.extra@)
    &&& s2.checksum@ == s.checksum@
    &&& installed_views(s2.installed@) == installed_views(s.installed@)
    &&& s2.root@ == s.root@
}

pub open spec fn finish(r: Result<(), Seq<char>>) -> ActionView {
    ActionView::Finish { cleanup: Seq::<Seq<char>>::empty(), result: r }
}

pub open spec fn tmp_of(s: InstallState) -> Seq<char> {
    tmp_dir(s.pkg.name@, s.pid)
}

/// What a step does: from `s` and the outcome `e`, the next state `s2` and
/// the lines `say` and action `act` of the step.
pub open spec fn transition(
    s: InstallState,
    e: InstallEvent,
    s2: InstallState,
    say: Seq<Seq<char>>,
    act: ActionView,
) -> bool {
    let done = s2.phase == Phase::Finished;
    match (s.phase, e) {
        (Phase::CheckingRoot, InstallEvent::Root(is_root)) => keeps_data(s, s2) && if !is_root {
            done && say.len() == 0 && act == finish(Err(not_root_message()))
        } else if s.force {
            s2.phase == Phase::FetchingIndex && say == seq![fetching_message()] && act
                == ActionView::FetchIndex
        } else {
            s2.phase == Phase::CheckingExisting && say.len() == 0 && act
                == ActionView::CheckExisting { name: s.name@ }
        },
        (Phase::CheckingExisting, InstallEvent::Existing(found)) => keeps_data(s, s2) && match found {
            Some(x) => done && say == seq![skip_message(s.name@, x)] && act == finish(Ok(())),
            None => s2.phase == Phase::FetchingIndex && say == seq![fetching_message()] && act
                == ActionView::FetchIndex,
        },
        (Phase::FetchingIndex, InstallEvent::Index(r)) => match r {
            Err(msg) => keeps_data(s, s2) && done && say.len() == 0 && act == finish(Err(msg@)),
            Ok(pkgs) => match first_index_where_named(pkgs@, s.name@) {
                None => keeps_data(s, s2) && done && say.len() == 0 && act == finish(
                    Err(not_found_message(s.name@)),
                ),
                Some(i) => {
                    let p = pkgs@[i]@;
                    &&& s2.name == s.name
                    &&& s2.force == s.force
                    &&& s2.pid == s.pid
                    &&& s2.pkg@ == p
                    &&& say == package_lines(p)
                    &&& if starts_with(p.url_pack, "https://"@) {
                        s2.phase == Phase::LoadingHosts && act == ActionView::LoadTrustedHosts
                    } else {
                        done && act == finish(
                            Err(
                                error_message(
                                    crate::security::SecurityErrorView::InsecureScheme(p.url_pack),
                                ),
                            ),
                        )
                    }
                },
            },
        },
        (Phase::LoadingHosts, InstallEvent::TrustedHosts(extra)) => {
            &&& s2.name == s.name
            &&& s2.force == s.force
            &&& s2.pid == s.pid
            &&& s2.pkg@ == s.pkg@
            &&& views(s2.extra@) == views(extra@)
            &&& say.len() == 0
            &&& match trusted_host_check(s.pkg.url_pack@, views(extra@)) {
                Ok(()) => s2.phase == Phase::MakingTmp && act == ActionView::MakeDir {
                    path: tmp_of(s),
                },
                Err(err) => done && act == finish(Err(error_message(err) + untrusted_hint())),
            }
        },
        (Phase::MakingTmp, InstallEvent::Done(r)) => keeps_data(s, s2) && match r {
            Err(msg) => done && say.len() == 0 && act == finish(Err(msg@)),
            Ok(()) => s2.phase == Phase::Downloading && say == seq![
                "[*] Downloading "@ + s.pkg.url_pack@ + "..."@,
            ] && act == ActionView::Download {
                url: s.pkg.url_pack@,
                dest: archive_path(tmp_of(s)),
            },
        },
        (Phase::Downloading, InstallEvent::Done(r)) => keeps_data(s, s2) && say.len() == 0 && match r {
            Err(msg) => done && act == finish(Err(msg@)),
            Ok(()) => s2.phase == Phase::Hashing && act == ActionView::HashFile {
                path: archive_path(tmp_of(s)),
            },
        },
        (Phase::Hashing, InstallEvent::Hashed(r)) => match r {
            Err(msg) => keeps_data(s, s2) && done && say.len() == 0 && act == finish(Err(msg@)),
            Ok(c) => {
                &&& s2.name == s.name
                &&& s2.force == s.force
                &&& s2.pid == s.pid
                &&& s2.pkg@ == s.pkg@
                &&& views(s2.extra@) == views(s.extra@)
                &&& s2.checksum@ == c@
                &&& s2.phase == Phase::CheckingRecord
                &&& say == seq!["[*] SHA-256: "@ + c@]
                &&& act == ActionView::LoadManifest
            },
        },
        (Phase::CheckingRecord, InstallEvent::Manifest(m)) => {
            &&& s2.name == s.name
            &&& s2.force == s.force
            &&& s2.pid == s.pid
            &&& s2.pkg@ == s.pkg@
            &&& views(s2.extra@) == views(s.extra@)
            &&& s2.checksum@ == s.checksum@
            &&& installed_views(s2.installed@) == installed_views(m@)
            &&& match tofu_conflict(installed_views(m@), s.pkg@, s.checksum@) {
                Some(rec) => done && say.len() == 0 && act == ActionView::Finish {
                    cleanup: seq![tmp_of(s)],
                    result: Err(tofu_message(s.checksum@, rec.sha256, s.pkg@)),
                },
                None => s2.phase == Phase::Extracting && say == seq!["[*] Extracting package..."@]
                    && act == ActionView::Extract {
                    archive: archive_path(tmp_of(s)),
                    dest: extract_dir(tmp_of(s)),
                },
            }
        },
        (Phase::Extracting, InstallEvent::Done(r)) => keeps_data(s, s2) && say.len() == 0 && match r {
            Err(msg) => done && act == finish(Err(msg@)),
            Ok(()) => s2.phase == Phase::Auditing && act == ActionView::Audit {
                dir: extract_dir(tmp_of(s)),
            },
        },
        (Phase::Auditing, InstallEvent::Audited(r)) => keeps_data(s, s2) && say.len() == 0 && match r {
            Err(err) => done && act == finish(Err(error_message(err@))),
            Ok(()) => s2.phase == Phase::Unwrapping && act == ActionView::UnwrapSingleDir {
                dir: extract_dir(tmp_of(s)),
            },
        },
        (Phase::Unwrapping, InstallEvent::Unwrapped(r)) => say.len() == 0 && match r {
            Err(msg) => keeps_data(s, s2) && done && act == finish(Err(msg@)),
            Ok(root) => {
                &&& s2.name == s.name
                &&& s2.force == s.force
                &&& s2.pid == s.pid
                &&& s2.pkg@ == s.pkg@
                &&& views(s2.extra@) == views(s.extra@)
                &&& s2.checksum@ == s.checksum@
                &&& installed_views(s2.installed@) == installed_views(s.installed@)
                &&& s2.root@ == root@
                &&& s2.phase == Phase::CheckingDest
                &&& act == ActionView::DirExists { path: dest_dir(s.pkg.name@) }
            },
        },
        (Phase::CheckingDest, InstallEvent::Exists(b)) => keeps_data(s, s2) && say.len() == 0 && if b {
            s2.phase == Phase::ClearingDest && act == ActionView::RemoveDir {
                path: dest_dir(s.pkg.name@),
            }
        } else {
            s2.phase == Phase::MakingDest && act == ActionView::MakeDir {
                path: dest_dir(s.pkg.name@),
            }
        },
        (Phase::ClearingDest, InstallEvent::Done(r)) => keeps_data(s, s2) && say.len() == 0 && match r {
            Err(msg) => done && act == finish(Err(msg@)),
            Ok(()) => s2.phase == Phase::MakingDest && act == ActionView::MakeDir {
                path: dest_dir(s.pkg.name@),
            },
        },
        (Phase::MakingDest, InstallEvent::Done(r)) => keeps_data(s, s2) && say.len() == 0 && match r {
            Err(msg) => done && act == finish(Err(msg@)),
            Ok(()) => s2.phase == Phase::Placing && act == ActionView::PlaceFiles {
                from: s.root@,
                dest: dest_dir(s.pkg.name@),
                name: s.pkg.name@,
            },
        },
        (Phase::Placing, InstallEvent::Placed(r)) => keeps_data(s, s2) && say.len() == 0 && match r {
            Err(msg) => done && act == ActionView::Finish {
                cleanup: seq![dest_dir(s.pkg.name@), tmp_of(s)],
                result: Err(msg@),
            },
            Ok(Some(bin)) => s2.phase == Phase::Linking && act == ActionView::LinkBinary {
                bin: bin@,
                link: link_path(s.pkg.name@),
            },
            Ok(None) => s2.phase == Phase::Recording && act == ActionView::LoadManifest,
        },
        (Phase::Linking, InstallEvent::Done(r)) => keeps_data(s, s2) && match r {
            Err(msg) => done && say.len() == 0 && act == finish(Err(msg@)),
            Ok(()) => s2.phase == Phase::Recording && say == seq![
                "[*] Binary linked at "@ + link_path(s.pkg.name@),
            ] && act == ActionView::LoadManifest,
        },
        (Phase::Recording, InstallEvent::Manifest(m)) => keeps_data(s, s2) && s2.phase
            == Phase::Saving && say.len() == 0 && act == ActionView::SaveManifest {
            packages: add_spec(installed_views(m@), record_of(s.pkg@, s.checksum@)),
        },
        (Phase::Saving, InstallEvent::Done(r)) => keeps_data(s, s2) && done && match r {
            Err(msg) => say.len() == 0 && act == finish(Err(msg@)),
            Ok(()) => say == seq![success_message(s.pkg@)] && act == ActionView::Finish {
                cleanup: seq![tmp_of(s)],
                result: Ok(()),
            },
        },
        _ => false,
    }
}

/// What holds of every state an installation reaches: from the moment the
/// temporary directory is made, the package's URL has passed the host check
/// against the extra hosts kept in the state; from extraction on, the
/// manifest read holds no conflicting record of the package.
pub open spec fn install_wf(s: InstallState) -> bool {
    &&& (s.phase == Phase::MakingTmp || s.phase == Phase::Downloading || s.phase == Phase::Hashing
        || s.phase == Phase::CheckingRecord || s.phase == Phase::Extracting || s.phase
        == Phase::Auditing || s.phase == Phase::Unwrapping || s.phase == Phase::CheckingDest
        || s.phase == Phase::ClearingDest || s.phase == Phase::MakingDest || s.phase
        == Phase::Placing || s.phase == Phase::Linking || s.phase == Phase::Recording || s.phase
        == Phase::Saving) ==> trusted_host_check(s.pkg.url_pack@, views(s.extra@)) is Ok
    &&& (s.phase == Phase::Extracting || s.phase == Phase::Auditing || s.phase == Phase::Unwrapping
        || s.phase == Phase::CheckingDest || s.phase == Phase::ClearingDest || s.phase
        == Phase::MakingDest || s.phase == Phase::Placing || s.phase == Phase::Linking || s.phase
        == Phase::Recording || s.phase == Phase::Saving) ==> tofu_conflict(
        installed_views(s.installed@),
        s.pkg@,
        s.checksum@,
    ) is None
}

// ---------------------------------------------------------------------------
// Executable steps
// ---------------------------------------------------------------------------

fn empty_package() -> (p: Package)
    ensures
        p@ == (PackageView {
            name: Seq::<char>::empty(),
            version: Seq::<char>::empty(),
            url: Seq::<char>::empty(),
            url_pack: Seq::<char>::empty(),
            description: None,
        }),
{
    Package {
        name: String::new(),
        version: String::new(),
        url: String::new(),
        url_pack: String::new(),
        description: None,
    }
}

fn finish_with(result: Result<(), String>) -> (a: InstallAction)
    ensures
        a@ == finish(unit_result_view(result)),
{
    let cleanup: Vec<String> = Vec::new();
    proof {
        assert(views(cleanup@) =~= Seq::<Seq<char>>::empty());
    }
    InstallAction::Finish { cleanup, result }
}

fn error_text(msg: &str) -> (a: InstallAction)
    ensures
        a@ == finish(Err(msg@)),
{
    finish_with(Err(copy_str(msg)))
}

fn no_lines() -> (v: Vec<String>)
    ensures
        views(v@) == Seq::<Seq<char>>::empty(),
{
    let v: Vec<String> = Vec::new();
    proof {
        assert(views(v@) =~= Seq::<Seq<char>>::empty());
    }
    v
}

fn one_line(l: String) -> (v: Vec<String>)
    ensures
        views(v@) == seq![l@],
{
    let mut v: Vec<String> = Vec::new();
    v.push(l);
    proof {
        assert(views(v@) =~= seq![l@]);
    }
    v
}

fn tmp_dir_exec(pkg_name: &str, pid: u32) -> (r: String)
    ensures
        r@ == tmp_dir(pkg_name@, pid),
{
    let mut s = String::from_str("/tmp/katyusha-install-");
    s.append(pkg_name);
    s.append("-");
    let d = decimal_string(pid);
    s.append(d.as_str());
    s
}

fn dest_dir_exec(pkg_name: &str) -> (r: String)
    ensures
        r@ == dest_dir(pkg_name@),
{
    concat("/opt/katyusha/", pkg_name)
}

fn link_path_exec(pkg_name: &str) -> (r: String)
    ensures
        r@ == link_path(pkg_name@),
{
    concat("/usr/local/bin/", pkg_name)
}

fn skip_message_exec(name: &str, e: &ExistingInstall) -> (r: String)
    ensures
        r@ == skip_message(name@, *e),
{
    let mut s = String::from_str("[i] '");
    s.append(name);
    s.append("' is already installed on this system: ");
    let d = e.describe();
    s.append(d.as_str());
    s.append(".\n[i] Skipping install. Use 'sudo katyusha -i ");
    s.append(name);
    s.append(" --force' to install Katyusha's own copy alongside it anyway.");
    proof {
        assert(s@ =~= skip_message(name@, *e));
    }
    s
}

fn package_lines_exec(p: &Package) -> (r: Vec<String>)
    ensures
        views(r@) == package_lines(p@),
{
    let mut first = String::from_str("[*] Package: ");
    first.append(p.name.as_str());
    first.append(" (");
    first.append(p.version.as_str());
    first.append(")");
    let mut v: Vec<String> = Vec::new();
    v.push(first);
    match &p.description {
        Some(d) => {
            v.push(concat("    ", d.as_str()));
        },
        None => {},
    }
    proof {
        assert(views(v@) =~= package_lines(p@));
    }
    v
}

fn tofu_message_exec(checksum: &str, recorded: &str, p: &Package) -> (r: String)
    requires
        !eq_ignore_ascii_case(checksum@, recorded@),
    ensures
        r@ == tofu_message(checksum@, recorded@, p@),
{
    let base = match verify_checksum(checksum, recorded) {
        Err(e) => e.message(),
        Ok(()) => {
            proof {
                assert(false);
            }
            vstd::pervasive::unreached()
        },
    };
    let mut s = base;
    s.append("\nIf you intentionally repackaged '");
    s.append(p.name.as_str());
    s.append("' ");
    s.append(p.version.as_str());
    s.append(" with new content, run 'sudo katyusha -r ");
    s.append(p.name.as_str());
    s.append("' first to clear the old record, then reinstall.");
    proof {
        assert(s@ =~= tofu_message(checksum@, recorded@, p@));
    }
    s
}

impl InstallState {
    /// Starts installing `name` (`force`: even when another copy is present);
    /// `pid` names the temporary directory. The first action checks for root.
    pub fn new(name: &str, force: bool, pid: u32) -> (r: (InstallState, InstallStep))
        ensures
            r.0.phase == Phase::CheckingRoot,
            r.0.name@ == name@,
            r.0.force == force,
            r.0.pid == pid,
            install_wf(r.0),
            views(r.1.say@) == Seq::<Seq<char>>::empty(),
            r.1.action@ == ActionView::CheckRoot,
    {
        let s = InstallState {
            phase: Phase::CheckingRoot,
            name: copy_str(name),
            force,
            pid,
            pkg: empty_package(),
            extra: Vec::new(),
            checksum: String::new(),
            installed: Vec::new(),
            root: String::new(),
        };
        (s, InstallStep { say: no_lines(), action: InstallAction::CheckRoot })
    }

    fn with_phase(self, phase: Phase) -> (r: InstallState)
        ensures
            r.phase == phase,
            keeps_data(self, r),
    {
        InstallState { phase, ..self }
    }

    fn finished(self, say: Vec<String>, action: InstallAction) -> (r: (InstallState, InstallStep))
        ensures
            r.0.phase == Phase::Finished,
            keeps_data(self, r.0),
            r.1.say == say,
            r.1.action == action,
    {
        (self.with_phase(Phase::Finished), InstallStep { say, action })
    }
}

/// Takes one step of an installation: from the state and the outcome of the
/// last action, the next state and what to do next.
pub fn step(s: InstallState, e: InstallEvent) -> (r: (InstallState, InstallStep))
    requires
        event_fits(s, e),
    ensures
        transition(s, e, r.0, views(r.1.say@), r.1.action@),
        install_wf(s) ==> install_wf(r.0),
{
    match s.phase {
        Phase::CheckingRoot => {
            let is_root = match e {
                InstallEvent::Root(b) => b,
                _ => vstd::pervasive::unreached(),
            };
            if !is_root {
                let a = finish_with(Err(String::from_str("root privileges are required. Use: sudo katyusha -i <package>")));
                s.finished(no_lines(), a)
            } else if s.force {
                let s2 = s.with_phase(Phase::FetchingIndex);
                (s2, InstallStep { say: one_line(String::from_str("[*] Fetching the package index...")), action: InstallAction::FetchIndex })
            } else {
                let n = s.name.clone();
                let s2 = s.with_phase(Phase::CheckingExisting);
                (s2, InstallStep { say: no_lines(), action: InstallAction::CheckExisting { name: n } })
            }
        },
        Phase::CheckingExisting => {
            let found = match e {
                InstallEvent::Existing(o) => o,
                _ => vstd::pervasive::unreached(),
            };
            match found {
                Some(x) => {
                    let line = skip_message_exec(s.name.as_str(), &x);
                    s.finished(one_line(line), finish_with(Ok(())))
                },
                None => {
                    let s2 = s.with_phase(Phase::FetchingIndex);
                    (s2, InstallStep { say: one_line(String::from_str("[*] Fetching the package index...")), action: InstallAction::FetchIndex })
                },
            }
        },
        Phase::FetchingIndex => {
            let r = match e {
                InstallEvent::Index(r) => r,
                _ => vstd::pervasive::unreached(),
            };
            match r {
                Err(msg) => s.finished(no_lines(), finish_with(Err(msg))),
                Ok(pkgs) => {
                    let found = find_package(pkgs.as_slice(), s.name.as_str());
                    match found {
                        None => {
                            let mut m = String::from_str("package '");
                            m.append(s.name.as_str());
                            m.append("' not found in the index");
                            s.finished(no_lines(), finish_with(Err(m)))
                        },
                        Some(p) => {
                            let pkg = p.clone();
                            let say = package_lines_exec(&pkg);
                            let https = require_https(pkg.url_pack.as_str());
                            let s1 = InstallState { pkg, ..s };
                            match https {
                                Err(err) => {
                                    let m = err.message();
                                    let s2 = s1.with_phase(Phase::Finished);
                                    (s2, InstallStep { say, action: finish_with(Err(m)) })
                                },
                                Ok(()) => {
                                    let s2 = s1.with_phase(Phase::LoadingHosts);
                                    (s2, InstallStep { say, action: InstallAction::LoadTrustedHosts })
                                },
                            }
                        },
                    }
                },
            }
        },
        Phase::LoadingHosts => {
            let extra = match e {
                InstallEvent::TrustedHosts(v) => v,
                _ => vstd::pervasive::unreached(),
            };
            let checked = check_trusted_host(s.pkg.url_pack.as_str(), extra.as_slice());
            let s1 = InstallState { extra, ..s };
            match checked {
                Err(err) => {
                    let mut m = err.message();
                    m.append("\nIf you trust this source, add the host to ~/.config/katyusha/trusted_hosts.txt and try again.");
                    s1.finished(no_lines(), finish_with(Err(m)))
                },
                Ok(()) => {
                    let tmp = tmp_dir_exec(s1.pkg.name.as_str(), s1.pid);
                    let s2 = s1.with_phase(Phase::MakingTmp);
                    (s2, InstallStep { say: no_lines(), action: InstallAction::MakeDir { path: tmp } })
                },
            }
        },
        Phase::MakingTmp => {
            let r = match e {
                InstallEvent::Done(r) => r,
                _ => vstd::pervasive::unreached(),
            };
            match r {
                Err(msg) => s.finished(no_lines(), finish_with(Err(msg))),
                Ok(()) => {
                    let tmp = tmp_dir_exec(s.pkg.name.as_str(), s.pid);
                    let archive = concat(tmp.as_str(), "/pkg.archive");
                    let mut line = String::from_str("[*] Downloading ");
                    line.append(s.pkg.url_pack.as_str());
                    line.append("...");
                    let url = s.pkg.url_pack.clone();
                    let s2 = s.with_phase(Phase::Downloading);
                    (s2, InstallStep { say: one_line(line), action: InstallAction::Download { url, dest: archive } })
                },
            }
        },
        Phase::Downloading => {
            let r = match e {
                InstallEvent::Done(r) => r,
                _ => vstd::pervasive::unreached(),
            };
            match r {
                Err(msg) => s.finished(no_lines(), finish_with(Err(msg))),
                Ok(()) => {
                    let tmp = tmp_dir_exec(s.pkg.name.as_str(), s.pid);
                    let archive = concat(tmp.as_str(), "/pkg.archive");
                    let s2 = s.with_phase(Phase::Hashing);
                    (s2, InstallStep { say: no_lines(), action: InstallAction::HashFile { path: archive } })
                },
            }
        },
        Phase::Hashing => {
            let r = match e {
                InstallEvent::Hashed(r) => r,
                _ => vstd::pervasive::unreached(),
            };
            match r {
                Err(msg) => s.finished(no_lines(), finish_with(Err(msg))),
                Ok(c) => {
                    let line = concat("[*] SHA-256: ", c.as_str());
                    let s1 = InstallState { checksum: c, ..s };
                    let s2 = s1.with_phase(Phase::CheckingRecord);
                    (s2, InstallStep { say: one_line(line), action: InstallAction::LoadManifest })
                },
            }
        },
        Phase::CheckingRecord => {
            let m = match e {
                InstallEvent::Manifest(m) => m,
                _ => vstd::pervasive::unreached(),
            };
            let conflict: Option<String> = match find_record(m.as_slice(), s.pkg.name.as_str()) {
                Some(rec) => {
                    if str_eq(rec.version.as_str(), s.pkg.version.as_str()) && !equal_ignoring_ascii_case(s.checksum.as_str(), rec.sha256.as_str()) {
                        Some(rec.sha256.clone())
                    } else {
                        None
                    }
                },
                None => None,
            };
            proof {
                let iv = installed_views(m@);
                crate::text::lemma_first_index_where_found(iv, crate::manifest::has_name(s.pkg.name@));
                match find_index(iv, s.pkg.name@) {
                    Some(i) => {
                        assert(iv[i] == m@[i]@);
                    },
                    None => {},
                }
            }
            let s1 = InstallState { installed: m, ..s };
            match conflict {
                Some(recorded) => {
                    let tmp = tmp_dir_exec(s1.pkg.name.as_str(), s1.pid);
                    let msg = tofu_message_exec(s1.checksum.as_str(), recorded.as_str(), &s1.pkg);
                    let cleanup = one_line(tmp);
                    s1.finished(no_lines(), InstallAction::Finish { cleanup, result: Err(msg) })
                },
                None => {
                    let tmp = tmp_dir_exec(s1.pkg.name.as_str(), s1.pid);
                    let archive = concat(tmp.as_str(), "/pkg.archive");
                    let dest = concat(tmp.as_str(), "/extracted");
                    let s2 = s1.with_phase(Phase::Extracting);
                    (s2, InstallStep { say: one_line(String::from_str("[*] Extracting package...")), action: InstallAction::Extract { archive, dest } })
                },
            }
        },
        Phase::Extracting => {
            let r = match e {
                InstallEvent::Done(r) => r,
                _ => vstd::pervasive::unreached(),
            };
            match r {
                Err(msg) => s.finished(no_lines(), finish_with(Err(msg))),
                Ok(()) => {
                    let tmp = tmp_dir_exec(s.pkg.name.as_str(), s.pid);
                    let dir = concat(tmp.as_str(), "/extracted");
                    let s2 = s.with_phase(Phase::Auditing);
                    (s2, InstallStep { say: no_lines(), action: InstallAction::Audit { dir } })
                },
            }
        },
        Phase::Auditing => {
            let r = match e {
                InstallEvent::Audited(r) => r,
                _ => vstd::pervasive::unreached(),
            };
            match r {
                Err(err) => {
                    let m = err.message();
                    s.finished(no_lines(), finish_with(Err(m)))
                },
                Ok(()) => {
                    let tmp = tmp_dir_exec(s.pkg.name.as_str(), s.pid);
                    let dir = concat(tmp.as_str(), "/extracted");
                    let s2 = s.with_phase(Phase::Unwrapping);
                    (s2, InstallStep { say: no_lines(), action: InstallAction::UnwrapSingleDir { dir } })
                },
            }
        },
        Phase::Unwrapping => {
            let r = match e {
                InstallEvent::Unwrapped(r) => r,
                _ => vstd::pervasive::unreached(),
            };
            match r {
                Err(msg) => s.finished(no_lines(), finish_with(Err(msg))),
                Ok(root) => {
                    let path = dest_dir_exec(s.pkg.name.as_str());
                    let s1 = InstallState { root, ..s };
                    let s2 = s1.with_phase(Phase::CheckingDest);
                    (s2, InstallStep { say: no_lines(), action: InstallAction::DirExists { path } })
                },
            }
        },
        Phase::CheckingDest => {
            let b = match e {
                InstallEvent::Exists(b) => b,
                _ => vstd::pervasive::unreached(),
            };
            let path = dest_dir_exec(s.pkg.name.as_str());
            if b {
                let s2 = s.with_phase(Phase::ClearingDest);
                (s2, InstallStep { say: no_lines(), action: InstallAction::RemoveDir { path } })
            } else {
                let s2 = s.with_phase(Phase::MakingDest);
                (s2, InstallStep { say: no_lines(), action: InstallAction::MakeDir { path } })
            }
        },
        Phase::ClearingDest => {
            let r = match e {
                InstallEvent::Done(r) => r,
                _ => vstd::pervasive::unreached(),
            };
            match r {
                Err(msg) => s.finished(no_lines(), finish_with(Err(msg))),
                Ok(()) => {
                    let path = dest_dir_exec(s.pkg.name.as_str());
                    let s2 = s.with_phase(Phase::MakingDest);
                    (s2, InstallStep { say: no_lines(), action: InstallAction::MakeDir { path } })
                },
            }
        },
        Phase::MakingDest => {
            let r = match e {
                InstallEvent::Done(r) => r,
                _ => vstd::pervasive::unreached(),
            };
            match r {
                Err(msg) => s.finished(no_lines(), finish_with(Err(msg))),
                Ok(()) => {
                    let dest = dest_dir_exec(s.pkg.name.as_str());
                    let from = s.root.clone();
                    let name = s.pkg.name.clone();
                    let s2 = s.with_phase(Phase::Placing);
                    (s2, InstallStep { say: no_lines(), action: InstallAction::PlaceFiles { from, dest, name } })
                },
            }
        },
        Phase::Placing => {
            let r = match e {
                InstallEvent::Placed(r) => r,
                _ => vstd::pervasive::unreached(),
            };
            match r {
                Err(msg) => {
                    let dest = dest_dir_exec(s.pkg.name.as_str());
                    let tmp = tmp_dir_exec(s.pkg.name.as_str(), s.pid);
                    let mut cleanup: Vec<String> = Vec::new();
                    cleanup.push(dest);
                    cleanup.push(tmp);
                    proof {
                        assert(views(cleanup@) =~= seq![dest_dir(s.pkg.name@), tmp_of(s)]);
                    }
                    s.finished(no_lines(), InstallAction::Finish { cleanup, result: Err(msg) })
                },
                Ok(Some(bin)) => {
                    let link = link_path_exec(s.pkg.name.as_str());
                    let s2 = s.with_phase(Phase::Linking);
                    (s2, InstallStep { say: no_lines(), action: InstallAction::LinkBinary { bin, link } })
                },
                Ok(None) => {
                    let s2 = s.with_phase(Phase::Recording);
                    (s2, InstallStep { say: no_lines(), action: InstallAction::LoadManifest })
                },
            }
        },
        Phase::Linking => {
            let r = match e {
                InstallEvent::Done(r) => r,
                _ => vstd::pervasive::unreached(),
            };
            match r {
                Err(msg) => s.finished(no_lines(), finish_with(Err(msg))),
                Ok(()) => {
                    let link = link_path_exec(s.pkg.name.as_str());
                    let line = concat("[*] Binary linked at ", link.as_str());
                    let s2 = s.with_phase(Phase::Recording);
                    (s2, InstallStep { say: one_line(line), action: InstallAction::LoadManifest })
                },
            }
        },
        Phase::Recording => {
            let m = match e {
                InstallEvent::Manifest(m) => m,
                _ => vstd::pervasive::unreached(),
            };
            let record = InstalledPackage {
                name: s.pkg.name.clone(),
                version: s.pkg.version.clone(),
                sha256: s.checksum.clone(),
                prefix: dest_dir_exec(s.pkg.name.as_str()),
            };
            let mut all = m;
            crate::manifest::add(&mut all, record);
            let s2 = s.with_phase(Phase::Saving);
            (s2, InstallStep { say: no_lines(), action: InstallAction::SaveManifest { packages: all } })
        },
        Phase::Saving => {
            let r = match e {
                InstallEvent::Done(r) => r,
                _ => vstd::pervasive::unreached(),
            };
            match r {
                Err(msg) => s.finished(no_lines(), finish_with(Err(msg))),
                Ok(()) => {
                    let mut line = String::from_str("[\u{2713}] '");
                    line.append(s.pkg.name.as_str());
                    line.append("' ");
                    line.append(s.pkg.version.as_str());
                    line.append(" installed successfully.");
                    let tmp = tmp_dir_exec(s.pkg.name.as_str(), s.pid);
                    let cleanup = one_line(tmp);
                    s.finished(one_line(line), InstallAction::Finish { cleanup, result: Ok(()) })
                },
            }
        },
        Phase::Finished => vstd::pervasive::unreached(),
    }
}

// ---------------------------------------------------------------------------
// Decisions inside the file-system actions
// ---------------------------------------------------------------------------

/// What a directory entry is.
pub struct DirEntryFacts {
    pub path: String,
    pub is_dir: bool,
    pub is_symlink: bool,
}

/// The contents of a `DirEntryFacts`.
pub struct EntryFactsView {
    pub path: Seq<char>,
    pub is_dir: bool,
    pub is_symlink: bool,
}

impl View for DirEntryFacts {
    type V = EntryFactsView;

    open spec fn view(&self) -> EntryFactsView {
        EntryFactsView { path: self.path@, is_dir: self.is_dir, is_symlink: self.is_symlink }
    }
}

pub open spec fn facts_views(v: Seq<DirEntryFacts>) -> Seq<EntryFactsView> {
    v.map_values(|e: DirEntryFacts| e@)
}

/// The directory to descend into: the only entry of a directory, when that
/// entry is a directory and not a symbolic link.
pub open spec fn single_subdir(entries: Seq<EntryFactsView>) -> Option<Seq<char>> {
    if entries.len() == 1 && entries[0].is_dir && !entries[0].is_symlink {
        Some(entries[0].path)
    } else {
        None
    }
}

/// Whether to descend while unwrapping, and where.
pub fn descend_into(entries: &[DirEntryFacts]) -> (r: Option<String>)
    ensures
        match r {
            Some(p) => single_subdir(facts_views(entries@)) == Some(p@),
            None => single_subdir(facts_views(entries@)) is None,
        },
{
    proof {
        if entries@.len() == 1 {
            assert(facts_views(entries@)[0] == entries@[0]@);
        }
    }
    if entries.len() == 1 && entries[0].is_dir && !entries[0].is_symlink {
        Some(entries[0].path.clone())
    } else {
        None
    }
}

/// `chain` is a run of the unwrapping from `dir`, where `listing(d)` is what
/// directory `d` holds: it starts at `dir`, each next directory is the single
/// subdirectory of the one before, and the last has none; the last is the result.
pub open spec fn unwrap_run(
    listing: spec_fn(Seq<char>) -> Seq<EntryFactsView>,
    dir: Seq<char>,
    chain: Seq<Seq<char>>,
) -> bool {
    &&& chain.len() >= 1
    &&& chain[0] == dir
    &&& forall|j: int|
        0 <= j < chain.len() - 1 ==> single_subdir(listing(#[trigger] chain[j])) == Some(
            chain[j + 1],
        )
    &&& single_subdir(listing(chain.last())) is None
}

/// Unwrapping ends at a directory that is not a lone, real subdirectory
/// wrapper: unwrapping the result again gives the result back at once.
pub proof fn lemma_unwrap_result_is_fixpoint(
    listing: spec_fn(Seq<char>) -> Seq<EntryFactsView>,
    dir: Seq<char>,
    chain: Seq<Seq<char>>,
)
    requires
        unwrap_run(listing, dir, chain),
    ensures
        unwrap_run(listing, chain.last(), seq![chain.last()]),
{
}

/// Unwrapping is determined by the directories' contents: two runs from the
/// same directory are the same run, so they end at the same directory.
pub proof fn lemma_unwrap_run_unique(
    listing: spec_fn(Seq<char>) -> Seq<EntryFactsView>,
    dir: Seq<char>,
    c1: Seq<Seq<char>>,
    c2: Seq<Seq<char>>,
)
    requires
        unwrap_run(listing, dir, c1),
        unwrap_run(listing, dir, c2),
    ensures
        c1 == c2,
{
    let n = if c1.len() < c2.len() {
        c1.len()
    } else {
        c2.len()
    };
    assert forall|j: int| 0 <= j < n implies c1[j] == c2[j] by {
        lemma_unwrap_prefix(listing, dir, c1, c2, j);
    }
    if c1.len() < c2.len() {
        let k = c1.len() - 1;
        assert(c1[k] == c2[k]);
        assert(single_subdir(listing(c2[k])) == Some(c2[k + 1]));
    } else if c2.len() < c1.len() {
        let k = c2.len() - 1;
        assert(c1[k] == c2[k]);
        assert(single_subdir(listing(c1[k])) == Some(c1[k + 1]));
    }
    assert(c1 =~= c2);
}

proof fn lemma_unwrap_prefix(
    listing: spec_fn(Seq<char>) -> Seq<EntryFactsView>,
    dir: Seq<char>,
    c1: Seq<Seq<char>>,
    c2: Seq<Seq<char>>,
    j: int,
)
    requires
        unwrap_run(listing, dir, c1),
        unwrap_run(listing, dir, c2),
        0 <= j < c1.len(),
        j < c2.len(),
    ensures
        c1[j] == c2[j],
    decreases j,
{
    if j > 0 {
        lemma_unwrap_prefix(listing, dir, c1, c2, j - 1);
        assert(single_subdir(listing(c1[j - 1])) == Some(c1[j]));
        assert(single_subdir(listing(c2[j - 1])) == Some(c2[j]));
    }
}

/// What a finished unwrapping observed: `chain` holds the directories
/// listed, from `start` on, and `listings[j]` what `chain[j]` held; each next
/// directory is the single subdirectory of the one before, and the last
/// directory has none.
pub open spec fn unwrap_trace(
    start: Seq<char>,
    chain: Seq<Seq<char>>,
    listings: Seq<Seq<EntryFactsView>>,
) -> bool {
    &&& chain.len() >= 1
    &&& chain.len() == listings.len()
    &&& chain[0] == start
    &&& forall|j: int|
        0 <= j < chain.len() - 1 ==> single_subdir(#[trigger] listings[j]) == Some(chain[j + 1])
    &&& single_subdir(listings.last()) is None
}

/// A trace whose listings are what the directories hold is a run of the
/// unwrapping over those contents.
pub proof fn lemma_trace_is_run(
    listing: spec_fn(Seq<char>) -> Seq<EntryFactsView>,
    start: Seq<char>,
    chain: Seq<Seq<char>>,
    listings: Seq<Seq<EntryFactsView>>,
)
    requires
        unwrap_trace(start, chain, listings),
        forall|j: int| 0 <= j < chain.len() ==> listing(#[trigger] chain[j]) == listings[j],
    ensures
        unwrap_run(listing, start, chain),
{
    assert forall|j: int| 0 <= j < chain.len() - 1 implies single_subdir(
        listing(#[trigger] chain[j]),
    ) == Some(chain[j + 1]) by {
        assert(single_subdir(listings[j]) == Some(chain[j + 1]));
    }
    assert(listing(chain[chain.len() - 1]) == listings[listings.len() - 1]);
}

/// The unwrapping of an extracted directory in progress: the directory to
/// list next, and what was seen on the way to it.
pub struct Unwrapper {
    current: String,
    start: Ghost<Seq<char>>,
    visited: Ghost<Seq<Seq<char>>>,
    seen: Ghost<Seq<Seq<EntryFactsView>>>,
}

/// The contents of an `Unwrapper`: where it started, the directories listed
/// so far, what each held, and the directory to list next.
pub struct UnwrapperView {
    pub start: Seq<char>,
    pub visited: Seq<Seq<char>>,
    pub seen: Seq<Seq<EntryFactsView>>,
    pub current: Seq<char>,
}

impl View for Unwrapper {
    type V = UnwrapperView;

    closed spec fn view(&self) -> UnwrapperView {
        UnwrapperView {
            start: self.start@,
            visited: self.visited@,
            seen: self.seen@,
            current: self.current@,
        }
    }
}

/// Each directory listed so far held exactly one real subdirectory, the
/// next directory on the way, and the way starts at `start`.
pub open spec fn unwrap_progress(u: UnwrapperView) -> bool {
    let chain = u.visited.push(u.current);
    &&& u.visited.len() == u.seen.len()
    &&& chain[0] == u.start
    &&& forall|j: int|
        0 <= j < u.seen.len() ==> single_subdir(#[trigger] u.seen[j]) == Some(chain[j + 1])
}

impl Unwrapper {
    #[verifier::type_invariant]
    spec fn inv(self) -> bool {
        unwrap_progress(self@)
    }

    /// Starts unwrapping at `dir`: nothing listed yet, `dir` to list first.
    pub fn new(dir: &str) -> (r: Self)
        ensures
            r@ == (UnwrapperView {
                start: dir@,
                visited: Seq::empty(),
                seen: Seq::empty(),
                current: dir@,
            }),
            unwrap_progress(r@),
    {
        let r = Unwrapper {
            current: copy_str(dir),
            start: Ghost(dir@),
            visited: Ghost(Seq::empty()),
            seen: Ghost(Seq::empty()),
        };
        proof {
            assert(r.visited@.push(r.current@)[0] == dir@);
        }
        r
    }

    /// The directory to list next; once unwrapping is done, the result.
    pub fn current(&self) -> (r: &str)
        ensures
            r@ == self@.current,
    {
        self.current.as_str()
    }

    /// Takes in what the current directory holds. When it holds exactly one
    /// entry, a directory that is not a symbolic link, unwrapping goes on
    /// into it and `false` comes back; otherwise unwrapping is done, the
    /// current directory is the result, and the whole way from the start is
    /// an unwrapping trace.
    pub fn step(&mut self, entries: &[DirEntryFacts]) -> (done: bool)
        ensures
            unwrap_progress(final(self)@),
            final(self)@.start == old(self)@.start,
            match single_subdir(facts_views(entries@)) {
                Some(p) => !done && final(self)@ == (UnwrapperView {
                    start: old(self)@.start,
                    visited: old(self)@.visited.push(old(self)@.current),
                    seen: old(self)@.seen.push(facts_views(entries@)),
                    current: p,
                }),
                None => done && final(self)@ == old(self)@ && unwrap_trace(
                    old(self)@.start,
                    old(self)@.visited.push(old(self)@.current),
                    old(self)@.seen.push(facts_views(entries@)),
                ),
            },
    {
        proof {
            use_type_invariant(&*self);
        }
        let ghost listing = facts_views(entries@);
        let ghost chain = self@.visited.push(self@.current);
        match descend_into(entries) {
            Some(next) => {
                let ghost visited = self@.visited.push(self@.current);
                let ghost seen = self@.seen.push(listing);
                proof {
                    let c2 = visited.push(next@);
                    assert(c2[0] == chain[0]);
                    assert forall|j: int| 0 <= j < seen.len() implies single_subdir(
                        #[trigger] seen[j],
                    ) == Some(c2[j + 1]) by {
                        if j < self@.seen.len() {
                            assert(seen[j] == self@.seen[j]);
                            assert(c2[j + 1] == chain[j + 1]);
                        }
                    }
                }
                *self = Unwrapper {
                    current: next,
                    start: Ghost(self@.start),
                    visited: Ghost(visited),
                    seen: Ghost(seen),
                };
                false
            },
            None => {
                proof {
                    let ls = self@.seen.push(listing);
                    assert forall|j: int| 0 <= j < chain.len() - 1 implies single_subdir(
                        #[trigger] ls[j],
                    ) == Some(chain[j + 1]) by {
                        assert(ls[j] == self@.seen[j]);
                    }
                }
                true
            },
        }
    }
}

/// How a placed package is made runnable.
#[derive(Debug, PartialEq, Eq)]
pub enum EntryPoint {
    /// Run the package's `install.sh` with the destination as argument.
    InstallScript,
    /// Make this file executable and link it.
    Binary(String),
    /// Nothing runnable; the error message.
    Missing(String),
}

pub open spec fn missing_entry_message(pkg_name: Seq<char>) -> Seq<char> {
    "no single binary named '"@ + pkg_name
        + "' and no install.sh were found at the archive root. This package likely needs a build step (e.g. it's a source tarball) \u{2014} repackage it with just the built binary, or add an install.sh. See README.md's 'Publishing packages' section."@
}

/// Chooses the entry point of a placed package: an `install.sh` at the root
/// first, else a file named like the package (`named_bin`, when it is a
/// file), else the only file at the root (`root_files`, consulted only when
/// neither of the others is there); otherwise nothing runnable was found.
pub fn entry_point(
    pkg_name: &str,
    has_install_script: bool,
    named_bin: Option<String>,
    root_files: &[String],
) -> (r: EntryPoint)
    ensures
        match r {
            EntryPoint::InstallScript => has_install_script,
            EntryPoint::Binary(b) => !has_install_script && match named_bin {
                Some(n) => b == n,
                None => root_files@.len() == 1 && b@ == root_files@[0]@,
            },
            EntryPoint::Missing(m) => !has_install_script && named_bin is None && root_files@.len()
                != 1 && m@ == missing_entry_message(pkg_name@),
        },
{
    if has_install_script {
        return EntryPoint::InstallScript;
    }
    match named_bin {
        Some(b) => EntryPoint::Binary(b),
        None => {
            if root_files.len() == 1 {
                EntryPoint::Binary(root_files[0].clone())
            } else {
                let mut m = String::from_str("no single binary named '");
                m.append(pkg_name);
                m.append("' and no install.sh were found at the archive root. This package likely needs a build step (e.g. it's a source tarball) \u{2014} repackage it with just the built binary, or add an install.sh. See README.md's 'Publishing packages' section.");
                EntryPoint::Missing(m)
            }
        },
    }
}

// ---------------------------------------------------------------------------
// Laws
// ---------------------------------------------------------------------------

/// Nothing is downloaded from a URL that is not https or whose host is not
/// trusted: a step of a well-formed installation that downloads, downloads
/// the package's URL, which passed the host check against the hosts the
/// user's trusted-hosts file listed.
pub proof fn lemma_download_only_trusted(
    s: InstallState,
    e: InstallEvent,
    s2: InstallState,
    say: Seq<Seq<char>>,
    act: ActionView,
)
    requires
        install_wf(s),
        transition(s, e, s2, say, act),
        act is Download,
    ensures
        act matches ActionView::Download { url, dest } && url == s.pkg.url_pack@ && trusted_host_check(
            url,
            views(s.extra@),
        ) is Ok && starts_with(url, "https://"@),
{
    crate::security::lemma_trusted_host_implies_https(s.pkg.url_pack@, views(s.extra@));
}

/// Trust on first use: an archive is extracted only when the manifest read
/// just before holds no record of the same name and version with another
/// checksum; when it holds one, the installation ends in an error and removes
/// its temporary directory.
pub proof fn lemma_checksum_change_aborts(
    s: InstallState,
    e: InstallEvent,
    s2: InstallState,
    say: Seq<Seq<char>>,
    act: ActionView,
)
    requires
        s.phase == Phase::CheckingRecord,
        transition(s, e, s2, say, act),
    ensures
        e matches InstallEvent::Manifest(m) && match tofu_conflict(installed_views(m@), s.pkg@, s.checksum@) {
            Some(rec) => act == ActionView::Finish {
                cleanup: seq![tmp_of(s)],
                result: Err(tofu_message(s.checksum@, rec.sha256, s.pkg@)),
            },
            None => act is Extract,
        },
{
}

/// A failed placement leaves neither the destination nor the temporary
/// directory behind, and nothing is recorded in the manifest.
pub proof fn lemma_failed_placement_cleans_up(
    s: InstallState,
    e: InstallEvent,
    s2: InstallState,
    say: Seq<Seq<char>>,
    act: ActionView,
)
    requires
        s.phase == Phase::Placing,
        e matches InstallEvent::Placed(r) && r is Err,
        transition(s, e, s2, say, act),
    ensures
        act matches ActionView::Finish { cleanup, result } && cleanup == seq![
            dest_dir(s.pkg.name@),
            tmp_of(s),
        ] && result is Err,
        s2.phase == Phase::Finished,
{
}

/// The manifest written at the end records the package with the checksum
/// computed for its archive and its install directory, and looking the
/// package up in it finds that record.
pub proof fn lemma_record_holds_checksum(
    s: InstallState,
    e: InstallEvent,
    s2: InstallState,
    say: Seq<Seq<char>>,
    act: ActionView,
)
    requires
        s.phase == Phase::Recording,
        transition(s, e, s2, say, act),
    ensures
        act matches ActionView::SaveManifest { packages } && match find_index(packages, s.pkg.name@) {
            Some(i) => packages[i] == record_of(s.pkg@, s.checksum@),
            None => false,
        },
{
    match e {
        InstallEvent::Manifest(m) => {
            crate::manifest::lemma_find_after_add(installed_views(m@), record_of(s.pkg@, s.checksum@));
        },
        _ => {},
    }
}

/// Without `--force`, a copy found by other means ends the installation
/// successfully before anything is fetched or written.
pub proof fn lemma_existing_copy_skips(
    s: InstallState,
    e: InstallEvent,
    s2: InstallState,
    say: Seq<Seq<char>>,
    act: ActionView,
)
    requires
        s.phase == Phase::CheckingExisting,
        e matches InstallEvent::Existing(found) && found is Some,
        transition(s, e, s2, say, act),
    ensures
        act == finish(Ok(())),
        s2.phase == Phase::Finished,
{
}

/// How an installation begins. Not being root stops it with the root
/// message. With `--force` it goes straight to fetching the index; without,
/// it first looks for a copy installed by other means, and goes on to fetch
/// the index when none is found. Before the index is fetched, the
/// installation finishes only for want of root or because such a copy was
/// found, and then as a success that installs nothing.
pub proof fn lemma_installation_start(
    s: InstallState,
    e: InstallEvent,
    s2: InstallState,
    say: Seq<Seq<char>>,
    act: ActionView,
)
    requires
        s.phase == Phase::CheckingRoot || s.phase == Phase::CheckingExisting,
        transition(s, e, s2, say, act),
    ensures
        s2.name == s.name && s2.force == s.force && s2.pkg@ == s.pkg@,
        s.phase == Phase::CheckingRoot && e == InstallEvent::Root(false) ==> s2.phase
            == Phase::Finished && say.len() == 0 && act == (ActionView::Finish {
            cleanup: Seq::empty(),
            result: Err("root privileges are required. Use: sudo katyusha -i <package>"@),
        }),
        s.phase == Phase::CheckingRoot && e == InstallEvent::Root(true) && s.force ==> s2.phase
            == Phase::FetchingIndex && act == ActionView::FetchIndex && say == seq![
            "[*] Fetching the package index..."@,
        ],
        s.phase == Phase::CheckingRoot && e == InstallEvent::Root(true) && !s.force ==> s2.phase
            == Phase::CheckingExisting && say.len() == 0 && act == (ActionView::CheckExisting {
            name: s.name@,
        }),
        s.phase == Phase::CheckingExisting && e == InstallEvent::Existing(None) ==> s2.phase
            == Phase::FetchingIndex && act == ActionView::FetchIndex && say == seq![
            "[*] Fetching the package index..."@,
        ],
        s.phase == Phase::CheckingExisting && (e matches InstallEvent::Existing(Some(x))) ==> s2.phase
            == Phase::Finished && say.len() == 1 && act == (ActionView::Finish {
            cleanup: Seq::empty(),
            result: Ok(()),
        }),
        s2.phase == Phase::Finished ==> (s.phase == Phase::CheckingRoot && e == InstallEvent::Root(
            false,
        )) || (s.phase == Phase::CheckingExisting && (e matches InstallEvent::Existing(Some(x)))),
        s2.phase != Phase::Finished ==> s2.phase == Phase::CheckingExisting || s2.phase
            == Phase::FetchingIndex,
{
    reveal_strlit("[*] Fetching the package index...");
    reveal_strlit("root privileges are required. Use: sudo katyusha -i <package>");
}

/// Looking the package up in the index: the first package whose name equals
/// the requested one ignoring ASCII case is the one installed, and it goes
/// on to the host check only when its archive URL is https; with no such
/// package the installation ends with the not-found error.
pub proof fn lemma_index_lookup(
    s: InstallState,
    pkgs: Vec<Package>,
    s2: InstallState,
    say: Seq<Seq<char>>,
    act: ActionView,
)
    requires
        s.phase == Phase::FetchingIndex,
        transition(s, InstallEvent::Index(Ok(pkgs)), s2, say, act),
    ensures
        (forall|i: int| 0 <= i < pkgs@.len() ==> !eq_ignore_ascii_case(#[trigger] pkgs@[i].name@, s.name@))
            ==> s2.phase == Phase::Finished && act == (ActionView::Finish {
            cleanup: Seq::empty(),
            result: Err("package '"@ + s.name@ + "' not found in the index"@),
        }),
        forall|i: int|
            0 <= i < pkgs@.len() && eq_ignore_ascii_case(#[trigger] pkgs@[i].name@, s.name@) && (forall|j: int|
                0 <= j < i ==> !eq_ignore_ascii_case(#[trigger] pkgs@[j].name@, s.name@)) ==> {
                &&& s2.pkg@ == pkgs@[i]@
                &&& starts_with(pkgs@[i].url_pack@, "https://"@) ==> s2.phase == Phase::LoadingHosts
                    && act == ActionView::LoadTrustedHosts
                &&& !starts_with(pkgs@[i].url_pack@, "https://"@) ==> s2.phase == Phase::Finished
                    && act is Finish
            },
{
    let pred = crate::repo::package_named(s.name@);
    crate::text::lemma_first_index_where_found(pkgs@, pred);
    assert forall|i: int|
        0 <= i < pkgs@.len() && eq_ignore_ascii_case(#[trigger] pkgs@[i].name@, s.name@) && (forall|j: int|
            0 <= j < i ==> !eq_ignore_ascii_case(#[trigger] pkgs@[j].name@, s.name@)) implies s2.pkg@
        == pkgs@[i]@ by {
        assert(pred(pkgs@[i]));
        crate::text::lemma_first_index_where(pkgs@, pred, i);
    }
    if forall|i: int| 0 <= i < pkgs@.len() ==> !eq_ignore_ascii_case(#[trigger] pkgs@[i].name@, s.name@) {
        assert forall|i: int| 0 <= i < pkgs@.len() implies !pred(#[trigger] pkgs@[i]) by {}
        crate::text::lemma_first_index_where(pkgs@, pred, pkgs@.len() as int);
    }
}

} // verus!
