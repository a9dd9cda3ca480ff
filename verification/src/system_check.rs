//! Detection of software already installed by other means (APT/dpkg, RPM,
//! pacman, apk, Flatpak, Snap, or an executable on `PATH`): which query runs
//! next and what a query's outcome means. Running the queries is the caller's.

use vstd::prelude::*;
use vstd::string::*;

use crate::text::{concat, copy_str, first_index_where, trim, trim_ws};

verus! {

/// Where an already-installed copy was found.
#[derive(Debug, PartialEq, Eq)]
pub struct ExistingInstall {
    pub source: String,
    pub detail: String,
}

impl ExistingInstall {
    /// `source (detail)`, as the install notice shows it.
    pub fn describe(&self) -> (r: String)
        ensures
            r@ == self.source@ + " ("@ + self.detail@ + ")"@,
    {
        let mut s = String::from_str(self.source.as_str());
        s.append(" (");
        s.append(self.detail.as_str());
        s.append(")");
        s
    }
}

/// The queries, in the order they are tried.
#[derive(Clone, Copy, PartialEq, Eq, Debug, Structural)]
pub enum Probe {
    Dpkg,
    Rpm,
    Pacman,
    Apk,
    Flatpak,
    Snap,
    Path,
}

/// The query tried after `p`.
pub open spec fn next_probe(p: Probe) -> Option<Probe> {
    match p {
        Probe::Dpkg => Some(Probe::Rpm),
        Probe::Rpm => Some(Probe::Pacman),
        Probe::Pacman => Some(Probe::Apk),
        Probe::Apk => Some(Probe::Flatpak),
        Probe::Flatpak => Some(Probe::Snap),
        Probe::Snap => Some(Probe::Path),
        Probe::Path => None,
    }
}

/// The program a query runs and its arguments (the package name last).
pub open spec fn probe_command_spec(p: Probe, name: Seq<char>) -> (Seq<char>, Seq<Seq<char>>) {
    match p {
        Probe::Dpkg => ("dpkg"@, seq!["-s"@, name]),
        Probe::Rpm => ("rpm"@, seq!["-q"@, name]),
        Probe::Pacman => ("pacman"@, seq!["-Q"@, name]),
        Probe::Apk => ("apk"@, seq!["info"@, "-e"@, name]),
        Probe::Flatpak => ("flatpak"@, seq!["info"@, name]),
        Probe::Snap => ("snap"@, seq!["list"@, name]),
        Probe::Path => ("which"@, seq![name]),
    }
}

/// What is reported when query `p` finds `name` (`path` is where `which` found it).
pub open spec fn found_by(p: Probe, name: Seq<char>, path: Seq<char>) -> (Seq<char>, Seq<char>) {
    match p {
        Probe::Dpkg => ("APT/dpkg"@, "package '"@ + name + "' is registered in dpkg's database"@),
        Probe::Rpm => ("RPM"@, "package '"@ + name + "' is registered in the RPM database"@),
        Probe::Pacman => (
            "pacman"@,
            "package '"@ + name + "' is registered in pacman's local database"@,
        ),
        Probe::Apk => ("apk"@, "package '"@ + name + "' is registered in apk's database"@),
        Probe::Flatpak => ("Flatpak"@, "'"@ + name + "' is installed as a Flatpak app"@),
        Probe::Snap => ("Snap"@, "'"@ + name + "' is installed as a snap"@),
        Probe::Path => ("PATH"@, "an executable named '"@ + name + "' already exists at "@ + path),
    }
}

/// What to do after a query.
#[derive(Debug, PartialEq, Eq)]
pub enum ProbeStep {
    /// The package is already there.
    Found(ExistingInstall),
    /// Run this query next.
    Next(Probe),
    /// No query found it.
    NotFound,
}

/// The first query to run.
pub fn first_probe() -> (p: Probe)
    ensures
        p == Probe::Dpkg,
{
    Probe::Dpkg
}

/// The program and arguments of query `p` for package `name`.
pub fn probe_command(p: Probe, name: &str) -> (r: (String, Vec<String>))
    ensures
        r.0@ == probe_command_spec(p, name@).0,
        crate::text::views(r.1@) == probe_command_spec(p, name@).1,
{
    let mut args: Vec<String> = Vec::new();
    let prog = match p {
        Probe::Dpkg => {
            args.push(String::from_str("-s"));
            "dpkg"
        },
        Probe::Rpm => {
            args.push(String::from_str("-q"));
            "rpm"
        },
        Probe::Pacman => {
            args.push(String::from_str("-Q"));
            "pacman"
        },
        Probe::Apk => {
            args.push(String::from_str("info"));
            args.push(String::from_str("-e"));
            "apk"
        },
        Probe::Flatpak => {
            args.push(String::from_str("info"));
            "flatpak"
        },
        Probe::Snap => {
            args.push(String::from_str("list"));
            "snap"
        },
        Probe::Path => "which",
    };
    args.push(copy_str(name));
    proof {
        assert(crate::text::views(args@) =~= probe_command_spec(p, name@).1);
    }
    (String::from_str(prog), args)
}

/// The path `which` printed: its output trimmed, `None` when that is empty.
pub open spec fn which_path(output: Seq<char>) -> Option<Seq<char>> {
    let t = trim_ws(output);
    if t.len() == 0 {
        None
    } else {
        Some(t)
    }
}

/// The source and detail reported when query `p` has found the package;
/// `None` when it has not.
pub open spec fn probe_report(name: Seq<char>, p: Probe, succeeded: bool, output: Seq<char>) -> Option<
    (Seq<char>, Seq<char>),
> {
    if !succeeded {
        None
    } else if p == Probe::Path {
        match which_path(output) {
            Some(path) => Some(found_by(p, name, path)),
            None => None,
        }
    } else {
        Some(found_by(p, name, Seq::<char>::empty()))
    }
}

fn quoted_detail(prefix: &str, name: &str, suffix: &str) -> (r: String)
    ensures
        r@ == prefix@ + name@ + suffix@,
{
    let mut s = String::from_str(prefix);
    s.append(name);
    s.append(suffix);
    s
}

/// Decides after query `p` for `name` has run: `succeeded` is whether the
/// program exited successfully (false when it could not be started), and
/// `output` what it printed (only read for `which`). A package manager query
/// that succeeded, or a `which` that succeeded and printed a path, means the
/// package is already installed; otherwise the next query runs.
pub fn after_probe(name: &str, p: Probe, succeeded: bool, output: &str) -> (r: ProbeStep)
    ensures
        match r {
            ProbeStep::Found(e) => probe_report(name@, p, succeeded, output@) == Some(
                (e.source@, e.detail@),
            ),
            ProbeStep::Next(q) => probe_report(name@, p, succeeded, output@) is None && next_probe(
                p,
            ) == Some(q),
            ProbeStep::NotFound => probe_report(name@, p, succeeded, output@) is None
                && next_probe(p) is None,
        },
{
    if !succeeded {
        return match p {
            Probe::Dpkg => ProbeStep::Next(Probe::Rpm),
            Probe::Rpm => ProbeStep::Next(Probe::Pacman),
            Probe::Pacman => ProbeStep::Next(Probe::Apk),
            Probe::Apk => ProbeStep::Next(Probe::Flatpak),
            Probe::Flatpak => ProbeStep::Next(Probe::Snap),
            Probe::Snap => ProbeStep::Next(Probe::Path),
            Probe::Path => ProbeStep::NotFound,
        };
    }
    let (source, detail) = match p {
        Probe::Dpkg => (
            "APT/dpkg",
            quoted_detail("package '", name, "' is registered in dpkg's database"),
        ),
        Probe::Rpm => ("RPM", quoted_detail("package '", name, "' is registered in the RPM database")),
        Probe::Pacman => (
            "pacman",
            quoted_detail("package '", name, "' is registered in pacman's local database"),
        ),
        Probe::Apk => ("apk", quoted_detail("package '", name, "' is registered in apk's database")),
        Probe::Flatpak => ("Flatpak", quoted_detail("'", name, "' is installed as a Flatpak app")),
        Probe::Snap => ("Snap", quoted_detail("'", name, "' is installed as a snap")),
        Probe::Path => {
            let path = trim(output);
            if path.as_str().is_empty() {
                return ProbeStep::NotFound;
            }
            let d = quoted_detail("an executable named '", name, "' already exists at ");
            ("PATH", concat(d.as_str(), path.as_str()))
        },
    };
    ProbeStep::Found(ExistingInstall { source: String::from_str(source), detail })
}

// ---------------------------------------------------------------------------
// The whole run of queries
// ---------------------------------------------------------------------------

/// The queries in the order they run: the package managers, then `which`.
pub open spec fn probe_order() -> Seq<Probe> {
    seq![
        Probe::Dpkg,
        Probe::Rpm,
        Probe::Pacman,
        Probe::Apk,
        Probe::Flatpak,
        Probe::Snap,
        Probe::Path,
    ]
}

/// What the detection reports when it goes on from the `i`-th query and
/// each query `p` would end as `outcome(p)` (exit success, printed output):
/// the first query that finds the package decides, and no later query runs.
pub open spec fn run_from(
    name: Seq<char>,
    outcome: spec_fn(Probe) -> (bool, Seq<char>),
    i: nat,
) -> Option<(Seq<char>, Seq<char>)>
    decreases 7 - i,
{
    if i >= 7 {
        None
    } else {
        let p = probe_order()[i as int];
        match probe_report(name, p, outcome(p).0, outcome(p).1) {
            Some(r) => Some(r),
            None => run_from(name, outcome, i + 1),
        }
    }
}

pub open spec fn manager_succeeded(outcome: spec_fn(Probe) -> (bool, Seq<char>)) -> spec_fn(Probe) -> bool {
    |p: Probe| outcome(p).0
}

/// The run that `first_probe` and `after_probe` lay out visits the queries
/// in `probe_order`, each query ends with the package name as its last
/// argument, and no query follows `which`.
pub proof fn lemma_probe_order(name: Seq<char>)
    ensures
        probe_order()[0] == Probe::Dpkg,
        forall|i: int| 0 <= i < 6 ==> next_probe(#[trigger] probe_order()[i]) == Some(probe_order()[i + 1]),
        next_probe(probe_order()[6]) is None,
        forall|i: int| 0 <= i < 7 ==> #[trigger] probe_command_spec(probe_order()[i], name).1.last() == name,
{
    assert forall|i: int| 0 <= i < 7 implies #[trigger] probe_command_spec(probe_order()[i], name).1.last() == name by {
        let p = probe_order()[i];
        match p {
            Probe::Dpkg => {},
            Probe::Rpm => {},
            Probe::Pacman => {},
            Probe::Apk => {},
            Probe::Flatpak => {},
            Probe::Snap => {},
            Probe::Path => {},
        }
    }
}

/// The result of the whole detection: when some package manager's query
/// succeeds, the report of the first one in order (its label as the source);
/// otherwise the path `which` printed, when it succeeded and printed one;
/// otherwise nothing.
pub proof fn lemma_detection_result(name: Seq<char>, outcome: spec_fn(Probe) -> (bool, Seq<char>))
    ensures
        run_from(name, outcome, 0) == (match first_index_where(
            probe_order().take(6),
            manager_succeeded(outcome),
        ) {
            Some(i) => Some(found_by(probe_order()[i], name, Seq::<char>::empty())),
            None => if outcome(Probe::Path).0 {
                match which_path(outcome(Probe::Path).1) {
                    Some(path) => Some(found_by(Probe::Path, name, path)),
                    None => None,
                }
            } else {
                None
            },
        }),
{
    reveal_with_fuel(run_from, 8);
    reveal_with_fuel(first_index_where, 7);
    let m = probe_order().take(6);
    assert(m.drop_first() =~= seq![Probe::Rpm, Probe::Pacman, Probe::Apk, Probe::Flatpak, Probe::Snap]);
    assert(m.drop_first().drop_first() =~= seq![Probe::Pacman, Probe::Apk, Probe::Flatpak, Probe::Snap]);
    assert(m.drop_first().drop_first().drop_first() =~= seq![Probe::Apk, Probe::Flatpak, Probe::Snap]);
    assert(m.drop_first().drop_first().drop_first().drop_first() =~= seq![Probe::Flatpak, Probe::Snap]);
    assert(m.drop_first().drop_first().drop_first().drop_first().drop_first() =~= seq![Probe::Snap]);
    assert(m.drop_first().drop_first().drop_first().drop_first().drop_first().drop_first() =~= Seq::<Probe>::empty());
}

} // verus!
