//! The decisions of removing an installed package, as a state machine in the
//! same style as installation: the caller performs each action and feeds its
//! outcome back. The lines in `say` are printed before the action.

use vstd::prelude::*;
use vstd::string::*;

use crate::manifest::{find_index, installed_views, InstalledPackage, InstalledView};
use crate::text::{concat, copy_str, views};

verus! {

#[derive(Clone, Copy, PartialEq, Eq, Debug, Structural)]
pub enum RemovePhase {
    CheckingRoot,
    LoadingManifest,
    Saving,
    RemovingFiles,
    Unlinking,
    Finished,
}

/// A removal in progress.
#[derive(Debug)]
pub struct RemoveState {
    pub phase: RemovePhase,
    /// The name the user asked to remove.
    pub name: String,
    /// The record taken out of the manifest, from `Saving` on.
    pub removed: Option<InstalledPackage>,
}

/// What the caller does next.
#[derive(Debug, PartialEq, Eq)]
pub enum RemoveAction {
    /// Report whether the process runs as root (`Root`).
    CheckRoot,
    /// Read the manifest (`Manifest`).
    LoadManifest,
    /// Write the manifest (`Done`).
    SaveManifest { packages: Vec<InstalledPackage> },
    /// Remove a directory recursively (`Done`).
    RemoveDir { path: String },
    /// Remove the link at `path` if there is one, ignoring failures (`Done`).
    RemoveLink { path: String },
    /// End with `result`.
    Finish(Result<(), String>),
}

/// The outcome of an action.
pub enum RemoveEvent {
    Root(bool),
    Manifest(Vec<InstalledPackage>),
    Done(Result<(), String>),
}

/// One step: lines to print and the next action.
#[derive(Debug, PartialEq, Eq)]
pub struct RemoveStep {
    pub say: Vec<String>,
    pub action: RemoveAction,
}

/// The contents of a `RemoveAction`.
pub enum RemoveActionView {
    CheckRoot,
    LoadManifest,
    SaveManifest { packages: Seq<InstalledView> },
    RemoveDir { path: Seq<char> },
    RemoveLink { path: Seq<char> },
    Finish(Result<(), Seq<char>>),
}

impl View for RemoveAction {
    type V = RemoveActionView;

    open spec fn view(&self) -> RemoveActionView {
        match self {
            RemoveAction::CheckRoot => RemoveActionView::CheckRoot,
            RemoveAction::LoadManifest => RemoveActionView::LoadManifest,
            RemoveAction::SaveManifest { packages } => RemoveActionView::SaveManifest {
                packages: installed_views(packages@),
            },
            RemoveAction::RemoveDir { path } => RemoveActionView::RemoveDir { path: path@ },
            RemoveAction::RemoveLink { path } => RemoveActionView::RemoveLink { path: path@ },
            RemoveAction::Finish(r) => RemoveActionView::Finish(
                match r {
                    Ok(()) => Ok(()),
                    Err(e) => Err(e@),
                },
            ),
        }
    }
}

pub open spec fn removed_view(o: Option<InstalledPackage>) -> Option<InstalledView> {
    match o {
        Some(p) => Some(p@),
        None => None,
    }
}

pub open spec fn remove_event_fits(s: RemoveState, e: RemoveEvent) -> bool {
    match s.phase {
        RemovePhase::CheckingRoot => e is Root,
        RemovePhase::LoadingManifest => e is Manifest,
        RemovePhase::Saving => e is Done,
        RemovePhase::RemovingFiles => e is Done,
        RemovePhase::Unlinking => e is Done,
        RemovePhase::Finished => false,
    }
}

pub open spec fn not_installed_message(name: Seq<char>) -> Seq<char> {
    "'"@ + name + "' is not installed (or wasn't installed by Katyusha)"@
}

/// The manifest after taking out the first record named `name`, and that record.
pub open spec fn without_record(all: Seq<InstalledView>, name: Seq<char>) -> (Seq<InstalledView>, Option<InstalledView>) {
    match find_index(all, name) {
        Some(i) => (all.remove(i), Some(all[i])),
        None => (all, None),
    }
}

/// What a removal step does.
pub open spec fn remove_transition(
    s: RemoveState,
    e: RemoveEvent,
    s2: RemoveState,
    say: Seq<Seq<char>>,
    act: RemoveActionView,
) -> bool {
    &&& s2.name == s.name
    &&& match (s.phase, e) {
        (RemovePhase::CheckingRoot, RemoveEvent::Root(b)) => say.len() == 0 && if b {
            s2.phase == RemovePhase::LoadingManifest && act == RemoveActionView::LoadManifest
        } else {
            s2.phase == RemovePhase::Finished && act == RemoveActionView::Finish(
                Err("root privileges are required. Use: sudo katyusha -r <package>"@),
            )
        },
        (RemovePhase::LoadingManifest, RemoveEvent::Manifest(all)) => {
            let (rest, taken) = without_record(installed_views(all@), s.name@);
            &&& say.len() == 0
            &&& s2.phase == RemovePhase::Saving
            &&& removed_view(s2.removed) == taken
            &&& act == RemoveActionView::SaveManifest { packages: rest }
        },
        (RemovePhase::Saving, RemoveEvent::Done(r)) => removed_view(s2.removed) == removed_view(
            s.removed,
        ) && match r {
            Err(msg) => say.len() == 0 && s2.phase == RemovePhase::Finished && act
                == RemoveActionView::Finish(Err(msg@)),
            Ok(()) => match removed_view(s.removed) {
                None => say.len() == 0 && s2.phase == RemovePhase::Finished && act
                    == RemoveActionView::Finish(Err(not_installed_message(s.name@))),
                Some(p) => s2.phase == RemovePhase::RemovingFiles && say == seq![
                    "[*] Removing "@ + p.name + " ("@ + p.version + ")..."@,
                ] && act == RemoveActionView::RemoveDir { path: p.prefix },
            },
        },
        (RemovePhase::RemovingFiles, RemoveEvent::Done(r)) => say.len() == 0 && match r {
            Err(msg) => s2.phase == RemovePhase::Finished && act == RemoveActionView::Finish(
                Err(msg@),
            ),
            Ok(()) => s2.phase == RemovePhase::Unlinking && act == RemoveActionView::RemoveLink {
                path: "/usr/local/bin/"@ + s.name@,
            },
        },
        (RemovePhase::Unlinking, RemoveEvent::Done(_)) => s2.phase == RemovePhase::Finished && say
            == seq!["[\u{2713}] '"@ + s.name@ + "' removed successfully."@] && act
            == RemoveActionView::Finish(Ok(())),
        _ => false,
    }
}

fn no_lines() -> (v: Vec<String>)
    ensures
        views(v@) == Seq::<Seq<char>>::empty(),
{
    let v: Vec<String> = Vec::new();
    proof {
        assert(views(v@) =~= Seq::<Seq<char>>::empty());
    }
    v
}

fn one_line(l: String) -> (v: Vec<String>)
    ensures
        views(v@) == seq![l@],
{
    let mut v: Vec<String> = Vec::new();
    v.push(l);
    proof {
        assert(views(v@) =~= seq![l@]);
    }
    v
}

impl RemoveState {
    /// Starts removing `name`; the first action checks for root.
    pub fn new(name: &str) -> (r: (RemoveState, RemoveStep))
        ensures
            r.0.phase == RemovePhase::CheckingRoot,
            r.0.name@ == name@,
            views(r.1.say@) == Seq::<Seq<char>>::empty(),
            r.1.action@ == RemoveActionView::CheckRoot,
    {
        (
            RemoveState { phase: RemovePhase::CheckingRoot, name: copy_str(name), removed: None },
            RemoveStep { say: no_lines(), action: RemoveAction::CheckRoot },
        )
    }
}

/// Takes one step of a removal.
pub fn remove_step(s: RemoveState, e: RemoveEvent) -> (r: (RemoveState, RemoveStep))
    requires
        remove_event_fits(s, e),
    ensures
        remove_transition(s, e, r.0, views(r.1.say@), r.1.action@),
{
    match s.phase {
        RemovePhase::CheckingRoot => {
            let b = match e {
                RemoveEvent::Root(b) => b,
                _ => vstd::pervasive::unreached(),
            };
            if b {
                (
                    RemoveState { phase: RemovePhase::LoadingManifest, ..s },
                    RemoveStep { say: no_lines(), action: RemoveAction::LoadManifest },
                )
            } else {
                let m = String::from_str("root privileges are required. Use: sudo katyusha -r <package>");
                (
                    RemoveState { phase: RemovePhase::Finished, ..s },
                    RemoveStep { say: no_lines(), action: RemoveAction::Finish(Err(m)) },
                )
            }
        },
        RemovePhase::LoadingManifest => {
            let mut all = match e {
                RemoveEvent::Manifest(m) => m,
                _ => vstd::pervasive::unreached(),
            };
            let removed = crate::manifest::remove(&mut all, s.name.as_str());
            (
                RemoveState { phase: RemovePhase::Saving, removed, ..s },
                RemoveStep { say: no_lines(), action: RemoveAction::SaveManifest { packages: all } },
            )
        },
        RemovePhase::Saving => {
            let r = match e {
                RemoveEvent::Done(r) => r,
                _ => vstd::pervasive::unreached(),
            };
            match r {
                Err(msg) => (
                    RemoveState { phase: RemovePhase::Finished, ..s },
                    RemoveStep { say: no_lines(), action: RemoveAction::Finish(Err(msg)) },
                ),
                Ok(()) => match &s.removed {
                    None => {
                        let mut m = String::from_str("'");
                        m.append(s.name.as_str());
                        m.append("' is not installed (or wasn't installed by Katyusha)");
                        (
                            RemoveState { phase: RemovePhase::Finished, ..s },
                            RemoveStep { say: no_lines(), action: RemoveAction::Finish(Err(m)) },
                        )
                    },
                    Some(p) => {
                        let mut line = String::from_str("[*] Removing ");
                        line.append(p.name.as_str());
                        line.append(" (");
                        line.append(p.version.as_str());
                        line.append(")...");
                        let path = p.prefix.clone();
                        (
                            RemoveState { phase: RemovePhase::RemovingFiles, ..s },
                            RemoveStep { say: one_line(line), action: RemoveAction::RemoveDir { path } },
                        )
                    },
                },
            }
        },
        RemovePhase::RemovingFiles => {
            let r = match e {
                RemoveEvent::Done(r) => r,
                _ => vstd::pervasive::unreached(),
            };
            match r {
                Err(msg) => (
                    RemoveState { phase: RemovePhase::Finished, ..s },
                    RemoveStep { say: no_lines(), action: RemoveAction::Finish(Err(msg)) },
                ),
                Ok(()) => {
                    let path = concat("/usr/local/bin/", s.name.as_str());
                    (
                        RemoveState { phase: RemovePhase::Unlinking, ..s },
                        RemoveStep { say: no_lines(), action: RemoveAction::RemoveLink { path } },
                    )
                },
            }
        },
        RemovePhase::Unlinking => {
            let mut line = String::from_str("[\u{2713}] '");
            line.append(s.name.as_str());
            line.append("' removed successfully.");
            (
                RemoveState { phase: RemovePhase::Finished, ..s },
                RemoveStep { say: one_line(line), action: RemoveAction::Finish(Ok(())) },
            )
        },
        RemovePhase::Finished => vstd::pervasive::unreached(),
    }
}

/// With distinct names in the manifest, the manifest a removal writes holds
/// no record of the removed name.
pub proof fn lemma_removal_clears_name(
    s: RemoveState,
    e: RemoveEvent,
    s2: RemoveState,
    say: Seq<Seq<char>>,
    act: RemoveActionView,
)
    requires
        s.phase == RemovePhase::LoadingManifest,
        remove_transition(s, e, s2, say, act),
        e matches RemoveEvent::Manifest(all) && crate::manifest::distinct_names(installed_views(all@)),
    ensures
        act matches RemoveActionView::SaveManifest { packages } && find_index(packages, s.name@) is None,
{
    match e {
        RemoveEvent::Manifest(all) => {
            crate::manifest::lemma_remove_leaves_no_record(installed_views(all@), s.name@);
            match find_index(installed_views(all@), s.name@) {
                Some(i) => {},
                None => {},
            }
        },
        _ => {},
    }
}

} // verus!
