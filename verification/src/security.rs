//! Source policy for downloads: https only, an allow-list of hosts,
//! checksums compared ignoring ASCII case, and the per-entry test of the
//! audit of an extracted archive.

use vstd::prelude::*;
use vstd::string::*;

use crate::text::{
    chars_of, copy_str, eq_ignore_ascii_case, equal_ignoring_ascii_case, first_index_where,
    has_prefix, lemma_first_index_where, lines, lines_of, starts_with, str_eq, substring, trim,
    trim_ws, views, contains_str, contains_seq,
};

verus! {

/// Why a package source or its contents was refused.
#[derive(Debug, PartialEq, Eq)]
pub enum SecurityError {
    /// The URL does not use https.
    InsecureScheme(String),
    /// The URL's host is neither a default host nor one the user added.
    UntrustedHost(String),
    /// The checksum differs from the one recorded earlier.
    ChecksumMismatch { expected: String, actual: String },
    /// An entry of the extracted archive escapes the extraction directory.
    PathTraversal(String),
}

/// The contents of a `SecurityError`.
pub enum SecurityErrorView {
    InsecureScheme(Seq<char>),
    UntrustedHost(Seq<char>),
    ChecksumMismatch { expected: Seq<char>, actual: Seq<char> },
    PathTraversal(Seq<char>),
}

impl View for SecurityError {
    type V = SecurityErrorView;

    open spec fn view(&self) -> SecurityErrorView {
        match self {
            SecurityError::InsecureScheme(u) => SecurityErrorView::InsecureScheme(u@),
            SecurityError::UntrustedHost(h) => SecurityErrorView::UntrustedHost(h@),
            SecurityError::ChecksumMismatch { expected, actual } => {
                SecurityErrorView::ChecksumMismatch { expected: expected@, actual: actual@ }
            },
            SecurityError::PathTraversal(p) => SecurityErrorView::PathTraversal(p@),
        }
    }
}

/// The text an error is shown as.
pub open spec fn error_message(e: SecurityErrorView) -> Seq<char> {
    match e {
        SecurityErrorView::InsecureScheme(u) => "insecure URL (https is required): "@ + u,
        SecurityErrorView::UntrustedHost(h) => "untrusted host '"@ + h
            + "'. Add it to ~/.config/katyusha/trusted_hosts.txt if you trust it"@,
        SecurityErrorView::ChecksumMismatch { expected, actual } => "SHA-256 mismatch (expected "@
            + expected + ", got "@ + actual + "). The file may have been tampered with."@,
        SecurityErrorView::PathTraversal(p) => "unsafe path detected inside the package: "@ + p,
    }
}

impl SecurityError {
    /// The text the error is shown as.
    pub fn message(&self) -> (r: String)
        ensures
            r@ == error_message(self@),
    {
        match self {
            SecurityError::InsecureScheme(u) => {
                let mut s = String::from_str("insecure URL (https is required): ");
                s.append(u.as_str());
                s
            },
            SecurityError::UntrustedHost(h) => {
                let mut s = String::from_str("untrusted host '");
                s.append(h.as_str());
                s.append("'. Add it to ~/.config/katyusha/trusted_hosts.txt if you trust it");
                s
            },
            SecurityError::ChecksumMismatch { expected, actual } => {
                let mut s = String::from_str("SHA-256 mismatch (expected ");
                s.append(expected.as_str());
                s.append(", got ");
                s.append(actual.as_str());
                s.append("). The file may have been tampered with.");
                s
            },
            SecurityError::PathTraversal(p) => {
                let mut s = String::from_str("unsafe path detected inside the package: ");
                s.append(p.as_str());
                s
            },
        }
    }
}

/// The hosts trusted without any configuration.
pub open spec fn default_trusted_hosts() -> Seq<Seq<char>> {
    seq![
        "github.com"@,
        "raw.githubusercontent.com"@,
        "objects.githubusercontent.com"@,
        "codeload.github.com"@,
    ]
}

pub open spec fn is_host_end(c: char) -> bool {
    c == '/' || c == ':'
}

pub open spec fn host_end() -> spec_fn(char) -> bool {
    |c: char| is_host_end(c)
}

/// The host of an https URL: what follows `https://` up to the first `/`
/// or `:`; `None` for a URL that does not start with `https://`.
pub open spec fn host_of(url: Seq<char>) -> Option<Seq<char>> {
    if starts_with(url, "https://"@) {
        let rest = url.skip("https://"@.len() as int);
        match first_index_where(rest, host_end()) {
            Some(i) => Some(rest.take(i)),
            None => Some(rest),
        }
    } else {
        None
    }
}

/// `host` is a default host or one of `extra`.
pub open spec fn host_trusted(host: Seq<char>, extra: Seq<Seq<char>>) -> bool {
    default_trusted_hosts().contains(host) || extra.contains(host)
}

/// What `check_trusted_host` decides for `url`.
pub open spec fn trusted_host_check(url: Seq<char>, extra: Seq<Seq<char>>) -> Result<(), SecurityErrorView> {
    match host_of(url) {
        None => Err(SecurityErrorView::InsecureScheme(url)),
        Some(h) => if host_trusted(h, extra) {
            Ok(())
        } else {
            Err(SecurityErrorView::UntrustedHost(h))
        },
    }
}

pub open spec fn result_view(r: Result<(), SecurityError>) -> Result<(), SecurityErrorView> {
    match r {
        Ok(()) => Ok(()),
        Err(e) => Err(e@),
    }
}

/// Refuses a URL that does not start with `https://`.
pub fn require_https(url: &str) -> (r: Result<(), SecurityError>)
    ensures
        result_view(r) == (if starts_with(url@, "https://"@) {
            Ok(())
        } else {
            Err(SecurityErrorView::InsecureScheme(url@))
        }),
{
    if has_prefix(url, "https://") {
        Ok(())
    } else {
        Err(SecurityError::InsecureScheme(copy_str(url)))
    }
}

/// The host of an https URL.
pub fn extract_host(url: &str) -> (r: Option<String>)
    ensures
        match r {
            Some(h) => host_of(url@) == Some(h@),
            None => host_of(url@) is None,
        },
{
    if !has_prefix(url, "https://") {
        return None;
    }
    let plen = "https://".unicode_len();
    let cs = chars_of(url);
    let n = cs.len();
    let rest = substring(url, plen, n);
    let ghost pred = host_end();
    let mut i: usize = plen;
    while i < n && !(cs[i] == '/' || cs[i] == ':')
        invariant
            cs@ == url@,
            n == url@.len(),
            plen == "https://"@.len(),
            plen <= i <= n,
            rest@ == url@.skip(plen as int),
            pred == host_end(),
            forall|j: int| 0 <= j < i - plen ==> !(#[trigger] pred(rest@[j])),
        decreases n - i,
    {
        proof {
            assert(rest@[i - plen] == url@[i as int]);
        }
        i = i + 1;
    }
    proof {
        if i < n {
            assert(rest@[i - plen] == url@[i as int]);
        }
        lemma_first_index_where(rest@, pred, i - plen);
    }
    let host = substring(url, plen, i);
    proof {
        assert(host@ =~= rest@.take(i - plen));
        if i == n {
            assert(rest@.take(i - plen) =~= rest@);
        }
    }
    Some(host)
}

fn is_default_trusted(host: &str) -> (r: bool)
    ensures
        r == default_trusted_hosts().contains(host@),
{
    let ghost d = default_trusted_hosts();
    let r = str_eq(host, "github.com") || str_eq(host, "raw.githubusercontent.com") || str_eq(
        host,
        "objects.githubusercontent.com",
    ) || str_eq(host, "codeload.github.com");
    proof {
        if r {
            if host@ == d[0] {
                assert(d.contains(host@));
            } else if host@ == d[1] {
                assert(d.contains(host@));
            } else if host@ == d[2] {
                assert(d.contains(host@));
            } else {
                assert(host@ == d[3]);
                assert(d.contains(host@));
            }
        } else {
            assert forall|i: int| 0 <= i < d.len() implies d[i] != host@ by {}
        }
    }
    r
}

/// Accepts an https URL whose host is a default host or listed in `extra_trusted`;
/// a URL that does not start with `https://` is an insecure scheme.
pub fn check_trusted_host(url: &str, extra_trusted: &[String]) -> (r: Result<(), SecurityError>)
    ensures
        result_view(r) == trusted_host_check(url@, views(extra_trusted@)),
{
    let host = match extract_host(url) {
        Some(h) => h,
        None => {
            return Err(SecurityError::InsecureScheme(copy_str(url)));
        },
    };
    let ghost ev = views(extra_trusted@);
    let mut trusted = is_default_trusted(host.as_str());
    let mut i: usize = 0;
    while !trusted && i < extra_trusted.len()
        invariant
            ev == views(extra_trusted@),
            i <= extra_trusted@.len(),
            trusted ==> host_trusted(host@, ev),
            !trusted ==> !default_trusted_hosts().contains(host@),
            !trusted ==> forall|j: int| 0 <= j < i ==> ev[j] != host@,
        decreases extra_trusted@.len() - i,
    {
        proof {
            assert(ev[i as int] == extra_trusted@[i as int]@);
        }
        if str_eq(extra_trusted[i].as_str(), host.as_str()) {
            proof {
                assert(ev.contains(host@));
            }
            trusted = true;
        }
        i = i + 1;
    }
    if trusted {
        Ok(())
    } else {
        proof {
            assert(!ev.contains(host@));
        }
        Err(SecurityError::UntrustedHost(host))
    }
}

/// Accepts a checksum equal to the expected one, ignoring ASCII case.
pub fn verify_checksum(actual: &str, expected: &str) -> (r: Result<(), SecurityError>)
    ensures
        result_view(r) == (if eq_ignore_ascii_case(actual@, expected@) {
            Ok(())
        } else {
            Err(SecurityErrorView::ChecksumMismatch { expected: expected@, actual: actual@ })
        }),
{
    if equal_ignoring_ascii_case(actual, expected) {
        Ok(())
    } else {
        Err(SecurityError::ChecksumMismatch { expected: copy_str(expected), actual: copy_str(actual) })
    }
}

/// A line of the trusted-hosts file, trimmed; blank lines and lines
/// starting with `#` give nothing.
pub open spec fn trusted_host_entry(line: Seq<char>) -> Option<Seq<char>> {
    let t = trim_ws(line);
    if t.len() == 0 || t[0] == '#' {
        None
    } else {
        Some(t)
    }
}

/// The hosts a trusted-hosts file lists, in order.
pub open spec fn trusted_hosts_spec(content: Seq<char>) -> Seq<Seq<char>> {
    lines_of(content).filter_map(|l: Seq<char>| trusted_host_entry(l))
}

/// Reads the user's trusted-hosts file: one host per line, blank lines and
/// `#` comments skipped.
pub fn parse_trusted_hosts(content: &str) -> (r: Vec<String>)
    ensures
        views(r@) == trusted_hosts_spec(content@),
{
    let ls = lines(content);
    let ghost lv = views(ls@);
    let ghost f = |l: Seq<char>| trusted_host_entry(l);
    let mut out: Vec<String> = Vec::new();
    proof {
        assert(views(out@) =~= lv.take(0).filter_map(f));
    }
    for i in 0..ls.len()
        invariant
            lv == views(ls@),
            lv == lines_of(content@),
            f == (|l: Seq<char>| trusted_host_entry(l)),
            views(out@) == lv.take(i as int).filter_map(f),
    {
        proof {
            assert(lv.take(i + 1).drop_last() =~= lv.take(i as int));
            assert(lv[i as int] == ls@[i as int]@);
        }
        let t = trim(ls[i].as_str());
        if !t.as_str().is_empty() && t.as_str().get_char(0) != '#' {
            proof {
                assert(views(out@.push(t)) =~= views(out@) + seq![t@]);
            }
            out.push(t);
        }
    }
    proof {
        assert(lv.take(ls@.len() as int) =~= lv);
    }
    out
}

/// `root` is a component-wise prefix of `path` (what `Path::starts_with`
/// decides); components are the raw bytes of the path's parts.
pub open spec fn path_has_prefix(path: Seq<Seq<u8>>, root: Seq<Seq<u8>>) -> bool {
    root.len() <= path.len() && forall|i: int| 0 <= i < root.len() ==> path[i] == root[i]
}

/// One step of resolving a path without touching the file system: `/`
/// starts again at the root, `.` stays, `..` goes up one level (never above
/// the root), and any other component goes down into it.
pub open spec fn step_path(acc: Seq<Seq<u8>>, c: Seq<u8>) -> Seq<Seq<u8>> {
    if c == seq![47u8] {
        seq![c]
    } else if c == seq![46u8] {
        acc
    } else if c == seq![46u8, 46u8] {
        if acc.len() > 1 {
            acc.drop_last()
        } else {
            acc
        }
    } else {
        acc.push(c)
    }
}

/// The absolute path `acc` followed by the components `comps`, with `.` and
/// `..` folded away, component by component.
pub open spec fn fold_path(acc: Seq<Seq<u8>>, comps: Seq<Seq<u8>>) -> Seq<Seq<u8>>
    decreases comps.len(),
{
    if comps.len() == 0 {
        acc
    } else {
        fold_path(step_path(acc, comps[0]), comps.drop_first())
    }
}

/// Where a symbolic link points, resolved lexically: the link's directory
/// (`dir`, relative to the extraction root `root`) joined with the stored
/// target, whether or not anything exists there.
pub open spec fn lexical_target(
    root: Seq<Seq<u8>>,
    dir: Seq<Seq<u8>>,
    target: Seq<Seq<u8>>,
) -> Seq<Seq<u8>> {
    fold_path(fold_path(root, dir), target)
}

/// What is known of a symbolic link found in the extracted tree.
pub struct SymlinkView {
    pub dir: Seq<Seq<u8>>,
    pub target: Option<Seq<Seq<u8>>>,
    pub canonical: Option<Seq<Seq<u8>>>,
}

/// A symbolic link leaves the extraction root when its stored target cannot
/// be read, when the target resolved lexically lies outside the root (whether
/// or not it exists), or when the target exists and its canonical path lies
/// outside the root.
pub open spec fn link_escapes(root: Seq<Seq<u8>>, l: SymlinkView) -> bool {
    match l.target {
        None => true,
        Some(t) => !path_has_prefix(lexical_target(root, l.dir, t), root) || (l.canonical matches Some(
            c,
        ) && !path_has_prefix(c, root)),
    }
}

/// What the audit decides for one extracted entry: refused when its file
/// name contains `..`, or when it is a symbolic link that leaves the
/// canonical extraction root.
pub open spec fn audit_entry_spec(
    display: Seq<char>,
    file_name: Option<Seq<char>>,
    link: Option<SymlinkView>,
    root: Seq<Seq<u8>>,
) -> Result<(), SecurityErrorView> {
    if file_name matches Some(n) && contains_seq(n, ".."@) {
        Err(SecurityErrorView::PathTraversal(display))
    } else if link matches Some(l) && link_escapes(root, l) {
        Err(SecurityErrorView::PathTraversal(display))
    } else {
        Ok(())
    }
}

pub open spec fn opt_str_view(o: Option<&str>) -> Option<Seq<char>> {
    match o {
        Some(s) => Some(s@),
        None => None,
    }
}

/// The byte sequences a list of path components holds.
pub open spec fn component_views(v: Seq<Vec<u8>>) -> Seq<Seq<u8>> {
    v.map_values(|c: Vec<u8>| c@)
}

pub open spec fn opt_path_view(o: Option<Vec<Vec<u8>>>) -> Option<Seq<Seq<u8>>> {
    match o {
        Some(v) => Some(component_views(v@)),
        None => None,
    }
}

/// What the walk over the extracted tree found out about a symbolic link,
/// each path as its components in raw bytes.
pub struct SymlinkFacts {
    /// The link's directory, relative to the extraction root.
    pub dir: Vec<Vec<u8>>,
    /// The target stored in the link; `None` when it could not be read.
    pub target: Option<Vec<Vec<u8>>>,
    /// The canonical path of the target; `None` when it does not resolve.
    pub canonical: Option<Vec<Vec<u8>>>,
}

impl View for SymlinkFacts {
    type V = SymlinkView;

    open spec fn view(&self) -> SymlinkView {
        SymlinkView {
            dir: component_views(self.dir@),
            target: opt_path_view(self.target),
            canonical: opt_path_view(self.canonical),
        }
    }
}

pub open spec fn opt_link_view(o: Option<SymlinkFacts>) -> Option<SymlinkView> {
    match o {
        Some(l) => Some(l@),
        None => None,
    }
}

fn is_single_byte(c: &Vec<u8>, b: u8) -> (r: bool)
    ensures
        r == (c@ == seq![b]),
{
    let r = c.len() == 1 && c[0] == b;
    proof {
        if c@.len() == 1 && c@[0] == b {
            assert(c@ =~= seq![b]);
        }
    }
    r
}

fn is_dot_dot(c: &Vec<u8>) -> (r: bool)
    ensures
        r == (c@ == seq![46u8, 46u8]),
{
    let r = c.len() == 2 && c[0] == 46u8 && c[1] == 46u8;
    proof {
        if c@.len() == 2 && c@[0] == 46u8 && c@[1] == 46u8 {
            assert(c@ =~= seq![46u8, 46u8]);
        }
    }
    r
}

fn copy_bytes(c: &Vec<u8>) -> (r: Vec<u8>)
    ensures
        r@ == c@,
{
    let mut r: Vec<u8> = Vec::new();
    let mut i: usize = 0;
    while i < c.len()
        invariant
            i <= c@.len(),
            r@ == c@.take(i as int),
        decreases c@.len() - i,
    {
        proof {
            assert(c@.take(i + 1) =~= c@.take(i as int).push(c@[i as int]));
        }
        r.push(c[i]);
        i = i + 1;
    }
    proof {
        assert(c@.take(c@.len() as int) =~= c@);
    }
    r
}

proof fn lemma_fold_path_step(acc: Seq<Seq<u8>>, comps: Seq<Seq<u8>>, i: int)
    requires
        0 <= i < comps.len(),
    ensures
        fold_path(acc, comps.subrange(i, comps.len() as int)) == fold_path(
            step_path(acc, comps[i]),
            comps.subrange(i + 1, comps.len() as int),
        ),
{
    let rest = comps.subrange(i, comps.len() as int);
    assert(rest[0] == comps[i]);
    assert(rest.drop_first() =~= comps.subrange(i + 1, comps.len() as int));
}

/// `start` followed by `comps`, with `.` and `..` folded away.
fn fold_components(start: &Vec<Vec<u8>>, comps: &Vec<Vec<u8>>) -> (r: Vec<Vec<u8>>)
    ensures
        component_views(r@) == fold_path(component_views(start@), component_views(comps@)),
{
    let mut acc: Vec<Vec<u8>> = Vec::new();
    let mut j: usize = 0;
    while j < start.len()
        invariant
            j <= start@.len(),
            component_views(acc@) == component_views(start@).take(j as int),
        decreases start@.len() - j,
    {
        let c = copy_bytes(&start[j]);
        proof {
            let sv = component_views(start@);
            assert(sv[j as int] == start@[j as int]@);
            assert(sv.take(j + 1) =~= sv.take(j as int).push(sv[j as int]));
            assert(component_views(acc@.push(c)) =~= component_views(acc@).push(c@));
        }
        acc.push(c);
        j = j + 1;
    }
    proof {
        assert(component_views(start@).take(start@.len() as int) =~= component_views(start@));
    }
    let ghost cv = component_views(comps@);
    let ghost whole = fold_path(component_views(start@), cv);
    proof {
        assert(cv.subrange(0, cv.len() as int) =~= cv);
    }
    let mut i: usize = 0;
    while i < comps.len()
        invariant
            i <= comps@.len(),
            cv == component_views(comps@),
            cv.len() == comps@.len(),
            whole == fold_path(component_views(acc@), cv.subrange(i as int, cv.len() as int)),
        decreases comps@.len() - i,
    {
        proof {
            lemma_fold_path_step(component_views(acc@), cv, i as int);
            assert(cv[i as int] == comps@[i as int]@);
        }
        let c = &comps[i];
        if is_single_byte(c, 47u8) {
            let mut fresh: Vec<Vec<u8>> = Vec::new();
            fresh.push(copy_bytes(c));
            proof {
                assert(component_views(fresh@) =~= seq![c@]);
            }
            acc = fresh;
        } else if is_single_byte(c, 46u8) {
        } else if is_dot_dot(c) {
            if acc.len() > 1 {
                let ghost before = acc@;
                acc.pop();
                proof {
                    assert(acc@ == before.drop_last());
                    assert(component_views(acc@) =~= component_views(before).drop_last());
                }
            }
        } else {
            let ghost before = acc@;
            acc.push(copy_bytes(c));
            proof {
                assert(component_views(acc@) =~= component_views(before).push(c@));
            }
        }
        i = i + 1;
    }
    proof {
        assert(cv.subrange(cv.len() as int, cv.len() as int) =~= Seq::<Seq<u8>>::empty());
    }
    acc
}

fn bytes_eq(a: &Vec<u8>, b: &Vec<u8>) -> (r: bool)
    ensures
        r == (a@ == b@),
{
    if a.len() != b.len() {
        return false;
    }
    let mut i: usize = 0;
    while i < a.len()
        invariant
            a@.len() == b@.len(),
            i <= a@.len(),
            forall|j: int| 0 <= j < i ==> a@[j] == b@[j],
        decreases a@.len() - i,
    {
        if a[i] != b[i] {
            return false;
        }
        i = i + 1;
    }
    proof {
        assert(a@ =~= b@);
    }
    true
}

fn components_have_prefix(path: &Vec<Vec<u8>>, root: &Vec<Vec<u8>>) -> (r: bool)
    ensures
        r == path_has_prefix(component_views(path@), component_views(root@)),
{
    if root.len() > path.len() {
        return false;
    }
    let mut i: usize = 0;
    while i < root.len()
        invariant
            root@.len() <= path@.len(),
            i <= root@.len(),
            forall|j: int| 0 <= j < i ==> component_views(path@)[j] == component_views(root@)[j],
        decreases root@.len() - i,
    {
        proof {
            assert(component_views(path@)[i as int] == path@[i as int]@);
            assert(component_views(root@)[i as int] == root@[i as int]@);
        }
        if !bytes_eq(&path[i], &root[i]) {
            return false;
        }
        i = i + 1;
    }
    true
}

/// Audits one entry of an extracted archive. `file_name` is the entry's
/// last path component (when it is valid text), `link` what is known of the
/// entry when it is a symbolic link, and `root` the components of the
/// canonical extraction directory. A link is refused when its stored target
/// cannot be read, when that target resolved lexically against the link's
/// directory leaves the root (whether or not anything exists there), or when
/// the target exists and its canonical path leaves the root.
pub fn audit_entry(
    display: &str,
    file_name: Option<&str>,
    link: Option<SymlinkFacts>,
    root: &Vec<Vec<u8>>,
) -> (r: Result<(), SecurityError>)
    ensures
        result_view(r) == audit_entry_spec(
            display@,
            opt_str_view(file_name),
            opt_link_view(link),
            component_views(root@),
        ),
{
    let bad_name = match file_name {
        Some(n) => contains_str(n, ".."),
        None => false,
    };
    if bad_name {
        return Err(SecurityError::PathTraversal(copy_str(display)));
    }
    match link {
        Some(l) => {
            let escapes = match &l.target {
                None => true,
                Some(t) => {
                    let base = fold_components(root, &l.dir);
                    let lexical = fold_components(&base, t);
                    if !components_have_prefix(&lexical, root) {
                        true
                    } else {
                        match &l.canonical {
                            Some(c) => !components_have_prefix(c, root),
                            None => false,
                        }
                    }
                },
            };
            if escapes {
                return Err(SecurityError::PathTraversal(copy_str(display)));
            }
        },
        None => {},
    }
    Ok(())
}

// ---------------------------------------------------------------------------
// Laws
// ---------------------------------------------------------------------------

/// A URL whose host passes the check starts with `https://`: the host check
/// never lets through what `require_https` refuses.
pub proof fn lemma_trusted_host_implies_https(url: Seq<char>, extra: Seq<Seq<char>>)
    requires
        trusted_host_check(url, extra) is Ok,
    ensures
        starts_with(url, "https://"@),
{
}

/// The host check refuses exactly the URLs without `https://` as an insecure
/// scheme, with the whole URL in the error.
pub proof fn lemma_insecure_scheme_iff(url: Seq<char>, extra: Seq<Seq<char>>)
    ensures
        (trusted_host_check(url, extra) == Err::<(), SecurityErrorView>(
            SecurityErrorView::InsecureScheme(url),
        )) <==> !starts_with(url, "https://"@),
{
}

/// A symbolic link whose target, resolved lexically against its directory,
/// lies outside the extraction root is refused, whether or not the target
/// exists and whatever its canonical path.
pub proof fn lemma_lexically_escaping_link_refused(
    display: Seq<char>,
    file_name: Option<Seq<char>>,
    root: Seq<Seq<u8>>,
    dir: Seq<Seq<u8>>,
    target: Seq<Seq<u8>>,
    canonical: Option<Seq<Seq<u8>>>,
)
    requires
        !path_has_prefix(lexical_target(root, dir, target), root),
    ensures
        audit_entry_spec(
            display,
            file_name,
            Some(SymlinkView { dir, target: Some(target), canonical }),
            root,
        ) == Err::<(), SecurityErrorView>(SecurityErrorView::PathTraversal(display)),
{
}

/// For an https URL, the host check passes exactly when the host is one of
/// the four default hosts or appears anywhere in the user's list, and
/// otherwise names the host as untrusted; a URL without https is an insecure
/// scheme.
pub proof fn lemma_host_allow_list(url: Seq<char>, extra: Seq<Seq<char>>)
    ensures
        match host_of(url) {
            Some(h) => {
                &&& (trusted_host_check(url, extra) is Ok) <==> (h == "github.com"@ || h
                    == "raw.githubusercontent.com"@ || h == "objects.githubusercontent.com"@ || h
                    == "codeload.github.com"@ || exists|k: int| 0 <= k < extra.len() && #[trigger] extra[k] == h)
                &&& !(trusted_host_check(url, extra) is Ok) ==> trusted_host_check(url, extra)
                    == Err::<(), SecurityErrorView>(SecurityErrorView::UntrustedHost(h))
            },
            None => trusted_host_check(url, extra) == Err::<(), SecurityErrorView>(
                SecurityErrorView::InsecureScheme(url),
            ),
        },
{
    let d = default_trusted_hosts();
    if let Some(h) = host_of(url) {
        if d.contains(h) {
            let i = choose|i: int| 0 <= i < d.len() && d[i] == h;
            assert(h == d[i]);
        }
        if h == "github.com"@ {
            assert(d[0] == h);
        }
        if h == "raw.githubusercontent.com"@ {
            assert(d[1] == h);
        }
        if h == "objects.githubusercontent.com"@ {
            assert(d[2] == h);
        }
        if h == "codeload.github.com"@ {
            assert(d[3] == h);
        }
        if exists|k: int| 0 <= k < extra.len() && #[trigger] extra[k] == h {
            let k = choose|k: int| 0 <= k < extra.len() && #[trigger] extra[k] == h;
            assert(extra.contains(h));
        }
    }
}

/// Adding hosts to the user's list, before or after the ones there, never
/// makes a URL that passed the check fail it.
pub proof fn lemma_more_hosts_keep_trust(url: Seq<char>, extra: Seq<Seq<char>>, more: Seq<Seq<char>>)
    requires
        trusted_host_check(url, extra) is Ok,
    ensures
        trusted_host_check(url, extra + more) is Ok,
        trusted_host_check(url, more + extra) is Ok,
{
    lemma_host_allow_list(url, extra);
    lemma_host_allow_list(url, extra + more);
    lemma_host_allow_list(url, more + extra);
    let h = host_of(url).unwrap();
    if exists|k: int| 0 <= k < extra.len() && #[trigger] extra[k] == h {
        let k = choose|k: int| 0 <= k < extra.len() && #[trigger] extra[k] == h;
        assert((extra + more)[k] == h);
        assert((more + extra)[more.len() + k] == h);
    }
}

/// Checksum comparison does not depend on the order of its arguments'
/// roles, and a checksum always matches itself.
pub proof fn lemma_checksum_match_symmetric(a: Seq<char>, b: Seq<char>)
    ensures
        eq_ignore_ascii_case(a, b) == eq_ignore_ascii_case(b, a),
        eq_ignore_ascii_case(a, a),
{
}

} // verus!
