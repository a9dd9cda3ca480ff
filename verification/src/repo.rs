//! The package index: one package per line, written as
//! `[NAME][VERSION][URL][URL_PACK][DESCRIPTION optional]`.

use vstd::prelude::*;
use vstd::string::*;

use crate::text::{
    chars_of, contains_seq, contains_str, eq_ignore_ascii_case, equal_ignoring_ascii_case,
    find_first, first_index_where, lemma_find_first_found, lemma_first_index_where, lines,
    lines_of, lowercase, position_of, substring, to_lowercase, trim, trim_ws, views, split_by, CharClass,
    lemma_trim_ws_strip_cr, lemma_lines_filter_map, lemma_split_by_join, lemma_filter_map_add, strip_cr,
};

verus! {

/// One entry of the package index.
#[derive(Debug, PartialEq, Eq)]
pub struct Package {
    pub name: String,
    pub version: String,
    pub url: String,
    pub url_pack: String,
    pub description: Option<String>,
}

/// The contents of a `Package`.
pub struct PackageView {
    pub name: Seq<char>,
    pub version: Seq<char>,
    pub url: Seq<char>,
    pub url_pack: Seq<char>,
    pub description: Option<Seq<char>>,
}

pub open spec fn opt_view(o: Option<String>) -> Option<Seq<char>> {
    match o {
        Some(s) => Some(s@),
        None => None,
    }
}

impl View for Package {
    type V = PackageView;

    open spec fn view(&self) -> PackageView {
        PackageView {
            name: self.name@,
            version: self.version@,
            url: self.url@,
            url_pack: self.url_pack@,
            description: opt_view(self.description),
        }
    }
}

pub fn clone_opt_string(o: &Option<String>) -> (r: Option<String>)
    ensures
        opt_view(r) == opt_view(*o),
{
    match o {
        Some(s) => Some(s.clone()),
        None => None,
    }
}

impl Clone for Package {
    fn clone(&self) -> (r: Self)
        ensures
            r@ == self@,
    {
        Package {
            name: self.name.clone(),
            version: self.version.clone(),
            url: self.url.clone(),
            url_pack: self.url_pack.clone(),
            description: clone_opt_string(&self.description),
        }
    }
}

pub open spec fn package_views(v: Seq<Package>) -> Seq<PackageView> {
    v.map_values(|p: Package| p@)
}

/// The trimmed contents of up to `max` bracketed fields of `rest`, in order;
/// `None` when a `[` has no matching `]`.
pub open spec fn bracket_fields(rest: Seq<char>, max: nat) -> Option<Seq<Seq<char>>>
    decreases rest.len(),
{
    if max == 0 {
        Some(seq![])
    } else {
        match find_first(rest, '[') {
            None => Some(seq![]),
            Some(a) => {
                let after = rest.skip(a + 1);
                match find_first(after, ']') {
                    None => None,
                    Some(b) => {
                        proof {
                            lemma_find_first_found(rest, '[');
                            lemma_find_first_found(after, ']');
                        }
                        match bracket_fields(after.skip(b + 1), (max - 1) as nat) {
                            None => None,
                            Some(fs) => Some(seq![trim_ws(after.take(b))] + fs),
                        }
                    },
                }
            },
        }
    }
}

/// The package one index line describes: at least four bracketed fields,
/// the fifth, when present and not empty, is the description.
pub open spec fn parse_line_spec(line: Seq<char>) -> Option<PackageView> {
    match bracket_fields(line, 5) {
        Some(fs) => if fs.len() >= 4 {
            Some(
                PackageView {
                    name: fs[0],
                    version: fs[1],
                    url: fs[2],
                    url_pack: fs[3],
                    description: if fs.len() >= 5 && fs[4].len() > 0 {
                        Some(fs[4])
                    } else {
                        None
                    },
                },
            )
        } else {
            None
        },
        None => None,
    }
}

/// An index line, trimmed; blank lines and lines starting with `#` give nothing.
pub open spec fn index_entry(line: Seq<char>) -> Option<PackageView> {
    let l = trim_ws(line);
    if l.len() == 0 || l[0] == '#' {
        None
    } else {
        parse_line_spec(l)
    }
}

/// The packages an index text lists, in order.
pub open spec fn parse_index_spec(raw: Seq<char>) -> Seq<PackageView> {
    lines_of(raw).filter_map(|l: Seq<char>| index_entry(l))
}

/// `find` matches names ignoring ASCII case.
pub open spec fn package_named(name: Seq<char>) -> spec_fn(Package) -> bool {
    |p: Package| eq_ignore_ascii_case(p.name@, name)
}

/// Index of the first package whose name equals `name`, ignoring ASCII case.
pub open spec fn first_index_where_named(packages: Seq<Package>, name: Seq<char>) -> Option<int> {
    first_index_where(packages, package_named(name))
}

/// A search query matches a package when the lower-cased query occurs in
/// the lower-cased name or in the lower-cased description (a missing
/// description counts as empty).
pub open spec fn search_hit(p: PackageView, query: Seq<char>) -> bool {
    let q = lowercase(query);
    ||| contains_seq(lowercase(p.name), q)
    ||| contains_seq(
        lowercase(
            match p.description {
                Some(d) => d,
                None => Seq::<char>::empty(),
            },
        ),
        q,
    )
}

/// The line a search result is shown as.
pub open spec fn search_line_spec(p: PackageView) -> Seq<char> {
    p.name + "  "@ + p.version + match p.description {
        Some(d) => "  \u{2014}  "@ + d,
        None => Seq::<char>::empty(),
    }
}

fn bracket_fields_exec(rest: &str, max: usize) -> (r: Option<Vec<String>>)
    ensures
        match r {
            Some(v) => bracket_fields(rest@, max as nat) == Some(views(v@)),
            None => bracket_fields(rest@, max as nat) is None,
        },
    decreases rest@.len(),
{
    if max == 0 {
        let v: Vec<String> = Vec::new();
        proof {
            assert(views(v@) =~= seq![]);
        }
        return Some(v);
    }
    let cs = chars_of(rest);
    match position_of(&cs, '[') {
        None => {
            let v: Vec<String> = Vec::new();
            proof {
                assert(views(v@) =~= seq![]);
            }
            Some(v)
        },
        Some(a) => {
            proof {
                lemma_find_first_found(rest@, '[');
                assert(a < cs.len());
            }
            let after = substring(rest, a + 1, cs.len());
            proof {
                assert(after@ =~= rest@.skip(a + 1));
            }
            let ac = chars_of(after.as_str());
            match position_of(&ac, ']') {
                None => None,
                Some(b) => {
                    proof {
                        lemma_find_first_found(after@, ']');
                    }
                    let inner = substring(after.as_str(), 0, b);
                    let field = trim(inner.as_str());
                    let tail = substring(after.as_str(), b + 1, ac.len());
                    proof {
                        assert(inner@ =~= after@.take(b as int));
                        assert(tail@ =~= after@.skip(b + 1));
                    }
                    match bracket_fields_exec(tail.as_str(), max - 1) {
                        None => None,
                        Some(fs) => {
                            let mut v = fs;
                            let ghost old_v = v@;
                            v.insert(0, field);
                            proof {
                                assert(views(v@) =~= seq![field@] + views(old_v));
                            }
                            Some(v)
                        },
                    }
                },
            }
        },
    }
}

/// Reads one index line: `None` when it has fewer than four bracketed fields
/// or an unclosed `[`.
pub fn parse_line(line: &str) -> (r: Option<Package>)
    ensures
        match r {
            Some(p) => parse_line_spec(line@) == Some(p@),
            None => parse_line_spec(line@) is None,
        },
{
    match bracket_fields_exec(line, 5) {
        None => None,
        Some(fs) => {
            if fs.len() < 4 {
                return None;
            }
            let description = if fs.len() >= 5 && !fs[4].as_str().is_empty() {
                Some(fs[4].clone())
            } else {
                None
            };
            let p = Package {
                name: fs[0].clone(),
                version: fs[1].clone(),
                url: fs[2].clone(),
                url_pack: fs[3].clone(),
                description,
            };
            proof {
                let fv = views(fs@);
                assert(fv[0] == fs@[0]@);
                assert(fv[1] == fs@[1]@);
                assert(fv[2] == fs@[2]@);
                assert(fv[3] == fs@[3]@);
                if fs.len() >= 5 {
                    assert(fv[4] == fs@[4]@);
                }
            }
            Some(p)
        },
    }
}

fn index_entry_exec(line: &str) -> (r: Option<Package>)
    ensures
        match r {
            Some(p) => index_entry(line@) == Some(p@),
            None => index_entry(line@) is None,
        },
{
    let l = trim(line);
    if l.as_str().is_empty() || l.as_str().get_char(0) == '#' {
        None
    } else {
        parse_line(l.as_str())
    }
}

/// Reads the whole index text; blank lines and lines starting with `#`
/// (after trimming) are skipped, as are malformed lines.
pub fn parse_index(raw: &str) -> (r: Vec<Package>)
    ensures
        package_views(r@) == parse_index_spec(raw@),
{
    let ls = lines(raw);
    let ghost lv = views(ls@);
    let ghost f = |l: Seq<char>| index_entry(l);
    let mut out: Vec<Package> = Vec::new();
    proof {
        assert(package_views(out@) =~= lv.take(0).filter_map(f));
    }
    for i in 0..ls.len()
        invariant
            lv == views(ls@),
            lv == lines_of(raw@),
            f == (|l: Seq<char>| index_entry(l)),
            package_views(out@) == lv.take(i as int).filter_map(f),
    {
        proof {
            assert(lv.take(i + 1).drop_last() =~= lv.take(i as int));
            assert(lv[i as int] == ls@[i as int]@);
        }
        match index_entry_exec(ls[i].as_str()) {
            Some(p) => {
                proof {
                    assert(package_views(out@.push(p)) =~= package_views(out@) + seq![p@]);
                }
                out.push(p);
            },
            None => {},
        }
    }
    proof {
        assert(lv.take(ls@.len() as int) =~= lv);
    }
    out
}

/// The first package whose name equals `name`, ignoring ASCII case.
pub fn find<'a>(packages: &'a [Package], name: &str) -> (r: Option<&'a Package>)
    ensures
        r == (match first_index_where_named(packages@, name@) {
            Some(i) => Some(&packages@[i]),
            None => None,
        }),
{
    let n = packages.len();
    let mut i: usize = 0;
    while i < n
        invariant
            n == packages@.len(),
            i <= n,
            forall|j: int| 0 <= j < i ==> !(#[trigger] package_named(name@)(packages@[j])),
        decreases n - i,
    {
        if equal_ignoring_ascii_case(packages[i].name.as_str(), name) {
            proof {
                lemma_first_index_where(packages@, package_named(name@), i as int);
            }
            return Some(&packages[i]);
        }
        i = i + 1;
    }
    proof {
        lemma_first_index_where(packages@, package_named(name@), i as int);
    }
    None
}

fn search_hit_exec(p: &Package, query: &str, query_lower: &str) -> (r: bool)
    requires
        query_lower@ == lowercase(query@),
    ensures
        r == search_hit(p@, query@),
{
    let name_lower = to_lowercase(p.name.as_str());
    if contains_str(name_lower.as_str(), query_lower) {
        return true;
    }
    let desc_lower = match &p.description {
        Some(d) => to_lowercase(d.as_str()),
        None => {
            proof {
                reveal_strlit("");
                assert(""@ =~= Seq::<char>::empty());
            }
            to_lowercase("")
        },
    };
    contains_str(desc_lower.as_str(), query_lower)
}

pub open spec fn hits(query: Seq<char>) -> spec_fn(PackageView) -> bool {
    |p: PackageView| search_hit(p, query)
}

/// The packages that match a search query, in index order.
pub fn search(packages: &[Package], query: &str) -> (r: Vec<Package>)
    ensures
        package_views(r@) == package_views(packages@).filter(hits(query@)),
{
    let q = to_lowercase(query);
    let ghost pv = package_views(packages@);
    let mut out: Vec<Package> = Vec::new();
    proof {
        reveal_with_fuel(Seq::<_>::filter, 1);
        assert(package_views(out@) =~= pv.take(0).filter(hits(query@)));
    }
    for i in 0..packages.len()
        invariant
            pv == package_views(packages@),
            q@ == lowercase(query@),
            package_views(out@) == pv.take(i as int).filter(hits(query@)),
    {
        proof {
            reveal_with_fuel(Seq::<_>::filter, 1);
            assert(pv.take(i + 1).drop_last() =~= pv.take(i as int));
            assert(pv[i as int] == packages@[i as int]@);
        }
        if search_hit_exec(&packages[i], query, q.as_str()) {
            let p = packages[i].clone();
            proof {
                assert(package_views(out@.push(p)) =~= package_views(out@).push(p@));
            }
            out.push(p);
        }
    }
    proof {
        assert(pv.take(packages@.len() as int) =~= pv);
    }
    out
}

impl Package {
    /// How the package is shown in search results: name, two spaces, version,
    /// then the description after a dash when there is one.
    pub fn search_line(&self) -> (r: String)
        ensures
            r@ == search_line_spec(self@),
    {
        let mut s = String::from_str(self.name.as_str());
        s.append("  ");
        s.append(self.version.as_str());
        match &self.description {
            Some(d) => {
                s.append("  \u{2014}  ");
                s.append(d.as_str());
            },
            None => {},
        }
        proof {
            assert(s@ =~= search_line_spec(self@));
        }
        s
    }
}

// ---------------------------------------------------------------------------
// Laws
// ---------------------------------------------------------------------------

/// Each line of an index is read on its own: parsing two index texts joined
/// by a line feed gives the packages of the first followed by those of the second.
pub proof fn lemma_parse_index_join(a: Seq<char>, b: Seq<char>)
    ensures
        parse_index_spec(a.push('\n') + b) == parse_index_spec(a) + parse_index_spec(b),
{
    let f = |l: Seq<char>| index_entry(l);
    let nl = CharClass::Is('\n');
    assert forall|p: Seq<char>| #[trigger] f(strip_cr(p)) == f(p) by {
        lemma_trim_ws_strip_cr(p);
    }
    assert(trim_ws(Seq::<char>::empty()) =~= Seq::<char>::empty());
    lemma_lines_filter_map(a.push('\n') + b, f);
    lemma_lines_filter_map(a, f);
    lemma_lines_filter_map(b, f);
    lemma_split_by_join(a, '\n', b, nl);
    lemma_filter_map_add(split_by(a, nl), split_by(b, nl), f);
}

/// What a missing description is searched as.
pub open spec fn description_text(p: PackageView) -> Seq<char> {
    match p.description {
        Some(d) => d,
        None => Seq::<char>::empty(),
    }
}

/// Search ignores case: a package whose lower-cased name, or lower-cased
/// description, holds the lower-cased query is in the result; every package
/// in the result is such a package; and a package that is neither is left out.
pub proof fn lemma_search_ignores_case(packages: Seq<PackageView>, query: Seq<char>)
    ensures
        forall|i: int|
            0 <= i < packages.len() && contains_seq(lowercase(#[trigger] packages[i].name), lowercase(query))
                ==> packages.filter(hits(query)).contains(packages[i]),
        forall|i: int|
            0 <= i < packages.len() && contains_seq(lowercase(description_text(#[trigger] packages[i])), lowercase(query))
                ==> packages.filter(hits(query)).contains(packages[i]),
        forall|k: int|
            0 <= k < packages.filter(hits(query)).len() ==> contains_seq(
                lowercase((#[trigger] packages.filter(hits(query))[k]).name),
                lowercase(query),
            ) || contains_seq(lowercase(description_text(packages.filter(hits(query))[k])), lowercase(query)),
        forall|i: int|
            0 <= i < packages.len() && !contains_seq(lowercase(#[trigger] packages[i].name), lowercase(query))
                && !contains_seq(lowercase(description_text(packages[i])), lowercase(query))
                ==> !packages.filter(hits(query)).contains(packages[i]),
{
    broadcast use vstd::seq_lib::group_filter_ensures;

    let f = packages.filter(hits(query));
    assert forall|i: int|
        0 <= i < packages.len() && contains_seq(lowercase(#[trigger] packages[i].name), lowercase(query))
            implies f.contains(packages[i]) by {
        assert(hits(query)(packages[i]));
    }
    assert forall|i: int|
        0 <= i < packages.len() && contains_seq(lowercase(description_text(#[trigger] packages[i])), lowercase(query))
            implies f.contains(packages[i]) by {
        assert(hits(query)(packages[i]));
    }
    assert forall|k: int| 0 <= k < f.len() implies contains_seq(
        lowercase((#[trigger] f[k]).name),
        lowercase(query),
    ) || contains_seq(lowercase(description_text(f[k])), lowercase(query)) by {
        assert(hits(query)(f[k]));
    }
    assert forall|i: int|
        0 <= i < packages.len() && !contains_seq(lowercase(#[trigger] packages[i].name), lowercase(query))
            && !contains_seq(lowercase(description_text(packages[i])), lowercase(query))
            implies !f.contains(packages[i]) by {
        if f.contains(packages[i]) {
            let k = choose|k: int| 0 <= k < f.len() && f[k] == packages[i];
            assert(hits(query)(f[k]));
        }
    }
}

} // verus!
