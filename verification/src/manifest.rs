//! The registry of installed packages: one package per line, four
//! tab-separated fields `name`, `version`, `sha256`, `install prefix`.

use vstd::prelude::*;
use vstd::string::*;

use crate::text::{
    first_index_where, in_class, lemma_split_by_chars, strip_cr, lemma_first_index_where, lemma_split_by_append_plain, lemma_split_by_plain, lemma_split_by_push_sep, lemma_split_by_sep_then_plain, lines,
    lines_of, split_by, split_class, str_eq, views, CharClass,
};

verus! {

/// One installed package.
#[derive(Debug, PartialEq, Eq)]
pub struct InstalledPackage {
    pub name: String,
    pub version: String,
    pub sha256: String,
    pub prefix: String,
}

/// The contents of an `InstalledPackage`.
pub struct InstalledView {
    pub name: Seq<char>,
    pub version: Seq<char>,
    pub sha256: Seq<char>,
    pub prefix: Seq<char>,
}

impl View for InstalledPackage {
    type V = InstalledView;

    open spec fn view(&self) -> InstalledView {
        InstalledView {
            name: self.name@,
            version: self.version@,
            sha256: self.sha256@,
            prefix: self.prefix@,
        }
    }
}

impl Clone for InstalledPackage {
    fn clone(&self) -> (r: Self)
        ensures
            r@ == self@,
    {
        InstalledPackage {
            name: self.name.clone(),
            version: self.version.clone(),
            sha256: self.sha256.clone(),
            prefix: self.prefix.clone(),
        }
    }
}

pub open spec fn installed_views(v: Seq<InstalledPackage>) -> Seq<InstalledView> {
    v.map_values(|p: InstalledPackage| p@)
}

/// The record a manifest line holds: exactly four tab-separated fields.
pub open spec fn manifest_entry(line: Seq<char>) -> Option<InstalledView> {
    let parts = split_by(line, CharClass::Is('\t'));
    if parts.len() == 4 {
        Some(InstalledView { name: parts[0], version: parts[1], sha256: parts[2], prefix: parts[3] })
    } else {
        None
    }
}

/// The records a manifest text holds, in order; other lines are skipped.
pub open spec fn parse_manifest_spec(content: Seq<char>) -> Seq<InstalledView> {
    lines_of(content).filter_map(|l: Seq<char>| manifest_entry(l))
}

/// A record's line, without its line ending.
pub open spec fn record_line(p: InstalledView) -> Seq<char> {
    p.name + seq!['\t'] + p.version + seq!['\t'] + p.sha256 + seq!['\t'] + p.prefix
}

/// The manifest text for a list of records: each record's line followed by `\n`.
pub open spec fn manifest_text(ps: Seq<InstalledView>) -> Seq<char>
    decreases ps.len(),
{
    if ps.len() == 0 {
        Seq::<char>::empty()
    } else {
        manifest_text(ps.drop_last()) + record_line(ps.last()).push('\n')
    }
}

/// A field that can be written into a manifest line and read back.
pub open spec fn storable_field(f: Seq<char>) -> bool {
    forall|i: int| 0 <= i < f.len() ==> #[trigger] f[i] != '\t' && f[i] != '\n'
}

/// A record that reads back as itself: no field holds a tab or a line feed,
/// and the prefix does not end with a carriage return.
pub open spec fn storable(p: InstalledView) -> bool {
    &&& storable_field(p.name)
    &&& storable_field(p.version)
    &&& storable_field(p.sha256)
    &&& storable_field(p.prefix)
    &&& !(p.prefix.len() > 0 && p.prefix.last() == '\r')
}

/// A record as a manifest line can hold it: no field holds a tab or a line feed.
pub open spec fn loadable(p: InstalledView) -> bool {
    &&& storable_field(p.name)
    &&& storable_field(p.version)
    &&& storable_field(p.sha256)
    &&& storable_field(p.prefix)
}

/// What a record reads back as after being written: the line ending takes
/// one trailing carriage return of the prefix with it.
pub open spec fn reread(p: InstalledView) -> InstalledView {
    InstalledView { name: p.name, version: p.version, sha256: p.sha256, prefix: strip_cr(p.prefix) }
}

/// The text ends with two carriage returns.
pub open spec fn ends_with_two_cr(s: Seq<char>) -> bool {
    s.len() >= 2 && s[s.len() - 1] == '\r' && s[s.len() - 2] == '\r'
}

pub open spec fn has_name(name: Seq<char>) -> spec_fn(InstalledView) -> bool {
    |p: InstalledView| p.name == name
}

pub open spec fn other_name(name: Seq<char>) -> spec_fn(InstalledView) -> bool {
    |p: InstalledView| p.name != name
}

/// The list after recording `p`: earlier records of that name dropped, `p` last.
pub open spec fn add_spec(all: Seq<InstalledView>, p: InstalledView) -> Seq<InstalledView> {
    all.filter(other_name(p.name)).push(p)
}

/// Index of the first record named `name`.
pub open spec fn find_index(all: Seq<InstalledView>, name: Seq<char>) -> Option<int> {
    first_index_where(all, has_name(name))
}

/// No two records share a name.
pub open spec fn distinct_names(all: Seq<InstalledView>) -> bool {
    forall|i: int, j: int|
        0 <= i < all.len() && 0 <= j < all.len() && i != j ==> #[trigger] all[i].name
            != #[trigger] all[j].name
}

// ---------------------------------------------------------------------------
// Laws
// ---------------------------------------------------------------------------

pub open spec fn record_lines(ps: Seq<InstalledView>) -> Seq<Seq<char>> {
    ps.map_values(|p: InstalledView| record_line(p))
}

proof fn lemma_record_line_shape(p: InstalledView)
    requires
        loadable(p),
    ensures
        forall|i: int| 0 <= i < record_line(p).len() ==> #[trigger] record_line(p)[i] != '\n',
        strip_cr(record_line(p)) == record_line(reread(p)),
        split_by(record_line(p), CharClass::Is('\t')) == seq![p.name, p.version, p.sha256, p.prefix],
{
    let tab = CharClass::Is('\t');
    let a = p.name.push('\t') + p.version;
    let b = a.push('\t') + p.sha256;
    let c = b.push('\t') + p.prefix;
    assert(c =~= record_line(p));
    assert forall|i: int| 0 <= i < p.name.len() implies !crate::text::in_class(tab, #[trigger] p.name[i]) by {}
    assert forall|i: int| 0 <= i < p.version.len() implies !crate::text::in_class(tab, #[trigger] p.version[i]) by {}
    assert forall|i: int| 0 <= i < p.sha256.len() implies !crate::text::in_class(tab, #[trigger] p.sha256[i]) by {}
    assert forall|i: int| 0 <= i < p.prefix.len() implies !crate::text::in_class(tab, #[trigger] p.prefix[i]) by {}
    lemma_split_by_plain(p.name, tab);
    lemma_split_by_sep_then_plain(p.name, '\t', p.version, tab);
    lemma_split_by_sep_then_plain(a, '\t', p.sha256, tab);
    lemma_split_by_sep_then_plain(b, '\t', p.prefix, tab);
    assert(seq![p.name].push(p.version).push(p.sha256).push(p.prefix) =~= seq![p.name, p.version, p.sha256, p.prefix]);
    assert forall|i: int| 0 <= i < a.len() implies #[trigger] a[i] != '\n' by {
        if i < p.name.len() {
            assert(a[i] == p.name[i]);
        } else if i > p.name.len() {
            assert(a[i] == p.version[i - p.name.len() - 1]);
        }
    }
    assert forall|i: int| 0 <= i < b.len() implies #[trigger] b[i] != '\n' by {
        if i < a.len() {
            assert(b[i] == a[i]);
        } else if i > a.len() {
            assert(b[i] == p.sha256[i - a.len() - 1]);
        }
    }
    assert forall|i: int| 0 <= i < record_line(p).len() implies #[trigger] record_line(p)[i] != '\n' by {
        assert(record_line(p)[i] == c[i]);
        if i < b.len() {
            assert(c[i] == b[i]);
        } else if i > b.len() {
            assert(c[i] == p.prefix[i - b.len() - 1]);
        }
    }
    if p.prefix.len() > 0 {
        assert(c.last() == p.prefix.last());
        if p.prefix.last() == '\r' {
            assert(c.drop_last() =~= b.push('\t') + p.prefix.drop_last());
        }
    } else {
        assert(c.last() == '\t');
    }
}

proof fn lemma_split_manifest_text(ps: Seq<InstalledView>)
    requires
        forall|i: int| 0 <= i < ps.len() ==> loadable(#[trigger] ps[i]),
    ensures
        split_by(manifest_text(ps), CharClass::Is('\n')) == record_lines(ps).push(
            Seq::<char>::empty(),
        ),
    decreases ps.len(),
{
    let nl = CharClass::Is('\n');
    if ps.len() == 0 {
        assert(record_lines(ps).push(Seq::<char>::empty()) =~= seq![Seq::<char>::empty()]);
    } else {
        let rest = ps.drop_last();
        let p = ps.last();
        assert(loadable(ps[ps.len() - 1]));
        lemma_split_manifest_text(rest);
        lemma_record_line_shape(p);
        let t = manifest_text(rest);
        let body = record_line(p);
        assert(t + body.push('\n') =~= (t + body).push('\n'));
        lemma_split_by_push_sep(t + body, '\n', nl);
        lemma_split_by_append_plain(t, body, nl);
        let q = record_lines(rest).push(Seq::<char>::empty());
        assert(Seq::<char>::empty() + body =~= body);
        assert(q.update(q.len() - 1, q.last() + body) =~= record_lines(rest).push(body));
        assert(record_lines(rest).push(body) =~= record_lines(ps));
    }
}

proof fn lemma_entries_of_record_lines(ps: Seq<InstalledView>)
    requires
        forall|i: int| 0 <= i < ps.len() ==> loadable(#[trigger] ps[i]),
    ensures
        record_lines(ps).filter_map(|l: Seq<char>| manifest_entry(l)) == ps,
    decreases ps.len(),
{
    if ps.len() > 0 {
        let rest = ps.drop_last();
        assert(loadable(ps[ps.len() - 1]));
        lemma_entries_of_record_lines(rest);
        lemma_record_line_shape(ps.last());
        assert(record_lines(ps).drop_last() =~= record_lines(rest));
        assert(rest + seq![ps.last()] =~= ps);
    } else {
        assert(record_lines(ps) =~= Seq::<Seq<char>>::empty());
    }
}

/// Reading back a written manifest gives each record with one trailing
/// carriage return of its prefix dropped, for records whose fields hold no
/// tab or line feed.
pub proof fn lemma_manifest_reread(ps: Seq<InstalledView>)
    requires
        forall|i: int| 0 <= i < ps.len() ==> loadable(#[trigger] ps[i]),
    ensures
        parse_manifest_spec(manifest_text(ps)) == ps.map_values(|r: InstalledView| reread(r)),
{
    let rr = ps.map_values(|r: InstalledView| reread(r));
    lemma_split_manifest_text(ps);
    let parts = split_by(manifest_text(ps), CharClass::Is('\n'));
    let ls = lines_of(manifest_text(ps));
    assert forall|j: int| 0 <= j < ps.len() implies #[trigger] ls[j] == record_lines(rr)[j] by {
        assert(loadable(ps[j]));
        lemma_record_line_shape(ps[j]);
        assert(parts[j] == record_line(ps[j]));
    }
    assert(ls =~= record_lines(rr));
    assert forall|i: int| 0 <= i < rr.len() implies loadable(#[trigger] rr[i]) by {
        assert(loadable(ps[i]));
        lemma_strip_cr_field(ps[i].prefix);
    }
    lemma_entries_of_record_lines(rr);
}

proof fn lemma_strip_cr_field(f: Seq<char>)
    requires
        storable_field(f),
    ensures
        storable_field(strip_cr(f)),
{
    if f.len() > 0 && f.last() == '\r' {
        assert forall|i: int| 0 <= i < f.drop_last().len() implies #[trigger] f.drop_last()[i] != '\t'
            && f.drop_last()[i] != '\n' by {
            assert(f.drop_last()[i] == f[i]);
        }
    }
}

/// Reading back a written manifest gives the same records, for records whose
/// fields hold no tab or line feed and whose prefix does not end with a
/// carriage return.
pub proof fn lemma_manifest_roundtrip(ps: Seq<InstalledView>)
    requires
        forall|i: int| 0 <= i < ps.len() ==> storable(#[trigger] ps[i]),
    ensures
        parse_manifest_spec(manifest_text(ps)) == ps,
{
    assert forall|i: int| 0 <= i < ps.len() implies loadable(#[trigger] ps[i]) by {
        assert(storable(ps[i]));
    }
    lemma_manifest_reread(ps);
    assert forall|i: int| 0 <= i < ps.len() implies reread(#[trigger] ps[i]) == ps[i] by {
        assert(storable(ps[i]));
    }
    assert(ps.map_values(|r: InstalledView| reread(r)) =~= ps);
}

/// Every record a manifest text holds can be held by a manifest line.
pub proof fn lemma_parsed_loadable(t: Seq<char>)
    ensures
        forall|k: int| 0 <= k < parse_manifest_spec(t).len() ==> loadable(
            #[trigger] parse_manifest_spec(t)[k],
        ),
{
    let nl = CharClass::Is('\n');
    let tab = CharClass::Is('\t');
    let parts = split_by(t, nl);
    let anything = |c: char| true;
    let no_nl = |c: char| c != '\n';
    lemma_split_by_chars(t, nl, anything);
    let f = |l: Seq<char>| manifest_entry(l);
    assert forall|k: int| 0 <= k < parse_manifest_spec(t).len() implies loadable(
        #[trigger] parse_manifest_spec(t)[k],
    ) by {
        let e = parse_manifest_spec(t)[k];
        assert(lines_of(t).filter_map(f).contains(e));
        lines_of(t).lemma_filter_map_contains(f, e);
        let l = choose|l: Seq<char>| #[trigger] lines_of(t).contains(l) && f(l) == Some(e);
        let j = choose|j: int| 0 <= j < lines_of(t).len() && lines_of(t)[j] == l;
        crate::text::lemma_split_by_len(t, nl);
        assert(j < parts.len());
        assert(l == strip_cr(parts[j]) || l == parts[j]);
        assert(l.len() <= parts[j].len());
        assert forall|i: int| 0 <= i < l.len() implies no_nl(#[trigger] l[i]) by {
            if l != parts[j] {
                assert(parts[j].len() > 0 && parts[j].last() == '\r');
                assert(l =~= parts[j].drop_last());
            }
            assert(l[i] == parts[j][i]);
            assert(!in_class(nl, parts[j][i]));
        }
        lemma_split_by_chars(l, tab, no_nl);
        let q = split_by(l, tab);
        assert(q.len() == 4);
        assert forall|m: int, i: int| 0 <= m < 4 && 0 <= i < q[m].len() implies #[trigger] q[m][i]
            != '\t' && q[m][i] != '\n' by {
            assert(no_nl(q[m][i]) && !in_class(tab, q[m][i]));
        }
        assert(e.name == q[0] && e.version == q[1] && e.sha256 == q[2] && e.prefix == q[3]);
        assert(storable_field(q[0]));
        assert(storable_field(q[1]));
        assert(storable_field(q[2]));
        assert(storable_field(q[3]));
    }
}

/// After recording `p`, looking its name up finds `p`, in last place.
pub proof fn lemma_find_after_add(all: Seq<InstalledView>, p: InstalledView)
    ensures
        find_index(add_spec(all, p), p.name) == Some(all.filter(other_name(p.name)).len() as int),
        add_spec(all, p).last() == p,
{
    let kept = all.filter(other_name(p.name));
    let a = add_spec(all, p);
    broadcast use vstd::seq_lib::group_filter_ensures;

    assert forall|j: int| 0 <= j < kept.len() implies !(#[trigger] has_name(p.name)(a[j])) by {
        assert(a[j] == kept[j]);
        assert(other_name(p.name)(kept[j]));
    }
    lemma_first_index_where(a, has_name(p.name), kept.len() as int);
}

/// Removing the name just recorded gives back the recorded package and leaves
/// the list without any record of that name.
pub proof fn lemma_remove_after_add(all: Seq<InstalledView>, p: InstalledView)
    ensures
        ({
            let a = add_spec(all, p);
            match find_index(a, p.name) {
                Some(i) => a[i] == p && a.remove(i) == all.filter(other_name(p.name)),
                None => false,
            }
        }),
{
    lemma_find_after_add(all, p);
    let a = add_spec(all, p);
    assert(a.remove(a.len() - 1) =~= all.filter(other_name(p.name)));
}

/// Recording a package keeps the names in the list distinct.
pub proof fn lemma_add_keeps_names_distinct(all: Seq<InstalledView>, p: InstalledView)
    requires
        distinct_names(all),
    ensures
        distinct_names(add_spec(all, p)),
{
    lemma_filter_keeps_names_distinct(all, other_name(p.name));
    let kept = all.filter(other_name(p.name));
    broadcast use vstd::seq_lib::group_filter_ensures;

    let a = add_spec(all, p);
    assert forall|i: int, j: int|
        0 <= i < a.len() && 0 <= j < a.len() && i != j implies #[trigger] a[i].name
        != #[trigger] a[j].name by {
        if i < kept.len() && j < kept.len() {
            assert(a[i] == kept[i] && a[j] == kept[j]);
        } else if i < kept.len() {
            assert(other_name(p.name)(kept[i]));
        } else {
            assert(other_name(p.name)(kept[j]));
        }
    }
}

proof fn lemma_filter_keeps_names_distinct(all: Seq<InstalledView>, f: spec_fn(InstalledView) -> bool)
    requires
        distinct_names(all),
    ensures
        distinct_names(all.filter(f)),
    decreases all.len(),
{
    reveal_with_fuel(Seq::<_>::filter, 1);
    if all.len() > 0 {
        let rest = all.drop_last();
        assert forall|i: int, j: int|
            0 <= i < rest.len() && 0 <= j < rest.len() && i != j implies #[trigger] rest[i].name
            != #[trigger] rest[j].name by {
            assert(rest[i] == all[i] && rest[j] == all[j]);
        }
        lemma_filter_keeps_names_distinct(rest, f);
        let fr = rest.filter(f);
        if f(all.last()) {
            let a = fr.push(all.last());
            assert forall|i: int, j: int|
                0 <= i < a.len() && 0 <= j < a.len() && i != j implies #[trigger] a[i].name
                != #[trigger] a[j].name by {
                if i < fr.len() && j < fr.len() {
                    assert(a[i] == fr[i] && a[j] == fr[j]);
                } else if i < fr.len() {
                    assert(fr.contains(fr[i]));
                    rest.lemma_filter_contains_rev(f, fr[i]);
                    let k = choose|k: int| 0 <= k < rest.len() && rest[k] == fr[i];
                    assert(all[k] == rest[k]);
                    assert(all[k].name != all[all.len() - 1].name);
                } else {
                    assert(fr.contains(fr[j]));
                    rest.lemma_filter_contains_rev(f, fr[j]);
                    let k = choose|k: int| 0 <= k < rest.len() && rest[k] == fr[j];
                    assert(all[k] == rest[k]);
                    assert(all[k].name != all[all.len() - 1].name);
                }
            }
        }
    }
}

proof fn lemma_filter_keeps_all(x: Seq<InstalledView>, f: spec_fn(InstalledView) -> bool)
    requires
        forall|j: int| 0 <= j < x.len() ==> f(#[trigger] x[j]),
    ensures
        x.filter(f) == x,
    decreases x.len(),
{
    reveal_with_fuel(Seq::<_>::filter, 1);
    if x.len() > 0 {
        assert forall|j: int| 0 <= j < x.len() - 1 implies f(#[trigger] x.drop_last()[j]) by {
            assert(f(x[j]));
        }
        lemma_filter_keeps_all(x.drop_last(), f);
        assert(f(x[x.len() - 1]));
        assert(x.drop_last().push(x.last()) =~= x);
    } else {
        assert(x.filter(f) =~= x);
    }
}

/// Recording the same package a second time leaves the list as it was after
/// the first time.
pub proof fn lemma_add_twice(all: Seq<InstalledView>, p: InstalledView)
    ensures
        add_spec(add_spec(all, p), p) == add_spec(all, p),
{
    broadcast use vstd::seq_lib::group_filter_ensures;

    reveal_with_fuel(Seq::<_>::filter, 1);
    let k = all.filter(other_name(p.name));
    assert forall|j: int| 0 <= j < k.len() implies other_name(p.name)(#[trigger] k[j]) by {}
    lemma_filter_keeps_all(k, other_name(p.name));
    assert(k.push(p).drop_last() =~= k);
    assert(!other_name(p.name)(k.push(p).last()));
}

/// Recording a package twice through the file is recording it once: when the
/// registry text `t` is read, `p` recorded, the manifest written and read back
/// (`once`), and then `p` recorded, written and read back again, the records
/// read are `once`. `p` must be storable, and the other records of `t` must
/// not end their prefix with two carriage returns (writing and reading takes
/// one off each time, so such a record changes on every round).
pub proof fn lemma_add_twice_through_file(t: Seq<char>, p: InstalledView)
    requires
        storable(p),
        forall|i: int|
            0 <= i < parse_manifest_spec(t).len() && (#[trigger] parse_manifest_spec(t)[i]).name
                != p.name ==> !ends_with_two_cr(parse_manifest_spec(t)[i].prefix),
    ensures
        ({
            let once = parse_manifest_spec(manifest_text(add_spec(parse_manifest_spec(t), p)));
            &&& once == add_spec(parse_manifest_spec(t), p).map_values(|r: InstalledView| reread(r))
            &&& parse_manifest_spec(manifest_text(add_spec(once, p))) == once
        }),
{
    broadcast use vstd::seq_lib::group_filter_ensures;

    let all = parse_manifest_spec(t);
    lemma_parsed_loadable(t);
    let k = all.filter(other_name(p.name));
    let a = add_spec(all, p);
    assert forall|i: int| 0 <= i < a.len() implies loadable(#[trigger] a[i]) by {
        if i < k.len() {
            assert(k.contains(k[i]));
            all.lemma_filter_contains_rev(other_name(p.name), k[i]);
        }
    }
    lemma_manifest_reread(a);
    let once = a.map_values(|r: InstalledView| reread(r));
    let k2 = k.map_values(|r: InstalledView| reread(r));
    assert(once =~= k2.push(p));
    assert forall|i: int| 0 <= i < k2.len() implies storable(#[trigger] k2[i]) && other_name(p.name)(k2[i]) by {
        assert(k.contains(k[i]));
        all.lemma_filter_contains_rev(other_name(p.name), k[i]);
        let m = choose|m: int| 0 <= m < all.len() && all[m] == k[i];
        assert(all[m].name != p.name);
        assert(!ends_with_two_cr(all[m].prefix));
        assert(loadable(all[m]));
        lemma_strip_cr_field(all[m].prefix);
        if all[m].prefix.len() > 0 && all[m].prefix.last() == '\r' {
            let d = all[m].prefix.drop_last();
            if d.len() > 0 {
                assert(d.last() == all[m].prefix[all[m].prefix.len() - 2]);
            }
        }
    }
    assert forall|j: int| 0 <= j < k2.len() implies other_name(p.name)(#[trigger] k2[j]) by {}
    lemma_filter_keeps_all(k2, other_name(p.name));
    reveal_with_fuel(Seq::<_>::filter, 1);
    assert(k2.push(p).drop_last() =~= k2);
    assert(add_spec(once, p) =~= once);
    assert forall|i: int| 0 <= i < once.len() implies storable(#[trigger] once[i]) by {
        if i < k2.len() {
            assert(once[i] == k2[i]);
        }
    }
    lemma_manifest_roundtrip(once);
}

/// With distinct names, after removing a name no record of it is left.
pub proof fn lemma_remove_leaves_no_record(all: Seq<InstalledView>, name: Seq<char>)
    requires
        distinct_names(all),
    ensures
        match find_index(all, name) {
            Some(i) => find_index(all.remove(i), name) is None,
            None => true,
        },
{
    crate::text::lemma_first_index_where_found(all, has_name(name));
    match find_index(all, name) {
        Some(i) => {
            let r = all.remove(i);
            assert forall|j: int| 0 <= j < r.len() implies !(#[trigger] has_name(name)(r[j])) by {
                if j < i {
                    assert(r[j] == all[j]);
                } else {
                    assert(r[j] == all[j + 1]);
                    assert(all[j + 1].name != all[i].name);
                }
            }
            lemma_first_index_where(r, has_name(name), r.len() as int);
        },
        None => {},
    }
}

// ---------------------------------------------------------------------------
// Executable functions
// ---------------------------------------------------------------------------

fn manifest_entry_exec(line: &str) -> (r: Option<InstalledPackage>)
    ensures
        match r {
            Some(p) => manifest_entry(line@) == Some(p@),
            None => manifest_entry(line@) is None,
        },
{
    let parts = split_class(line, CharClass::Is('\t'));
    if parts.len() != 4 {
        return None;
    }
    let p = InstalledPackage {
        name: parts[0].clone(),
        version: parts[1].clone(),
        sha256: parts[2].clone(),
        prefix: parts[3].clone(),
    };
    proof {
        let pv = views(parts@);
        assert(pv[0] == parts@[0]@);
        assert(pv[1] == parts@[1]@);
        assert(pv[2] == parts@[2]@);
        assert(pv[3] == parts@[3]@);
    }
    Some(p)
}

/// Reads a manifest text; lines that do not hold exactly four tab-separated
/// fields are skipped.
pub fn parse_manifest(content: &str) -> (r: Vec<InstalledPackage>)
    ensures
        installed_views(r@) == parse_manifest_spec(content@),
{
    let ls = lines(content);
    let ghost lv = views(ls@);
    let ghost f = |l: Seq<char>| manifest_entry(l);
    let mut out: Vec<InstalledPackage> = Vec::new();
    proof {
        assert(installed_views(out@) =~= lv.take(0).filter_map(f));
    }
    for i in 0..ls.len()
        invariant
            lv == views(ls@),
            lv == lines_of(content@),
            f == (|l: Seq<char>| manifest_entry(l)),
            installed_views(out@) == lv.take(i as int).filter_map(f),
    {
        proof {
            assert(lv.take(i + 1).drop_last() =~= lv.take(i as int));
            assert(lv[i as int] == ls@[i as int]@);
        }
        match manifest_entry_exec(ls[i].as_str()) {
            Some(p) => {
                proof {
                    assert(installed_views(out@.push(p)) =~= installed_views(out@) + seq![p@]);
                }
                out.push(p);
            },
            None => {},
        }
    }
    proof {
        assert(lv.take(ls@.len() as int) =~= lv);
    }
    out
}

/// The manifest text for `packages`.
pub fn serialize_manifest(packages: &[InstalledPackage]) -> (r: String)
    ensures
        r@ == manifest_text(installed_views(packages@)),
{
    let ghost pv = installed_views(packages@);
    let mut out = String::new();
    proof {
        reveal_strlit("\t");
        reveal_strlit("\n");
        assert(pv.take(0) =~= Seq::<InstalledView>::empty());
    }
    for i in 0..packages.len()
        invariant
            pv == installed_views(packages@),
            out@ == manifest_text(pv.take(i as int)),
            "\t"@ == seq!['\t'],
            "\n"@ == seq!['\n'],
    {
        let p = &packages[i];
        let ghost before = out@;
        out.append(p.name.as_str());
        out.append("\t");
        out.append(p.version.as_str());
        out.append("\t");
        out.append(p.sha256.as_str());
        out.append("\t");
        out.append(p.prefix.as_str());
        out.append("\n");
        proof {
            assert(pv.take(i + 1).drop_last() =~= pv.take(i as int));
            assert(pv.take(i + 1).last() == p@);
            assert(out@ =~= before + record_line(p@).push('\n'));
        }
    }
    proof {
        assert(pv.take(packages@.len() as int) =~= pv);
    }
    out
}

/// Records `pkg`: earlier records with its name are dropped and `pkg` is appended.
pub fn add(all: &mut Vec<InstalledPackage>, pkg: InstalledPackage)
    ensures
        installed_views(final(all)@) == add_spec(installed_views(old(all)@), pkg@),
{
    let ghost pv = installed_views(all@);
    let ghost keep = other_name(pkg@.name);
    let mut kept: Vec<InstalledPackage> = Vec::new();
    proof {
        reveal_with_fuel(Seq::<_>::filter, 1);
        assert(installed_views(kept@) =~= pv.take(0).filter(keep));
    }
    for i in 0..all.len()
        invariant
            pv == installed_views(all@),
            keep == other_name(pkg@.name),
            installed_views(kept@) == pv.take(i as int).filter(keep),
    {
        proof {
            reveal_with_fuel(Seq::<_>::filter, 1);
            assert(pv.take(i + 1).drop_last() =~= pv.take(i as int));
            assert(pv[i as int] == all@[i as int]@);
        }
        if !str_eq(all[i].name.as_str(), pkg.name.as_str()) {
            let q = all[i].clone();
            proof {
                assert(installed_views(kept@.push(q)) =~= installed_views(kept@).push(q@));
            }
            kept.push(q);
        }
    }
    proof {
        assert(pv.take(all@.len() as int) =~= pv);
        assert(installed_views(kept@.push(pkg)) =~= installed_views(kept@).push(pkg@));
    }
    kept.push(pkg);
    *all = kept;
}

/// Removes the first record named `name` and gives it back; `None`, and the
/// list unchanged, when there is none.
pub fn remove(all: &mut Vec<InstalledPackage>, name: &str) -> (r: Option<InstalledPackage>)
    ensures
        match find_index(installed_views(old(all)@), name@) {
            Some(i) => r matches Some(p) && p@ == installed_views(old(all)@)[i] && installed_views(
                final(all)@,
            ) == installed_views(old(all)@).remove(i),
            None => r is None && final(all)@ == old(all)@,
        },
{
    let ghost pv = installed_views(all@);
    let ghost orig = all@;
    let n = all.len();
    let mut i: usize = 0;
    while i < n
        invariant
            pv == installed_views(all@),
            all@ == orig,
            orig == old(all)@,
            n == all@.len(),
            i <= n,
            forall|j: int| 0 <= j < i ==> !(#[trigger] has_name(name@)(pv[j])),
        decreases n - i,
    {
        proof {
            assert(pv[i as int] == all@[i as int]@);
        }
        if str_eq(all[i].name.as_str(), name) {
            proof {
                lemma_first_index_where(pv, has_name(name@), i as int);
            }
            let ghost before = all@;
            let p = all.remove(i);
            proof {
                assert(p@ == pv[i as int]);
                assert(installed_views(all@) =~= installed_views(before).remove(i as int));
            }
            return Some(p);
        }
        i = i + 1;
    }
    proof {
        lemma_first_index_where(pv, has_name(name@), i as int);
    }
    None
}

/// The first record named exactly `name`.
pub fn find<'a>(packages: &'a [InstalledPackage], name: &str) -> (r: Option<&'a InstalledPackage>)
    ensures
        r == (match find_index(installed_views(packages@), name@) {
            Some(i) => Some(&packages@[i]),
            None => None,
        }),
{
    let ghost pv = installed_views(packages@);
    let n = packages.len();
    let mut i: usize = 0;
    while i < n
        invariant
            pv == installed_views(packages@),
            n == packages@.len(),
            i <= n,
            forall|j: int| 0 <= j < i ==> !(#[trigger] has_name(name@)(pv[j])),
        decreases n - i,
    {
        proof {
            assert(pv[i as int] == packages@[i as int]@);
        }
        if str_eq(packages[i].name.as_str(), name) {
            proof {
                lemma_first_index_where(pv, has_name(name@), i as int);
            }
            return Some(&packages[i]);
        }
        i = i + 1;
    }
    proof {
        lemma_first_index_where(pv, has_name(name@), i as int);
    }
    None
}

} // verus!
