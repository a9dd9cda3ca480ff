//! Linux distribution detection from the text of `/etc/os-release`.

use vstd::prelude::*;
use vstd::string::*;

use crate::text::{
    chars_of, find_first, lemma_find_first_found, lines, lines_of, position_of, split_whitespace,
    str_eq, substring, trim, trim_by, trim_class, trim_ws, views, words_of, CharClass,
    is_white_space, trim_end_by, trim_start_by,
};

verus! {

/// The family a distribution belongs to.
#[derive(Clone, Copy, PartialEq, Eq, Debug, Structural)]
pub enum DistroFamily {
    Debian,
    RedHat,
    Arch,
    Suse,
    Alpine,
    Gentoo,
    Unknown,
}

/// What the system says about itself.
#[derive(Debug, PartialEq, Eq)]
pub struct DistroInfo {
    /// e.g. "arch", "ubuntu", "fedora"
    pub id: String,
    /// e.g. ["debian"] for ubuntu
    pub id_like: Vec<String>,
    /// pretty name, e.g. "Ubuntu"
    pub name: String,
    /// e.g. "24.04"
    pub version: String,
    pub family: DistroFamily,
}

/// The family a single identifier names, if any.
pub open spec fn tag_family(t: Seq<char>) -> Option<DistroFamily> {
    if t == "debian"@ || t == "ubuntu"@ {
        Some(DistroFamily::Debian)
    } else if t == "rhel"@ || t == "fedora"@ || t == "centos"@ {
        Some(DistroFamily::RedHat)
    } else if t == "arch"@ || t == "archlinux"@ || t == "manjaro"@ {
        Some(DistroFamily::Arch)
    } else if t == "suse"@ || t == "opensuse"@ {
        Some(DistroFamily::Suse)
    } else if t == "alpine"@ {
        Some(DistroFamily::Alpine)
    } else if t == "gentoo"@ {
        Some(DistroFamily::Gentoo)
    } else {
        None
    }
}

/// The family named by the first identifier that names one.
pub open spec fn classify_tags(tags: Seq<Seq<char>>) -> DistroFamily
    decreases tags.len(),
{
    if tags.len() == 0 {
        DistroFamily::Unknown
    } else {
        match tag_family(tags[0]) {
            Some(f) => f,
            None => classify_tags(tags.drop_first()),
        }
    }
}

/// The key and the value of an `os-release` line: the text before the first
/// `=`, and the text after it trimmed of white space and then of `"`.
pub open spec fn key_value(line: Seq<char>) -> Option<(Seq<char>, Seq<char>)> {
    match find_first(line, '=') {
        Some(i) => Some((line.take(i), trim_by(trim_ws(line.skip(i + 1)), CharClass::Is('"')))),
        None => None,
    }
}

/// The value of the last line with key `key`.
pub open spec fn last_value(ls: Seq<Seq<char>>, key: Seq<char>) -> Option<Seq<char>>
    decreases ls.len(),
{
    if ls.len() == 0 {
        None
    } else {
        match key_value(ls.last()) {
            Some((k, v)) if k == key => Some(v),
            _ => last_value(ls.drop_last(), key),
        }
    }
}

pub open spec fn value_or(v: Option<Seq<char>>, default: Seq<char>) -> Seq<char> {
    match v {
        Some(x) => x,
        None => default,
    }
}

pub open spec fn id_of(ls: Seq<Seq<char>>) -> Seq<char> {
    value_or(last_value(ls, "ID"@), "unknown"@)
}

pub open spec fn id_like_of(ls: Seq<Seq<char>>) -> Seq<Seq<char>> {
    match last_value(ls, "ID_LIKE"@) {
        Some(v) => words_of(v),
        None => Seq::<Seq<char>>::empty(),
    }
}

pub open spec fn family_name(f: DistroFamily) -> Seq<char> {
    match f {
        DistroFamily::Debian => "Debian"@,
        DistroFamily::RedHat => "RedHat"@,
        DistroFamily::Arch => "Arch"@,
        DistroFamily::Suse => "Suse"@,
        DistroFamily::Alpine => "Alpine"@,
        DistroFamily::Gentoo => "Gentoo"@,
        DistroFamily::Unknown => "Unknown"@,
    }
}

fn tag_family_exec(t: &str) -> (r: Option<DistroFamily>)
    ensures
        r == tag_family(t@),
{
    if str_eq(t, "debian") || str_eq(t, "ubuntu") {
        Some(DistroFamily::Debian)
    } else if str_eq(t, "rhel") || str_eq(t, "fedora") || str_eq(t, "centos") {
        Some(DistroFamily::RedHat)
    } else if str_eq(t, "arch") || str_eq(t, "archlinux") || str_eq(t, "manjaro") {
        Some(DistroFamily::Arch)
    } else if str_eq(t, "suse") || str_eq(t, "opensuse") {
        Some(DistroFamily::Suse)
    } else if str_eq(t, "alpine") {
        Some(DistroFamily::Alpine)
    } else if str_eq(t, "gentoo") {
        Some(DistroFamily::Gentoo)
    } else {
        None
    }
}

proof fn lemma_classify_skip(tags: Seq<Seq<char>>, i: int)
    requires
        0 <= i <= tags.len(),
        forall|j: int| 0 <= j < i ==> tag_family(#[trigger] tags[j]) is None,
    ensures
        classify_tags(tags) == classify_tags(tags.skip(i)),
    decreases i,
{
    if i > 0 {
        assert(tags.drop_first().skip(i - 1) =~= tags.skip(i));
        assert forall|j: int| 0 <= j < i - 1 implies tag_family(#[trigger] tags.drop_first()[j]) is None by {
            assert(tags.drop_first()[j] == tags[j + 1]);
        }
        lemma_classify_skip(tags.drop_first(), i - 1);
    } else {
        assert(tags.skip(0) =~= tags);
    }
}

impl DistroFamily {
    /// The family of the first identifier, among `id` and then `id_like`,
    /// that names a known family; `Unknown` when none does.
    pub fn classify(id: &str, id_like: &[String]) -> (r: DistroFamily)
        ensures
            r == classify_tags(seq![id@] + views(id_like@)),
    {
        let ghost tags = seq![id@] + views(id_like@);
        match tag_family_exec(id) {
            Some(f) => {
                return f;
            },
            None => {},
        }
        let mut i: usize = 0;
        while i < id_like.len()
            invariant
                tags == seq![id@] + views(id_like@),
                tag_family(id@) is None,
                i <= id_like@.len(),
                forall|j: int| 0 <= j < i + 1 ==> tag_family(#[trigger] tags[j]) is None,
            decreases id_like@.len() - i,
        {
            proof {
                assert(tags[i + 1] == id_like@[i as int]@);
            }
            match tag_family_exec(id_like[i].as_str()) {
                Some(f) => {
                    proof {
                        lemma_classify_skip(tags, i + 1);
                    }
                    return f;
                },
                None => {},
            }
            i = i + 1;
        }
        proof {
            lemma_classify_skip(tags, tags.len() as int);
            assert(tags.skip(tags.len() as int) =~= Seq::<Seq<char>>::empty());
        }
        DistroFamily::Unknown
    }

    /// The family's name as written in diagnostics.
    pub fn name(&self) -> (r: &'static str)
        ensures
            r@ == family_name(*self),
    {
        match self {
            DistroFamily::Debian => "Debian",
            DistroFamily::RedHat => "RedHat",
            DistroFamily::Arch => "Arch",
            DistroFamily::Suse => "Suse",
            DistroFamily::Alpine => "Alpine",
            DistroFamily::Gentoo => "Gentoo",
            DistroFamily::Unknown => "Unknown",
        }
    }
}

fn key_value_exec(line: &str) -> (r: Option<(String, String)>)
    ensures
        match r {
            Some((k, v)) => key_value(line@) == Some((k@, v@)),
            None => key_value(line@) is None,
        },
{
    let cs = chars_of(line);
    match position_of(&cs, '=') {
        None => None,
        Some(i) => {
            proof {
                lemma_find_first_found(line@, '=');
                assert(i < cs.len());
            }
            let key = substring(line, 0, i);
            let raw = substring(line, i + 1, cs.len());
            let t = trim(raw.as_str());
            let value = trim_class(t.as_str(), CharClass::Is('"'));
            proof {
                assert(key@ =~= line@.take(i as int));
                assert(raw@ =~= line@.skip(i + 1));
            }
            Some((key, value))
        },
    }
}

/// Reads the text of `/etc/os-release`. Missing keys keep the defaults
/// `unknown` (ID), no `ID_LIKE`, `Unknown` (NAME) and `?` (VERSION_ID);
/// when a key occurs more than once the last line wins.
pub fn parse_os_release(content: &str) -> (r: DistroInfo)
    ensures
        r.id@ == id_of(lines_of(content@)),
        views(r.id_like@) == id_like_of(lines_of(content@)),
        r.name@ == value_or(last_value(lines_of(content@), "NAME"@), "Unknown"@),
        r.version@ == value_or(last_value(lines_of(content@), "VERSION_ID"@), "?"@),
        r.family == classify_tags(seq![r.id@] + views(r.id_like@)),
{
    let ls = lines(content);
    let ghost lv = views(ls@);
    let mut id: Option<String> = None;
    let mut id_like: Option<String> = None;
    let mut name: Option<String> = None;
    let mut version: Option<String> = None;
    proof {
        assert(lv.take(0) =~= Seq::<Seq<char>>::empty());
    }
    for i in 0..ls.len()
        invariant
            lv == views(ls@),
            lv == lines_of(content@),
            opt_string_view(id) == last_value(lv.take(i as int), "ID"@),
            opt_string_view(id_like) == last_value(lv.take(i as int), "ID_LIKE"@),
            opt_string_view(name) == last_value(lv.take(i as int), "NAME"@),
            opt_string_view(version) == last_value(lv.take(i as int), "VERSION_ID"@),
    {
        proof {
            assert(lv.take(i + 1).drop_last() =~= lv.take(i as int));
            assert(lv[i as int] == ls@[i as int]@);
            assert(lv.take(i + 1).last() == ls@[i as int]@);
            reveal_strlit("ID");
            reveal_strlit("ID_LIKE");
            reveal_strlit("NAME");
            reveal_strlit("VERSION_ID");
            assert("ID"@.len() == 2 && "ID_LIKE"@.len() == 7 && "NAME"@.len() == 4
                && "VERSION_ID"@.len() == 10);
            assert("ID"@ != "ID_LIKE"@ && "ID"@ != "NAME"@ && "ID"@ != "VERSION_ID"@);
            assert("ID_LIKE"@ != "NAME"@ && "ID_LIKE"@ != "VERSION_ID"@ && "NAME"@ != "VERSION_ID"@);
        }
        match key_value_exec(ls[i].as_str()) {
            Some((k, v)) => {
                if str_eq(k.as_str(), "ID") {
                    id = Some(v);
                } else if str_eq(k.as_str(), "ID_LIKE") {
                    id_like = Some(v);
                } else if str_eq(k.as_str(), "NAME") {
                    name = Some(v);
                } else if str_eq(k.as_str(), "VERSION_ID") {
                    version = Some(v);
                }
            },
            None => {},
        }
    }
    proof {
        assert(lv.take(ls@.len() as int) =~= lv);
    }
    let id = match id {
        Some(v) => v,
        None => String::from_str("unknown"),
    };
    let id_like = match id_like {
        Some(v) => split_whitespace(v.as_str()),
        None => Vec::new(),
    };
    proof {
        if last_value(lv, "ID_LIKE"@) is None {
            assert(views(id_like@) =~= Seq::<Seq<char>>::empty());
        }
    }
    let name = match name {
        Some(v) => v,
        None => String::from_str("Unknown"),
    };
    let version = match version {
        Some(v) => v,
        None => String::from_str("?"),
    };
    let family = DistroFamily::classify(id.as_str(), id_like.as_slice());
    DistroInfo { id, id_like, name, version, family }
}

pub open spec fn opt_string_view(o: Option<String>) -> Option<Seq<char>> {
    match o {
        Some(s) => Some(s@),
        None => None,
    }
}

impl DistroInfo {
    /// The one-line description shown to the user: name, version and family.
    pub fn describe(&self) -> (r: String)
        ensures
            r@ == self.name@ + " "@ + self.version@ + " ("@ + family_name(self.family) + ")"@,
    {
        let mut s = String::from_str(self.name.as_str());
        s.append(" ");
        s.append(self.version.as_str());
        s.append(" (");
        s.append(self.family.name());
        s.append(")");
        s
    }
}

/// The family table: each of these identifiers, first among the
/// identifiers, names its family whatever follows it.
pub proof fn lemma_family_table(like: Seq<Seq<char>>)
    ensures
        classify_tags(seq!["debian"@] + like) == DistroFamily::Debian,
        classify_tags(seq!["ubuntu"@] + like) == DistroFamily::Debian,
        classify_tags(seq!["rhel"@] + like) == DistroFamily::RedHat,
        classify_tags(seq!["fedora"@] + like) == DistroFamily::RedHat,
        classify_tags(seq!["centos"@] + like) == DistroFamily::RedHat,
        classify_tags(seq!["arch"@] + like) == DistroFamily::Arch,
        classify_tags(seq!["archlinux"@] + like) == DistroFamily::Arch,
        classify_tags(seq!["manjaro"@] + like) == DistroFamily::Arch,
        classify_tags(seq!["suse"@] + like) == DistroFamily::Suse,
        classify_tags(seq!["opensuse"@] + like) == DistroFamily::Suse,
        classify_tags(seq!["alpine"@] + like) == DistroFamily::Alpine,
        classify_tags(seq!["gentoo"@] + like) == DistroFamily::Gentoo,
{
    reveal_strlit("debian");
    reveal_strlit("ubuntu");
    reveal_strlit("rhel");
    reveal_strlit("fedora");
    reveal_strlit("centos");
    reveal_strlit("arch");
    reveal_strlit("archlinux");
    reveal_strlit("manjaro");
    reveal_strlit("suse");
    reveal_strlit("opensuse");
    reveal_strlit("alpine");
    reveal_strlit("gentoo");
    assert("debian"@[0] == 'd' && "debian"@[1] == 'e' && "debian"@[2] == 'b' && "debian"@[3] == 'i');
    assert("ubuntu"@[0] == 'u' && "ubuntu"@[1] == 'b' && "ubuntu"@[2] == 'u' && "ubuntu"@[3] == 'n');
    assert("rhel"@[0] == 'r' && "rhel"@[1] == 'h' && "rhel"@[2] == 'e' && "rhel"@[3] == 'l');
    assert("fedora"@[0] == 'f' && "fedora"@[1] == 'e' && "fedora"@[2] == 'd' && "fedora"@[3] == 'o');
    assert("centos"@[0] == 'c' && "centos"@[1] == 'e' && "centos"@[2] == 'n' && "centos"@[3] == 't');
    assert("arch"@[0] == 'a' && "arch"@[1] == 'r' && "arch"@[2] == 'c' && "arch"@[3] == 'h');
    assert("archlinux"@[0] == 'a' && "archlinux"@[1] == 'r' && "archlinux"@[2] == 'c' && "archlinux"@[3] == 'h');
    assert("manjaro"@[0] == 'm' && "manjaro"@[1] == 'a' && "manjaro"@[2] == 'n' && "manjaro"@[3] == 'j');
    assert("suse"@[0] == 's' && "suse"@[1] == 'u' && "suse"@[2] == 's' && "suse"@[3] == 'e');
    assert("opensuse"@[0] == 'o' && "opensuse"@[1] == 'p' && "opensuse"@[2] == 'e' && "opensuse"@[3] == 'n');
    assert("alpine"@[0] == 'a' && "alpine"@[1] == 'l' && "alpine"@[2] == 'p' && "alpine"@[3] == 'i');
    assert("gentoo"@[0] == 'g' && "gentoo"@[1] == 'e' && "gentoo"@[2] == 'n' && "gentoo"@[3] == 't');
}

/// An identifier outside the family table is passed over: the family is
/// decided by the identifiers after it, and with none left it is `Unknown`.
pub proof fn lemma_unknown_identifier_skipped(id: Seq<char>, like: Seq<Seq<char>>)
    requires
        id != "debian"@ && id != "ubuntu"@ && id != "rhel"@ && id != "fedora"@ && id != "centos"@ && id != "arch"@ && id != "archlinux"@ && id != "manjaro"@ && id != "suse"@ && id != "opensuse"@ && id != "alpine"@ && id != "gentoo"@,
    ensures
        classify_tags(seq![id] + like) == classify_tags(like),
        classify_tags(Seq::<Seq<char>>::empty()) == DistroFamily::Unknown,
{
    assert((seq![id] + like).drop_first() =~= like);
}

/// The last line that sets a key decides its value, whatever came before:
/// after a line `KEY=VALUE` the key's value is `VALUE` trimmed of white space
/// and then of `"`, and a value written in quotes is read without them.
pub proof fn lemma_last_line_decides(ls: Seq<Seq<char>>, key: Seq<char>, v: Seq<char>)
    requires
        forall|i: int| 0 <= i < key.len() ==> #[trigger] key[i] != '=',
        forall|i: int| 0 <= i < v.len() ==> #[trigger] v[i] != '"',
    ensures
        last_value(ls.push(key.push('=') + v), key) == Some(trim_by(trim_ws(v), CharClass::Is('"'))),
        last_value(ls.push(key.push('=') + seq!['"'] + v + seq!['"']), key) == Some(v),
{
    lemma_key_value_of(key, v);
    let w = seq!['"'] + v + seq!['"'];
    lemma_key_value_of(key, w);
    assert(key.push('=') + seq!['"'] + v + seq!['"'] =~= key.push('=') + w);
    assert(ls.push(key.push('=') + v).last() == key.push('=') + v);
    assert(ls.push(key.push('=') + w).last() == key.push('=') + w);
    let ws = CharClass::WhiteSpace;
    let q = CharClass::Is('"');
    assert(w[0] == '"' && w.last() == '"');
    assert(!is_white_space('"'));
    assert(trim_start_by(w, ws) == w);
    assert(trim_end_by(w, ws) == w);
    assert(trim_ws(w) == w);
    let a = w.drop_first();
    assert(a =~= v + seq!['"']);
    if v.len() > 0 {
        assert(a[0] == v[0]);
        assert(trim_start_by(a, q) == a);
    } else {
        assert(a.drop_first() =~= Seq::<char>::empty());
        assert(trim_start_by(a.drop_first(), q) == a.drop_first());
    }
    assert(trim_start_by(w, q) == trim_start_by(a, q));
    let t = trim_start_by(w, q);
    if v.len() > 0 {
        assert(t.drop_last() =~= v);
        assert(v.last() == v[v.len() - 1]);
        assert(trim_end_by(v, q) == v);
    } else {
        assert(t =~= Seq::<char>::empty());
    }
}

proof fn lemma_key_value_of(key: Seq<char>, v: Seq<char>)
    requires
        forall|i: int| 0 <= i < key.len() ==> #[trigger] key[i] != '=',
    ensures
        key_value(key.push('=') + v) == Some((key, trim_by(trim_ws(v), CharClass::Is('"')))),
{
    let line = key.push('=') + v;
    assert forall|j: int| 0 <= j < key.len() implies line[j] != '=' by {
        assert(line[j] == key[j]);
    }
    assert(line[key.len() as int] == '=');
    crate::text::lemma_find_first(line, '=', key.len() as int);
    assert(line.take(key.len() as int) =~= key);
    assert(line.skip(key.len() as int + 1) =~= v);
}

} // verus!
