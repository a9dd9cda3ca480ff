//! Character-level text handling shared by the parsers: trimming, splitting,
//! line breaking, searching and case folding, each stated over `Seq<char>`.

use vstd::prelude::*;
use vstd::string::*;

verus! {

/// A set of characters that trimming or splitting acts on.
#[derive(Clone, Copy, PartialEq, Eq, Debug)]
pub enum CharClass {
    /// Characters with the Unicode `White_Space` property.
    WhiteSpace,
    /// Exactly the given character.
    Is(char),
}

/// The Unicode `White_Space` property (the characters `char::is_whitespace` accepts).
pub open spec fn is_white_space(c: char) -> bool {
    let n = c as u32;
    ||| 0x09 <= n <= 0x0D
    ||| n == 0x20
    ||| n == 0x85
    ||| n == 0xA0
    ||| n == 0x1680
    ||| 0x2000 <= n <= 0x200A
    ||| n == 0x2028
    ||| n == 0x2029
    ||| n == 0x202F
    ||| n == 0x205F
    ||| n == 0x3000
}

pub open spec fn in_class(cls: CharClass, c: char) -> bool {
    match cls {
        CharClass::WhiteSpace => is_white_space(c),
        CharClass::Is(x) => c == x,
    }
}

/// `s` without its leading characters of class `cls`.
pub open spec fn trim_start_by(s: Seq<char>, cls: CharClass) -> Seq<char>
    decreases s.len(),
{
    if s.len() > 0 && in_class(cls, s[0]) {
        trim_start_by(s.drop_first(), cls)
    } else {
        s
    }
}

/// `s` without its trailing characters of class `cls`.
pub open spec fn trim_end_by(s: Seq<char>, cls: CharClass) -> Seq<char>
    decreases s.len(),
{
    if s.len() > 0 && in_class(cls, s.last()) {
        trim_end_by(s.drop_last(), cls)
    } else {
        s
    }
}

/// `s` without leading and trailing characters of class `cls`.
pub open spec fn trim_by(s: Seq<char>, cls: CharClass) -> Seq<char> {
    trim_end_by(trim_start_by(s, cls), cls)
}

/// What `str::trim` gives back.
pub open spec fn trim_ws(s: Seq<char>) -> Seq<char> {
    trim_by(s, CharClass::WhiteSpace)
}

/// The pieces of `s` between separators of class `cls`; there is always one
/// more piece than there are separators (what `str::split` yields).
pub open spec fn split_by(s: Seq<char>, cls: CharClass) -> Seq<Seq<char>>
    decreases s.len(),
{
    if s.len() == 0 {
        seq![Seq::<char>::empty()]
    } else {
        let prev = split_by(s.drop_last(), cls);
        if in_class(cls, s.last()) {
            prev.push(Seq::<char>::empty())
        } else {
            prev.update(prev.len() - 1, prev.last().push(s.last()))
        }
    }
}

/// `p` without one trailing carriage return.
pub open spec fn strip_cr(p: Seq<char>) -> Seq<char> {
    if p.len() > 0 && p.last() == '\r' {
        p.drop_last()
    } else {
        p
    }
}

/// What `str::lines` yields: the text split at `\n`, a `\r` right before a
/// `\n` dropped, and no empty line after a final line ending.
pub open spec fn lines_of(s: Seq<char>) -> Seq<Seq<char>> {
    let parts = split_by(s, CharClass::Is('\n'));
    let n = if parts.last().len() == 0 {
        parts.len() - 1
    } else {
        parts.len() as int
    };
    Seq::new(
        n as nat,
        |j: int|
            if j < parts.len() - 1 {
                strip_cr(parts[j])
            } else {
                parts[j]
            },
    )
}

pub open spec fn non_empty(w: Seq<char>) -> bool {
    w.len() > 0
}

/// What `str::split_whitespace` yields: the non-empty runs of non-white-space characters.
pub open spec fn words_of(s: Seq<char>) -> Seq<Seq<char>> {
    split_by(s, CharClass::WhiteSpace).filter(|w: Seq<char>| non_empty(w))
}

/// Index of the first occurrence of `c` in `s`.
pub open spec fn find_first(s: Seq<char>, c: char) -> Option<int>
    decreases s.len(),
{
    if s.len() == 0 {
        None
    } else if s[0] == c {
        Some(0)
    } else {
        match find_first(s.drop_first(), c) {
            Some(i) => Some(i + 1),
            None => None,
        }
    }
}

/// Index of the first element of `s` that satisfies `p`.
pub open spec fn first_index_where<T>(s: Seq<T>, p: spec_fn(T) -> bool) -> Option<int>
    decreases s.len(),
{
    if s.len() == 0 {
        None
    } else if p(s[0]) {
        Some(0)
    } else {
        match first_index_where(s.drop_first(), p) {
            Some(i) => Some(i + 1),
            None => None,
        }
    }
}

pub open spec fn starts_with(s: Seq<char>, p: Seq<char>) -> bool {
    p.len() <= s.len() && s.take(p.len() as int) == p
}

/// The code point of `c` with ASCII upper case mapped to lower case.
pub open spec fn ascii_fold(c: char) -> int {
    if 'A' <= c && c <= 'Z' {
        c as int + 32
    } else {
        c as int
    }
}

/// What `str::eq_ignore_ascii_case` decides.
pub open spec fn eq_ignore_ascii_case(a: Seq<char>, b: Seq<char>) -> bool {
    a.len() == b.len() && forall|i: int| 0 <= i < a.len() ==> ascii_fold(a[i]) == ascii_fold(b[i])
}

/// `needle` occurs as a contiguous part of `hay` (what `str::contains` decides).
pub open spec fn contains_seq(hay: Seq<char>, needle: Seq<char>) -> bool {
    exists|i: int|
        0 <= i && i + needle.len() <= hay.len() && #[trigger] hay.subrange(i, i + needle.len())
            == needle
}

/// The views of a sequence of strings.
pub open spec fn views(v: Seq<String>) -> Seq<Seq<char>> {
    v.map_values(|x: String| x@)
}

/// The decimal digits of `n`, most significant first (what `u32::to_string` gives).
pub open spec fn decimal(n: nat) -> Seq<char>
    decreases n,
{
    if n < 10 {
        seq![digit_char(n)]
    } else {
        decimal(n / 10).push(digit_char(n % 10))
    }
}

pub open spec fn digit_char(d: nat) -> char {
    (d + 48) as char
}

/// What `str::to_lowercase` gives back for a string with these characters
/// (the Unicode lower-case mapping of the whole text).
pub uninterp spec fn lowercase(s: Seq<char>) -> Seq<char>;

// ---------------------------------------------------------------------------
// Lemmas
// ---------------------------------------------------------------------------

pub proof fn lemma_views_push(v: Seq<String>, x: String)
    ensures
        views(v.push(x)) == views(v).push(x@),
{
    assert(views(v.push(x)) =~= views(v).push(x@));
}

pub proof fn lemma_split_by_len(s: Seq<char>, cls: CharClass)
    ensures
        split_by(s, cls).len() >= 1,
    decreases s.len(),
{
    if s.len() > 0 {
        lemma_split_by_len(s.drop_last(), cls);
    }
}

/// Appending a separator to the text opens a new, empty piece.
pub proof fn lemma_split_by_push_sep(s: Seq<char>, c: char, cls: CharClass)
    requires
        in_class(cls, c),
    ensures
        split_by(s.push(c), cls) == split_by(s, cls).push(Seq::<char>::empty()),
{
    assert(s.push(c).drop_last() =~= s);
}

/// Appending text without separators extends the last piece.
pub proof fn lemma_split_by_append_plain(s: Seq<char>, x: Seq<char>, cls: CharClass)
    requires
        forall|i: int| 0 <= i < x.len() ==> !in_class(cls, #[trigger] x[i]),
    ensures
        ({
            let p = split_by(s, cls);
            split_by(s + x, cls) == p.update(p.len() - 1, p.last() + x)
        }),
    decreases x.len(),
{
    lemma_split_by_len(s, cls);
    let p = split_by(s, cls);
    if x.len() == 0 {
        assert(s + x =~= s);
        assert(p.last() + x =~= p.last());
        assert(p.update(p.len() - 1, p.last() + x) =~= p);
    } else {
        let y = x.drop_last();
        assert forall|i: int| 0 <= i < y.len() implies !in_class(cls, #[trigger] y[i]) by {
            assert(y[i] == x[i]);
        }
        lemma_split_by_append_plain(s, y, cls);
        assert((s + x).drop_last() =~= s + y);
        assert((s + x).last() == x.last());
        assert(!in_class(cls, x[x.len() - 1]));
        let q = split_by(s + y, cls);
        assert(q == p.update(p.len() - 1, p.last() + y));
        assert((p.last() + y).push(x.last()) =~= p.last() + x);
        assert(q.update(q.len() - 1, q.last().push(x.last())) =~= p.update(
            p.len() - 1,
            p.last() + x,
        ));
    }
}

/// Every piece holds only characters of the text, and none of class `cls`:
/// what holds of each character of the text holds of each character of each piece.
pub proof fn lemma_split_by_chars(s: Seq<char>, cls: CharClass, ok: spec_fn(char) -> bool)
    requires
        forall|i: int| 0 <= i < s.len() ==> ok(#[trigger] s[i]),
    ensures
        forall|j: int, i: int|
            0 <= j < split_by(s, cls).len() && 0 <= i < split_by(s, cls)[j].len() ==> ok(
                #[trigger] split_by(s, cls)[j][i],
            ) && !in_class(cls, split_by(s, cls)[j][i]),
    decreases s.len(),
{
    if s.len() > 0 {
        let r = s.drop_last();
        assert forall|i: int| 0 <= i < r.len() implies ok(#[trigger] r[i]) by {
            assert(r[i] == s[i]);
        }
        lemma_split_by_chars(r, cls, ok);
        lemma_split_by_len(r, cls);
        let prev = split_by(r, cls);
        let q = split_by(s, cls);
        assert(ok(s[s.len() - 1]));
        assert forall|j: int, i: int| 0 <= j < q.len() && 0 <= i < q[j].len() implies ok(
            #[trigger] q[j][i],
        ) && !in_class(cls, q[j][i]) by {
            if in_class(cls, s.last()) {
                if j < prev.len() {
                    assert(q[j] == prev[j]);
                }
            } else {
                if j < prev.len() - 1 {
                    assert(q[j] == prev[j]);
                } else {
                    assert(q[j] == prev.last().push(s.last()));
                    if i < prev.last().len() {
                        assert(q[j][i] == prev[prev.len() - 1][i]);
                    }
                }
            }
        }
    }
}

/// Text without separators is a single piece.
pub proof fn lemma_split_by_plain(x: Seq<char>, cls: CharClass)
    requires
        forall|i: int| 0 <= i < x.len() ==> !in_class(cls, #[trigger] x[i]),
    ensures
        split_by(x, cls) == seq![x],
{
    let e = Seq::<char>::empty();
    lemma_split_by_append_plain(e, x, cls);
    assert(e + x =~= x);
    assert(e + x == x);
    assert(seq![e].update(0, e + x) =~= seq![x]);
}

/// Text, a separator, then text without separators: one more piece.
pub proof fn lemma_split_by_sep_then_plain(s: Seq<char>, c: char, x: Seq<char>, cls: CharClass)
    requires
        in_class(cls, c),
        forall|i: int| 0 <= i < x.len() ==> !in_class(cls, #[trigger] x[i]),
    ensures
        split_by(s.push(c) + x, cls) == split_by(s, cls).push(x),
{
    lemma_split_by_push_sep(s, c, cls);
    lemma_split_by_append_plain(s.push(c), x, cls);
    let p = split_by(s, cls).push(Seq::<char>::empty());
    assert(Seq::<char>::empty() + x =~= x);
    assert(p.update(p.len() - 1, p.last() + x) =~= split_by(s, cls).push(x));
}

/// Text, a separator, then more text: the pieces of the first text followed
/// by the pieces of the second.
pub proof fn lemma_split_by_join(a: Seq<char>, c: char, b: Seq<char>, cls: CharClass)
    requires
        in_class(cls, c),
    ensures
        split_by(a.push(c) + b, cls) == split_by(a, cls) + split_by(b, cls),
    decreases b.len(),
{
    if b.len() == 0 {
        assert(a.push(c) + b =~= a.push(c));
        lemma_split_by_push_sep(a, c, cls);
        assert(split_by(a, cls).push(Seq::<char>::empty()) =~= split_by(a, cls) + split_by(b, cls));
    } else {
        let b1 = b.drop_last();
        lemma_split_by_join(a, c, b1, cls);
        lemma_split_by_len(b1, cls);
        assert((a.push(c) + b).drop_last() =~= a.push(c) + b1);
        assert((a.push(c) + b).last() == b.last());
        let p = split_by(a, cls);
        let q = split_by(b1, cls);
        if in_class(cls, b.last()) {
            assert((p + q).push(Seq::<char>::empty()) =~= p + q.push(Seq::<char>::empty()));
        } else {
            let pq = p + q;
            assert(pq.update(pq.len() - 1, pq.last().push(b.last())) =~= p + q.update(
                q.len() - 1,
                q.last().push(b.last()),
            ));
        }
    }
}

proof fn lemma_trim_start_drop_last(p: Seq<char>, cls: CharClass)
    requires
        p.len() > 0,
        in_class(cls, p.last()),
    ensures
        trim_start_by(p.drop_last(), cls) == (if trim_start_by(p, cls).len() == 0 {
            Seq::<char>::empty()
        } else {
            trim_start_by(p, cls).drop_last()
        }),
        trim_start_by(p, cls).len() > 0 ==> trim_start_by(p, cls).last() == p.last(),
    decreases p.len(),
{
    if in_class(cls, p[0]) {
        if p.len() == 1 {
            assert(p.drop_first() =~= Seq::<char>::empty());
            assert(p.drop_last() =~= Seq::<char>::empty());
        } else {
            assert(p.drop_first().last() == p.last());
            lemma_trim_start_drop_last(p.drop_first(), cls);
            assert(p.drop_last()[0] == p[0]);
            assert(p.drop_last().drop_first() =~= p.drop_first().drop_last());
        }
    } else {
        assert(p.drop_last()[0] == p[0]);
    }
}

/// A trailing carriage return makes no difference once the text is trimmed.
pub proof fn lemma_trim_ws_strip_cr(p: Seq<char>)
    ensures
        trim_ws(strip_cr(p)) == trim_ws(p),
{
    let cls = CharClass::WhiteSpace;
    if p.len() > 0 && p.last() == '\r' {
        assert(is_white_space('\r'));
        lemma_trim_start_drop_last(p, cls);
        let t = trim_start_by(p, cls);
        if t.len() > 0 {
            assert(trim_end_by(t, cls) == trim_end_by(t.drop_last(), cls));
        }
    }
}

/// Filtering and mapping a concatenation is concatenating the results.
pub proof fn lemma_filter_map_add<A, B>(x: Seq<A>, y: Seq<A>, f: spec_fn(A) -> Option<B>)
    ensures
        (x + y).filter_map(f) == x.filter_map(f) + y.filter_map(f),
    decreases y.len(),
{
    if y.len() == 0 {
        assert(x + y =~= x);
        assert(x.filter_map(f) + y.filter_map(f) =~= x.filter_map(f));
    } else {
        lemma_filter_map_add(x, y.drop_last(), f);
        assert((x + y).drop_last() =~= x + y.drop_last());
        assert((x + y).last() == y.last());
        match f(y.last()) {
            Some(v) => {
                assert(x.filter_map(f) + y.drop_last().filter_map(f) + seq![v] =~= x.filter_map(f)
                    + (y.drop_last().filter_map(f) + seq![v]));
            },
            None => {},
        }
    }
}

/// Sequences whose elements map alike filter and map alike.
pub proof fn lemma_filter_map_pointwise<A, B>(x: Seq<A>, y: Seq<A>, f: spec_fn(A) -> Option<B>)
    requires
        x.len() == y.len(),
        forall|j: int| 0 <= j < x.len() ==> f(x[j]) == f(y[j]),
    ensures
        x.filter_map(f) == y.filter_map(f),
    decreases x.len(),
{
    if x.len() > 0 {
        assert forall|j: int| 0 <= j < x.len() - 1 implies f(x.drop_last()[j]) == f(
            y.drop_last()[j],
        ) by {
            assert(f(x[j]) == f(y[j]));
        }
        lemma_filter_map_pointwise(x.drop_last(), y.drop_last(), f);
        assert(f(x[x.len() - 1]) == f(y[y.len() - 1]));
    }
}

/// When a trailing carriage return and an empty line make no difference to
/// `f`, filtering the lines with `f` is filtering the `\n`-separated pieces.
pub proof fn lemma_lines_filter_map<B>(s: Seq<char>, f: spec_fn(Seq<char>) -> Option<B>)
    requires
        forall|p: Seq<char>| #[trigger] f(strip_cr(p)) == f(p),
        f(Seq::<char>::empty()) is None,
    ensures
        lines_of(s).filter_map(f) == split_by(s, CharClass::Is('\n')).filter_map(f),
{
    let parts = split_by(s, CharClass::Is('\n'));
    lemma_split_by_len(s, CharClass::Is('\n'));
    let m = Seq::new(
        parts.len(),
        |j: int|
            if j < parts.len() - 1 {
                strip_cr(parts[j])
            } else {
                parts[j]
            },
    );
    assert forall|j: int| 0 <= j < m.len() implies f(m[j]) == f(parts[j]) by {
        if j < parts.len() - 1 {
            assert(f(strip_cr(parts[j])) == f(parts[j]));
        }
    }
    lemma_filter_map_pointwise(m, parts, f);
    if parts.last().len() == 0 {
        assert(lines_of(s) =~= m.drop_last());
        assert(m.last() == parts.last());
        assert(parts.last() =~= Seq::<char>::empty());
        assert(m.filter_map(f) == m.drop_last().filter_map(f));
    } else {
        assert(lines_of(s) =~= m);
    }
}

pub proof fn lemma_find_first(s: Seq<char>, c: char, i: int)
    requires
        0 <= i <= s.len(),
        forall|j: int| 0 <= j < i ==> s[j] != c,
        i < s.len() ==> s[i] == c,
    ensures
        find_first(s, c) == (if i < s.len() {
            Some(i)
        } else {
            None
        }),
    decreases i,
{
    if i > 0 {
        assert forall|j: int| 0 <= j < i - 1 implies s.drop_first()[j] != c by {
            assert(s.drop_first()[j] == s[j + 1]);
        }
        lemma_find_first(s.drop_first(), c, i - 1);
    }
}

pub proof fn lemma_first_index_where<T>(s: Seq<T>, p: spec_fn(T) -> bool, i: int)
    requires
        0 <= i <= s.len(),
        forall|j: int| 0 <= j < i ==> !(#[trigger] p(s[j])),
        i < s.len() ==> p(s[i]),
    ensures
        first_index_where(s, p) == (if i < s.len() {
            Some(i)
        } else {
            None
        }),
    decreases i,
{
    if i > 0 {
        assert forall|j: int| 0 <= j < i - 1 implies !(#[trigger] p(s.drop_first()[j])) by {
            assert(s.drop_first()[j] == s[j + 1]);
        }
        lemma_first_index_where(s.drop_first(), p, i - 1);
    }
}

/// A found index satisfies the predicate, and nothing before it does.
pub proof fn lemma_first_index_where_found<T>(s: Seq<T>, p: spec_fn(T) -> bool)
    ensures
        match first_index_where(s, p) {
            Some(i) => 0 <= i < s.len() && p(s[i]) && forall|j: int| 0 <= j < i ==> !p(s[j]),
            None => forall|j: int| 0 <= j < s.len() ==> !p(s[j]),
        },
    decreases s.len(),
{
    if s.len() > 0 && !p(s[0]) {
        lemma_first_index_where_found(s.drop_first(), p);
        assert forall|j: int| 1 <= j < s.len() implies s[j] == s.drop_first()[j - 1] by {}
    }
}

/// A found index points at the character, and nothing before it is that character.
pub proof fn lemma_find_first_found(s: Seq<char>, c: char)
    ensures
        match find_first(s, c) {
            Some(i) => 0 <= i < s.len() && s[i] == c && forall|j: int| 0 <= j < i ==> s[j] != c,
            None => forall|j: int| 0 <= j < s.len() ==> s[j] != c,
        },
    decreases s.len(),
{
    if s.len() > 0 && s[0] != c {
        lemma_find_first_found(s.drop_first(), c);
        assert forall|j: int| 1 <= j < s.len() implies s[j] == s.drop_first()[j - 1] by {}
    }
}

pub proof fn lemma_trim_start_skip(s: Seq<char>, cls: CharClass, a: int)
    requires
        0 <= a <= s.len(),
        forall|j: int| 0 <= j < a ==> in_class(cls, #[trigger] s[j]),
    ensures
        trim_start_by(s, cls) == trim_start_by(s.skip(a), cls),
    decreases a,
{
    if a > 0 {
        assert(s.drop_first().skip(a - 1) =~= s.skip(a));
        assert forall|j: int| 0 <= j < a - 1 implies in_class(cls, #[trigger] s.drop_first()[j]) by {
            assert(s.drop_first()[j] == s[j + 1]);
        }
        lemma_trim_start_skip(s.drop_first(), cls, a - 1);
    } else {
        assert(s.skip(0) =~= s);
    }
}

pub proof fn lemma_trim_end_take(s: Seq<char>, cls: CharClass, b: int)
    requires
        0 <= b <= s.len(),
        forall|j: int| b <= j < s.len() ==> in_class(cls, #[trigger] s[j]),
    ensures
        trim_end_by(s, cls) == trim_end_by(s.take(b), cls),
    decreases s.len() - b,
{
    if b < s.len() {
        assert(s.drop_last().take(b) =~= s.take(b));
        lemma_trim_end_take(s.drop_last(), cls, b);
    } else {
        assert(s.take(b) =~= s);
    }
}

// ---------------------------------------------------------------------------
// Executable functions
// ---------------------------------------------------------------------------

/// Tests the Unicode `White_Space` property.
pub fn is_white_space_char(c: char) -> (r: bool)
    ensures
        r == is_white_space(c),
{
    let n = c as u32;
    (0x09 <= n && n <= 0x0D) || n == 0x20 || n == 0x85 || n == 0xA0 || n == 0x1680 || (0x2000
        <= n && n <= 0x200A) || n == 0x2028 || n == 0x2029 || n == 0x202F || n == 0x205F || n
        == 0x3000
}

pub fn class_contains(cls: CharClass, c: char) -> (r: bool)
    ensures
        r == in_class(cls, c),
{
    match cls {
        CharClass::WhiteSpace => is_white_space_char(c),
        CharClass::Is(x) => c == x,
    }
}

/// The characters of `s`.
pub fn chars_of(s: &str) -> (r: Vec<char>)
    ensures
        r@ == s@,
{
    let mut v: Vec<char> = Vec::new();
    for c in it: s.chars()
        invariant
            v@ == it.seq().take(it.index() as int),
            it.seq() == s@,
    {
        v.push(c);
    }
    v
}

/// The characters of `s` from index `from` up to `to`, as a new string.
pub fn substring(s: &str, from: usize, to: usize) -> (r: String)
    requires
        from <= to <= s@.len(),
    ensures
        r@ == s@.subrange(from as int, to as int),
{
    String::from_str(s.substring_char(from, to))
}

/// A copy of `s`.
pub fn copy_str(s: &str) -> (r: String)
    ensures
        r@ == s@,
{
    String::from_str(s)
}

/// `s` without leading and trailing characters of class `cls`.
pub fn trim_class(s: &str, cls: CharClass) -> (r: String)
    ensures
        r@ == trim_by(s@, cls),
{
    let cs = chars_of(s);
    let n = cs.len();
    let mut a: usize = 0;
    while a < n && class_contains(cls, cs[a])
        invariant
            cs@ == s@,
            n == s@.len(),
            a <= n,
            forall|j: int| 0 <= j < a ==> in_class(cls, #[trigger] s@[j]),
        decreases n - a,
    {
        a = a + 1;
    }
    proof {
        lemma_trim_start_skip(s@, cls, a as int);
        if a < n {
            assert(!in_class(cls, s@.skip(a as int)[0]));
        }
        assert(trim_start_by(s@.skip(a as int), cls) == s@.skip(a as int));
    }
    let mut b: usize = n;
    while b > a && class_contains(cls, cs[b - 1])
        invariant
            cs@ == s@,
            n == s@.len(),
            a <= b <= n,
            forall|j: int| b <= j < n ==> in_class(cls, #[trigger] s@[j]),
        decreases b - a,
    {
        b = b - 1;
    }
    proof {
        let t = s@.skip(a as int);
        assert forall|j: int| b - a <= j < t.len() implies in_class(cls, #[trigger] t[j]) by {
            assert(t[j] == s@[j + a]);
        }
        lemma_trim_end_take(t, cls, b - a);
        let u = t.take(b - a);
        assert(u =~= s@.subrange(a as int, b as int));
        if b > a {
            assert(u.last() == s@[b - 1]);
        }
        assert(trim_end_by(u, cls) == u);
    }
    substring(s, a, b)
}

/// What `str::trim` gives back.
pub fn trim(s: &str) -> (r: String)
    ensures
        r@ == trim_ws(s@),
{
    trim_class(s, CharClass::WhiteSpace)
}

/// The pieces of `s` between separators of class `cls`.
pub fn split_class(s: &str, cls: CharClass) -> (r: Vec<String>)
    ensures
        views(r@) == split_by(s@, cls),
{
    let cs = chars_of(s);
    let n = cs.len();
    let mut parts: Vec<String> = Vec::new();
    let mut start: usize = 0;
    proof {
        assert(s@.take(0) =~= Seq::<char>::empty());
        assert(views(parts@).push(s@.subrange(0, 0)) =~= seq![Seq::<char>::empty()]);
    }
    for i in 0..n
        invariant
            cs@ == s@,
            n == s@.len(),
            start <= i,
            views(parts@).push(s@.subrange(start as int, i as int)) == split_by(
                s@.take(i as int),
                cls,
            ),
    {
        proof {
            assert(s@.take(i + 1).drop_last() =~= s@.take(i as int));
            assert(s@.take(i + 1).last() == s@[i as int]);
        }
        if class_contains(cls, cs[i]) {
            let piece = substring(s, start, i);
            proof {
                lemma_views_push(parts@, piece);
                assert(s@.subrange((i + 1) as int, (i + 1) as int) =~= Seq::<char>::empty());
            }
            parts.push(piece);
            start = i + 1;
        } else {
            proof {
                let p = views(parts@).push(s@.subrange(start as int, i as int));
                assert(s@.subrange(start as int, i as int).push(s@[i as int]) =~= s@.subrange(
                    start as int,
                    (i + 1) as int,
                ));
                assert(p.update(p.len() - 1, p.last().push(s@[i as int])) =~= views(parts@).push(
                    s@.subrange(start as int, (i + 1) as int),
                ));
            }
        }
    }
    let last = substring(s, start, n);
    proof {
        lemma_views_push(parts@, last);
        assert(s@.take(n as int) =~= s@);
    }
    parts.push(last);
    parts
}

/// `s` without one trailing carriage return.
pub fn strip_trailing_cr(s: &str) -> (r: String)
    ensures
        r@ == strip_cr(s@),
{
    let n = s.unicode_len();
    if n > 0 && s.get_char(n - 1) == '\r' {
        let r = substring(s, 0, n - 1);
        proof {
            assert(r@ =~= s@.drop_last());
        }
        r
    } else {
        copy_str(s)
    }
}

/// The lines of `s` (what `str::lines` yields).
pub fn lines(s: &str) -> (r: Vec<String>)
    ensures
        views(r@) == lines_of(s@),
{
    let parts = split_class(s, CharClass::Is('\n'));
    proof {
        lemma_split_by_len(s@, CharClass::Is('\n'));
    }
    let k = parts.len();
    let ghost pv = views(parts@);
    assert(pv.last() == parts@[k - 1]@);
    let count: usize = if parts[k - 1].as_str().is_empty() {
        k - 1
    } else {
        k
    };
    let mut out: Vec<String> = Vec::new();
    for j in 0..count
        invariant
            k == parts@.len(),
            pv == views(parts@),
            pv == split_by(s@, CharClass::Is('\n')),
            count <= k,
            count == lines_of(s@).len(),
            views(out@) == lines_of(s@).take(j as int),
    {
        let line = if j < k - 1 {
            strip_trailing_cr(parts[j].as_str())
        } else {
            copy_str(parts[j].as_str())
        };
        proof {
            assert(pv[j as int] == parts@[j as int]@);
            lemma_views_push(out@, line);
            assert(lines_of(s@).take(j + 1) =~= lines_of(s@).take(j as int).push(line@));
        }
        out.push(line);
    }
    proof {
        assert(lines_of(s@).take(count as int) =~= lines_of(s@));
    }
    out
}

/// The non-empty runs of non-white-space characters of `s` (what `str::split_whitespace` yields).
pub fn split_whitespace(s: &str) -> (r: Vec<String>)
    ensures
        views(r@) == words_of(s@),
{
    let parts = split_class(s, CharClass::WhiteSpace);
    let ghost pv = views(parts@);
    let ghost pred = |w: Seq<char>| non_empty(w);
    let mut out: Vec<String> = Vec::new();
    for j in 0..parts.len()
        invariant
            pv == views(parts@),
            pv == split_by(s@, CharClass::WhiteSpace),
            pred == (|w: Seq<char>| non_empty(w)),
            views(out@) == pv.take(j as int).filter(pred),
    {
        proof {
            reveal_with_fuel(Seq::<_>::filter, 1);
            assert(pv.take(j + 1).drop_last() =~= pv.take(j as int));
            assert(pv[j as int] == parts@[j as int]@);
        }
        if !parts[j].as_str().is_empty() {
            let w = copy_str(parts[j].as_str());
            proof {
                lemma_views_push(out@, w);
            }
            out.push(w);
        }
    }
    proof {
        assert(pv.take(parts@.len() as int) =~= pv);
    }
    out
}

/// The index of the first `c` in `cs`.
pub fn position_of(cs: &Vec<char>, c: char) -> (r: Option<usize>)
    ensures
        match r {
            Some(i) => find_first(cs@, c) == Some(i as int),
            None => find_first(cs@, c) is None,
        },
{
    let n = cs.len();
    let mut i: usize = 0;
    while i < n
        invariant
            n == cs@.len(),
            i <= n,
            forall|j: int| 0 <= j < i ==> cs@[j] != c,
        decreases n - i,
    {
        if cs[i] == c {
            proof {
                lemma_find_first(cs@, c, i as int);
            }
            return Some(i);
        }
        i = i + 1;
    }
    proof {
        lemma_find_first(cs@, c, i as int);
    }
    None
}

/// Whether `s` begins with `p`.
pub fn has_prefix(s: &str, p: &str) -> (r: bool)
    ensures
        r == starts_with(s@, p@),
{
    let n = s.unicode_len();
    let m = p.unicode_len();
    if m > n {
        return false;
    }
    let sc = chars_of(s);
    let pc = chars_of(p);
    let mut i: usize = 0;
    while i < m
        invariant
            sc@ == s@,
            pc@ == p@,
            m == p@.len(),
            m <= n,
            n == s@.len(),
            i <= m,
            forall|j: int| 0 <= j < i ==> s@[j] == p@[j],
        decreases m - i,
    {
        if sc[i] != pc[i] {
            proof {
                assert(s@.take(m as int)[i as int] != p@[i as int]);
            }
            return false;
        }
        i = i + 1;
    }
    proof {
        assert(s@.take(m as int) =~= p@);
    }
    true
}

/// Whether `a` and `b` hold the same characters.
pub fn str_eq(a: &str, b: &str) -> (r: bool)
    ensures
        r == (a@ == b@),
{
    let ac = chars_of(a);
    let bc = chars_of(b);
    if ac.len() != bc.len() {
        return false;
    }
    let n = ac.len();
    let mut i: usize = 0;
    while i < n
        invariant
            ac@ == a@,
            bc@ == b@,
            n == a@.len(),
            n == b@.len(),
            i <= n,
            forall|j: int| 0 <= j < i ==> a@[j] == b@[j],
        decreases n - i,
    {
        if ac[i] != bc[i] {
            return false;
        }
        i = i + 1;
    }
    proof {
        assert(a@ =~= b@);
    }
    true
}

/// What `str::eq_ignore_ascii_case` decides.
pub fn equal_ignoring_ascii_case(a: &str, b: &str) -> (r: bool)
    ensures
        r == eq_ignore_ascii_case(a@, b@),
{
    let ac = chars_of(a);
    let bc = chars_of(b);
    if ac.len() != bc.len() {
        return false;
    }
    let n = ac.len();
    let mut i: usize = 0;
    while i < n
        invariant
            ac@ == a@,
            bc@ == b@,
            n == a@.len(),
            n == b@.len(),
            i <= n,
            forall|j: int| 0 <= j < i ==> ascii_fold(a@[j]) == ascii_fold(b@[j]),
        decreases n - i,
    {
        if fold_char(ac[i]) != fold_char(bc[i]) {
            return false;
        }
        i = i + 1;
    }
    true
}

/// The code point of `c`, ASCII upper case mapped to lower case.
pub fn fold_char(c: char) -> (r: u32)
    ensures
        r as int == ascii_fold(c),
{
    if 'A' <= c && c <= 'Z' {
        (c as u32) + 32
    } else {
        c as u32
    }
}

/// Whether `needle` occurs in `hay` (what `str::contains` decides for a string pattern).
pub fn contains_str(hay: &str, needle: &str) -> (r: bool)
    ensures
        r == contains_seq(hay@, needle@),
{
    let hc = chars_of(hay);
    let nc = chars_of(needle);
    let n = hc.len();
    let m = nc.len();
    if m > n {
        proof {
            assert forall|i: int| 0 <= i && i + m <= n implies #[trigger] hay@.subrange(
                i,
                i + m,
            ) != needle@ by {}
        }
        return false;
    }
    let mut i: usize = 0;
    while i <= n - m
        invariant
            hc@ == hay@,
            nc@ == needle@,
            n == hay@.len(),
            m == needle@.len(),
            m <= n,
            forall|k: int| 0 <= k < i ==> #[trigger] hay@.subrange(k, k + m) != needle@,
        decreases n - m + 1 - i,
    {
        let mut j: usize = 0;
        while j < m && hc[i + j] == nc[j]
            invariant
                hc@ == hay@,
                nc@ == needle@,
                n == hay@.len(),
                m == needle@.len(),
                i + m <= n,
                j <= m,
                forall|t: int| 0 <= t < j ==> hay@[i + t] == needle@[t],
            decreases m - j,
        {
            j = j + 1;
        }
        if j == m {
            proof {
                assert(hay@.subrange(i as int, i + m) =~= needle@);
            }
            return true;
        }
        proof {
            assert(hay@.subrange(i as int, i + m)[j as int] != needle@[j as int]);
        }
        i = i + 1;
    }
    proof {
        assert forall|k: int| 0 <= k && k + m <= n implies #[trigger] hay@.subrange(k, k + m)
            != needle@ by {}
    }
    false
}

/// The decimal representation of `n`.
pub fn decimal_string(n: u32) -> (r: String)
    ensures
        r@ == decimal(n as nat),
    decreases n,
{
    let mut s = if n >= 10 {
        decimal_string(n / 10)
    } else {
        String::new()
    };
    let d = n % 10;
    s.append(digit_str(d));
    proof {
        if n < 10 {
            assert(s@ =~= seq![digit_char(n as nat)]);
        }
    }
    s
}

fn digit_str(d: u32) -> (c: &'static str)
    requires
        d < 10,
    ensures
        c@ == seq![digit_char(d as nat)],
{
    if d == 0 {
        proof {
            reveal_strlit("0");
        }
        return "0";
    }
    if d == 1 {
        proof {
            reveal_strlit("1");
        }
        return "1";
    }
    if d == 2 {
        proof {
            reveal_strlit("2");
        }
        return "2";
    }
    if d == 3 {
        proof {
            reveal_strlit("3");
        }
        return "3";
    }
    if d == 4 {
        proof {
            reveal_strlit("4");
        }
        return "4";
    }
    if d == 5 {
        proof {
            reveal_strlit("5");
        }
        return "5";
    }
    if d == 6 {
        proof {
            reveal_strlit("6");
        }
        return "6";
    }
    if d == 7 {
        proof {
            reveal_strlit("7");
        }
        return "7";
    }
    if d == 8 {
        proof {
            reveal_strlit("8");
        }
        return "8";
    }
    proof {
        reveal_strlit("9");
    }
    "9"
}

/// `s` lower-cased through std's `str::to_lowercase`. Trusted: the contract
/// claims only that the result's characters are `lowercase` of the
/// argument's characters, a function of those characters alone; what the
/// Unicode lower-case mapping is, is left unstated.
#[verifier::external_body]
pub(crate) fn to_lowercase(s: &str) -> (r: String)
    ensures
        r@ == lowercase(s@),
{
    s.to_lowercase()
}

/// `a` followed by `b`.
pub fn concat(a: &str, b: &str) -> (r: String)
    ensures
        r@ == a@ + b@,
{
    let mut s = String::from_str(a);
    s.append(b);
    s
}

} // verus!
