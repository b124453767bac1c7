//! The extension allow-list: parsing the configured list and matching paths.
use vstd::prelude::*;
use crate::text::lower_str;
use crate::text::spec_lower;
use crate::text::spec_trim;
use crate::text::trim_str;

verus! {

/// The index of the first comma, or the length when there is none.
pub open spec fn spec_first_comma(s: Seq<char>) -> int
    decreases s.len(),
{
    if s.len() == 0 {
        0
    } else if s[0] == ',' {
        0
    } else {
        1 + spec_first_comma(s.drop_first())
    }
}

/// The first comma's index is in range, and everything before it is not a
/// comma.
proof fn lemma_first_comma(s: Seq<char>)
    ensures
        0 <= spec_first_comma(s) <= s.len(),
        forall|k: int| 0 <= k < spec_first_comma(s) ==> s[k] != ',',
        spec_first_comma(s) < s.len() ==> s[spec_first_comma(s)] == ',',
    decreases s.len(),
{
    if s.len() > 0 && s[0] != ',' {
        lemma_first_comma(s.drop_first());
        assert forall|k: int| 0 <= k < spec_first_comma(s) implies s[k] != ',' by {
            if k > 0 {
                assert(s.drop_first()[k - 1] != ',');
            }
        }
    }
}

/// The comma-separated pieces of `s`, in order, commas removed.
pub open spec fn spec_split_commas(s: Seq<char>) -> Seq<Seq<char>>
    decreases s.len(),
{
    let i = spec_first_comma(s);
    if i < 0 || i >= s.len() {
        seq![s]
    } else {
        seq![s.take(i)] + spec_split_commas(s.skip(i + 1))
    }
}

/// `t` without its leading dots.
pub open spec fn spec_drop_leading_dots(t: Seq<char>) -> Seq<char>
    decreases t.len(),
{
    if t.len() == 0 {
        t
    } else if t[0] == '.' {
        spec_drop_leading_dots(t.drop_first())
    } else {
        t
    }
}

/// One cleaned list entry: trimmed, leading dots removed, lowercased.
pub open spec fn spec_clean_token(t: Seq<char>) -> Seq<char> {
    spec_lower(spec_drop_leading_dots(spec_trim(t)))
}

/// The cleaned entries of the pieces in order of first occurrence: empty
/// entries and repeats of entries already in `seen` are dropped.
pub open spec fn spec_distinct_entries(ts: Seq<Seq<char>>, seen: Seq<Seq<char>>) -> Seq<Seq<char>>
    decreases ts.len(),
{
    if ts.len() == 0 {
        Seq::empty()
    } else {
        let c = spec_clean_token(ts[0]);
        if c.len() > 0 && !seen.contains(c) {
            seq![c] + spec_distinct_entries(ts.drop_first(), seen.push(c))
        } else {
            spec_distinct_entries(ts.drop_first(), seen)
        }
    }
}

/// What parsing an extension list yields: the comma-separated entries,
/// trimmed, leading dots removed, lowercased; empty entries are dropped, and
/// of equal entries only the first is kept.
pub open spec fn spec_parse_extensions(s: Seq<char>) -> Seq<Seq<char>> {
    spec_distinct_entries(spec_split_commas(s), Seq::empty())
}

/// The views of a vector of strings.
pub open spec fn spec_views(v: Seq<String>) -> Seq<Seq<char>> {
    v.map_values(|t: String| t@)
}

/// Cleans one entry: trim, strip leading dots, lowercase.
fn clean_token(t: &str) -> (r: String)
    ensures
        r@ == spec_clean_token(t@),
{
    let trimmed = trim_str(t);
    let s = trimmed.as_str();
    let n = s.unicode_len();
    let mut i: usize = 0;
    proof {
        assert(s@.skip(0) =~= s@);
    }
    while i < n && s.get_char(i) == '.'
        invariant
            0 <= i <= n,
            n == s@.len(),
            spec_drop_leading_dots(s@) == spec_drop_leading_dots(s@.skip(i as int)),
        decreases n - i,
    {
        proof {
            assert(s@.skip(i as int).drop_first() =~= s@.skip(i as int + 1));
        }
        i = i + 1;
    }
    proof {
        if i < n {
            assert(spec_drop_leading_dots(s@.skip(i as int)) == s@.skip(i as int));
        } else {
            assert(s@.skip(i as int) =~= Seq::<char>::empty());
        }
        assert(s@.subrange(i as int, n as int) =~= s@.skip(i as int));
    }
    let stripped = s.substring_char(i, n);
    lower_str(stripped)
}

/// Splits a comma-separated extension list into cleaned entries: each entry
/// is trimmed, stripped of leading dots and lowercased; empty entries are
/// dropped, and of equal entries only the first is kept. Order of first
/// occurrence is kept.
pub fn parse_extensions(input: &str) -> (r: Vec<String>)
    ensures
        spec_views(r@) == spec_parse_extensions(input@),
{
    let mut acc: Vec<String> = Vec::new();
    parse_extensions_into(input, &mut acc);
    proof {
        assert(spec_views(Seq::<String>::empty()) =~= Seq::<Seq<char>>::empty());
        assert(Seq::<Seq<char>>::empty() + spec_parse_extensions(input@) =~= spec_parse_extensions(
            input@,
        ));
    }
    acc
}

/// Whether one of the strings reads as `t`.
fn contains_string(v: &Vec<String>, t: &String) -> (r: bool)
    ensures
        r == spec_views(v@).contains(t@),
{
    let n = v.len();
    let mut j: usize = 0;
    while j < n
        invariant
            0 <= j <= n,
            n == v@.len(),
            forall|k: int| 0 <= k < j ==> spec_views(v@)[k] != t@,
        decreases n - j,
    {
        if crate::xml::string_eq_str(&v[j], t.as_str()) {
            proof {
                assert(spec_views(v@)[j as int] == v@[j as int]@);
            }
            return true;
        }
        proof {
            assert(spec_views(v@)[j as int] == v@[j as int]@);
        }
        j = j + 1;
    }
    proof {
        assert(forall|k: int| 0 <= k < spec_views(v@).len() ==> spec_views(v@)[k] != t@);
    }
    false
}

/// Appends the cleaned entries of `s` to `acc`, one comma-separated piece at
/// a time.
fn parse_extensions_into(s: &str, acc: &mut Vec<String>)
    ensures
        spec_views(final(acc)@) == spec_views(old(acc)@) + spec_distinct_entries(
            spec_split_commas(s@),
            spec_views(old(acc)@),
        ),
    decreases s@.len(),
{
    let ghost acc0 = acc@;
    let n = s.unicode_len();
    let mut i: usize = 0;
    while i < n && s.get_char(i) != ','
        invariant
            0 <= i <= n,
            n == s@.len(),
            forall|k: int| 0 <= k < i ==> s@[k] != ',',
        decreases n - i,
    {
        i = i + 1;
    }
    proof {
        lemma_first_comma_at(s@, i as int);
    }
    let token = clean_token(s.substring_char(0, i));
    proof {
        assert(s@.subrange(0, i as int) =~= s@.take(i as int));
    }
    let fresh = !token.as_str().is_empty() && !contains_string(acc, &token);
    if fresh {
        acc.push(token);
    }
    let ghost acc1 = acc@;
    proof {
        if fresh {
            assert(spec_views(acc1) =~= spec_views(acc0).push(token@));
        }
    }
    if i < n {
        let rest = s.substring_char(i + 1, n);
        proof {
            assert(s@.subrange(i as int + 1, n as int) =~= s@.skip(i as int + 1));
        }
        parse_extensions_into(rest, acc);
        proof {
            assert(spec_split_commas(s@) =~= seq![s@.take(i as int)] + spec_split_commas(
                s@.skip(i as int + 1),
            ));
            lemma_distinct_cons(
                s@.take(i as int),
                spec_split_commas(s@.skip(i as int + 1)),
                spec_views(acc0),
            );
            assert(spec_views(acc@) =~= spec_views(acc0) + spec_distinct_entries(
                spec_split_commas(s@),
                spec_views(acc0),
            ));
        }
    } else {
        proof {
            assert(spec_split_commas(s@) =~= seq![s@]);
            assert(s@.take(i as int) =~= s@);
            lemma_distinct_cons(s@, Seq::<Seq<char>>::empty(), spec_views(acc0));
            assert(spec_distinct_entries(Seq::<Seq<char>>::empty(), spec_views(acc0).push(token@))
                =~= Seq::<Seq<char>>::empty());
            assert(spec_distinct_entries(Seq::<Seq<char>>::empty(), spec_views(acc0))
                =~= Seq::<Seq<char>>::empty());
            assert(spec_views(acc@) =~= spec_views(acc0) + spec_distinct_entries(
                spec_split_commas(s@),
                spec_views(acc0),
            ));
        }
    }
}

/// A scan that saw no comma before `i`, and stopped at `i`, found the first
/// comma.
proof fn lemma_first_comma_at(s: Seq<char>, i: int)
    requires
        0 <= i <= s.len(),
        forall|k: int| 0 <= k < i ==> s[k] != ',',
        i < s.len() ==> s[i] == ',',
    ensures
        spec_first_comma(s) == i,
    decreases i,
{
    if i > 0 {
        assert(forall|k: int| 0 <= k < s.drop_first().len() ==> s.drop_first()[k] == s[k + 1]);
        lemma_first_comma_at(s.drop_first(), i - 1);
    } else {
        if s.len() > 0 && s[0] != ',' {
            assert(false);
        }
    }
}

/// Splitting off the first piece distributes over keeping the distinct
/// non-empty cleaned entries.
proof fn lemma_distinct_cons(t: Seq<char>, rest: Seq<Seq<char>>, seen: Seq<Seq<char>>)
    ensures
        spec_distinct_entries(seq![t] + rest, seen) == ({
            let c = spec_clean_token(t);
            if c.len() > 0 && !seen.contains(c) {
                seq![c] + spec_distinct_entries(rest, seen.push(c))
            } else {
                spec_distinct_entries(rest, seen)
            }
        }),
{
    assert((seq![t] + rest).drop_first() =~= rest);
    assert((seq![t] + rest)[0] == t);
}

/// The suffix of `p` after its last slash; `p` itself when it has none.
pub open spec fn spec_file_name(p: Seq<char>) -> Seq<char>
    decreases p.len(),
{
    if p.len() == 0 {
        p
    } else if p.last() == '/' {
        Seq::empty()
    } else {
        spec_file_name(p.drop_last()).push(p.last())
    }
}

/// The index of the last dot of `f`, or -1 when there is none.
pub open spec fn spec_last_dot(f: Seq<char>) -> int
    decreases f.len(),
{
    if f.len() == 0 {
        -1
    } else if f.last() == '.' {
        f.len() - 1
    } else {
        spec_last_dot(f.drop_last())
    }
}

/// `p` without its trailing slashes.
pub open spec fn spec_drop_trailing_slashes(p: Seq<char>) -> Seq<char>
    decreases p.len(),
{
    if p.len() > 0 && p.last() == '/' {
        spec_drop_trailing_slashes(p.drop_last())
    } else {
        p
    }
}

/// The extension of a path: trailing slashes are ignored; within the suffix
/// after the last remaining slash, the part after the last dot, provided
/// that dot is not the name's first character; `None` for a dotless or
/// hidden name.
pub open spec fn spec_extension_of(p: Seq<char>) -> Option<Seq<char>> {
    let f = spec_file_name(spec_drop_trailing_slashes(p));
    let d = spec_last_dot(f);
    if d <= 0 {
        None
    } else {
        Some(f.skip(d + 1))
    }
}

/// Whether the path's extension, lowercased, is one of the entries.
pub open spec fn spec_matches_extension(p: Seq<char>, exts: Seq<Seq<char>>) -> bool {
    match spec_extension_of(p) {
        Option::None => false,
        Option::Some(e) => exts.contains(spec_lower(e)),
    }
}

/// A scan that saw the last slash at `ls` reads the file name.
proof fn lemma_file_name_after(p: Seq<char>, ls: int)
    requires
        0 <= ls < p.len(),
        p[ls] == '/',
        forall|k: int| ls < k < p.len() ==> p[k] != '/',
    ensures
        spec_file_name(p) == p.skip(ls + 1),
    decreases p.len(),
{
    if ls == p.len() - 1 {
        assert(p.skip(ls + 1) =~= Seq::<char>::empty());
    } else {
        lemma_file_name_after(p.drop_last(), ls);
        assert(p.drop_last().skip(ls + 1) =~= p.skip(ls + 1).drop_last());
        assert(p.skip(ls + 1).drop_last().push(p.last()) =~= p.skip(ls + 1));
    }
}

/// A path without slashes is its own file name.
proof fn lemma_file_name_whole(p: Seq<char>)
    requires
        forall|k: int| 0 <= k < p.len() ==> p[k] != '/',
    ensures
        spec_file_name(p) == p,
    decreases p.len(),
{
    if p.len() > 0 {
        lemma_file_name_whole(p.drop_last());
        assert(p.drop_last().push(p.last()) =~= p);
    }
}

/// A scan that saw the last dot at `d` found it.
proof fn lemma_last_dot_at(f: Seq<char>, d: int)
    requires
        0 <= d < f.len(),
        f[d] == '.',
        forall|k: int| d < k < f.len() ==> f[k] != '.',
    ensures
        spec_last_dot(f) == d,
    decreases f.len(),
{
    if d < f.len() - 1 {
        lemma_last_dot_at(f.drop_last(), d);
    }
}

/// A name without dots has no last dot.
proof fn lemma_last_dot_none(f: Seq<char>)
    requires
        forall|k: int| 0 <= k < f.len() ==> f[k] != '.',
    ensures
        spec_last_dot(f) == -1,
    decreases f.len(),
{
    if f.len() > 0 {
        lemma_last_dot_none(f.drop_last());
    }
}

/// Whether the path names a file whose extension, lowercased, is in the
/// allow-list. The file name is the suffix after the last slash; its
/// extension is the part after its last dot, unless that dot starts the
/// name.
pub fn matches_extension(path: &str, extensions: &Vec<String>) -> (r: bool)
    ensures
        r == spec_matches_extension(path@, spec_views(extensions@)),
{
    let n0 = path.unicode_len();
    // end of the path with trailing slashes ignored
    let mut e: usize = n0;
    proof {
        assert(path@.take(n0 as int) =~= path@);
    }
    while e > 0 && path.get_char(e - 1) == '/'
        invariant
            0 <= e <= n0,
            n0 == path@.len(),
            spec_drop_trailing_slashes(path@) == spec_drop_trailing_slashes(
                path@.take(e as int),
            ),
        decreases e,
    {
        proof {
            assert(path@.take(e as int).last() == path@[e - 1]);
            assert(path@.take(e as int).drop_last() =~= path@.take(e as int - 1));
        }
        e = e - 1;
    }
    proof {
        if e > 0 {
            assert(path@.take(e as int).last() == path@[e - 1]);
            assert(spec_drop_trailing_slashes(path@.take(e as int)) == path@.take(e as int));
        } else {
            assert(path@.take(0) =~= Seq::<char>::empty());
        }
        assert(path@.subrange(0, e as int) =~= path@.take(e as int));
    }
    let base = path.substring_char(0, e);
    let n = base.unicode_len();
    // start of the file name: one past the last slash
    let mut fs: usize = 0;
    let mut k: usize = 0;
    while k < n
        invariant
            0 <= fs <= k <= n,
            n == base@.len(),
            base@ == spec_drop_trailing_slashes(path@),
            fs > 0 ==> base@[fs as int - 1] == '/',
            forall|j: int| fs <= j < k ==> base@[j] != '/',
        decreases n - k,
    {
        if base.get_char(k) == '/' {
            fs = k + 1;
        }
        k = k + 1;
    }
    proof {
        if fs > 0 {
            lemma_file_name_after(base@, fs as int - 1);
        } else {
            lemma_file_name_whole(base@);
        }
        assert(base@.subrange(fs as int, n as int) =~= base@.skip(fs as int));
    }
    let fname = base.substring_char(fs, n);
    let m = fname.unicode_len();
    // the last dot of the file name, if any
    let mut dot: usize = 0;
    let mut seen = false;
    let mut k2: usize = 0;
    while k2 < m
        invariant
            0 <= k2 <= m,
            m == fname@.len(),
            fname@ == spec_file_name(spec_drop_trailing_slashes(path@)),
            seen ==> dot < k2 && fname@[dot as int] == '.' && (forall|j: int|
                dot < j < k2 ==> fname@[j] != '.'),
            !seen ==> forall|j: int| 0 <= j < k2 ==> fname@[j] != '.',
        decreases m - k2,
    {
        if fname.get_char(k2) == '.' {
            dot = k2;
            seen = true;
        }
        k2 = k2 + 1;
    }
    proof {
        if seen {
            lemma_last_dot_at(fname@, dot as int);
        } else {
            lemma_last_dot_none(fname@);
        }
    }
    if !seen || dot == 0 {
        proof {
            assert(spec_last_dot(fname@) <= 0);
            assert(spec_extension_of(path@) is None);
        }
        return false;
    }
    proof {
        assert(fname@.subrange(dot as int + 1, m as int) =~= fname@.skip(dot as int + 1));
    }
    let ext = lower_str(fname.substring_char(dot + 1, m));
    let cnt = extensions.len();
    let mut j: usize = 0;
    while j < cnt
        invariant
            0 <= j <= cnt,
            cnt == extensions@.len(),
            ext@ == spec_lower(fname@.skip(spec_last_dot(fname@) + 1)),
            spec_extension_of(path@) == Some(fname@.skip(spec_last_dot(fname@) + 1)),
            forall|t: int| 0 <= t < j ==> spec_views(extensions@)[t] != ext@,
        decreases cnt - j,
    {
        if crate::xml::string_eq_str(&extensions[j], ext.as_str()) {
            proof {
                assert(spec_views(extensions@)[j as int] == extensions@[j as int]@);
            }
            return true;
        }
        j = j + 1;
    }
    proof {
        assert forall|t: int| 0 <= t < spec_views(extensions@).len() implies spec_views(
            extensions@,
        )[t] != ext@ by {}
        assert(!spec_views(extensions@).contains(ext@));
    }
    false
}

} // verus!
