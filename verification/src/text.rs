//! Character and string primitives: whitespace trimming and ASCII lowercasing.
use vstd::prelude::*;

verus! {

/// Whether `c` has the Unicode `White_Space` property: the ASCII whitespace
/// controls and space, next line, no-break space, the Ogham space mark, the
/// typographic spaces, the line and paragraph separators, the narrow
/// no-break and medium mathematical spaces, and the ideographic space.
pub open spec fn char_is_whitespace(c: char) -> bool {
    let u = c as u32;
    ||| (9 <= u && u <= 13)
    ||| u == 32
    ||| u == 0x85
    ||| u == 0xA0
    ||| u == 0x1680
    ||| (0x2000 <= u && u <= 0x200A)
    ||| u == 0x2028
    ||| u == 0x2029
    ||| u == 0x202F
    ||| u == 0x205F
    ||| u == 0x3000
}

/// Relies on `char::is_whitespace`: true exactly for characters with the
/// Unicode `White_Space` property, the set written out above.
pub assume_specification[ char::is_whitespace ](c: char) -> (r: bool)
    ensures
        r == char_is_whitespace(c),
;

/// The same set, callable where no `char` value is at hand.
pub fn is_whitespace_value(u: u32) -> (r: bool)
    ensures
        r == ((9 <= u && u <= 13) || u == 32 || u == 0x85 || u == 0xA0 || u == 0x1680 || (0x2000
            <= u && u <= 0x200A) || u == 0x2028 || u == 0x2029 || u == 0x202F || u == 0x205F || u
            == 0x3000),
        (u < 0xD800 || (0xE000 <= u && u <= 0x10FFFF)) ==> r == char_is_whitespace(u as char),
{
    (9 <= u && u <= 13) || u == 32 || u == 0x85 || u == 0xA0 || u == 0x1680 || (0x2000 <= u && u
        <= 0x200A) || u == 0x2028 || u == 0x2029 || u == 0x202F || u == 0x205F || u == 0x3000
}

/// Relies on `char::from_u32`: `Some` exactly for valid Unicode scalar values,
/// carrying the character with that value.
pub assume_specification[ char::from_u32 ](u: u32) -> (r: Option<char>)
    ensures
        (u < 0xD800 || (0xE000 <= u && u <= 0x10FFFF)) ==> r == Some(u as char),
        !(u < 0xD800 || (0xE000 <= u && u <= 0x10FFFF)) ==> r is None,
;

/// Relies on `String::push`: appends one character at the end.
#[verifier::external_body]
fn push_char(s: &mut String, c: char)
    ensures
        final(s)@ == old(s)@.push(c),
{
    s.push(c);
}

/// `s` without its leading whitespace characters.
pub open spec fn spec_drop_leading_ws(s: Seq<char>) -> Seq<char>
    decreases s.len(),
{
    if s.len() == 0 {
        s
    } else if char_is_whitespace(s[0]) {
        spec_drop_leading_ws(s.drop_first())
    } else {
        s
    }
}

/// `s` without its trailing whitespace characters.
pub open spec fn spec_drop_trailing_ws(s: Seq<char>) -> Seq<char>
    decreases s.len(),
{
    if s.len() == 0 {
        s
    } else if char_is_whitespace(s.last()) {
        spec_drop_trailing_ws(s.drop_last())
    } else {
        s
    }
}

/// `s` without leading and trailing whitespace, as `str::trim` yields it.
pub open spec fn spec_trim(s: Seq<char>) -> Seq<char> {
    spec_drop_trailing_ws(spec_drop_leading_ws(s))
}

/// The trimmed sequence is empty exactly when every character is whitespace.
pub proof fn lemma_trim_empty_iff_all_ws(s: Seq<char>)
    ensures
        spec_trim(s).len() == 0 <==> (forall|i: int| 0 <= i < s.len() ==> char_is_whitespace(s[i])),
    decreases s.len(),
{
    if s.len() == 0 {
    } else if char_is_whitespace(s[0]) {
        lemma_trim_empty_iff_all_ws(s.drop_first());
        if spec_trim(s).len() == 0 {
            assert forall|i: int| 0 <= i < s.len() implies char_is_whitespace(s[i]) by {
                if i > 0 {
                    assert(char_is_whitespace(s.drop_first()[i - 1]));
                }
            }
        } else {
            assert(exists|k: int|
                0 <= k < s.drop_first().len() && !char_is_whitespace(s.drop_first()[k]));
            let k = choose|k: int|
                0 <= k < s.drop_first().len() && !char_is_whitespace(s.drop_first()[k]);
            assert(s.drop_first()[k] == s[k + 1]);
        }
    } else {
        lemma_drop_trailing_keeps_head(s);
    }
}

/// Dropping trailing whitespace from a sequence whose head is not whitespace
/// leaves a non-empty sequence.
proof fn lemma_drop_trailing_keeps_head(s: Seq<char>)
    requires
        s.len() > 0,
        !char_is_whitespace(s[0]),
    ensures
        spec_drop_trailing_ws(s).len() > 0,
    decreases s.len(),
{
    if char_is_whitespace(s.last()) {
        lemma_drop_trailing_keeps_head(s.drop_last());
    }
}

/// Removes leading and trailing whitespace, as `str::trim` does.
pub fn trim_str(s: &str) -> (r: String)
    ensures
        r@ == spec_trim(s@),
{
    let n = s.unicode_len();
    let mut i: usize = 0;
    proof {
        assert(s@.skip(0) =~= s@);
    }
    while i < n && s.get_char(i).is_whitespace()
        invariant
            0 <= i <= n,
            n == s@.len(),
            spec_drop_leading_ws(s@) == spec_drop_leading_ws(s@.skip(i as int)),
        decreases n - i,
    {
        proof {
            assert(s@.skip(i as int).drop_first() =~= s@.skip(i as int + 1));
        }
        i = i + 1;
    }
    proof {
        if i < n {
            assert(spec_drop_leading_ws(s@.skip(i as int)) == s@.skip(i as int));
        } else {
            assert(s@.skip(i as int) =~= Seq::<char>::empty());
        }
    }
    let ghost t = s@.skip(i as int);
    let mut j: usize = n;
    proof {
        assert(t.take(n - i) =~= t);
    }
    while j > i && s.get_char(j - 1).is_whitespace()
        invariant
            i <= j <= n,
            n == s@.len(),
            t == s@.skip(i as int),
            spec_drop_trailing_ws(t) == spec_drop_trailing_ws(t.take(j - i)),
        decreases j,
    {
        proof {
            assert(t.take(j - i).last() == s@[j - 1]);
            assert(t.take(j - i).drop_last() =~= t.take(j - 1 - i));
        }
        j = j - 1;
    }
    proof {
        if j > i {
            assert(t.take(j - i).last() == s@[j - 1]);
            assert(spec_drop_trailing_ws(t.take(j - i)) == t.take(j - i));
        } else {
            assert(t.take(0) =~= Seq::<char>::empty());
        }
        assert(t.take(j - i) =~= s@.subrange(i as int, j as int));
    }
    let r = s.substring_char(i, j);
    r.to_owned()
}

/// The ASCII-lowercased form of one character: letters `A` through `Z` map to
/// their lowercase forms, all else is unchanged.
pub open spec fn spec_lower_char(c: char) -> char {
    if 'A' <= c && c <= 'Z' {
        ((c as u32) + 32) as char
    } else {
        c
    }
}

/// The ASCII-lowercased form of a character sequence.
pub open spec fn spec_lower(s: Seq<char>) -> Seq<char> {
    s.map_values(|c: char| spec_lower_char(c))
}

/// ASCII-lowercases one character, as `char::to_ascii_lowercase` does.
pub fn lower_char(c: char) -> (r: char)
    ensures
        r == spec_lower_char(c),
{
    if 'A' <= c && c <= 'Z' {
        let u = (c as u32) + 32;
        assert(97 <= u <= 122);
        match char::from_u32(u) {
            Some(l) => l,
            None => c,
        }
    } else {
        c
    }
}

/// ASCII-lowercases a string, as `str::to_ascii_lowercase` does.
pub fn lower_str(s: &str) -> (r: String)
    ensures
        r@ == spec_lower(s@),
{
    let n = s.unicode_len();
    let mut r = String::new();
    let mut i: usize = 0;
    while i < n
        invariant
            0 <= i <= n,
            n == s@.len(),
            r@ == spec_lower(s@.take(i as int)),
        decreases n - i,
    {
        let c = lower_char(s.get_char(i));
        push_char(&mut r, c);
        proof {
            assert(s@.take(i as int).push(s@[i as int]) =~= s@.take(i as int + 1));
            assert(spec_lower(s@.take(i as int + 1)) =~= spec_lower(s@.take(i as int)).push(
                spec_lower_char(s@[i as int]),
            ));
        }
        i = i + 1;
    }
    proof {
        assert(s@.take(n as int) =~= s@);
    }
    r
}

} // verus!
