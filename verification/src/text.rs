//! Character and string utilities shared by the classifier, the literal
//! encoder and the statement assemblers: substring search, ASCII
//! case-insensitive comparison, metacharacter escaping, trimming,
//! splitting on commas and joining with separators.

use vstd::prelude::*;
use vstd::string::*;

verus! {

/// An ASCII upper-case letter.
pub open spec fn is_ascii_upper(c: char) -> bool {
    65 <= c as u32 <= 90
}

/// Two characters are equal up to ASCII letter case.
pub open spec fn char_ci_eq(a: char, b: char) -> bool {
    a == b
    || (is_ascii_upper(a) && a as u32 + 32 == b as u32)
    || (is_ascii_upper(b) && b as u32 + 32 == a as u32)
}

/// ASCII whitespace, as stripped from array items.
pub open spec fn is_space(c: char) -> bool {
    c == ' ' || c == '\t' || c == '\n' || c == '\r'
}

/// An ASCII hexadecimal digit.
pub open spec fn is_hex_digit(c: char) -> bool {
    (48 <= c as u32 <= 57) || (65 <= c as u32 <= 70) || (97 <= c as u32 <= 102)
}

/// `needle` occurs in `hay` starting at position `i`.
pub open spec fn is_match_at(hay: Seq<char>, needle: Seq<char>, i: int) -> bool {
    0 <= i && i + needle.len() <= hay.len() && hay.subrange(i, i + needle.len() as int)
        == needle
}

/// `needle` occurs somewhere in `hay`.
pub open spec fn contains_seq(hay: Seq<char>, needle: Seq<char>) -> bool {
    exists|i: int| is_match_at(hay, needle, i)
}

/// Substring search by character comparison.
pub fn str_contains(hay: &str, needle: &str) -> (r: bool)
    ensures
        r == contains_seq(hay@, needle@),
{
    let hlen = hay.unicode_len();
    let nlen = needle.unicode_len();
    if nlen > hlen {
        return false;
    }
    if nlen == 0 {
        proof {
            assert(hay@.subrange(0, 0) =~= needle@);
            assert(is_match_at(hay@, needle@, 0));
        }
        return true;
    }
    let mut i: usize = 0;
    while i <= hlen - nlen
        invariant
            hlen == hay@.len(),
            nlen == needle@.len(),
            nlen <= hlen,
            1 <= nlen,
            i <= hlen - nlen + 1,
            forall|k: int| 0 <= k < i ==> !is_match_at(hay@, needle@, k),
        decreases hlen - nlen - i + 1,
    {
        let mut j: usize = 0;
        let mut mismatch = false;
        while !mismatch && j < nlen
            invariant
                hlen == hay@.len(),
                nlen == needle@.len(),
                nlen <= hlen,
                i <= hlen - nlen,
                j <= nlen,
                !mismatch ==> forall|t: int| 0 <= t < j ==> hay@[i + t] == needle@[t],
                mismatch ==> !is_match_at(hay@, needle@, i as int),
            decreases nlen - j + (if mismatch { 0int } else { 1int }),
        {
            if hay.get_char(i + j) == needle.get_char(j) {
                j += 1;
            } else {
                proof {
                    if is_match_at(hay@, needle@, i as int) {
                        assert(hay@.subrange(i as int, i + nlen as int)[j as int]
                            == needle@[j as int]);
                    }
                }
                mismatch = true;
            }
        }
        if !mismatch {
            proof {
                assert(hay@.subrange(i as int, i + nlen as int) =~= needle@);
                assert(is_match_at(hay@, needle@, i as int));
            }
            return true;
        }
        i += 1;
    }
    proof {
        assert forall|k: int| !is_match_at(hay@, needle@, k) by {
            if is_match_at(hay@, needle@, k) {
                assert(0 <= k < i);
            }
        }
    }
    false
}

/// Equality up to ASCII letter case, position by position.
pub open spec fn eq_ci(a: Seq<char>, b: Seq<char>) -> bool {
    a.len() == b.len() && (forall|i: int| 0 <= i < a.len() ==> char_ci_eq(a[i], b[i]))
}

/// Compares two characters up to ASCII letter case.
pub fn char_eq_ci(a: char, b: char) -> (r: bool)
    ensures
        r == char_ci_eq(a, b),
{
    let au = a as u32;
    let bu = b as u32;
    au == bu || (65 <= au && au <= 90 && au + 32 == bu) || (65 <= bu && bu <= 90 && bu + 32
        == au)
}

/// Compares two strings up to ASCII letter case.
pub fn str_eq_ci(a: &str, b: &str) -> (r: bool)
    ensures
        r == eq_ci(a@, b@),
{
    let alen = a.unicode_len();
    let blen = b.unicode_len();
    if alen != blen {
        return false;
    }
    let mut i: usize = 0;
    while i < alen
        invariant
            alen == a@.len(),
            alen == b@.len(),
            i <= alen,
            forall|k: int| 0 <= k < i ==> char_ci_eq(a@[k], b@[k]),
        decreases alen - i,
    {
        if !char_eq_ci(a.get_char(i), b.get_char(i)) {
            return false;
        }
        i += 1;
    }
    true
}

/// A boolean-typed cell counts as true: `"true"` in any letter case, or `"1"`.
pub open spec fn is_truthy(s: Seq<char>) -> bool {
    eq_ci(s, "true"@) || eq_ci(s, "1"@)
}

/// A boolean-typed cell counts as false: `"false"` in any letter case, or `"0"`.
pub open spec fn is_falsy(s: Seq<char>) -> bool {
    eq_ci(s, "false"@) || eq_ci(s, "0"@)
}

/// Decides whether a boolean-typed cell counts as true.
pub fn truthy(s: &str) -> (r: bool)
    ensures
        r == is_truthy(s@),
{
    str_eq_ci(s, "true") || str_eq_ci(s, "1")
}

/// Decides whether a boolean-typed cell counts as false.
pub fn falsy(s: &str) -> (r: bool)
    ensures
        r == is_falsy(s@),
{
    str_eq_ci(s, "false") || str_eq_ci(s, "0")
}

/// Every occurrence of `q` replaced by `rep`; all other characters kept.
pub open spec fn escape_seq(s: Seq<char>, q: char, rep: Seq<char>) -> Seq<char>
    decreases s.len(),
{
    if s.len() == 0 {
        Seq::empty()
    } else {
        (if s[0] == q {
            rep
        } else {
            seq![s[0]]
        }) + escape_seq(s.drop_first(), q, rep)
    }
}

/// Appending one character extends the escaped text by that character's
/// replacement.
pub proof fn lemma_escape_seq_push(s: Seq<char>, c: char, q: char, rep: Seq<char>)
    ensures
        escape_seq(s.push(c), q, rep) == escape_seq(s, q, rep) + (if c == q {
            rep
        } else {
            seq![c]
        }),
    decreases s.len(),
{
    let tail = if c == q {
        rep
    } else {
        seq![c]
    };
    if s.len() == 0 {
        assert(s.push(c).len() == 1);
        assert(s.push(c)[0] == c);
        assert(s.push(c).drop_first() =~= Seq::<char>::empty());
        assert(escape_seq(Seq::<char>::empty(), q, rep) == Seq::<char>::empty());
        assert(escape_seq(s.push(c), q, rep) == tail + escape_seq(
            s.push(c).drop_first(),
            q,
            rep,
        ));
        assert(escape_seq(s, q, rep) == Seq::<char>::empty());
        assert(escape_seq(s.push(c), q, rep) =~= escape_seq(s, q, rep) + tail);
    } else {
        assert(s.push(c).drop_first() =~= s.drop_first().push(c));
        lemma_escape_seq_push(s.drop_first(), c, q, rep);
        assert(escape_seq(s.push(c), q, rep) =~= escape_seq(s, q, rep) + tail);
    }
}

/// Replaces every occurrence of `q` in `s` by `rep`.
pub fn escape_str(s: &str, q: char, rep: &str) -> (r: String)
    ensures
        r@ == escape_seq(s@, q, rep@),
{
    let len = s.unicode_len();
    let mut out = String::new();
    let mut i: usize = 0;
    while i < len
        invariant
            len == s@.len(),
            i <= len,
            out@ == escape_seq(s@.subrange(0, i as int), q, rep@),
        decreases len - i,
    {
        if s.get_char(i) == q {
            out.append(rep);
        } else {
            let piece = s.substring_char(i, i + 1);
            proof {
                assert(piece@ =~= seq![s@[i as int]]);
            }
            out.append(piece);
        }
        proof {
            assert(s@.subrange(0, i + 1) =~= s@.subrange(0, i as int).push(s@[i as int]));
            lemma_escape_seq_push(s@.subrange(0, i as int), s@[i as int], q, rep@);
        }
        i += 1;
    }
    proof {
        assert(s@.subrange(0, len as int) =~= s@);
    }
    out
}

/// Decides ASCII whitespace.
pub fn space_char(c: char) -> (r: bool)
    ensures
        r == is_space(c),
{
    c == ' ' || c == '\t' || c == '\n' || c == '\r'
}

/// Decides ASCII hexadecimal digits.
pub fn hex_digit_char(c: char) -> (r: bool)
    ensures
        r == is_hex_digit(c),
{
    let u = c as u32;
    (48 <= u && u <= 57) || (65 <= u && u <= 70) || (97 <= u && u <= 102)
}

/// `s` without its leading whitespace.
pub open spec fn trim_start_seq(s: Seq<char>) -> Seq<char>
    decreases s.len(),
{
    if s.len() > 0 && is_space(s[0]) {
        trim_start_seq(s.drop_first())
    } else {
        s
    }
}

/// `s` without its trailing whitespace.
pub open spec fn trim_end_seq(s: Seq<char>) -> Seq<char>
    decreases s.len(),
{
    if s.len() > 0 && is_space(s.last()) {
        trim_end_seq(s.drop_last())
    } else {
        s
    }
}

/// `s` without leading and trailing whitespace.
pub open spec fn trim_seq(s: Seq<char>) -> Seq<char> {
    trim_end_seq(trim_start_seq(s))
}

proof fn lemma_trim_start_skip(s: Seq<char>, i: int)
    requires
        0 <= i <= s.len(),
        forall|k: int| 0 <= k < i ==> is_space(s[k]),
        i == s.len() || !is_space(s[i]),
    ensures
        trim_start_seq(s) == s.subrange(i, s.len() as int),
    decreases i,
{
    if i == 0 {
        assert(s.subrange(0, s.len() as int) =~= s);
    } else {
        assert(is_space(s[0]));
        lemma_trim_start_skip(s.drop_first(), i - 1);
        assert(s.drop_first().subrange(i - 1, s.len() - 1) =~= s.subrange(i, s.len() as int));
    }
}

proof fn lemma_trim_end_skip(s: Seq<char>, e: int)
    requires
        0 <= e <= s.len(),
        forall|k: int| e <= k < s.len() ==> is_space(s[k]),
        e == 0 || !is_space(s[e - 1]),
    ensures
        trim_end_seq(s) == s.subrange(0, e),
    decreases s.len() - e,
{
    if e == s.len() {
        assert(s.subrange(0, e) =~= s);
    } else {
        assert(is_space(s.last()));
        lemma_trim_end_skip(s.drop_last(), e);
        assert(s.drop_last().subrange(0, e) =~= s.subrange(0, e));
    }
}

/// Strips leading and trailing whitespace.
pub fn trim_str(s: &str) -> (r: &str)
    ensures
        r@ == trim_seq(s@),
{
    let len = s.unicode_len();
    let mut start: usize = 0;
    while start < len && space_char(s.get_char(start))
        invariant
            len == s@.len(),
            start <= len,
            forall|k: int| 0 <= k < start ==> is_space(s@[k]),
        decreases len - start,
    {
        start += 1;
    }
    let mut end: usize = len;
    while end > start && space_char(s.get_char(end - 1))
        invariant
            len == s@.len(),
            start <= end <= len,
            forall|k: int| end <= k < len ==> is_space(s@[k]),
        decreases end,
    {
        end -= 1;
    }
    let r = s.substring_char(start, end);
    proof {
        lemma_trim_start_skip(s@, start as int);
        let t = s@.subrange(start as int, len as int);
        assert(forall|k: int|
            end - start <= k < t.len() ==> t[k] == s@[k + start] && is_space(s@[k + start]));
        assert(end - start == 0 || !is_space(t[end - start - 1]));
        lemma_trim_end_skip(t, end - start);
        assert(t.subrange(0, end - start) =~= s@.subrange(start as int, end as int));
    }
    r
}

/// The pieces of `s` between its commas, in order; splitting the empty
/// text yields one empty piece.
pub open spec fn split_commas(s: Seq<char>) -> Seq<Seq<char>>
    decreases s.len(),
{
    if s.len() == 0 {
        seq![Seq::empty()]
    } else {
        let rest = split_commas(s.drop_last());
        if s.last() == ',' {
            rest.push(Seq::empty())
        } else {
            rest.update(rest.len() - 1, rest.last().push(s.last()))
        }
    }
}

/// Splitting always yields at least one piece.
pub proof fn lemma_split_commas_nonempty(s: Seq<char>)
    ensures
        split_commas(s).len() >= 1,
    decreases s.len(),
{
    if s.len() > 0 {
        lemma_split_commas_nonempty(s.drop_last());
    }
}

/// Splits `s` at every comma.
pub fn split_commas_str(s: &str) -> (r: Vec<String>)
    ensures
        r@.map_values(|p: String| p@) == split_commas(s@),
{
    let len = s.unicode_len();
    let mut done: Vec<String> = Vec::new();
    let mut cur = String::new();
    let mut i: usize = 0;
    while i < len
        invariant
            len == s@.len(),
            i <= len,
            done@.map_values(|p: String| p@).push(cur@) == split_commas(s@.subrange(0, i as int)),
        decreases len - i,
    {
        let c = s.get_char(i);
        proof {
            assert(s@.subrange(0, i + 1).drop_last() =~= s@.subrange(0, i as int));
            assert(s@.subrange(0, i + 1).last() == s@[i as int]);
            lemma_split_commas_nonempty(s@.subrange(0, i as int));
        }
        if c == ',' {
            done.push(cur);
            cur = String::new();
            proof {
                assert(done@.map_values(|p: String| p@).push(cur@) =~= split_commas(
                    s@.subrange(0, i + 1),
                ));
            }
        } else {
            let piece = s.substring_char(i, i + 1);
            proof {
                assert(piece@ =~= seq![s@[i as int]]);
            }
            cur.append(piece);
            proof {
                let prev = split_commas(s@.subrange(0, i as int));
                assert(prev.last() == prev[prev.len() - 1]);
                assert(prev.last().push(s@[i as int]) =~= cur@);
                assert(done@.map_values(|p: String| p@).push(cur@) =~= prev.update(
                    prev.len() - 1,
                    prev.last().push(s@[i as int]),
                ));
            }
        }
        i += 1;
    }
    done.push(cur);
    proof {
        assert(s@.subrange(0, len as int) =~= s@);
    }
    done
}

/// `v` with every single quote doubled.
pub open spec fn sq_escaped(v: Seq<char>) -> Seq<char> {
    escape_seq(v, '\'', "''"@)
}

/// `v` with every double quote backslash-escaped.
pub open spec fn dq_escaped(v: Seq<char>) -> Seq<char> {
    escape_seq(v, '"', "\\\""@)
}

/// `v` escaped and wrapped in single quotes.
pub open spec fn sq_quoted(v: Seq<char>) -> Seq<char> {
    "'"@ + sq_escaped(v) + "'"@
}

/// `v` escaped and wrapped in double quotes.
pub open spec fn dq_quoted(v: Seq<char>) -> Seq<char> {
    "\""@ + dq_escaped(v) + "\""@
}

/// `v` wrapped in single quotes verbatim.
pub open spec fn sq_plain(v: Seq<char>) -> Seq<char> {
    "'"@ + v + "'"@
}

/// Every character of `v` is a hexadecimal digit.
pub open spec fn all_hex(v: Seq<char>) -> bool {
    forall|i: int| 0 <= i < v.len() ==> is_hex_digit(v[i])
}

/// `v` starts with `open` and ends with `close`.
pub open spec fn braced(v: Seq<char>, open: char, close: char) -> bool {
    v.len() >= 1 && v[0] == open && v.last() == close
}

/// The pieces, concatenated with `sep` between neighbours.
pub open spec fn join_with(parts: Seq<Seq<char>>, sep: Seq<char>) -> Seq<char>
    decreases parts.len(),
{
    if parts.len() == 0 {
        Seq::empty()
    } else if parts.len() == 1 {
        parts[0]
    } else {
        join_with(parts.drop_last(), sep) + sep + parts.last()
    }
}

} // verus!
