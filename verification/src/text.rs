//! Character-level helpers shared by the compiler stages.
//!
//! Every contract in this crate speaks of a string through its view, the
//! sequence of its characters. The functions here are the few operations on
//! such sequences that the stages need: trimming quotes, replacing a pattern,
//! splitting at a separator.

use vstd::prelude::*;
use vstd::string::StringExecFns;

verus! {

/// Appends one character to a string.
///
/// `String::push` is documented to append the given `char` to the end of the
/// string; nothing else changes.
pub assume_specification[ String::push ](s: &mut String, ch: char)
    ensures
        final(s)@ == old(s)@.push(ch),
;

/// The double quote that wraps a quoted identifier.
pub open spec fn quote() -> char {
    '"'
}

/// `s` without the double quotes at its start.
pub open spec fn trim_start_quotes(s: Seq<char>) -> Seq<char>
    decreases s.len(),
{
    if s.len() > 0 && s[0] == quote() {
        trim_start_quotes(s.skip(1))
    } else {
        s
    }
}

/// `s` without the double quotes at its end.
pub open spec fn trim_end_quotes(s: Seq<char>) -> Seq<char>
    decreases s.len(),
{
    if s.len() > 0 && s.last() == quote() {
        trim_end_quotes(s.drop_last())
    } else {
        s
    }
}

/// `s` without the double quotes that wrap it, however many there are.
pub open spec fn strip_quotes(s: Seq<char>) -> Seq<char> {
    trim_start_quotes(trim_end_quotes(s))
}

/// `s` with every `from` turned into `to`.
pub open spec fn translate(s: Seq<char>, from: char, to: char) -> Seq<char> {
    Seq::new(
        s.len(),
        |i: int|
            if s[i] == from {
                to
            } else {
                s[i]
            },
    )
}

/// `s` with every occurrence of the pattern `pat` replaced by `to`, the
/// occurrences found from left to right and never overlapping. An empty
/// pattern occurs nowhere.
pub open spec fn replace_all(s: Seq<char>, pat: Seq<char>, to: Seq<char>) -> Seq<char>
    decreases s.len(),
{
    if pat.len() == 0 || s.len() < pat.len() {
        s
    } else if pat.is_prefix_of(s) {
        to + replace_all(s.skip(pat.len() as int), pat, to)
    } else {
        seq![s[0]] + replace_all(s.skip(1), pat, to)
    }
}

/// The pieces of `s` between the occurrences of `sep`, in order. There is
/// always one piece more than there are separators.
pub open spec fn split(s: Seq<char>, sep: char) -> Seq<Seq<char>>
    decreases s.len(),
{
    if s.len() == 0 {
        seq![Seq::<char>::empty()]
    } else if s.last() == sep {
        split(s.drop_last(), sep).push(Seq::<char>::empty())
    } else {
        let rest = split(s.drop_last(), sep);
        rest.drop_last().push(rest.last().push(s.last()))
    }
}

/// Whether `c` is one of the ASCII white-space characters.
pub open spec fn is_space(c: char) -> bool {
    c == ' ' || c == '\t' || c == '\n' || c == '\r' || c == '\x0b' || c == '\x0c'
}

/// Whether `s` holds nothing but white space.
pub open spec fn is_blank(s: Seq<char>) -> bool {
    forall|i: int| 0 <= i < s.len() ==> is_space(#[trigger] s[i])
}

/// The upper-case form of an ASCII letter; any other character is itself.
pub open spec fn ascii_upper(c: char) -> char {
    if 'a' <= c && c <= 'z' {
        ((c as u8) - 32) as char
    } else {
        c
    }
}

/// Whether `a` and `b` are equal up to the case of their ASCII letters.
pub open spec fn eq_ignore_case(a: Seq<char>, b: Seq<char>) -> bool {
    a.len() == b.len() && forall|i: int|
        0 <= i < a.len() ==> ascii_upper(#[trigger] a[i]) == ascii_upper(b[i])
}

/// The characters of `s`, in order.
pub fn to_chars(s: &str) -> (out: Vec<char>)
    ensures
        out@ == s@,
{
    let mut out: Vec<char> = Vec::new();
    for c in it: s.chars()
        invariant
            it.seq() == s@,
            out@ == s@.take(it.index()),
    {
        out.push(c);
    }
    out
}

/// The string spelled by `chars`.
pub fn from_chars(chars: &Vec<char>) -> (out: String)
    ensures
        out@ == chars@,
{
    let mut out = String::new();
    let mut i: usize = 0;
    while i < chars.len()
        invariant
            i <= chars.len(),
            out@ == chars@.take(i as int),
        decreases chars.len() - i,
    {
        out.push(chars[i]);
        i += 1;
    }
    out
}

/// Strips the double quotes that wrap `s`.
pub fn unquote(s: &Vec<char>) -> (out: Vec<char>)
    ensures
        out@ == strip_quotes(s@),
{
    let mut end: usize = s.len();
    assert(s@.take(end as int) == s@);
    while end > 0 && s[end - 1] == '"'
        invariant
            end <= s.len(),
            trim_end_quotes(s@) == trim_end_quotes(s@.take(end as int)),
        decreases end,
    {
        assert(s@.take(end as int).drop_last() == s@.take(end as int - 1));
        end -= 1;
    }
    let mut start: usize = 0;
    while start < end && s[start] == '"'
        invariant
            start <= end <= s.len(),
            trim_end_quotes(s@) == s@.take(end as int),
            strip_quotes(s@) == trim_start_quotes(s@.subrange(start as int, end as int)),
        decreases end - start,
    {
        assert(s@.subrange(start as int, end as int).skip(1) == s@.subrange(
            start as int + 1,
            end as int,
        ));
        start += 1;
    }
    let mut out: Vec<char> = Vec::new();
    let mut i: usize = start;
    while i < end
        invariant
            start <= i <= end <= s.len(),
            out@ == s@.subrange(start as int, i as int),
        decreases end - i,
    {
        out.push(s[i]);
        i += 1;
    }
    out
}

/// Turns every `from` in `s` into `to`.
pub fn translated(s: &Vec<char>, from: char, to: char) -> (out: Vec<char>)
    ensures
        out@ == translate(s@, from, to),
{
    let mut out: Vec<char> = Vec::new();
    let mut i: usize = 0;
    while i < s.len()
        invariant
            i <= s.len(),
            out@ == translate(s@, from, to).take(i as int),
        decreases s.len() - i,
    {
        let c = s[i];
        out.push(if c == from { to } else { c });
        i += 1;
    }
    out
}

/// Whether `pat` stands in `s` at position `at`. Nothing stands behind the
/// end of `s`.
pub fn occurs_at(s: &Vec<char>, at: usize, pat: &Vec<char>) -> (found: bool)
    ensures
        found == (at <= s.len() && pat@.is_prefix_of(s@.skip(at as int))),
{
    if at > s.len() || pat.len() > s.len() - at {
        return false;
    }
    let mut k: usize = 0;
    while k < pat.len()
        invariant
            k <= pat.len(),
            at + pat.len() <= s.len(),
            forall|j: int| 0 <= j < k ==> pat@[j] == s@[at + j],
        decreases pat.len() - k,
    {
        if s[at + k] != pat[k] {
            assert(s@.skip(at as int)[k as int] != pat@[k as int]);
            return false;
        }
        k += 1;
    }
    assert(pat@ =~= s@.skip(at as int).subrange(0, pat@.len() as int));
    true
}

/// Replaces every occurrence of `pat` in `s` by `to`.
pub fn replaced(s: &Vec<char>, pat: &Vec<char>, to: &Vec<char>) -> (out: Vec<char>)
    ensures
        out@ == replace_all(s@, pat@, to@),
{
    let mut out: Vec<char> = Vec::new();
    let mut i: usize = 0;
    if pat.len() == 0 {
        return s.clone();
    }
    assert(s@.skip(0) == s@);
    assert(Seq::<char>::empty() + replace_all(s@, pat@, to@) == replace_all(s@, pat@, to@));
    while i < s.len()
        invariant
            i <= s.len(),
            pat.len() > 0,
            out@ + replace_all(s@.skip(i as int), pat@, to@) == replace_all(s@, pat@, to@),
        decreases s.len() - i,
    {
        let ghost rest = s@.skip(i as int);
        if occurs_at(s, i, pat) {
            let mut k: usize = 0;
            let ghost before = out@;
            while k < to.len()
                invariant
                    k <= to.len(),
                    out@ == before + to@.take(k as int),
                decreases to.len() - k,
            {
                out.push(to[k]);
                k += 1;
            }
            assert(to@.take(to@.len() as int) == to@);
            assert(rest.skip(pat@.len() as int) == s@.skip(i + pat@.len()));
            assert(out@ + replace_all(s@.skip(i + pat@.len()), pat@, to@) == before + (to@
                + replace_all(rest.skip(pat@.len() as int), pat@, to@)));
            i += pat.len();
        } else {
            let ghost before = out@;
            out.push(s[i]);
            proof {
                assert(rest.skip(1) == s@.skip(i + 1));
                if rest.len() < pat@.len() {
                    lemma_replace_short(rest.skip(1), pat@, to@);
                    assert(seq![rest[0]] + rest.skip(1) == rest);
                    assert(out@ + rest.skip(1) == before + rest);
                } else {
                    assert(out@ + replace_all(s@.skip(i + 1), pat@, to@) == before + (seq![rest[0]]
                        + replace_all(rest.skip(1), pat@, to@)));
                }
            }
            i += 1;
        }
    }
    assert(s@.skip(s@.len() as int) == Seq::<char>::empty());
    assert(out@ + Seq::<char>::empty() == out@);
    out
}

/// A text shorter than the pattern holds no occurrence of it.
pub proof fn lemma_replace_short(s: Seq<char>, pat: Seq<char>, to: Seq<char>)
    requires
        s.len() < pat.len(),
    ensures
        replace_all(s, pat, to) == s,
{
}

/// The texts joined by `sep`.
pub open spec fn joined(parts: Seq<Seq<char>>, sep: char) -> Seq<char>
    decreases parts.len(),
{
    if parts.len() == 0 {
        Seq::empty()
    } else if parts.len() == 1 {
        parts[0]
    } else {
        joined(parts.drop_last(), sep).push(sep) + parts.last()
    }
}

/// Joins the texts by `sep`.
pub fn join(parts: &Vec<String>, sep: char) -> (out: String)
    ensures
        out@ == joined(parts@.map_values(|s: String| s@), sep),
{
    let mut out = String::new();
    let mut i: usize = 0;
    let ghost views = parts@.map_values(|s: String| s@);
    while i < parts.len()
        invariant
            i <= parts.len(),
            views == parts@.map_values(|s: String| s@),
            out@ == joined(views.take(i as int), sep),
        decreases parts.len() - i,
    {
        proof {
            assert(views.take(i + 1).drop_last() == views.take(i as int));
            assert(views.take(i + 1).last() == parts@[i as int]@);
        }
        if i > 0 {
            out.push(sep);
        }
        out.append(parts[i].as_str());
        proof {
            if i == 0 {
                assert(views.take(1)[0] == parts@[0]@);
                assert(Seq::<char>::empty() + parts@[0]@ == parts@[0]@);
            }
        }
        i += 1;
    }
    assert(views.take(views.len() as int) == views);
    out
}

/// Whether `pat` stands nowhere in `s`.
pub open spec fn free_of(s: Seq<char>, pat: Seq<char>) -> bool {
    forall|i: int| 0 <= i <= s.len() ==> !pat.is_prefix_of(#[trigger] s.skip(i))
}

/// Replacing a pattern that stands nowhere changes nothing.
pub proof fn lemma_replace_nothing(s: Seq<char>, pat: Seq<char>, to: Seq<char>)
    requires
        free_of(s, pat),
    ensures
        replace_all(s, pat, to) == s,
    decreases s.len(),
{
    if pat.len() > 0 && s.len() >= pat.len() {
        assert(s.skip(0) == s);
        assert(!pat.is_prefix_of(s));
        assert forall|i: int| 0 <= i <= s.skip(1).len() implies !pat.is_prefix_of(
            #[trigger] s.skip(1).skip(i),
        ) by {
            assert(s.skip(1).skip(i) == s.skip(i + 1));
        }
        lemma_replace_nothing(s.skip(1), pat, to);
        assert(seq![s[0]] + s.skip(1) == s);
    }
}

/// Cutting a text that holds no separator gives the text itself.
pub proof fn lemma_split_whole(s: Seq<char>, sep: char)
    requires
        !s.contains(sep),
    ensures
        split(s, sep) == seq![s],
    decreases s.len(),
{
    if s.len() == 0 {
        assert(s == Seq::<char>::empty());
    } else {
        assert(s.last() != sep) by {
            assert(s[s.len() - 1] == s.last());
        }
        assert(!s.drop_last().contains(sep)) by {
            if s.drop_last().contains(sep) {
                let k = choose|k: int| 0 <= k < s.drop_last().len() && s.drop_last()[k] == sep;
                assert(s[k] == sep);
            }
        }
        lemma_split_whole(s.drop_last(), sep);
        assert(s.drop_last().push(s.last()) == s);
        assert(seq![s.drop_last()].drop_last().push(s.drop_last().push(s.last())) == seq![s]);
    }
}

/// Cutting a text behind whose last separator stands `b` gives the pieces
/// before that separator, and then `b`.
pub proof fn lemma_split_last(a: Seq<char>, b: Seq<char>, sep: char)
    requires
        !b.contains(sep),
    ensures
        split(a.push(sep) + b, sep) == split(a, sep).push(b),
    decreases b.len(),
{
    let whole = a.push(sep) + b;
    if b.len() == 0 {
        assert(whole == a.push(sep));
        assert(whole.drop_last() == a);
        assert(b == Seq::<char>::empty());
    } else {
        assert(b.last() != sep) by {
            assert(b[b.len() - 1] == b.last());
        }
        assert(!b.drop_last().contains(sep)) by {
            if b.drop_last().contains(sep) {
                let k = choose|k: int| 0 <= k < b.drop_last().len() && b.drop_last()[k] == sep;
                assert(b[k] == sep);
            }
        }
        lemma_split_last(a, b.drop_last(), sep);
        assert(whole.drop_last() == a.push(sep) + b.drop_last());
        assert(whole.last() == b.last());
        let rest = split(whole.drop_last(), sep);
        assert(rest.drop_last() == split(a, sep));
        assert(rest.last().push(b.last()) == b);
    }
}

/// Joining texts that hold no separator and cutting the result at the
/// separators gives the texts back.
pub proof fn lemma_split_joined(parts: Seq<Seq<char>>, sep: char)
    requires
        parts.len() > 0,
        forall|i: int| 0 <= i < parts.len() ==> !(#[trigger] parts[i]).contains(sep),
    ensures
        split(joined(parts, sep), sep) == parts,
    decreases parts.len(),
{
    if parts.len() == 1 {
        lemma_split_whole(parts[0], sep);
        assert(parts == seq![parts[0]]);
    } else {
        lemma_split_joined(parts.drop_last(), sep);
        lemma_split_last(joined(parts.drop_last(), sep), parts.last(), sep);
        assert(parts.drop_last().push(parts.last()) == parts);
    }
}

/// Whether `pat` occurs somewhere in `s`.
pub open spec fn holds(s: Seq<char>, pat: Seq<char>) -> bool {
    exists|i: int| 0 <= i <= s.len() && pat.is_prefix_of(#[trigger] s.skip(i))
}

/// Whether `pat` occurs somewhere in `s`.
pub fn contains(s: &str, pat: &str) -> (yes: bool)
    ensures
        yes == holds(s@, pat@),
{
    let text = to_chars(s);
    let word = to_chars(pat);
    let mut i: usize = 0;
    while i < text.len()
        invariant
            i <= text.len(),
            text@ == s@,
            word@ == pat@,
            forall|j: int| 0 <= j < i ==> !pat@.is_prefix_of(#[trigger] s@.skip(j)),
        decreases text.len() - i,
    {
        if occurs_at(&text, i, &word) {
            return true;
        }
        i += 1;
    }
    occurs_at(&text, i, &word)
}

/// The texts with `sep` between each two of them.
pub open spec fn joined_with(parts: Seq<Seq<char>>, sep: Seq<char>) -> Seq<char>
    decreases parts.len(),
{
    if parts.len() == 0 {
        Seq::empty()
    } else if parts.len() == 1 {
        parts[0]
    } else {
        joined_with(parts.drop_last(), sep) + sep + parts.last()
    }
}

/// Puts `sep` between each two of the texts.
pub fn join_with(parts: &Vec<String>, sep: &str) -> (out: String)
    ensures
        out@ == joined_with(parts@.map_values(|s: String| s@), sep@),
{
    let mut out = String::new();
    let mut i: usize = 0;
    let ghost views = parts@.map_values(|s: String| s@);
    while i < parts.len()
        invariant
            i <= parts.len(),
            views == parts@.map_values(|s: String| s@),
            out@ == joined_with(views.take(i as int), sep@),
        decreases parts.len() - i,
    {
        proof {
            assert(views.take(i + 1).drop_last() == views.take(i as int));
            assert(views.take(i + 1).last() == parts@[i as int]@);
        }
        if i > 0 {
            out.append(sep);
        }
        out.append(parts[i].as_str());
        proof {
            if i == 0 {
                assert(views.take(1)[0] == parts@[0]@);
                assert(Seq::<char>::empty() + parts@[0]@ == parts@[0]@);
            }
        }
        i += 1;
    }
    assert(views.take(views.len() as int) == views);
    out
}

} // verus!
