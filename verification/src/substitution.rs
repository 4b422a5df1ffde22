//! Alias substitution, seen as one pass over the location: every token is
//! replaced where it stands. Where no alias name begins another's, the
//! substitution of the aliases one after the other comes to the same, in
//! whatever order the aliases are listed.

use vstd::prelude::*;
use crate::query::{
    aliases_plain, lemma_resolved_holds_no_marker, marker, marker_free, markers_named,
    names_alias, resolve, select_classification, Alias, SelectStmt,
};
use crate::text::{lemma_replace_short, replace_all, strip_quotes};

verus! {

/// Of two different aliases of the list, neither has a name that begins the
/// name of the other. No two aliases have the same name, then.
pub open spec fn prefix_free(aliases: Seq<Alias>) -> bool {
    forall|i: int, j: int|
        0 <= i < aliases.len() && 0 <= j < aliases.len() && i != j ==> !(
        #[trigger] aliases[i]).name@.is_prefix_of((#[trigger] aliases[j]).name@)
}

/// Each alias of either list occurs in the other, with the same name and
/// the same location.
pub open spec fn same_aliases(a: Seq<Alias>, b: Seq<Alias>) -> bool {
    &&& forall|i: int| 0 <= i < a.len() ==> occurs_in(#[trigger] a[i], b)
    &&& forall|i: int| 0 <= i < b.len() ==> occurs_in(#[trigger] b[i], a)
}

/// Whether the list holds an alias of the same name and location.
pub open spec fn occurs_in(alias: Alias, aliases: Seq<Alias>) -> bool {
    exists|j: int| 0 <= j < aliases.len() && (#[trigger] aliases[j])@ == alias@
}

/// The index of the first alias from index `from` on whose name begins `s`,
/// or the length of the list where there is none.
pub open spec fn first_named(s: Seq<char>, aliases: Seq<Alias>, from: int) -> int
    decreases aliases.len() - from,
{
    if from < 0 || from >= aliases.len() {
        aliases.len() as int
    } else if aliases[from].name@.is_prefix_of(s) {
        from
    } else {
        first_named(s, aliases, from + 1)
    }
}

/// The location with the token of every alias before index `upto` replaced
/// where it stands, in one pass from left to right. A token is a marker
/// followed by the name of an alias.
pub open spec fn expanded_upto(s: Seq<char>, aliases: Seq<Alias>, upto: int) -> Seq<char>
    decreases s.len(),
{
    if s.len() == 0 {
        s
    } else {
        let j = first_named(s.skip(1), aliases, 0);
        if s[0] == '@' && 0 <= j < upto && j < aliases.len() && aliases[j].name@.is_prefix_of(
            s.skip(1),
        ) {
            aliases[j].location@ + expanded_upto(
                s.skip(1 + aliases[j].name@.len() as int),
                aliases,
                upto,
            )
        } else {
            seq![s[0]] + expanded_upto(s.skip(1), aliases, upto)
        }
    }
}

/// The location with every token replaced where it stands, in one pass.
pub open spec fn expanded(s: Seq<char>, aliases: Seq<Alias>) -> Seq<char> {
    expanded_upto(s, aliases, aliases.len() as int)
}

/// The first alias whose name begins `s` is one whose name begins `s`, and
/// none before it is.
proof fn lemma_first_named(s: Seq<char>, aliases: Seq<Alias>, from: int)
    requires
        0 <= from <= aliases.len(),
    ensures
        from <= first_named(s, aliases, from) <= aliases.len(),
        first_named(s, aliases, from) < aliases.len() ==> aliases[first_named(
            s,
            aliases,
            from,
        )].name@.is_prefix_of(s),
        forall|i: int|
            from <= i < first_named(s, aliases, from) ==> !(#[trigger] aliases[i]).name@.is_prefix_of(
                s,
            ),
    decreases aliases.len() - from,
{
    if from < aliases.len() && !aliases[from].name@.is_prefix_of(s) {
        lemma_first_named(s, aliases, from + 1);
    }
}

/// Of two texts that begin the same text, the shorter begins the longer.
proof fn lemma_two_prefixes(a: Seq<char>, b: Seq<char>, s: Seq<char>)
    requires
        a.is_prefix_of(s),
        b.is_prefix_of(s),
        a.len() <= b.len(),
    ensures
        a.is_prefix_of(b),
{
    assert(a =~= b.subrange(0, a.len() as int)) by {
        assert forall|x: int| 0 <= x < a.len() implies a[x] == b[x] by {
            assert(a[x] == s.subrange(0, a.len() as int)[x]);
            assert(b[x] == s.subrange(0, b.len() as int)[x]);
        }
    }
}

/// Where no name begins another, the alias whose name begins `s` is the
/// only one, and so the first.
proof fn lemma_only_match(s: Seq<char>, aliases: Seq<Alias>, i: int)
    requires
        prefix_free(aliases),
        0 <= i < aliases.len(),
        aliases[i].name@.is_prefix_of(s),
    ensures
        first_named(s, aliases, 0) == i,
{
    lemma_first_named(s, aliases, 0);
    let j = first_named(s, aliases, 0);
    if j != i {
        assert(j < i);
        if aliases[j].name@.len() <= aliases[i].name@.len() {
            lemma_two_prefixes(aliases[j].name@, aliases[i].name@, s);
        } else {
            lemma_two_prefixes(aliases[i].name@, aliases[j].name@, s);
        }
    }
}

/// A text without markers at the start of a location is left as it is.
proof fn lemma_expand_plain_start(m: Seq<char>, s: Seq<char>, aliases: Seq<Alias>, upto: int)
    requires
        marker_free(m),
        m.is_prefix_of(s),
    ensures
        expanded_upto(s, aliases, upto) == m + expanded_upto(s.skip(m.len() as int), aliases, upto),
    decreases m.len(),
{
    if m.len() == 0 {
        assert(s.skip(0) == s);
        assert(m + expanded_upto(s, aliases, upto) =~= expanded_upto(s, aliases, upto));
    } else {
        assert(s[0] == m[0]) by {
            assert(m[0] == s.subrange(0, m.len() as int)[0]);
        }
        assert(m.skip(1).is_prefix_of(s.skip(1))) by {
            assert(m.skip(1) =~= s.skip(1).subrange(0, m.len() - 1)) by {
                assert forall|x: int| 0 <= x < m.len() - 1 implies m.skip(1)[x] == s.skip(1)[x] by {
                    assert(m[x + 1] == s.subrange(0, m.len() as int)[x + 1]);
                }
            }
        }
        lemma_expand_plain_start(m.skip(1), s.skip(1), aliases, upto);
        assert(s.skip(1).skip(m.len() - 1) == s.skip(m.len() as int));
        assert(seq![s[0]] + (m.skip(1) + expanded_upto(s.skip(m.len() as int), aliases, upto))
            =~= m + expanded_upto(s.skip(m.len() as int), aliases, upto));
    }
}

/// Where the pattern stands at none of the first places of a text, those
/// places are left as they are.
proof fn lemma_replace_after(m: Seq<char>, rest: Seq<char>, pat: Seq<char>, to: Seq<char>)
    requires
        pat.len() > 0,
        forall|i: int| 0 <= i < m.len() ==> !pat.is_prefix_of(#[trigger] (m + rest).skip(i)),
    ensures
        replace_all(m + rest, pat, to) == m + replace_all(rest, pat, to),
    decreases m.len(),
{
    let s = m + rest;
    if m.len() == 0 {
        assert(s =~= rest);
        assert(m + replace_all(rest, pat, to) =~= replace_all(rest, pat, to));
    } else {
        assert(s.skip(0) == s);
        assert(!pat.is_prefix_of(s));
        assert(s.skip(1) == m.skip(1) + rest);
        if s.len() < pat.len() {
            lemma_replace_short(rest, pat, to);
        } else {
            assert forall|i: int| 0 <= i < m.skip(1).len() implies !pat.is_prefix_of(
                #[trigger] (m.skip(1) + rest).skip(i),
            ) by {
                assert((m.skip(1) + rest).skip(i) == s.skip(i + 1));
            }
            lemma_replace_after(m.skip(1), rest, pat, to);
            assert(seq![s[0]] + (m.skip(1) + replace_all(rest, pat, to)) =~= m + replace_all(
                rest,
                pat,
                to,
            ));
        }
    }
}

/// Behind a text without markers the pattern of a token stands nowhere
/// before the end of that text.
proof fn lemma_no_token_in_plain(m: Seq<char>, rest: Seq<char>, pat: Seq<char>)
    requires
        marker_free(m),
        pat.len() > 0,
        pat[0] == '@',
    ensures
        forall|i: int| 0 <= i < m.len() ==> !pat.is_prefix_of(#[trigger] (m + rest).skip(i)),
{
    assert forall|i: int| 0 <= i < m.len() implies !pat.is_prefix_of(
        #[trigger] (m + rest).skip(i),
    ) by {
        let t = (m + rest).skip(i);
        if pat.is_prefix_of(t) {
            assert(pat[0] == t.subrange(0, pat.len() as int)[0]);
            assert(t[0] == m[i]);
        }
    }
}

/// Every marker of the rest of a location is followed by the name of an
/// alias, where that is so of the whole.
proof fn lemma_markers_rest(s: Seq<char>, aliases: Seq<Alias>, n: int)
    requires
        markers_named(s, aliases, 0),
        0 <= n <= s.len(),
    ensures
        markers_named(s.skip(n), aliases, 0),
{
    let rest = s.skip(n);
    assert forall|i: int| 0 <= i < rest.len() && rest[i] == '@' implies #[trigger] names_alias(
        rest,
        i,
        aliases,
        0,
    ) by {
        assert(s[i + n] == '@');
        assert(names_alias(s, i + n, aliases, 0));
        assert(s.skip(i + n + 1) == rest.skip(i + 1));
    }
}

/// Replacing no alias leaves the location as it is.
proof fn lemma_expand_none(s: Seq<char>, aliases: Seq<Alias>)
    ensures
        expanded_upto(s, aliases, 0) == s,
    decreases s.len(),
{
    if s.len() > 0 {
        lemma_expand_none(s.skip(1), aliases);
        assert(seq![s[0]] + s.skip(1) == s);
    }
}

/// Replacing the token of the alias at index `k` everywhere, in a location
/// in which the tokens of the aliases before it are replaced, replaces the
/// tokens of the aliases up to and with it.
proof fn lemma_expand_next(s: Seq<char>, aliases: Seq<Alias>, k: int)
    requires
        aliases_plain(aliases),
        prefix_free(aliases),
        markers_named(s, aliases, 0),
        0 <= k < aliases.len(),
    ensures
        replace_all(
            expanded_upto(s, aliases, k),
            marker(aliases[k].name@),
            aliases[k].location@,
        ) == expanded_upto(s, aliases, k + 1),
    decreases s.len(),
{
    let name = aliases[k].name@;
    let pat = marker(name);
    let to = aliases[k].location@;
    assert(pat.len() == name.len() + 1);
    assert(pat[0] == '@');
    if s.len() == 0 {
    } else {
        let t = s.skip(1);
        lemma_markers_rest(s, aliases, 1);
        if s[0] != '@' {
            lemma_expand_next(t, aliases, k);
            let head = seq![s[0]];
            let body = expanded_upto(t, aliases, k);
            assert forall|i: int| 0 <= i < head.len() implies !pat.is_prefix_of(
                #[trigger] (head + body).skip(i),
            ) by {
                let u = (head + body).skip(i);
                if pat.is_prefix_of(u) {
                    assert(pat[0] == u.subrange(0, pat.len() as int)[0]);
                }
            }
            lemma_replace_after(head, body, pat, to);
        } else {
            assert(names_alias(s, 0, aliases, 0));
            let i = choose|i: int|
                0 <= i < aliases.len() && #[trigger] aliases[i].name@.is_prefix_of(s.skip(1));
            lemma_only_match(t, aliases, i);
            let found = aliases[i].name@;
            let rest = s.skip(1 + found.len() as int);
            assert(rest == t.skip(found.len() as int));
            lemma_markers_rest(s, aliases, 1 + found.len() as int);
            lemma_expand_next(rest, aliases, k);
            let before = expanded_upto(rest, aliases, k);
            let after = expanded_upto(rest, aliases, k + 1);
            if i < k {
                let place = aliases[i].location@;
                lemma_no_token_in_plain(place, before, pat);
                lemma_replace_after(place, before, pat, to);
            } else if i == k {
                lemma_expand_plain_start(found, t, aliases, k);
                let whole = expanded_upto(s, aliases, k);
                assert(whole =~= pat + before);
                assert(pat.is_prefix_of(whole)) by {
                    assert(pat =~= whole.subrange(0, pat.len() as int));
                }
                assert(whole.skip(pat.len() as int) =~= before);
            } else {
                lemma_expand_plain_start(found, t, aliases, k);
                lemma_expand_plain_start(found, t, aliases, k + 1);
                let head = seq!['@'] + found;
                assert(expanded_upto(s, aliases, k) =~= head + before);
                assert(expanded_upto(s, aliases, k + 1) =~= head + after);
                assert forall|x: int| 0 <= x < head.len() implies !pat.is_prefix_of(
                    #[trigger] (head + before).skip(x),
                ) by {
                    let u = (head + before).skip(x);
                    if pat.is_prefix_of(u) {
                        assert(pat[0] == u.subrange(0, pat.len() as int)[0]);
                        if x > 0 {
                            assert(u[0] == found[x - 1]);
                        } else {
                            assert(u == head + before);
                            if name.len() <= found.len() {
                                assert(name =~= found.subrange(0, name.len() as int)) by {
                                    assert forall|y: int| 0 <= y < name.len() implies name[y]
                                        == found[y] by {
                                        assert(pat[y + 1] == u.subrange(0, pat.len() as int)[y
                                            + 1]);
                                    }
                                }
                                assert(aliases[k].name@.is_prefix_of(aliases[i].name@));
                            } else {
                                assert(found =~= name.subrange(0, found.len() as int)) by {
                                    assert forall|y: int| 0 <= y < found.len() implies found[y]
                                        == name[y] by {
                                        assert(pat[y + 1] == u.subrange(0, pat.len() as int)[y
                                            + 1]);
                                    }
                                }
                                assert(aliases[i].name@.is_prefix_of(aliases[k].name@));
                            }
                        }
                    }
                }
                lemma_replace_after(head, before, pat, to);
            }
        }
    }
}

/// Substituting the first `k` aliases one after the other replaces their
/// tokens where they stand.
proof fn lemma_resolve_upto(location: Seq<char>, aliases: Seq<Alias>, k: int)
    requires
        aliases_plain(aliases),
        prefix_free(aliases),
        markers_named(location, aliases, 0),
        0 <= k <= aliases.len(),
    ensures
        resolve(location, aliases.take(k)) == expanded_upto(location, aliases, k),
    decreases k,
{
    if k == 0 {
        lemma_expand_none(location, aliases);
    } else {
        lemma_resolve_upto(location, aliases, k - 1);
        assert(aliases.take(k).drop_last() == aliases.take(k - 1));
        assert(aliases.take(k).last() == aliases[k - 1]);
        lemma_expand_next(location, aliases, k - 1);
    }
}

/// Replacing every token where it stands gives the same for two lists of
/// the same aliases.
proof fn lemma_expanded_same(s: Seq<char>, a: Seq<Alias>, b: Seq<Alias>)
    requires
        prefix_free(a),
        prefix_free(b),
        same_aliases(a, b),
    ensures
        expanded(s, a) == expanded(s, b),
    decreases s.len(),
{
    if s.len() > 0 {
        let t = s.skip(1);
        lemma_first_named(t, a, 0);
        lemma_first_named(t, b, 0);
        let ja = first_named(t, a, 0);
        let jb = first_named(t, b, 0);
        lemma_expanded_same(t, a, b);
        if ja < a.len() {
            assert(occurs_in(a[ja], b));
            let i = choose|i: int| 0 <= i < b.len() && (#[trigger] b[i])@ == a[ja]@;
            lemma_only_match(t, b, i);
            lemma_expanded_same(s.skip(1 + a[ja].name@.len() as int), a, b);
        } else if jb < b.len() {
            assert(occurs_in(b[jb], a));
            let i = choose|i: int| 0 <= i < a.len() && (#[trigger] a[i])@ == b[jb]@;
            lemma_only_match(t, a, i);
        }
    }
}

/// Where every marker of a location is followed by the name of an alias,
/// no alias holds a marker in its name or in what it stands for, and no
/// name begins another, the aliases can be substituted in any order: the
/// resolved location is the location with every token replaced where it
/// stands and all other text unchanged, it holds no marker, and it is the
/// same for every list of the same aliases.
pub proof fn lemma_resolve_any_order(location: Seq<char>, a: Seq<Alias>, b: Seq<Alias>)
    requires
        aliases_plain(a),
        prefix_free(a),
        markers_named(location, a, 0),
        prefix_free(b),
        same_aliases(a, b),
    ensures
        resolve(location, a) == expanded(location, a),
        resolve(location, b) == resolve(location, a),
        marker_free(resolve(location, a)),
{
    lemma_resolve_upto(location, a, a.len() as int);
    assert(a.take(a.len() as int) == a);
    assert(aliases_plain(b)) by {
        assert forall|j: int| 0 <= j < b.len() implies marker_free((#[trigger] b[j]).name@)
            && marker_free(b[j].location@) by {
            assert(occurs_in(b[j], a));
            let i = choose|i: int| 0 <= i < a.len() && (#[trigger] a[i])@ == b[j]@;
            assert(a[i].name@ == b[j].name@);
            assert(a[i].location@ == b[j].location@);
        }
    }
    assert(markers_named(location, b, 0)) by {
        assert forall|i: int| 0 <= i < location.len() && location[i] == '@' implies #[trigger] names_alias(
            location,
            i,
            b,
            0,
        ) by {
            assert(names_alias(location, i, a, 0));
            let j = choose|j: int|
                0 <= j < a.len() && #[trigger] a[j].name@.is_prefix_of(location.skip(i + 1));
            assert(occurs_in(a[j], b));
            let h = choose|h: int| 0 <= h < b.len() && (#[trigger] b[h])@ == a[j]@;
            assert(b[h].name@.is_prefix_of(location.skip(i + 1)));
        }
    }
    lemma_resolve_upto(location, b, b.len() as int);
    assert(b.take(b.len() as int) == b);
    lemma_expanded_same(location, a, b);
    lemma_resolved_holds_no_marker(location, a);
}

/// A selection is classified alike under every list of the same aliases,
/// where the aliases can be substituted in any order in the name of its
/// source, without its wrapping quotes. Its table is then that name with
/// every token replaced where it stands, and holds no marker.
pub proof fn lemma_select_any_order(s: SelectStmt, a: Seq<Alias>, b: Seq<Alias>)
    requires
        select_classification(s, a) is Ok,
        aliases_plain(a),
        prefix_free(a),
        markers_named(strip_quotes(s.from@[0]->Table_0@), a, 0),
        prefix_free(b),
        same_aliases(a, b),
    ensures
        select_classification(s, b) == select_classification(s, a),
        select_classification(s, a)->Ok_0.query.table == expanded(
            strip_quotes(s.from@[0]->Table_0@),
            a,
        ),
        marker_free(select_classification(s, a)->Ok_0.query.table),
{
    lemma_resolve_any_order(strip_quotes(s.from@[0]->Table_0@), a, b);
}

} // verus!
