//! The order of texts by their characters, and lists of names kept in that
//! order without repetition.

use vstd::prelude::*;
use crate::text::to_chars;

verus! {

/// Whether `a` comes before `b` in the order of the dictionary, the
/// characters compared by their code points.
pub open spec fn before(a: Seq<char>, b: Seq<char>) -> bool
    decreases a.len(),
{
    if b.len() == 0 {
        false
    } else if a.len() == 0 {
        true
    } else if a[0] < b[0] {
        true
    } else if a[0] > b[0] {
        false
    } else {
        before(a.skip(1), b.skip(1))
    }
}

/// Whether each name of the list comes before the next.
pub open spec fn increasing(names: Seq<Seq<char>>) -> bool {
    forall|i: int| 0 <= i < names.len() - 1 ==> before(#[trigger] names[i], names[i + 1])
}

/// The ordered list `names` with `name` in its place, unless it holds the
/// name already.
pub open spec fn with_name(names: Seq<Seq<char>>, name: Seq<char>) -> Seq<Seq<char>>
    decreases names.len(),
{
    if names.len() == 0 {
        seq![name]
    } else if before(name, names[0]) {
        seq![name] + names
    } else if name == names[0] {
        names
    } else {
        seq![names[0]] + with_name(names.skip(1), name)
    }
}

/// Of two different texts one comes before the other.
pub proof fn lemma_before_total(a: Seq<char>, b: Seq<char>)
    ensures
        a == b || before(a, b) || before(b, a),
        !(before(a, b) && before(b, a)),
        !before(a, a),
    decreases a.len(),
{
    if a.len() > 0 && b.len() > 0 && a[0] == b[0] {
        lemma_before_total(a.skip(1), b.skip(1));
        if a.skip(1) == b.skip(1) {
            assert(a =~= seq![a[0]] + a.skip(1));
            assert(b =~= seq![b[0]] + b.skip(1));
        }
    } else if a.len() == 0 && b.len() == 0 {
        assert(a =~= b);
    }
    if a.len() > 0 {
        lemma_before_self(a);
    }
}

proof fn lemma_before_self(a: Seq<char>)
    ensures
        !before(a, a),
    decreases a.len(),
{
    if a.len() > 0 {
        lemma_before_self(a.skip(1));
    }
}

/// Putting a name in its place keeps the list in order; the list then holds
/// the name, all that it held before, and nothing else.
pub proof fn lemma_with_name(names: Seq<Seq<char>>, name: Seq<char>)
    requires
        increasing(names),
    ensures
        increasing(with_name(names, name)),
        with_name(names, name).contains(name),
        forall|other: Seq<char>|
            #[trigger] with_name(names, name).contains(other) <==> (other == name
                || names.contains(other)),
        names.len() > 0 ==> with_name(names, name)[0] == names[0] || with_name(names, name)[0]
            == name,
    decreases names.len(),
{
    let out = with_name(names, name);
    if names.len() == 0 {
        assert(out[0] == name);
        assert forall|other: Seq<char>| #[trigger] out.contains(other) <==> (other == name
            || names.contains(other)) by {
            if other == name {
                assert(out[0] == other);
            }
        }
    } else if before(name, names[0]) {
        assert(out[0] == name);
        assert forall|i: int| 0 <= i < out.len() - 1 implies before(#[trigger] out[i], out[i + 1]) by {
            if i > 0 {
                assert(before(names[i - 1], names[i]));
            }
        }
        assert forall|other: Seq<char>| #[trigger] out.contains(other) <==> (other == name
            || names.contains(other)) by {
            if names.contains(other) {
                let k = choose|k: int| 0 <= k < names.len() && names[k] == other;
                assert(out[k + 1] == other);
            }
            if out.contains(other) {
                let k = choose|k: int| 0 <= k < out.len() && out[k] == other;
                if k > 0 {
                    assert(names[k - 1] == other);
                }
            }
        }
    } else if name == names[0] {
        assert(names[0] == name);
    } else {
        let rest = names.skip(1);
        assert forall|i: int| 0 <= i < rest.len() - 1 implies before(#[trigger] rest[i], rest[i + 1]) by {
            assert(before(names[i + 1], names[i + 2]));
        }
        lemma_with_name(rest, name);
        let tail = with_name(rest, name);
        lemma_before_total(name, names[0]);
        assert(before(names[0], tail[0])) by {
            if rest.len() > 0 && tail[0] == rest[0] {
                assert(before(names[0], names[1]));
            }
        }
        assert forall|i: int| 0 <= i < out.len() - 1 implies before(#[trigger] out[i], out[i + 1]) by {
            if i > 0 {
                assert(before(tail[i - 1], tail[i]));
            }
        }
        assert(tail.contains(name));
        let at = choose|k: int| 0 <= k < tail.len() && tail[k] == name;
        assert(out[at + 1] == name);
        assert forall|other: Seq<char>| #[trigger] out.contains(other) <==> (other == name
            || names.contains(other)) by {
            if names.contains(other) {
                let k = choose|k: int| 0 <= k < names.len() && names[k] == other;
                if k == 0 {
                    assert(out[0] == other);
                } else {
                    assert(rest[k - 1] == other);
                    assert(tail.contains(other));
                    let j = choose|j: int| 0 <= j < tail.len() && tail[j] == other;
                    assert(out[j + 1] == other);
                }
            }
            if out.contains(other) {
                let k = choose|k: int| 0 <= k < out.len() && out[k] == other;
                if k == 0 {
                    assert(names[0] == other);
                } else {
                    assert(tail[k - 1] == other);
                    assert(tail.contains(other));
                    if other != name {
                        assert(rest.contains(other));
                        let j = choose|j: int| 0 <= j < rest.len() && rest[j] == other;
                        assert(names[j + 1] == other);
                    }
                }
            }
        }
    }
}

/// Whether `a` comes before `b` in the order of the dictionary.
pub fn comes_before(a: &str, b: &str) -> (yes: bool)
    ensures
        yes == before(a@, b@),
{
    let x = to_chars(a);
    let y = to_chars(b);
    let mut i: usize = 0;
    assert(x@.skip(0) == x@ && y@.skip(0) == y@);
    while i < x.len() && i < y.len()
        invariant
            i <= x.len(),
            i <= y.len(),
            x@ == a@,
            y@ == b@,
            before(a@, b@) == before(x@.skip(i as int), y@.skip(i as int)),
        decreases x.len() - i,
    {
        let p = x[i];
        let q = y[i];
        assert(x@.skip(i as int)[0] == x@[i as int]);
        assert(y@.skip(i as int)[0] == y@[i as int]);
        if p < q {
            return true;
        }
        if p > q {
            return false;
        }
        assert(x@.skip(i as int).skip(1) == x@.skip(i + 1));
        assert(y@.skip(i as int).skip(1) == y@.skip(i + 1));
        i += 1;
    }
    i < y.len()
}

/// Puts `name` in its place in the ordered list, unless the list holds it
/// already.
pub fn insert_name(names: &mut Vec<String>, name: &String)
    ensures
        final(names)@.map_values(|s: String| s@) == with_name(
            old(names)@.map_values(|s: String| s@),
            name@,
        ),
{
    let ghost start = names@.map_values(|s: String| s@);
    let mut i: usize = 0;
    proof {
        assert(start.skip(0) == start);
        assert(start.take(0) + with_name(start, name@) =~= with_name(start, name@));
    }
    while i < names.len()
        invariant
            i <= names.len(),
            names@ == old(names)@,
            start == names@.map_values(|s: String| s@),
            with_name(start, name@) == start.take(i as int) + with_name(
                start.skip(i as int),
                name@,
            ),
        decreases names.len() - i,
    {
        let ghost rest = start.skip(i as int);
        assert(rest[0] == names@[i as int]@);
        if comes_before(name.as_str(), names[i].as_str()) {
            names.insert(i, name.clone());
            proof {
                assert(names@.map_values(|s: String| s@) =~= start.take(i as int) + (seq![name@]
                    + rest));
            }
            return ;
        }
        if names[i] == *name {
            return ;
        }
        proof {
            assert(rest.skip(1) == start.skip(i + 1));
            assert(start.take(i as int) + (seq![rest[0]] + with_name(rest.skip(1), name@))
                =~= start.take(i + 1) + with_name(start.skip(i + 1), name@));
        }
        i += 1;
    }
    names.push(name.clone());
    proof {
        assert(start.skip(start.len() as int).len() == 0);
        assert(names@.map_values(|s: String| s@) =~= start.take(start.len() as int) + seq![
            name@,
        ]);
    }
}

} // verus!
