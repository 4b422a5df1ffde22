//! Parentheses in a filter text: how deep each position is nested, and what
//! it means for a text to be balanced or to be one group.

use vstd::prelude::*;

verus! {

/// What a character does to the nesting depth.
pub open spec fn paren_step(c: char) -> int {
    if c == '(' {
        1
    } else if c == ')' {
        -1
    } else {
        0
    }
}

/// The nesting depth after `s`: the opening parentheses less the closing
/// ones.
pub open spec fn depth(s: Seq<char>) -> int
    decreases s.len(),
{
    if s.len() == 0 {
        0
    } else {
        depth(s.drop_last()) + paren_step(s.last())
    }
}

/// Every parenthesis of `s` has its partner in `s`: no prefix closes more
/// than it opened, and the whole closes all it opened.
pub open spec fn balanced(s: Seq<char>) -> bool {
    &&& depth(s) == 0
    &&& forall|k: int| 0 <= k <= s.len() ==> depth(#[trigger] s.take(k)) >= 0
}

/// `s` is one parenthesised group: its first character opens a parenthesis
/// that only its last character closes.
pub open spec fn single_group(s: Seq<char>) -> bool {
    &&& s.len() >= 2
    &&& s[0] == '('
    &&& s.last() == ')'
    &&& depth(s) == 0
    &&& forall|k: int| 0 < k < s.len() ==> depth(#[trigger] s.take(k)) >= 1
}

/// `s` holds no parenthesis at all.
pub open spec fn paren_free(s: Seq<char>) -> bool {
    forall|i: int| 0 <= i < s.len() ==> paren_step(#[trigger] s[i]) == 0
}

/// The depth after two texts is the sum of their depths.
pub proof fn lemma_depth_concat(a: Seq<char>, b: Seq<char>)
    ensures
        depth(a + b) == depth(a) + depth(b),
    decreases b.len(),
{
    if b.len() == 0 {
        assert(a + b == a);
    } else {
        assert((a + b).drop_last() == a + b.drop_last());
        lemma_depth_concat(a, b.drop_last());
    }
}

/// The depth of a text of one character.
pub proof fn lemma_depth_one(c: char)
    ensures
        depth(seq![c]) == paren_step(c),
{
    assert(seq![c].drop_last() == Seq::<char>::empty());
    assert(depth(seq![c].drop_last()) == 0);
}

/// A text without parentheses stays at depth zero.
pub proof fn lemma_paren_free_depth(s: Seq<char>)
    requires
        paren_free(s),
    ensures
        depth(s) == 0,
    decreases s.len(),
{
    if s.len() > 0 {
        lemma_paren_free_depth(s.drop_last());
    }
}

/// A text without parentheses is balanced.
pub proof fn lemma_paren_free_balanced(s: Seq<char>)
    requires
        paren_free(s),
    ensures
        balanced(s),
{
    lemma_paren_free_depth(s);
    assert forall|k: int| 0 <= k <= s.len() implies depth(#[trigger] s.take(k)) >= 0 by {
        lemma_paren_free_depth(s.take(k));
    }
}

/// Two balanced texts, one after the other, are balanced.
pub proof fn lemma_balanced_concat(a: Seq<char>, b: Seq<char>)
    requires
        balanced(a),
        balanced(b),
    ensures
        balanced(a + b),
{
    lemma_depth_concat(a, b);
    assert forall|k: int| 0 <= k <= (a + b).len() implies depth(#[trigger] (a + b).take(k))
        >= 0 by {
        if k <= a.len() {
            assert((a + b).take(k) == a.take(k));
        } else {
            assert((a + b).take(k) == a + b.take(k - a.len()));
            lemma_depth_concat(a, b.take(k - a.len()));
        }
    }
}

/// A balanced text between parentheses is one group.
pub proof fn lemma_enclosed_is_group(s: Seq<char>)
    requires
        balanced(s),
    ensures
        single_group(seq!['('] + s + seq![')']),
{
    let open = seq!['('];
    let close = seq![')'];
    let all = open + s + close;
    lemma_depth_one('(');
    lemma_depth_one(')');
    lemma_depth_concat(open, s);
    lemma_depth_concat(open + s, close);
    assert forall|k: int| 0 < k < all.len() implies depth(#[trigger] all.take(k)) >= 1 by {
        assert(all.take(k) == open + s.take(k - 1));
        lemma_depth_concat(open, s.take(k - 1));
    }
}

/// One group is balanced.
pub proof fn lemma_group_balanced(s: Seq<char>)
    requires
        single_group(s),
    ensures
        balanced(s),
{
    assert forall|k: int| 0 <= k <= s.len() implies depth(#[trigger] s.take(k)) >= 0 by {
        if k == 0 {
            assert(s.take(0).len() == 0);
        } else if k == s.len() {
            assert(s.take(k) == s);
        }
    }
}

/// A text without parentheses, put into a balanced text at any place, leaves
/// it balanced.
pub proof fn lemma_balanced_insert(a: Seq<char>, mid: Seq<char>, b: Seq<char>)
    requires
        balanced(a + b),
        paren_free(mid),
    ensures
        balanced(a + mid + b),
{
    let whole = a + mid + b;
    lemma_paren_free_depth(mid);
    lemma_depth_concat(a, b);
    lemma_depth_concat(a, mid);
    lemma_depth_concat(a + mid, b);
    assert forall|k: int| 0 <= k <= whole.len() implies depth(#[trigger] whole.take(k)) >= 0 by {
        if k <= a.len() {
            assert(whole.take(k) == (a + b).take(k));
        } else if k <= a.len() + mid.len() {
            let part = mid.take(k - a.len());
            assert(whole.take(k) == a + part);
            lemma_paren_free_depth(part);
            lemma_depth_concat(a, part);
            assert((a + b).take(a.len() as int) == a);
        } else {
            let part = b.take(k - a.len() - mid.len());
            assert(whole.take(k) == a + mid + part);
            lemma_depth_concat(a + mid, part);
            lemma_depth_concat(a, part);
            assert((a + b).take((a.len() + part.len()) as int) == a + part);
        }
    }
}

} // verus!
