//! Edit distance, for suggesting the key that was meant.

use vstd::prelude::*;

use crate::text::chars_of;

verus! {

/// The smaller of two numbers.
pub open spec fn least(a: nat, b: nat) -> nat {
    if a <= b {
        a
    } else {
        b
    }
}

/// The least number of insertions, deletions and replacements of one character that turn
/// `a` into `b`, by what becomes of the last characters.
pub open spec fn edit_distance(a: Seq<char>, b: Seq<char>) -> nat
    decreases a.len() + b.len(),
{
    if a.len() == 0 {
        b.len()
    } else if b.len() == 0 {
        a.len()
    } else {
        let del = edit_distance(a.drop_last(), b) + 1;
        let ins = edit_distance(a, b.drop_last()) + 1;
        let sub = edit_distance(a.drop_last(), b.drop_last()) + if a.last() != b.last() {
            1nat
        } else {
            0nat
        };
        least(least(del, ins), sub)
    }
}

/// No more edits than the longer text has characters.
proof fn lemma_distance_bound(a: Seq<char>, b: Seq<char>)
    ensures
        edit_distance(a, b) <= a.len() || edit_distance(a, b) <= b.len(),
    decreases a.len() + b.len(),
{
    if a.len() > 0 && b.len() > 0 {
        lemma_distance_bound(a.drop_last(), b.drop_last());
    }
}

/// The edit distance of two texts.
pub fn levenshtein(left: &str, right: &str) -> (r: usize)
    ensures
        r == edit_distance(left@, right@),
{
    let a = chars_of(left);
    let b = chars_of(right);
    if a.len() == 0 {
        return b.len();
    }
    if b.len() == 0 {
        return a.len();
    }
    let n: usize = b.len();
    let mut prev: Vec<u128> = Vec::new();
    prev.push(0);
    let mut j: usize = 0;
    while j < n
        invariant
            n == b@.len(),
            b@ == right@,
            j <= n,
            prev@.len() == j + 1,
            forall|k: int| 0 <= k <= j ==> prev@[k] == edit_distance(left@.take(0), right@.take(k)),
        decreases n - j,
    {
        j = j + 1;
        prev.push(j as u128);
    }
    let mut row: usize = 0;
    while row < a.len()
        invariant
            a@ == left@,
            b@ == right@,
            n == b@.len(),
            row <= a@.len(),
            prev@.len() == n + 1,
            forall|k: int|
                0 <= k <= n ==> prev@[k] == edit_distance(left@.take(row as int), right@.take(k)),
        decreases a@.len() - row,
    {
        let mut curr: Vec<u128> = Vec::new();
        curr.push(row as u128 + 1);
        let ghost la = left@.take(row as int);
        let ghost lb = left@.take(row + 1);
        proof {
            assert(lb.drop_last() == la);
            assert(lb.last() == left@[row as int]);
        }
        let mut col: usize = 0;
        while col < n
            invariant
                a@ == left@,
                b@ == right@,
                n == b@.len(),
                    row < a@.len(),
                col <= n,
                prev@.len() == n + 1,
                curr@.len() == col + 1,
                la == left@.take(row as int),
                lb == left@.take(row + 1),
                lb.drop_last() == la,
                lb.last() == left@[row as int],
                forall|k: int| 0 <= k <= n ==> prev@[k] == edit_distance(la, right@.take(k)),
                forall|k: int| 0 <= k <= col ==> curr@[k] == edit_distance(lb, right@.take(k)),
            decreases n - col,
        {
            let ghost rb = right@.take(col + 1);
            proof {
                assert(rb.drop_last() == right@.take(col as int));
                assert(rb.last() == right@[col as int]);
                lemma_distance_bound(la, rb);
                lemma_distance_bound(lb, right@.take(col as int));
                lemma_distance_bound(la, right@.take(col as int));
            }
            let cost: u128 = if a[row] != b[col] {
                1
            } else {
                0
            };
            let del: u128 = prev[col + 1] + 1;
            let ins: u128 = curr[col] + 1;
            let sub: u128 = prev[col] + cost;
            let first: u128 = if del <= ins {
                del
            } else {
                ins
            };
            curr.push(
                if first <= sub {
                    first
                } else {
                    sub
                },
            );
            col = col + 1;
        }
        prev = curr;
        row = row + 1;
    }
    proof {
        assert(left@.take(a@.len() as int) == left@);
        assert(right@.take(n as int) == right@);
        lemma_distance_bound(left@, right@);
    }
    prev[n] as usize
}

/// The distance does not depend on the order of the texts.
pub proof fn law_distance_is_symmetric(a: Seq<char>, b: Seq<char>)
    ensures
        edit_distance(a, b) == edit_distance(b, a),
    decreases a.len() + b.len(),
{
    if a.len() > 0 && b.len() > 0 {
        law_distance_is_symmetric(a.drop_last(), b);
        law_distance_is_symmetric(a, b.drop_last());
        law_distance_is_symmetric(a.drop_last(), b.drop_last());
    }
}

/// Two texts are at distance 0 exactly where they are the same.
pub proof fn law_distance_zero_is_equality(a: Seq<char>, b: Seq<char>)
    ensures
        edit_distance(a, b) == 0 <==> a == b,
    decreases a.len() + b.len(),
{
    if a.len() == 0 {
        if b.len() == 0 {
            assert(a =~= b);
        }
    } else if b.len() > 0 {
        law_distance_zero_is_equality(a.drop_last(), b.drop_last());
        if edit_distance(a, b) == 0 {
            assert(a =~= a.drop_last().push(a.last()));
            assert(b =~= b.drop_last().push(b.last()));
        }
    }
}

/// The distance is at least the difference of the lengths.
pub proof fn law_distance_covers_length(a: Seq<char>, b: Seq<char>)
    ensures
        a.len() <= b.len() + edit_distance(a, b),
        b.len() <= a.len() + edit_distance(a, b),
    decreases a.len() + b.len(),
{
    if a.len() > 0 && b.len() > 0 {
        law_distance_covers_length(a.drop_last(), b);
        law_distance_covers_length(a, b.drop_last());
        law_distance_covers_length(a.drop_last(), b.drop_last());
    }
}

/// A way round over a third text is no shorter.
pub proof fn law_no_way_round_is_shorter(a: Seq<char>, b: Seq<char>, c: Seq<char>)
    ensures
        edit_distance(a, c) <= edit_distance(a, b) + edit_distance(b, c),
    decreases a.len() + b.len() + c.len(),
{
    if a.len() == 0 || c.len() == 0 {
        law_distance_covers_length(b, c);
        law_distance_covers_length(a, b);
    } else if b.len() == 0 {
        lemma_distance_bound(a, c);
    } else {
        let a1 = a.drop_last();
        let b1 = b.drop_last();
        let c1 = c.drop_last();
        law_no_way_round_is_shorter(a1, b, c);
        law_no_way_round_is_shorter(a, b, c1);
        law_no_way_round_is_shorter(a, b1, c);
        law_no_way_round_is_shorter(a, b1, c1);
        law_no_way_round_is_shorter(a1, b1, c);
        law_no_way_round_is_shorter(a1, b1, c1);
    }
}

/// `b` is `a` with one character inserted, replaced or taken out.
pub open spec fn one_edit(a: Seq<char>, b: Seq<char>) -> bool {
    ||| exists|i: int, c: char| 0 <= i <= a.len() && b == #[trigger] a.insert(i, c)
    ||| exists|i: int, c: char| 0 <= i < a.len() && b == #[trigger] a.update(i, c)
    ||| exists|i: int| 0 <= i < a.len() && b == #[trigger] a.remove(i)
}

/// One edit changes the distance to any text by one at most.
pub proof fn law_one_edit_counts_for_one(a: Seq<char>, edited: Seq<char>, b: Seq<char>)
    requires
        one_edit(a, edited),
    ensures
        edit_distance(a, edited) <= 1,
        edit_distance(edited, b) <= edit_distance(a, b) + 1,
        edit_distance(a, b) <= edit_distance(edited, b) + 1,
{
    if exists|i: int, c: char| 0 <= i <= a.len() && edited == #[trigger] a.insert(i, c) {
        let (i, c) = choose|i: int, c: char| 0 <= i <= a.len() && edited == #[trigger] a.insert(i, c);
        lemma_insert(a, i, c);
    } else if exists|i: int, c: char| 0 <= i < a.len() && edited == #[trigger] a.update(i, c) {
        let (i, c) = choose|i: int, c: char| 0 <= i < a.len() && edited == #[trigger] a.update(i, c);
        lemma_update(a, i, c);
    } else {
        let i = choose|i: int| 0 <= i < a.len() && edited == #[trigger] a.remove(i);
        lemma_insert(edited, i, a[i]);
        assert(edited.insert(i, a[i]) =~= a);
        law_distance_is_symmetric(edited, a);
    }
    law_distance_is_symmetric(a, edited);
    law_no_way_round_is_shorter(edited, a, b);
    law_no_way_round_is_shorter(a, edited, b);
}

/// One insertion.
proof fn lemma_insert(a: Seq<char>, i: int, c: char)
    requires
        0 <= i <= a.len(),
    ensures
        edit_distance(a, a.insert(i, c)) <= 1,
    decreases a.len(),
{
    let b = a.insert(i, c);
    law_distance_zero_is_equality(a, a);
    if i == a.len() {
        assert(b.drop_last() =~= a);
    } else {
        lemma_insert(a.drop_last(), i, c);
        assert(b.drop_last() =~= a.drop_last().insert(i, c));
        assert(b.last() == a.last());
    }
}

/// One replacement.
proof fn lemma_update(a: Seq<char>, i: int, c: char)
    requires
        0 <= i < a.len(),
    ensures
        edit_distance(a, a.update(i, c)) <= 1,
    decreases a.len(),
{
    let b = a.update(i, c);
    let init = a.drop_last();
    law_distance_zero_is_equality(init, init);
    if i == a.len() - 1 {
        assert(b.drop_last() =~= init);
    } else {
        lemma_update(init, i, c);
        assert(b.drop_last() =~= init.update(i, c));
        assert(b.last() == a.last());
    }
}

/// Between two different texts there is always an edit that brings the first one step closer
/// to the second: the distance is the least number of edits that lead from one to the other.
pub proof fn law_some_edit_is_a_step_closer(a: Seq<char>, b: Seq<char>)
    requires
        a != b,
    ensures
        exists|edited: Seq<char>| #[trigger]
            one_edit(a, edited) && edit_distance(edited, b) + 1 == edit_distance(a, b),
    decreases a.len() + b.len(),
{
    law_distance_zero_is_equality(a, b);
    let n = a.len() as int;
    let d = edit_distance(a, b);
    if a.len() == 0 {
        assert(b.len() > 0) by {
            if b.len() == 0 {
                assert(a =~= b);
            }
        }
        let e = a.insert(0, b.last());
        assert(one_edit(a, e));
        assert(e.drop_last() =~= a);
        assert(e.last() == b.last());
        law_one_edit_counts_for_one(a, e, b);
    } else if b.len() == 0 {
        let e = a.remove(n - 1);
        assert(one_edit(a, e));
    } else if d == edit_distance(a.drop_last(), b) + 1 {
        let e = a.remove(n - 1);
        assert(e =~= a.drop_last());
        assert(one_edit(a, e));
    } else if d == edit_distance(a, b.drop_last()) + 1 {
        let e = a.insert(n, b.last());
        assert(one_edit(a, e));
        assert(e.drop_last() =~= a);
        assert(e.last() == b.last());
        law_one_edit_counts_for_one(a, e, b);
    } else if a.last() != b.last() {
        let e = a.update(n - 1, b.last());
        assert(one_edit(a, e));
        assert(e.drop_last() =~= a.drop_last());
        assert(e.last() == b.last());
        law_one_edit_counts_for_one(a, e, b);
    } else {
        let a1 = a.drop_last();
        let b1 = b.drop_last();
        if a1 == b1 {
            assert(a =~= a1.push(a.last()));
            assert(b =~= b1.push(b.last()));
        }
        law_some_edit_is_a_step_closer(a1, b1);
        let e1 = choose|edited: Seq<char>| #[trigger]
            one_edit(a1, edited) && edit_distance(edited, b1) + 1 == edit_distance(a1, b1);
        let e = e1.push(a.last());
        lemma_edit_before_last(a, e1);
        assert(e.drop_last() =~= e1);
        law_one_edit_counts_for_one(a, e, b);
    }
}

/// An edit before the last character.
proof fn lemma_edit_before_last(a: Seq<char>, e1: Seq<char>)
    requires
        a.len() > 0,
        one_edit(a.drop_last(), e1),
    ensures
        one_edit(a, e1.push(a.last())),
{
    let a1 = a.drop_last();
    let e = e1.push(a.last());
    if exists|i: int, c: char| 0 <= i <= a1.len() && e1 == #[trigger] a1.insert(i, c) {
        let (i, c) = choose|i: int, c: char| 0 <= i <= a1.len() && e1 == #[trigger] a1.insert(i, c);
        assert(e =~= a.insert(i, c));
    } else if exists|i: int, c: char| 0 <= i < a1.len() && e1 == #[trigger] a1.update(i, c) {
        let (i, c) = choose|i: int, c: char| 0 <= i < a1.len() && e1 == #[trigger] a1.update(i, c);
        assert(e =~= a.update(i, c));
    } else {
        let i = choose|i: int| 0 <= i < a1.len() && e1 == #[trigger] a1.remove(i);
        assert(e =~= a.remove(i));
    }
}

} // verus!
