//! Dictionary order on texts, and lists kept in it.

use vstd::prelude::*;

use crate::sequences::{first_where, lemma_first_where};
use crate::text::{chars_of, same_text, texts};

verus! {

/// Whether `a` comes before `b` in dictionary order, characters being ordered
/// by their code points.
pub open spec fn precedes(a: Seq<char>, b: Seq<char>) -> bool
    decreases a.len(),
{
    if b.len() == 0 {
        false
    } else if a.len() == 0 {
        true
    } else if a[0] == b[0] {
        precedes(a.drop_first(), b.drop_first())
    } else {
        a[0] < b[0]
    }
}

/// Whether each text comes before all that follow it.
pub open spec fn ascending(parts: Seq<Seq<char>>) -> bool {
    forall|i: int, j: int|
        0 <= i < j < parts.len() ==> precedes(#[trigger] parts[i], #[trigger] parts[j])
}

/// Whether `parts` lists the texts that satisfy `member`, each once, in
/// dictionary order.
pub open spec fn lists_in_order(parts: Seq<Seq<char>>, member: spec_fn(Seq<char>) -> bool) -> bool {
    &&& ascending(parts)
    &&& forall|t: Seq<char>| #[trigger] parts.contains(t) <==> member(t)
}

/// Being one of the texts of `parts`, and not empty.
pub open spec fn nonempty_in(parts: Seq<Seq<char>>) -> spec_fn(Seq<char>) -> bool {
    |t: Seq<char>| t.len() > 0 && parts.contains(t)
}

proof fn lemma_precedes_trichotomy(a: Seq<char>, b: Seq<char>)
    ensures
        a != b ==> precedes(a, b) || precedes(b, a),
        precedes(a, b) ==> a != b && !precedes(b, a),
    decreases a.len(),
{
    if a.len() > 0 && b.len() > 0 && a[0] == b[0] {
        lemma_precedes_trichotomy(a.drop_first(), b.drop_first());
        if a.drop_first() == b.drop_first() {
            assert(a == seq![a[0]] + a.drop_first());
            assert(b == seq![b[0]] + b.drop_first());
        }
    } else if a.len() == 0 && b.len() == 0 {
        assert(a == b);
    }
}

proof fn lemma_precedes_transitive(a: Seq<char>, b: Seq<char>, c: Seq<char>)
    requires
        precedes(a, b),
        precedes(b, c),
    ensures
        precedes(a, c),
    decreases a.len(),
{
    if a.len() > 0 && a[0] == b[0] && b[0] == c[0] {
        lemma_precedes_transitive(a.drop_first(), b.drop_first(), c.drop_first());
    }
}

/// The order and the members determine the list: two ascending lists of the
/// same texts are equal.
pub proof fn law_ascending_lists_are_equal(a: Seq<Seq<char>>, b: Seq<Seq<char>>)
    requires
        ascending(a),
        ascending(b),
        forall|t: Seq<char>| a.contains(t) <==> b.contains(t),
    ensures
        a == b,
    decreases a.len(),
{
    if a.len() == 0 {
        if b.len() > 0 {
            assert(b.contains(b[0]));
        }
    } else {
        assert(a.contains(a[0]));
        assert(b.contains(a[0]));
        assert(b.contains(b[0]));
        assert(a.contains(b[0]));
        let i = choose|i: int| 0 <= i < b.len() && b[i] == a[0];
        let j = choose|j: int| 0 <= j < a.len() && a[j] == b[0];
        lemma_precedes_trichotomy(a[0], b[0]);
        assert(a[0] == b[0]) by {
            if i > 0 && j > 0 {
                assert(precedes(b[0], b[i]));
                assert(precedes(a[0], a[j]));
            }
        }
        let a_rest = a.drop_first();
        let b_rest = b.drop_first();
        assert forall|t: Seq<char>| a_rest.contains(t) <==> b_rest.contains(t) by {
            lemma_rest_members(a, t);
            lemma_rest_members(b, t);
        }
        law_ascending_lists_are_equal(a_rest, b_rest);
        assert(a == seq![a[0]] + a_rest);
        assert(b == seq![b[0]] + b_rest);
    }
}

proof fn lemma_rest_members(parts: Seq<Seq<char>>, t: Seq<char>)
    requires
        ascending(parts),
        parts.len() > 0,
    ensures
        parts.drop_first().contains(t) <==> parts.contains(t) && t != parts[0],
{
    let rest = parts.drop_first();
    if rest.contains(t) {
        let i = choose|i: int| 0 <= i < rest.len() && rest[i] == t;
        assert(parts[i + 1] == t);
        lemma_precedes_trichotomy(parts[0], parts[i + 1]);
    }
    if parts.contains(t) && t != parts[0] {
        let i = choose|i: int| 0 <= i < parts.len() && parts[i] == t;
        assert(rest[i - 1] == t);
    }
}

/// Whether `a` comes before `b` in dictionary order.
pub fn comes_before(a: &str, b: &str) -> (before: bool)
    ensures
        before == precedes(a@, b@),
{
    let left = chars_of(a);
    let right = chars_of(b);
    let mut i: usize = 0;
    assert(a@.skip(0) == a@ && b@.skip(0) == b@);
    while i < left.len() && i < right.len() && left[i] == right[i]
        invariant
            left@ == a@,
            right@ == b@,
            i <= left.len(),
            i <= right.len(),
            precedes(a@, b@) == precedes(a@.skip(i as int), b@.skip(i as int)),
        ensures
            i < left.len() && i < right.len() ==> left[i as int] != right[i as int],
        decreases left.len() - i,
    {
        assert(a@.skip(i as int).drop_first() == a@.skip(i + 1));
        assert(b@.skip(i as int).drop_first() == b@.skip(i + 1));
        i = i + 1;
    }
    if i == right.len() {
        false
    } else if i == left.len() {
        true
    } else {
        left[i] < right[i]
    }
}

/// Puts `s` in its place in an ascending list, unless it is there already.
pub fn insert_in_order(list: &mut Vec<String>, s: String)
    requires
        ascending(texts(old(list)@)),
    ensures
        ascending(texts(final(list)@)),
        forall|t: Seq<char>| #[trigger]
            texts(final(list)@).contains(t) <==> t == s@ || texts(old(list)@).contains(t),
{
    let ghost before = texts(list@);
    let mut at: usize = 0;
    while at < list.len() && comes_before(list[at].as_str(), s.as_str())
        invariant
            list@ == old(list)@,
            before == texts(list@),
            at <= list.len(),
            forall|i: int| 0 <= i < at ==> precedes(#[trigger] before[i], s@),
        ensures
            at < list.len() ==> !precedes(before[at as int], s@),
        decreases list.len() - at,
    {
        at = at + 1;
    }
    if at < list.len() && same_text(list[at].as_str(), s.as_str()) {
        assert(before[at as int] == s@);
        return;
    }
    proof {
        if at < before.len() {
            lemma_precedes_trichotomy(before[at as int], s@);
        }
        lemma_insertion(before, at as int, s@);
    }
    list.insert(at, s);
    assert(texts(list@) =~= before.insert(at as int, s@));
}

/// A text put between those that come before it and those that come after it
/// leaves the list in order.
proof fn lemma_insertion(before: Seq<Seq<char>>, at: int, s: Seq<char>)
    requires
        ascending(before),
        0 <= at <= before.len(),
        forall|i: int| 0 <= i < at ==> precedes(#[trigger] before[i], s),
        at < before.len() ==> precedes(s, before[at]),
    ensures
        ascending(before.insert(at, s)),
        forall|t: Seq<char>| #[trigger]
            before.insert(at, s).contains(t) <==> t == s || before.contains(t),
{
    let after = before.insert(at, s);
    assert forall|i: int, j: int| 0 <= i < j < after.len() implies precedes(
        #[trigger] after[i],
        #[trigger] after[j],
    ) by {
        if i < at && j > at {
            assert(precedes(before[i], before[j - 1]));
        } else if i < at && j == at {
            assert(after[i] == before[i]);
        } else if i == at {
            assert(after[j] == before[j - 1]);
            if j - 1 > at {
                assert(precedes(before[at], before[j - 1]));
                lemma_precedes_transitive(s, before[at], before[j - 1]);
            }
        } else if i > at {
            assert(precedes(before[i - 1], before[j - 1]));
        } else {
            assert(precedes(before[i], before[j]));
        }
    }
    assert forall|t: Seq<char>| #[trigger]
        after.contains(t) <==> t == s || before.contains(t) by {
        if before.contains(t) {
            let i = choose|i: int| 0 <= i < before.len() && before[i] == t;
            assert(after[if i < at {
                i
            } else {
                i + 1
            }] == t);
        }
        if t == s {
            assert(after[at] == t);
        }
        if after.contains(t) && t != s {
            let i = choose|i: int| 0 <= i < after.len() && after[i] == t;
            assert(before[if i < at {
                i
            } else {
                i - 1
            }] == t);
        }
    }
}

/// Any texts can be listed in order: there is a list that holds those of
/// `parts` that are not empty, each once, in dictionary order.
pub proof fn law_ordered_list_exists(parts: Seq<Seq<char>>)
    ensures
        exists|list: Seq<Seq<char>>| #[trigger] lists_in_order(list, nonempty_in(parts)),
    decreases parts.len(),
{
    let wanted = nonempty_in(parts);
    if parts.len() == 0 {
        assert(lists_in_order(Seq::empty(), wanted));
    } else {
        let shorter = parts.drop_last();
        let added = parts.last();
        assert(shorter.push(added) =~= parts);
        let fewer = nonempty_in(shorter);
        law_ordered_list_exists(shorter);
        let list = choose|list: Seq<Seq<char>>| lists_in_order(list, fewer);
        assert forall|t: Seq<char>| #[trigger] wanted(t) <==> (t == added && added.len() > 0)
            || fewer(t) by {
            lemma_push_members(shorter, added, t);
        }
        if added.len() == 0 || list.contains(added) {
            assert(lists_in_order(list, wanted));
        } else {
            let not_before = |t: Seq<char>| !precedes(t, added);
            lemma_first_where(list, not_before);
            let at = first_where(list, not_before);
            assert forall|i: int| 0 <= i < at implies precedes(#[trigger] list[i], added) by {
                assert(!not_before(list[i]));
            }
            if at < list.len() {
                lemma_precedes_trichotomy(list[at], added);
                assert(list.contains(list[at]));
            }
            lemma_insertion(list, at, added);
            assert(lists_in_order(list.insert(at, added), wanted));
        }
    }
}

/// The strings of `strings` that are not empty, each once, in dictionary order.
pub fn sorted_without_empty(strings: &[String]) -> (sorted: Vec<String>)
    ensures
        lists_in_order(texts(sorted@), nonempty_in(texts(strings@))),
{
    let mut sorted: Vec<String> = Vec::new();
    let mut i: usize = 0;
    while i < strings.len()
        invariant
            i <= strings.len(),
            ascending(texts(sorted@)),
            forall|t: Seq<char>| #[trigger]
                texts(sorted@).contains(t) <==> t.len() > 0 && texts(strings@).take(
                    i as int,
                ).contains(t),
        decreases strings.len() - i,
    {
        let ghost done = texts(strings@).take(i as int);
        let ghost added = texts(strings@)[i as int];
        let ghost before = texts(sorted@);
        if !strings[i].as_str().is_empty() {
            insert_in_order(&mut sorted, strings[i].clone());
        }
        proof {
            assert(texts(strings@).take(i + 1) == done.push(added));
            assert forall|t: Seq<char>| #[trigger]
                texts(sorted@).contains(t) <==> t.len() > 0 && texts(strings@).take(
                    i + 1,
                ).contains(t) by {
                lemma_push_members(done, added, t);
                assert(before.contains(t) <==> t.len() > 0 && done.contains(t));
            }
        }
        i = i + 1;
    }
    assert(texts(strings@).take(strings.len() as int) == texts(strings@));
    sorted
}

proof fn lemma_push_members(list: Seq<Seq<char>>, added: Seq<char>, t: Seq<char>)
    ensures
        list.push(added).contains(t) <==> t == added || list.contains(t),
{
    let longer = list.push(added);
    assert(longer[list.len() as int] == added);
    if list.contains(t) {
        let i = choose|i: int| 0 <= i < list.len() && list[i] == t;
        assert(longer[i] == t);
    }
}

/// Dictionary order goes by the first difference: after what two texts have in
/// common, the one that comes first ends, or goes on with the lower character.
pub proof fn law_first_difference_decides(
    common: Seq<char>,
    a: Seq<char>,
    b: Seq<char>,
)
    requires
        a.len() > 0 && b.len() > 0 ==> a[0] != b[0],
    ensures
        precedes(common + a, common + b) <==> b.len() > 0 && (a.len() == 0 || (a[0] as int)
            < b[0] as int),
    decreases common.len(),
{
    if common.len() == 0 {
        assert(common + a =~= a && common + b =~= b);
    } else {
        let rest = common.drop_first();
        law_first_difference_decides(rest, a, b);
        assert((common + a).drop_first() =~= rest + a);
        assert((common + b).drop_first() =~= rest + b);
    }
}

} // verus!
