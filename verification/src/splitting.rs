//! How splitting goes together with joining, with white space around a text,
//! and with the case of letters.

use vstd::prelude::*;

use crate::text::{
    ascii_lower, ascii_lowered, contains_text, first_occurs_at, is_ascii_text,
    lemma_first_occurrence, lemma_pieces_not_empty, lemma_pieces_step, occurs_at, pieces,
    pieces_of_each,
};

verus! {

/// Two lists of pieces, one after the other, the last piece of the one and the
/// first of the other made one.
pub open spec fn glued(p: Seq<Seq<char>>, q: Seq<Seq<char>>) -> Seq<Seq<char>> {
    p.drop_last() + seq![p.last() + q[0]] + q.drop_first()
}

/// Pieces with a character put before the first of them.
pub open spec fn led(parts: Seq<Seq<char>>, c: char) -> Seq<Seq<char>> {
    parts.update(0, seq![c] + parts[0])
}

/// Pieces with a character put behind the last of them.
pub open spec fn trailed(parts: Seq<Seq<char>>, c: char) -> Seq<Seq<char>> {
    parts.update(parts.len() - 1, parts.last().push(c))
}

proof fn lemma_occurs_char(s: Seq<char>, c: char, at: int)
    ensures
        occurs_at(s, seq![c], at) <==> 0 <= at < s.len() && s[at] == c,
{
    if 0 <= at < s.len() {
        assert(s.subrange(at, at + 1) =~= seq![s[at]]);
        assert(seq![s[at]][0] == s[at] && seq![c][0] == c);
    }
}

proof fn lemma_occurs_in_front(a: Seq<char>, b: Seq<char>, fragment: Seq<char>, at: int)
    requires
        at + fragment.len() <= a.len(),
    ensures
        occurs_at(a + b, fragment, at) == occurs_at(a, fragment, at),
{
    if 0 <= at {
        assert((a + b).subrange(at, at + fragment.len()) =~= a.subrange(
            at,
            at + fragment.len(),
        ));
    }
}

proof fn lemma_occurs_behind(a: Seq<char>, b: Seq<char>, fragment: Seq<char>, at: int)
    requires
        0 <= at,
    ensures
        occurs_at(a + b, fragment, a.len() + at) == occurs_at(b, fragment, at),
{
    if at + fragment.len() <= b.len() {
        assert((a + b).subrange(a.len() + at, a.len() + at + fragment.len()) =~= b.subrange(
            at,
            at + fragment.len(),
        ));
    }
}

/// A text without the separator is its only piece.
pub proof fn law_whole_text_is_a_piece(s: Seq<char>, separator: Seq<char>)
    requires
        !contains_text(s, separator),
    ensures
        pieces(s, separator) == seq![s],
{
}

/// A text does not hold a fragment when it lacks one of its characters.
pub proof fn law_fragment_needs_its_characters(s: Seq<char>, fragment: Seq<char>, i: int)
    requires
        0 <= i < fragment.len(),
        !s.contains(fragment[i]),
    ensures
        !contains_text(s, fragment),
{
    if contains_text(s, fragment) {
        let at = choose|at: int| occurs_at(s, fragment, at);
        assert(s.subrange(at, at + fragment.len())[i] == s[at + i]);
        assert(s.contains(s[at + i]));
    }
}

/// What stands before the first separator is the first piece.
pub proof fn law_first_piece(a: Seq<char>, separator: Seq<char>, b: Seq<char>)
    requires
        separator.len() > 0,
        !a.contains(separator[0]),
    ensures
        pieces(a + separator + b, separator) == seq![a] + pieces(b, separator),
{
    let s = a + separator + b;
    let end = a.len() as int + separator.len();
    assert(s.subrange(a.len() as int, end) =~= separator);
    assert forall|earlier: int| 0 <= earlier < a.len() implies !occurs_at(
        s,
        separator,
        earlier,
    ) by {
        if occurs_at(s, separator, earlier) {
            assert(s.subrange(earlier, earlier + separator.len())[0] == s[earlier]);
            assert(a.contains(a[earlier]));
        }
    }
    assert(first_occurs_at(s, separator, a.len() as int));
    lemma_pieces_step(s, separator, a.len() as int);
    assert(s.take(a.len() as int) =~= a);
    assert(s.skip(end) =~= b);
}

/// The pieces of two texts put together are those of the one and those of the
/// other, with the two that meet made one.
pub proof fn law_pieces_of_concatenation(a: Seq<char>, b: Seq<char>, c: char)
    ensures
        pieces(a + b, seq![c]) == glued(pieces(a, seq![c]), pieces(b, seq![c])),
    decreases a.len(),
{
    let sep = seq![c];
    let q = pieces(b, sep);
    lemma_pieces_not_empty(b, sep);
    if exists|at: int| first_occurs_at(a, sep, at) {
        let at = choose|at: int| first_occurs_at(a, sep, at);
        let rest = a.skip(at + 1);
        lemma_occurs_char(a, c, at);
        assert forall|j: int| 0 <= j < at implies !occurs_at(a + b, sep, j) by {
            lemma_occurs_in_front(a, b, sep, j);
        }
        lemma_occurs_in_front(a, b, sep, at);
        assert(first_occurs_at(a + b, sep, at));
        lemma_pieces_step(a, sep, at);
        lemma_pieces_step(a + b, sep, at);
        assert((a + b).take(at) =~= a.take(at));
        assert((a + b).skip(at + 1) =~= rest + b);
        law_pieces_of_concatenation(rest, b, c);
        lemma_pieces_not_empty(rest, sep);
        let p = pieces(rest, sep);
        assert(glued(seq![a.take(at)] + p, q) =~= seq![a.take(at)] + glued(p, q));
    } else {
        assert forall|j: int| 0 <= j < a.len() implies !occurs_at(a + b, sep, j) by {
            lemma_occurs_in_front(a, b, sep, j);
            if occurs_at(a, sep, j) {
                lemma_first_occurrence(a, sep, j);
            }
        }
        assert(pieces(a, sep) == seq![a]);
        if exists|at: int| first_occurs_at(b, sep, at) {
            let at = choose|at: int| first_occurs_at(b, sep, at);
            lemma_occurs_char(b, c, at);
            assert forall|j: int| 0 <= j < a.len() + at implies !occurs_at(a + b, sep, j) by {
                if j >= a.len() {
                    lemma_occurs_behind(a, b, sep, j - a.len());
                }
            }
            lemma_occurs_behind(a, b, sep, at);
            assert(first_occurs_at(a + b, sep, a.len() + at));
            lemma_pieces_step(b, sep, at);
            lemma_pieces_step(a + b, sep, a.len() + at);
            assert((a + b).take(a.len() + at) =~= a + b.take(at));
            assert((a + b).skip(a.len() + at + 1) =~= b.skip(at + 1));
            assert(glued(seq![a], q) =~= seq![a + b.take(at)] + pieces(b.skip(at + 1), sep));
        } else {
            assert forall|j: int| !first_occurs_at(a + b, sep, j) by {
                if first_occurs_at(a + b, sep, j) {
                    lemma_occurs_behind(a, b, sep, j - a.len());
                    lemma_first_occurrence(b, sep, j - a.len());
                }
            }
            assert(glued(seq![a], seq![b]) =~= seq![a + b]);
        }
    }
}

/// A separator between two texts keeps their pieces apart.
pub proof fn law_pieces_around_separator(a: Seq<char>, b: Seq<char>, c: char)
    ensures
        pieces(a + seq![c] + b, seq![c]) == pieces(a, seq![c]) + pieces(b, seq![c]),
{
    let sep = seq![c];
    let empty = Seq::<char>::empty();
    assert(empty + sep + empty =~= sep);
    law_first_piece(empty, sep, empty);
    assert(pieces(empty, sep) =~= seq![empty]);
    assert(pieces(sep, sep) =~= seq![empty, empty]);
    law_pieces_of_concatenation(a, sep, c);
    law_pieces_of_concatenation(a + sep, b, c);
    let p = pieces(a, sep);
    let q = pieces(b, sep);
    lemma_pieces_not_empty(a, sep);
    lemma_pieces_not_empty(b, sep);
    assert(p.last() + empty =~= p.last());
    assert(glued(p, seq![empty, empty]) =~= p.push(empty));
    assert(empty + q[0] =~= q[0]);
    assert(glued(p.push(empty), q) =~= p + q);
}

/// The pieces of the texts of two lists are those of the one and then those of
/// the other.
pub proof fn law_pieces_of_each_in_turn(
    p: Seq<Seq<char>>,
    q: Seq<Seq<char>>,
    separator: Seq<char>,
)
    ensures
        pieces_of_each(p + q, separator) == pieces_of_each(p, separator) + pieces_of_each(
            q,
            separator,
        ),
    decreases q.len(),
{
    if q.len() == 0 {
        assert(p + q =~= p);
        assert(pieces_of_each(p, separator) + pieces_of_each(q, separator) =~= pieces_of_each(
            p,
            separator,
        ));
    } else {
        law_pieces_of_each_in_turn(p, q.drop_last(), separator);
        assert((p + q).drop_last() =~= p + q.drop_last());
        assert(pieces_of_each(p + q, separator) =~= pieces_of_each(p, separator)
            + pieces_of_each(q, separator));
    }
}

pub(crate) proof fn lemma_pieces_of_one(s: Seq<char>, separator: Seq<char>)
    ensures
        pieces_of_each(seq![s], separator) == pieces(s, separator),
{
    reveal_with_fuel(pieces_of_each, 2);
    assert(seq![s].drop_last() =~= Seq::empty());
    assert(pieces_of_each(seq![s], separator) =~= pieces(s, separator));
}

/// Splitting leaves a list alone when none of its texts holds the separator.
pub proof fn law_whole_texts_are_pieces(parts: Seq<Seq<char>>, separator: Seq<char>)
    requires
        forall|i: int| 0 <= i < parts.len() ==> !contains_text(#[trigger] parts[i], separator),
    ensures
        pieces_of_each(parts, separator) == parts,
    decreases parts.len(),
{
    if parts.len() > 0 {
        law_whole_texts_are_pieces(parts.drop_last(), separator);
        assert(!contains_text(parts[parts.len() - 1], separator));
    }
    assert(pieces_of_each(parts, separator) =~= parts);
}

/// Splitting the texts of a list that is not empty gives pieces.
pub(crate) proof fn lemma_pieces_of_each_not_empty(parts: Seq<Seq<char>>, separator: Seq<char>)
    requires
        parts.len() > 0,
    ensures
        pieces_of_each(parts, separator).len() > 0,
{
    lemma_pieces_not_empty(parts.last(), separator);
}

proof fn lemma_pieces_led(s: Seq<char>, separator: Seq<char>, c: char)
    requires
        separator.len() > 0,
        !separator.contains(c),
    ensures
        pieces(seq![c] + s, separator) == led(pieces(s, separator), c),
{
    let longer = seq![c] + s;
    lemma_pieces_not_empty(s, separator);
    assert(!occurs_at(longer, separator, 0)) by {
        if occurs_at(longer, separator, 0) {
            assert(longer.subrange(0, separator.len() as int)[0] == c);
            assert(separator.contains(separator[0]));
        }
    }
    if exists|at: int| first_occurs_at(s, separator, at) {
        let at = choose|at: int| first_occurs_at(s, separator, at);
        assert forall|j: int| 0 <= j < at + 1 implies !occurs_at(longer, separator, j) by {
            if j > 0 {
                lemma_occurs_behind(seq![c], s, separator, j - 1);
            }
        }
        lemma_occurs_behind(seq![c], s, separator, at);
        assert(first_occurs_at(longer, separator, at + 1));
        lemma_pieces_step(s, separator, at);
        lemma_pieces_step(longer, separator, at + 1);
        assert(longer.take(at + 1) =~= seq![c] + s.take(at));
        assert(longer.skip(at + 1 + separator.len()) =~= s.skip(at + separator.len()));
        assert(pieces(longer, separator) =~= led(pieces(s, separator), c));
    } else {
        assert forall|j: int| !first_occurs_at(longer, separator, j) by {
            if first_occurs_at(longer, separator, j) {
                lemma_occurs_behind(seq![c], s, separator, j - 1);
                lemma_first_occurrence(s, separator, j - 1);
            }
        }
        assert(pieces(longer, separator) =~= led(pieces(s, separator), c));
    }
}

proof fn lemma_pieces_trailed(s: Seq<char>, separator: Seq<char>, c: char)
    requires
        separator.len() > 0,
        !separator.contains(c),
    ensures
        pieces(s.push(c), separator) == trailed(pieces(s, separator), c),
    decreases s.len(),
{
    let longer = s.push(c);
    lemma_pieces_not_empty(s, separator);
    assert forall|j: int| occurs_at(longer, separator, j) == occurs_at(s, separator, j) by {
        if j + separator.len() <= s.len() {
            assert(longer =~= s + seq![c]);
            lemma_occurs_in_front(s, seq![c], separator, j);
        } else if occurs_at(longer, separator, j) {
            assert(longer.subrange(j, j + separator.len())[separator.len() - 1] == c);
            assert(separator.contains(separator[separator.len() - 1]));
        }
    }
    if exists|at: int| first_occurs_at(s, separator, at) {
        let at = choose|at: int| first_occurs_at(s, separator, at);
        let rest = s.skip(at + separator.len());
        assert(first_occurs_at(longer, separator, at));
        lemma_pieces_step(s, separator, at);
        lemma_pieces_step(longer, separator, at);
        assert(longer.take(at) =~= s.take(at));
        assert(longer.skip(at + separator.len()) =~= rest.push(c));
        lemma_pieces_trailed(rest, separator, c);
        lemma_pieces_not_empty(rest, separator);
        assert(pieces(longer, separator) =~= trailed(pieces(s, separator), c));
    } else {
        assert forall|j: int| !first_occurs_at(longer, separator, j) by {
            if first_occurs_at(longer, separator, j) {
                assert(occurs_at(s, separator, j));
                lemma_first_occurrence(s, separator, j);
            }
        }
        assert(pieces(longer, separator) =~= trailed(pieces(s, separator), c));
    }
}

/// A character that is not in the separator, put before a text, goes to the
/// first piece, and put behind it to the last.
pub proof fn law_pieces_of_led(s: Seq<char>, separator: Seq<char>, c: char)
    requires
        separator.len() > 0,
        !separator.contains(c),
    ensures
        pieces(seq![c] + s, separator) == led(pieces(s, separator), c),
        pieces(s.push(c), separator) == trailed(pieces(s, separator), c),
{
    lemma_pieces_led(s, separator, c);
    lemma_pieces_trailed(s, separator, c);
}

/// A character that is not in the separator, put before the first text of a
/// list or behind the last, goes to the first or the last piece.
pub proof fn law_pieces_of_each_led(parts: Seq<Seq<char>>, separator: Seq<char>, c: char)
    requires
        separator.len() > 0,
        !separator.contains(c),
        parts.len() > 0,
    ensures
        pieces_of_each(led(parts, c), separator) == led(pieces_of_each(parts, separator), c),
        pieces_of_each(trailed(parts, c), separator) == trailed(
            pieces_of_each(parts, separator),
            c,
        ),
{
    let first = seq![parts[0]];
    let later = parts.drop_first();
    assert(parts =~= first + later);
    assert(led(parts, c) =~= seq![seq![c] + parts[0]] + later);
    law_pieces_of_each_in_turn(first, later, separator);
    law_pieces_of_each_in_turn(seq![seq![c] + parts[0]], later, separator);
    lemma_pieces_of_one(parts[0], separator);
    lemma_pieces_of_one(seq![c] + parts[0], separator);
    lemma_pieces_led(parts[0], separator, c);
    lemma_pieces_not_empty(parts[0], separator);
    assert(pieces_of_each(led(parts, c), separator) =~= led(pieces_of_each(parts, separator), c));

    lemma_pieces_trailed(parts.last(), separator, c);
    lemma_pieces_not_empty(parts.last(), separator);
    assert(trailed(parts, c).drop_last() =~= parts.drop_last());
    assert(pieces_of_each(trailed(parts, c), separator) =~= trailed(
        pieces_of_each(parts, separator),
        c,
    ));
}

/// Whether a text holds no ASCII letters.
pub open spec fn is_free_of_letters(s: Seq<char>) -> bool {
    forall|i: int|
        0 <= i < s.len() ==> !('a' <= #[trigger] s[i] <= 'z') && !('A' <= s[i] <= 'Z')
}

/// Texts with their ASCII capitals mapped to small letters.
pub open spec fn each_ascii_lowered(parts: Seq<Seq<char>>) -> Seq<Seq<char>> {
    parts.map_values(|s: Seq<char>| ascii_lowered(s))
}

proof fn lemma_occurs_lowered(s: Seq<char>, fragment: Seq<char>, at: int)
    requires
        is_free_of_letters(fragment),
    ensures
        occurs_at(ascii_lowered(s), fragment, at) == occurs_at(s, fragment, at),
{
    if 0 <= at && at + fragment.len() <= s.len() {
        let lower = ascii_lowered(s).subrange(at, at + fragment.len());
        let plain = s.subrange(at, at + fragment.len());
        if lower == fragment {
            assert forall|i: int| 0 <= i < fragment.len() implies plain[i] == fragment[i] by {
                assert(lower[i] == ascii_lower(plain[i]));
                assert(lower[i] == fragment[i]);
            }
            assert(plain =~= fragment);
        }
        if plain == fragment {
            assert forall|i: int| 0 <= i < fragment.len() implies lower[i] == fragment[i] by {
                assert(lower[i] == ascii_lower(plain[i]));
                assert(plain[i] == fragment[i]);
            }
            assert(lower =~= fragment);
        }
    }
}

/// The case of letters does not matter to splitting at a separator without
/// letters.
pub proof fn law_pieces_of_lowered(s: Seq<char>, separator: Seq<char>)
    requires
        is_free_of_letters(separator),
    ensures
        pieces(ascii_lowered(s), separator) == each_ascii_lowered(pieces(s, separator)),
    decreases s.len(),
{
    let lower = ascii_lowered(s);
    assert forall|j: int| occurs_at(lower, separator, j) == occurs_at(s, separator, j) by {
        lemma_occurs_lowered(s, separator, j);
    }
    if separator.len() > 0 && exists|at: int| first_occurs_at(s, separator, at) {
        let at = choose|at: int| first_occurs_at(s, separator, at);
        assert(first_occurs_at(lower, separator, at));
        lemma_pieces_step(s, separator, at);
        lemma_pieces_step(lower, separator, at);
        let rest = s.skip(at + separator.len());
        assert(lower.take(at) =~= ascii_lowered(s.take(at)));
        assert(lower.skip(at + separator.len()) =~= ascii_lowered(rest));
        law_pieces_of_lowered(rest, separator);
        assert(pieces(lower, separator) =~= each_ascii_lowered(pieces(s, separator)));
    } else {
        assert forall|j: int| separator.len() > 0 implies !first_occurs_at(
            lower,
            separator,
            j,
        ) by {
            if first_occurs_at(lower, separator, j) {
                assert(first_occurs_at(s, separator, j));
            }
        }
        assert(pieces(lower, separator) =~= each_ascii_lowered(pieces(s, separator)));
    }
}

/// The case of letters does not matter to splitting each text of a list at a
/// separator without letters.
pub proof fn law_pieces_of_each_lowered(parts: Seq<Seq<char>>, separator: Seq<char>)
    requires
        is_free_of_letters(separator),
    ensures
        pieces_of_each(each_ascii_lowered(parts), separator) == each_ascii_lowered(
            pieces_of_each(parts, separator),
        ),
    decreases parts.len(),
{
    if parts.len() > 0 {
        law_pieces_of_each_lowered(parts.drop_last(), separator);
        law_pieces_of_lowered(parts.last(), separator);
        assert(each_ascii_lowered(parts).drop_last() =~= each_ascii_lowered(parts.drop_last()));
        assert(each_ascii_lowered(parts).last() == ascii_lowered(parts.last()));
    }
    assert(pieces_of_each(each_ascii_lowered(parts), separator) =~= each_ascii_lowered(
        pieces_of_each(parts, separator),
    ));
}

/// The pieces of ASCII text are ASCII text.
pub proof fn law_pieces_of_ascii(s: Seq<char>, separator: Seq<char>, i: int)
    requires
        is_ascii_text(s),
        0 <= i < pieces(s, separator).len(),
    ensures
        is_ascii_text(pieces(s, separator)[i]),
    decreases s.len(),
{
    if separator.len() > 0 && exists|at: int| first_occurs_at(s, separator, at) {
        let at = choose|at: int| first_occurs_at(s, separator, at);
        if i > 0 {
            law_pieces_of_ascii(s.skip(at + separator.len()), separator, i - 1);
        }
    }
}

/// The pieces of each of several ASCII texts are ASCII text.
pub proof fn law_pieces_of_each_ascii(parts: Seq<Seq<char>>, separator: Seq<char>, i: int)
    requires
        forall|k: int| 0 <= k < parts.len() ==> is_ascii_text(#[trigger] parts[k]),
        0 <= i < pieces_of_each(parts, separator).len(),
    ensures
        is_ascii_text(pieces_of_each(parts, separator)[i]),
    decreases parts.len(),
{
    let earlier = pieces_of_each(parts.drop_last(), separator);
    if i < earlier.len() {
        law_pieces_of_each_ascii(parts.drop_last(), separator, i);
    } else {
        assert(is_ascii_text(parts[parts.len() - 1]));
        law_pieces_of_ascii(parts.last(), separator, i - earlier.len());
    }
}

/// Characters that are not in the separator, put before a text, go to the first
/// piece.
pub proof fn law_pieces_of_led_by_text(front: Seq<char>, s: Seq<char>, separator: Seq<char>)
    requires
        separator.len() > 0,
        forall|i: int| 0 <= i < front.len() ==> !separator.contains(#[trigger] front[i]),
    ensures
        pieces(front + s, separator) == pieces(s, separator).update(
            0,
            front + pieces(s, separator)[0],
        ),
    decreases front.len(),
{
    lemma_pieces_not_empty(s, separator);
    let p = pieces(s, separator);
    if front.len() == 0 {
        assert(front + s =~= s);
        assert(front + p[0] =~= p[0]);
        assert(p.update(0, p[0]) =~= p);
    } else {
        let rest = front.drop_first();
        law_pieces_of_led_by_text(rest, s, separator);
        lemma_pieces_led(rest + s, separator, front[0]);
        assert(seq![front[0]] + (rest + s) =~= front + s);
        assert(seq![front[0]] + (rest + p[0]) =~= front + p[0]);
        assert(pieces(front + s, separator) =~= p.update(0, front + p[0]));
    }
}

/// Characters that are not in the separator, put before the first text of a
/// list, go to the first piece.
pub proof fn law_pieces_of_each_led_by_text(
    front: Seq<char>,
    parts: Seq<Seq<char>>,
    separator: Seq<char>,
)
    requires
        separator.len() > 0,
        parts.len() > 0,
        forall|i: int| 0 <= i < front.len() ==> !separator.contains(#[trigger] front[i]),
    ensures
        pieces_of_each(parts.update(0, front + parts[0]), separator) == pieces_of_each(
            parts,
            separator,
        ).update(0, front + pieces_of_each(parts, separator)[0]),
{
    let later = parts.drop_first();
    let longer = front + parts[0];
    assert(parts =~= seq![parts[0]] + later);
    assert(parts.update(0, longer) =~= seq![longer] + later);
    law_pieces_of_each_in_turn(seq![parts[0]], later, separator);
    law_pieces_of_each_in_turn(seq![longer], later, separator);
    lemma_pieces_of_one(parts[0], separator);
    lemma_pieces_of_one(longer, separator);
    law_pieces_of_led_by_text(front, parts[0], separator);
    lemma_pieces_not_empty(parts[0], separator);
    let all = pieces_of_each(parts, separator);
    assert(pieces_of_each(parts.update(0, longer), separator) =~= all.update(0, front + all[0]));
}

/// What stands before the first separator of the first text of a list is the
/// first piece.
pub proof fn law_first_piece_of_each(
    a: Seq<char>,
    parts: Seq<Seq<char>>,
    separator: Seq<char>,
)
    requires
        separator.len() > 0,
        parts.len() > 0,
        !a.contains(separator[0]),
    ensures
        pieces_of_each(parts.update(0, a + separator + parts[0]), separator) == seq![a]
            + pieces_of_each(parts, separator),
{
    let later = parts.drop_first();
    let longer = a + separator + parts[0];
    assert(parts =~= seq![parts[0]] + later);
    assert(parts.update(0, longer) =~= seq![longer] + later);
    law_pieces_of_each_in_turn(seq![parts[0]], later, separator);
    law_pieces_of_each_in_turn(seq![longer], later, separator);
    lemma_pieces_of_one(parts[0], separator);
    lemma_pieces_of_one(longer, separator);
    law_first_piece(a, separator, parts[0]);
    assert(pieces_of_each(parts.update(0, longer), separator) =~= seq![a] + pieces_of_each(
        parts,
        separator,
    ));
}

} // verus!
