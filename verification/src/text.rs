//! Text as sequences of characters: the vocabulary that the rest of the crate
//! states its rules in, and the operations on strings that those rules need.

use vstd::prelude::*;

verus! {

/// The characters with the Unicode property `White_Space`.
pub open spec fn is_white_space(c: char) -> bool {
    let code = c as u32;
    ||| 0x9 <= code <= 0xd
    ||| code == 0x20
    ||| code == 0x85
    ||| code == 0xa0
    ||| code == 0x1680
    ||| 0x2000 <= code <= 0x200a
    ||| code == 0x2028
    ||| code == 0x2029
    ||| code == 0x202f
    ||| code == 0x205f
    ||| code == 0x3000
}

/// `char::is_whitespace` of the standard library: true for exactly the
/// characters with the property `White_Space`, which `is_white_space` lists.
pub assume_specification[ char::is_whitespace ](c: char) -> (b: bool)
    ensures
        b == is_white_space(c),
;

/// `c` with the ASCII capitals `A` to `Z` mapped to `a` to `z`.
pub open spec fn ascii_lower(c: char) -> char {
    if 'A' <= c <= 'Z' {
        (c as u8 + 32) as char
    } else {
        c
    }
}

/// `s` with its ASCII capitals mapped to small letters.
pub open spec fn ascii_lowered(s: Seq<char>) -> Seq<char> {
    s.map_values(|c: char| ascii_lower(c))
}

/// Whether a text consists of ASCII characters.
pub open spec fn is_ascii_text(s: Seq<char>) -> bool {
    forall|i: int| 0 <= i < s.len() ==> #[trigger] s[i] <= '\u{7f}'
}

/// What `str::to_lowercase` gives for a text with other than ASCII characters:
/// the Unicode lowercase mapping, which depends on the text alone.
pub uninterp spec fn unicode_lowercase(s: Seq<char>) -> Seq<char>;

/// `str::to_lowercase` of the standard library: ASCII text is lowered letter by
/// letter, and for any other text the result is a function of the text. What
/// becomes of texts with other than ASCII characters is not stated.
pub assume_specification[ str::to_lowercase ](s: &str) -> (lower: String)
    ensures
        lower@ == if is_ascii_text(s@) {
            ascii_lowered(s@)
        } else {
            unicode_lowercase(s@)
        },
;

/// A text in lower case.
pub open spec fn lowercase(s: Seq<char>) -> Seq<char> {
    if is_ascii_text(s) {
        ascii_lowered(s)
    } else {
        unicode_lowercase(s)
    }
}

/// `String::push` of the standard library: one character goes to the end.
pub assume_specification[ String::push ](s: &mut String, c: char)
    ensures
        final(s)@ == old(s)@.push(c),
;

/// The texts that a sequence of strings holds.
pub open spec fn texts(strings: Seq<String>) -> Seq<Seq<char>> {
    strings.map_values(|s: String| s@)
}

/// The texts that a sequence of string slices holds.
pub open spec fn slice_texts(slices: Seq<&str>) -> Seq<Seq<char>> {
    slices.map_values(|s: &str| s@)
}

/// The characters of `s`.
pub fn chars_of(s: &str) -> (chars: Vec<char>)
    ensures
        chars@ == s@,
{
    let mut chars: Vec<char> = Vec::new();
    for c in it: s.chars()
        invariant
            chars@ == s@.take(it.index() as int),
            it.seq() == s@,
    {
        chars.push(c);
        assert(s@.take(it.index() + 1) == s@.take(it.index() as int).push(c));
    }
    assert(s@.take(s@.len() as int) == s@);
    chars
}

/// `s` without its leading white space.
pub open spec fn trimmed_start(s: Seq<char>) -> Seq<char>
    decreases s.len(),
{
    if s.len() > 0 && is_white_space(s[0]) {
        trimmed_start(s.drop_first())
    } else {
        s
    }
}

/// `s` without its trailing white space.
pub open spec fn trimmed_end(s: Seq<char>) -> Seq<char>
    decreases s.len(),
{
    if s.len() > 0 && is_white_space(s.last()) {
        trimmed_end(s.drop_last())
    } else {
        s
    }
}

/// `s` without the white space around it.
pub open spec fn trimmed(s: Seq<char>) -> Seq<char> {
    trimmed_end(trimmed_start(s))
}

/// Where the text is trimmed to: every character before `start` is white
/// space, and the one at `start` is not.
proof fn lemma_trimmed_start_at(s: Seq<char>, start: int)
    requires
        0 <= start <= s.len(),
        forall|i: int| 0 <= i < start ==> is_white_space(s[i]),
        start < s.len() ==> !is_white_space(s[start]),
    ensures
        trimmed_start(s) == s.skip(start),
    decreases start,
{
    if start > 0 {
        lemma_trimmed_start_at(s.drop_first(), start - 1);
        assert(s.drop_first().skip(start - 1) == s.skip(start));
    } else {
        assert(s.skip(0) == s);
    }
}

/// The counterpart of `lemma_trimmed_start_at` for the other end.
proof fn lemma_trimmed_end_at(s: Seq<char>, end: int)
    requires
        0 <= end <= s.len(),
        forall|i: int| end <= i < s.len() ==> is_white_space(s[i]),
        end > 0 ==> !is_white_space(s[end - 1]),
    ensures
        trimmed_end(s) == s.take(end),
    decreases s.len() - end,
{
    if end < s.len() {
        lemma_trimmed_end_at(s.drop_last(), end);
        assert(s.drop_last().take(end) == s.take(end));
    } else {
        assert(s.take(end) == s);
    }
}

/// Trims the white space around `s`.
pub fn trim<'a>(s: &'a str) -> (inner: &'a str)
    ensures
        inner@ == trimmed(s@),
{
    let chars = chars_of(s);
    let mut start: usize = 0;
    while start < chars.len() && chars[start].is_whitespace()
        invariant
            chars@ == s@,
            start <= chars.len(),
            forall|i: int| 0 <= i < start ==> is_white_space(s@[i]),
        ensures
            start < chars.len() ==> !is_white_space(s@[start as int]),
        decreases chars.len() - start,
    {
        start = start + 1;
    }
    let mut end: usize = chars.len();
    while end > start && chars[end - 1].is_whitespace()
        invariant
            chars@ == s@,
            start <= end <= chars.len(),
            forall|i: int| end <= i < s@.len() ==> is_white_space(s@[i]),
        ensures
            end > start ==> !is_white_space(s@[end - 1]),
        decreases end,
    {
        end = end - 1;
    }
    proof {
        lemma_trimmed_start_at(s@, start as int);
        lemma_trimmed_end_at(s@.skip(start as int), end - start);
        assert(s@.skip(start as int).take(end - start) == s@.subrange(start as int, end as int));
    }
    s.substring_char(start, end)
}

/// Trimming is idempotent.
pub proof fn law_trimmed_is_trimmed(s: Seq<char>)
    ensures
        trimmed(trimmed(s)) == trimmed(s),
{
    let once = trimmed(s);
    lemma_trimmed_shape(s);
    if once.len() > 0 {
        lemma_trimmed_start_at(once, 0);
        assert(once.skip(0) == once);
        lemma_trimmed_end_at(once, once.len() as int);
        assert(once.take(once.len() as int) == once);
    }
}

/// A trimmed text has no white space at either end.
proof fn lemma_trimmed_shape(s: Seq<char>)
    ensures
        trimmed(s).len() > 0 ==> !is_white_space(trimmed(s)[0]) && !is_white_space(
            trimmed(s).last(),
        ),
{
    lemma_trimmed_start_shape(s);
    lemma_trimmed_end_shape(trimmed_start(s));
}

proof fn lemma_trimmed_start_shape(s: Seq<char>)
    ensures
        trimmed_start(s).len() > 0 ==> !is_white_space(trimmed_start(s)[0]),
    decreases s.len(),
{
    if s.len() > 0 && is_white_space(s[0]) {
        lemma_trimmed_start_shape(s.drop_first());
    }
}

proof fn lemma_trimmed_end_shape(s: Seq<char>)
    ensures
        trimmed_end(s).len() > 0 ==> !is_white_space(trimmed_end(s).last()) && trimmed_end(s)[0]
            == s[0],
    decreases s.len(),
{
    if s.len() > 0 && is_white_space(s.last()) {
        lemma_trimmed_end_shape(s.drop_last());
    }
}

/// Whether a text is made of white space only.
pub open spec fn is_blank(s: Seq<char>) -> bool {
    forall|i: int| 0 <= i < s.len() ==> is_white_space(#[trigger] s[i])
}

/// A white space character at either end of a text does not matter to trimming.
pub(crate) proof fn lemma_trimmed_one_more(s: Seq<char>, c: char)
    requires
        is_white_space(c),
    ensures
        trimmed(seq![c] + s) == trimmed(s),
        trimmed(s.push(c)) == trimmed(s),
    decreases s.len(),
{
    assert((seq![c] + s).drop_first() =~= s);
    let longer = s.push(c);
    if s.len() == 0 {
        assert(longer.drop_first() =~= s);
    } else if is_white_space(s[0]) {
        lemma_trimmed_one_more(s.drop_first(), c);
        assert(longer.drop_first() =~= s.drop_first().push(c));
    } else {
        assert(longer.drop_last() =~= s);
    }
}

/// White space put around a text is what trimming takes away.
pub proof fn law_trimmed_between_white_space(
    before: Seq<char>,
    s: Seq<char>,
    after: Seq<char>,
)
    requires
        is_blank(before),
        is_blank(after),
    ensures
        trimmed(before + s + after) == trimmed(s),
    decreases before.len() + after.len(),
{
    let all = before + s + after;
    if after.len() > 0 {
        law_trimmed_between_white_space(before, s, after.drop_last());
        assert(all =~= (before + s + after.drop_last()).push(after.last()));
        assert(is_white_space(after[after.len() - 1]));
        lemma_trimmed_one_more(before + s + after.drop_last(), after.last());
    } else if before.len() > 0 {
        law_trimmed_between_white_space(before.drop_first(), s, after);
        assert(all =~= seq![before[0]] + (before.drop_first() + s + after));
        lemma_trimmed_one_more(before.drop_first() + s + after, before[0]);
    } else {
        assert(all =~= s);
    }
}

/// Trimming leaves nothing of blank texts, and of blank texts only.
pub proof fn law_blank_texts_are_trimmed_away(s: Seq<char>)
    ensures
        trimmed(s).len() == 0 <==> is_blank(s),
{
    if is_blank(s) {
        let empty = Seq::<char>::empty();
        assert(s =~= s + empty + empty);
        law_trimmed_between_white_space(s, empty, empty);
    } else {
        lemma_trimmed_start_keeps(s);
        lemma_trimmed_end_keeps(trimmed_start(s));
    }
}

proof fn lemma_trimmed_start_keeps(s: Seq<char>)
    requires
        !is_blank(s),
    ensures
        !is_blank(trimmed_start(s)),
    decreases s.len(),
{
    if s.len() > 0 && is_white_space(s[0]) {
        let rest = s.drop_first();
        let i = choose|i: int| 0 <= i < s.len() && !is_white_space(#[trigger] s[i]);
        assert(rest[i - 1] == s[i]);
        lemma_trimmed_start_keeps(rest);
    }
}

proof fn lemma_trimmed_end_keeps(s: Seq<char>)
    requires
        !is_blank(s),
    ensures
        trimmed_end(s).len() > 0,
    decreases s.len(),
{
    if s.len() > 0 && is_white_space(s.last()) {
        let rest = s.drop_last();
        let i = choose|i: int| 0 <= i < s.len() && !is_white_space(#[trigger] s[i]);
        assert(rest[i] == s[i]);
        lemma_trimmed_end_keeps(rest);
    }
}

/// What trimming leaves of ASCII text is ASCII text, and the case of its
/// letters does not matter to it.
pub proof fn law_trimmed_ascii(s: Seq<char>)
    ensures
        is_ascii_text(s) ==> is_ascii_text(trimmed(s)),
        trimmed(ascii_lowered(s)) == ascii_lowered(trimmed(s)),
{
    lemma_trimmed_start_ascii(s);
    lemma_trimmed_end_ascii(trimmed_start(s));
}

proof fn lemma_trimmed_start_ascii(s: Seq<char>)
    ensures
        is_ascii_text(s) ==> is_ascii_text(trimmed_start(s)),
        trimmed_start(ascii_lowered(s)) == ascii_lowered(trimmed_start(s)),
    decreases s.len(),
{
    if s.len() > 0 {
        assert(is_white_space(ascii_lower(s[0])) == is_white_space(s[0]));
        if is_white_space(s[0]) {
            lemma_trimmed_start_ascii(s.drop_first());
            assert(ascii_lowered(s).drop_first() =~= ascii_lowered(s.drop_first()));
        }
    }
}

proof fn lemma_trimmed_end_ascii(s: Seq<char>)
    ensures
        is_ascii_text(s) ==> is_ascii_text(trimmed_end(s)),
        trimmed_end(ascii_lowered(s)) == ascii_lowered(trimmed_end(s)),
    decreases s.len(),
{
    if s.len() > 0 {
        assert(is_white_space(ascii_lower(s.last())) == is_white_space(s.last()));
        if is_white_space(s.last()) {
            lemma_trimmed_end_ascii(s.drop_last());
            assert(ascii_lowered(s).drop_last() =~= ascii_lowered(s.drop_last()));
        }
    }
}

/// Lowering ASCII letters again changes nothing. ASCII text stays ASCII text,
/// and its lower case does not depend on the case of its letters.
pub proof fn law_lowered_ascii(s: Seq<char>)
    ensures
        ascii_lowered(ascii_lowered(s)) == ascii_lowered(s),
        is_ascii_text(ascii_lowered(s)) <==> is_ascii_text(s),
        is_ascii_text(s) ==> lowercase(s) == ascii_lowered(s),
        is_ascii_text(s) ==> lowercase(ascii_lowered(s)) == lowercase(s),
{
    let lower = ascii_lowered(s);
    assert(ascii_lowered(lower) =~= lower);
    if is_ascii_text(lower) {
        assert forall|i: int| 0 <= i < s.len() implies #[trigger] s[i] <= '\u{7f}' by {
            assert(lower[i] <= '\u{7f}');
            assert(lower[i] == ascii_lower(s[i]));
        }
    }
    if is_ascii_text(s) {
        assert forall|i: int| 0 <= i < lower.len() implies #[trigger] lower[i] <= '\u{7f}' by {
            assert(s[i] <= '\u{7f}');
        }
    }
}

/// Each text in lower case.
pub open spec fn lowered(parts: Seq<Seq<char>>) -> Seq<Seq<char>> {
    parts.map_values(|s: Seq<char>| lowercase(s))
}

/// Each text trimmed and in lower case.
pub open spec fn lowered_trimmed(parts: Seq<Seq<char>>) -> Seq<Seq<char>> {
    parts.map_values(|s: Seq<char>| lowercase(trimmed(s)))
}

/// Each string in lower case.
pub fn to_lowered(strings: &[String]) -> (lower: Vec<String>)
    ensures
        texts(lower@) == lowered(texts(strings@)),
{
    let mut lower: Vec<String> = Vec::new();
    let mut i: usize = 0;
    while i < strings.len()
        invariant
            i <= strings.len(),
            texts(lower@) == lowered(texts(strings@)).take(i as int),
        decreases strings.len() - i,
    {
        let ghost before = texts(lower@);
        lower.push(strings[i].as_str().to_lowercase());
        assert(texts(lower@) =~= before.push(lowered(texts(strings@))[i as int]));
        assert(lowered(texts(strings@)).take(i + 1) =~= lowered(texts(strings@)).take(
            i as int,
        ).push(lowered(texts(strings@))[i as int]));
        i = i + 1;
    }
    assert(lowered(texts(strings@)).take(strings.len() as int) =~= lowered(texts(strings@)));
    lower
}

/// Each string trimmed and in lower case.
pub fn to_lowered_trimmed(strings: &[String]) -> (lower: Vec<String>)
    ensures
        texts(lower@) == lowered_trimmed(texts(strings@)),
{
    let mut lower: Vec<String> = Vec::new();
    let mut i: usize = 0;
    while i < strings.len()
        invariant
            i <= strings.len(),
            texts(lower@) == lowered_trimmed(texts(strings@)).take(i as int),
        decreases strings.len() - i,
    {
        let ghost before = texts(lower@);
        lower.push(trim(strings[i].as_str()).to_lowercase());
        assert(texts(lower@) =~= before.push(lowered_trimmed(texts(strings@))[i as int]));
        assert(lowered_trimmed(texts(strings@)).take(i + 1) =~= lowered_trimmed(texts(strings@)).take(
            i as int,
        ).push(lowered_trimmed(texts(strings@))[i as int]));
        i = i + 1;
    }
    assert(lowered_trimmed(texts(strings@)).take(strings.len() as int) =~= lowered_trimmed(
        texts(strings@),
    ));
    lower
}

/// Whether `fragment` stands in `s` from position `at` on.
pub open spec fn occurs_at(s: Seq<char>, fragment: Seq<char>, at: int) -> bool {
    &&& 0 <= at
    &&& at + fragment.len() <= s.len()
    &&& s.subrange(at, at + fragment.len()) == fragment
}

/// Whether `fragment` stands somewhere in `s`.
pub open spec fn contains_text(s: Seq<char>, fragment: Seq<char>) -> bool {
    exists|at: int| occurs_at(s, fragment, at)
}

/// Whether `s` begins with `prefix`.
pub open spec fn has_prefix(s: Seq<char>, prefix: Seq<char>) -> bool {
    occurs_at(s, prefix, 0)
}

/// Compares `fragment` with the characters from position `at` on.
fn matches_at(chars: &Vec<char>, fragment: &Vec<char>, at: usize) -> (found: bool)
    requires
        at <= chars.len(),
    ensures
        found == occurs_at(chars@, fragment@, at as int),
{
    if chars.len() - at < fragment.len() {
        return false;
    }
    let mut i: usize = 0;
    while i < fragment.len()
        invariant
            at + fragment.len() <= chars.len(),
            i <= fragment.len(),
            forall|j: int| 0 <= j < i ==> chars[at + j] == fragment[j],
        decreases fragment.len() - i,
    {
        if chars[at + i] != fragment[i] {
            assert(chars@.subrange(at as int, at + fragment.len())[i as int] != fragment[i as int]);
            return false;
        }
        i = i + 1;
    }
    assert(chars@.subrange(at as int, at + fragment.len()) == fragment@);
    true
}

/// The first position not before `from` where `fragment` stands in `chars`.
fn find_from(chars: &Vec<char>, fragment: &Vec<char>, from: usize) -> (at: Option<usize>)
    requires
        from <= chars.len(),
    ensures
        match at {
            Some(at) => from <= at && occurs_at(chars@, fragment@, at as int) && forall|j: int|
                from <= j < at ==> !occurs_at(chars@, fragment@, j),
            None => forall|j: int| from <= j ==> !occurs_at(chars@, fragment@, j),
        },
{
    let mut at: usize = from;
    loop
        invariant
            from <= at <= chars.len(),
            forall|j: int| from <= j < at ==> !occurs_at(chars@, fragment@, j),
        decreases chars.len() - at,
    {
        if matches_at(chars, fragment, at) {
            return Some(at);
        }
        if at == chars.len() {
            return None;
        }
        at = at + 1;
    }
}

/// Whether `fragment` stands somewhere in `s`.
pub fn contains(s: &str, fragment: &str) -> (found: bool)
    ensures
        found == contains_text(s@, fragment@),
{
    let chars = chars_of(s);
    let wanted = chars_of(fragment);
    match find_from(&chars, &wanted, 0) {
        Some(_) => true,
        None => false,
    }
}

/// Whether `s` begins with `prefix`.
pub fn starts_with(s: &str, prefix: &str) -> (found: bool)
    ensures
        found == has_prefix(s@, prefix@),
{
    let chars = chars_of(s);
    let wanted = chars_of(prefix);
    matches_at(&chars, &wanted, 0)
}

/// Whether two slices hold the same text.
pub fn same_text(a: &str, b: &str) -> (same: bool)
    ensures
        same == (a@ == b@),
{
    let left = chars_of(a);
    let right = chars_of(b);
    if left.len() != right.len() {
        return false;
    }
    let same = matches_at(&left, &right, 0);
    assert(left@.subrange(0, left@.len() as int) == left@);
    same
}

/// Whether `at` is the first position where `fragment` stands in `s`.
pub open spec fn first_occurs_at(s: Seq<char>, fragment: Seq<char>, at: int) -> bool {
    &&& occurs_at(s, fragment, at)
    &&& forall|earlier: int| 0 <= earlier < at ==> !occurs_at(s, fragment, earlier)
}

/// The pieces of `s` between the occurrences of `separator`, which are taken
/// from the left and do not overlap. Always at least one piece.
pub open spec fn pieces(s: Seq<char>, separator: Seq<char>) -> Seq<Seq<char>>
    decreases s.len(),
{
    if separator.len() > 0 && exists|at: int| first_occurs_at(s, separator, at) {
        let at = choose|at: int| first_occurs_at(s, separator, at);
        seq![s.take(at)] + pieces(s.skip(at + separator.len()), separator)
    } else {
        seq![s]
    }
}

/// The pieces of each text in turn.
pub open spec fn pieces_of_each(parts: Seq<Seq<char>>, separator: Seq<char>) -> Seq<Seq<char>>
    decreases parts.len(),
{
    if parts.len() == 0 {
        Seq::empty()
    } else {
        pieces_of_each(parts.drop_last(), separator) + pieces(parts.last(), separator)
    }
}

/// The texts of `parts`, with `separator` between any two of them.
pub open spec fn joined(parts: Seq<Seq<char>>, separator: Seq<char>) -> Seq<char>
    decreases parts.len(),
{
    if parts.len() == 0 {
        Seq::empty()
    } else if parts.len() == 1 {
        parts[0]
    } else {
        parts[0] + separator + joined(parts.drop_first(), separator)
    }
}

/// A text that holds a fragment at all holds it at a first position.
pub(crate) proof fn lemma_first_occurrence(s: Seq<char>, fragment: Seq<char>, at: int)
    requires
        occurs_at(s, fragment, at),
    ensures
        exists|first: int| first_occurs_at(s, fragment, first),
    decreases at,
{
    if exists|earlier: int| 0 <= earlier < at && occurs_at(s, fragment, earlier) {
        let earlier = choose|earlier: int| 0 <= earlier < at && occurs_at(s, fragment, earlier);
        lemma_first_occurrence(s, fragment, earlier);
    } else {
        assert(first_occurs_at(s, fragment, at));
    }
}

pub(crate) proof fn lemma_pieces_step(s: Seq<char>, separator: Seq<char>, at: int)
    requires
        separator.len() > 0,
        first_occurs_at(s, separator, at),
    ensures
        pieces(s, separator) == seq![s.take(at)] + pieces(
            s.skip(at + separator.len()),
            separator,
        ),
{
    let chosen = choose|at: int| first_occurs_at(s, separator, at);
    assert(chosen == at);
}

/// Splits `s` at the occurrences of `separator`.
pub fn split<'a>(s: &'a str, separator: &str) -> (parts: Vec<&'a str>)
    requires
        separator@.len() > 0,
    ensures
        slice_texts(parts@) == pieces(s@, separator@),
{
    let chars = chars_of(s);
    let wanted = chars_of(separator);
    let mut parts: Vec<&'a str> = Vec::new();
    let mut start: usize = 0;
    assert(s@.skip(0) == s@);
    assert(slice_texts(parts@) + pieces(s@.skip(0), separator@) == pieces(s@, separator@));
    loop
        invariant
            chars@ == s@,
            wanted@ == separator@,
            separator@.len() > 0,
            start <= chars.len(),
            slice_texts(parts@) + pieces(s@.skip(start as int), separator@) == pieces(
                s@,
                separator@,
            ),
        decreases chars.len() - start,
    {
        let ghost rest = s@.skip(start as int);
        let ghost before = slice_texts(parts@);
        match find_from(&chars, &wanted, start) {
            Some(at) => {
                let part = s.substring_char(start, at);
                proof {
                    let offset = at - start;
                    assert forall|j: int| 0 <= j < offset implies !occurs_at(
                        rest,
                        separator@,
                        j,
                    ) by {
                        lemma_occurs_in_rest(s@, separator@, start as int, j);
                    }
                    lemma_occurs_in_rest(s@, separator@, start as int, offset);
                    assert(first_occurs_at(rest, separator@, offset));
                    lemma_pieces_step(rest, separator@, offset);
                    assert(rest.take(offset) == part@);
                    assert(rest.skip(offset + separator@.len()) == s@.skip(
                        at + separator@.len(),
                    ));
                }
                parts.push(part);
                start = at + wanted.len();
                assert(slice_texts(parts@) == before.push(part@));
                assert(before + (seq![part@] + pieces(s@.skip(start as int), separator@))
                    == before.push(part@) + pieces(s@.skip(start as int), separator@));
            },
            None => {
                let part = s.substring_char(start, chars.len());
                proof {
                    assert forall|j: int| !first_occurs_at(rest, separator@, j) by {
                        if occurs_at(rest, separator@, j) {
                            lemma_occurs_in_rest(s@, separator@, start as int, j);
                        }
                    }
                    assert(rest == part@);
                }
                parts.push(part);
                assert(slice_texts(parts@) == before.push(part@));
                assert(before.push(part@) == before + seq![part@]);
                return parts;
            },
        }
    }
}

proof fn lemma_occurs_in_rest(s: Seq<char>, fragment: Seq<char>, start: int, at: int)
    requires
        0 <= start <= s.len(),
        0 <= at,
    ensures
        occurs_at(s.skip(start), fragment, at) == occurs_at(s, fragment, start + at),
{
    if start + at + fragment.len() <= s.len() {
        assert(s.skip(start).subrange(at, at + fragment.len()) == s.subrange(
            start + at,
            start + at + fragment.len(),
        ));
    }
}

/// Splits each of `parts` at the occurrences of `separator`.
pub fn split_each<'a>(parts: &Vec<&'a str>, separator: &str) -> (all: Vec<&'a str>)
    requires
        separator@.len() > 0,
    ensures
        slice_texts(all@) == pieces_of_each(slice_texts(parts@), separator@),
{
    let mut all: Vec<&'a str> = Vec::new();
    let mut i: usize = 0;
    assert(slice_texts(all@) == pieces_of_each(slice_texts(parts@).take(0), separator@));
    while i < parts.len()
        invariant
            separator@.len() > 0,
            i <= parts.len(),
            slice_texts(all@) == pieces_of_each(slice_texts(parts@).take(i as int), separator@),
        decreases parts.len() - i,
    {
        let ghost before = all@;
        let mut more = split(parts[i], separator);
        let ghost added = more@;
        all.append(&mut more);
        proof {
            let done = slice_texts(parts@).take(i + 1);
            assert(done.drop_last() == slice_texts(parts@).take(i as int));
            assert(slice_texts(before + added) == slice_texts(before) + slice_texts(added));
        }
        i = i + 1;
    }
    assert(slice_texts(parts@).take(parts.len() as int) == slice_texts(parts@));
    all
}

/// Splitting loses nothing: the pieces, joined by the separator, are the text.
pub proof fn law_pieces_joined(s: Seq<char>, separator: Seq<char>)
    ensures
        joined(pieces(s, separator), separator) == s,
    decreases s.len(),
{
    if separator.len() > 0 && exists|at: int| first_occurs_at(s, separator, at) {
        let at = choose|at: int| first_occurs_at(s, separator, at);
        let rest = s.skip(at + separator.len());
        law_pieces_joined(rest, separator);
        lemma_pieces_not_empty(rest, separator);
        let all = pieces(s, separator);
        assert(all.drop_first() == pieces(rest, separator));
        assert(s == s.take(at) + s.subrange(at, at + separator.len()) + rest);
    }
}

pub(crate) proof fn lemma_pieces_not_empty(s: Seq<char>, separator: Seq<char>)
    ensures
        pieces(s, separator).len() >= 1,
{
}

/// No piece holds the separator.
pub proof fn law_pieces_without_separator(s: Seq<char>, separator: Seq<char>, i: int)
    requires
        separator.len() > 0,
        0 <= i < pieces(s, separator).len(),
    ensures
        !contains_text(pieces(s, separator)[i], separator),
    decreases s.len(),
{
    if exists|at: int| first_occurs_at(s, separator, at) {
        let at = choose|at: int| first_occurs_at(s, separator, at);
        if i == 0 {
            assert forall|j: int| !occurs_at(s.take(at), separator, j) by {
                if occurs_at(s.take(at), separator, j) {
                    assert(s.take(at).subrange(j, j + separator.len()) == s.subrange(
                        j,
                        j + separator.len(),
                    ));
                    assert(occurs_at(s, separator, j));
                }
            }
        } else {
            law_pieces_without_separator(s.skip(at + separator.len()), separator, i - 1);
        }
    } else if contains_text(s, separator) {
        let at = choose|at: int| occurs_at(s, separator, at);
        lemma_first_occurrence(s, separator, at);
    }
}

/// A piece holds nothing that the text it comes from does not hold.
pub proof fn law_piece_holds_no_more(
    s: Seq<char>,
    separator: Seq<char>,
    i: int,
    fragment: Seq<char>,
)
    requires
        0 <= i < pieces(s, separator).len(),
        contains_text(pieces(s, separator)[i], fragment),
    ensures
        contains_text(s, fragment),
    decreases s.len(),
{
    if separator.len() > 0 && exists|at: int| first_occurs_at(s, separator, at) {
        let at = choose|at: int| first_occurs_at(s, separator, at);
        if i == 0 {
            let j = choose|j: int| occurs_at(s.take(at), fragment, j);
            assert(s.take(at).subrange(j, j + fragment.len()) == s.subrange(
                j,
                j + fragment.len(),
            ));
            assert(occurs_at(s, fragment, j));
        } else {
            let skipped = at + separator.len();
            law_piece_holds_no_more(s.skip(skipped), separator, i - 1, fragment);
            let j = choose|j: int| occurs_at(s.skip(skipped), fragment, j);
            lemma_occurs_in_rest(s, fragment, skipped, j);
        }
    }
}

/// Splitting each text rids the pieces of the separator, and brings back
/// nothing that the texts were free of.
pub proof fn law_pieces_of_each_are_free(
    parts: Seq<Seq<char>>,
    separator: Seq<char>,
    fragment: Seq<char>,
    i: int,
)
    requires
        separator.len() > 0,
        0 <= i < pieces_of_each(parts, separator).len(),
        fragment == separator || forall|k: int|
            0 <= k < parts.len() ==> !contains_text(#[trigger] parts[k], fragment),
    ensures
        !contains_text(pieces_of_each(parts, separator)[i], fragment),
    decreases parts.len(),
{
    let earlier = pieces_of_each(parts.drop_last(), separator);
    let last = pieces(parts.last(), separator);
    if i < earlier.len() {
        law_pieces_of_each_are_free(parts.drop_last(), separator, fragment, i);
    } else {
        let j = i - earlier.len();
        assert(pieces_of_each(parts, separator)[i] == last[j]);
        if fragment == separator {
            law_pieces_without_separator(parts.last(), separator, j);
        } else if contains_text(last[j], fragment) {
            law_piece_holds_no_more(parts.last(), separator, j, fragment);
            assert(!contains_text(parts[parts.len() - 1], fragment));
        }
    }
}

/// Maps an ASCII capital to its small letter, and any other character to itself.
pub fn to_ascii_lower(c: char) -> (lower: char)
    ensures
        lower == ascii_lower(c),
{
    if 'A' <= c && c <= 'Z' {
        (c as u8 + 32) as char
    } else {
        c
    }
}

/// Whether two slices hold the same text up to the case of ASCII letters.
pub fn eq_ignore_ascii_case(a: &str, b: &str) -> (same: bool)
    ensures
        same == (ascii_lowered(a@) == ascii_lowered(b@)),
{
    let left = chars_of(a);
    let right = chars_of(b);
    if left.len() != right.len() {
        assert(ascii_lowered(a@).len() != ascii_lowered(b@).len());
        return false;
    }
    let mut i: usize = 0;
    while i < left.len()
        invariant
            left@ == a@,
            right@ == b@,
            left.len() == right.len(),
            i <= left.len(),
            forall|j: int| 0 <= j < i ==> ascii_lower(a@[j]) == ascii_lower(b@[j]),
        decreases left.len() - i,
    {
        if to_ascii_lower(left[i]) != to_ascii_lower(right[i]) {
            assert(ascii_lowered(a@)[i as int] != ascii_lowered(b@)[i as int]);
            return false;
        }
        i = i + 1;
    }
    assert(ascii_lowered(a@) == ascii_lowered(b@));
    true
}

/// The decimal digit for a number below ten.
pub open spec fn digit(n: nat) -> char {
    (0x30 + n) as char
}

/// A number in decimal notation, without leading zeros.
pub open spec fn decimal(n: nat) -> Seq<char>
    decreases n,
{
    if n < 10 {
        seq![digit(n)]
    } else {
        decimal(n / 10).push(digit(n % 10))
    }
}

/// Writes `n` in decimal notation.
pub fn to_decimal(n: u64) -> (s: String)
    ensures
        s@ == decimal(n as nat),
    decreases n,
{
    let low = (0x30 + (n % 10) as u8) as char;
    let mut s = if n < 10 {
        String::new()
    } else {
        to_decimal(n / 10)
    };
    s.push(low);
    s
}

proof fn lemma_trimmed_start_cut(s: Seq<char>) -> (start: int)
    ensures
        0 <= start <= s.len(),
        trimmed_start(s) == s.skip(start),
        forall|i: int| 0 <= i < start ==> is_white_space(#[trigger] s[i]),
    decreases s.len(),
{
    if s.len() > 0 && is_white_space(s[0]) {
        let rest = s.drop_first();
        let start = lemma_trimmed_start_cut(rest) + 1;
        assert(rest.skip(start - 1) =~= s.skip(start));
        assert forall|i: int| 0 <= i < start implies is_white_space(#[trigger] s[i]) by {
            if i > 0 {
                assert(s[i] == rest[i - 1]);
            }
        }
        start
    } else {
        assert(s.skip(0) =~= s);
        0
    }
}

proof fn lemma_trimmed_end_cut(s: Seq<char>) -> (end: int)
    ensures
        0 <= end <= s.len(),
        trimmed_end(s) == s.take(end),
        forall|i: int| end <= i < s.len() ==> is_white_space(#[trigger] s[i]),
    decreases s.len(),
{
    if s.len() > 0 && is_white_space(s.last()) {
        let rest = s.drop_last();
        let end = lemma_trimmed_end_cut(rest);
        assert(rest.take(end) =~= s.take(end));
        assert forall|i: int| end <= i < s.len() implies is_white_space(#[trigger] s[i]) by {
            if i < rest.len() {
                assert(s[i] == rest[i]);
            }
        }
        end
    } else {
        assert(s.take(s.len() as int) =~= s);
        s.len() as int
    }
}

/// Trimming cuts white space off both ends, all of it and nothing else: a text
/// is white space, then what trimming leaves, then white space, and what it
/// leaves neither begins nor ends with white space.
pub proof fn law_trimming_cuts_white_space_only(s: Seq<char>)
    ensures
        exists|before: Seq<char>, after: Seq<char>|
            {
                &&& s == #[trigger] (before + trimmed(s) + after)
                &&& forall|i: int| 0 <= i < before.len() ==> is_white_space(#[trigger] before[i])
                &&& forall|i: int| 0 <= i < after.len() ==> is_white_space(#[trigger] after[i])
            },
        trimmed(s).len() > 0 ==> !is_white_space(trimmed(s)[0]) && !is_white_space(
            trimmed(s)[trimmed(s).len() - 1],
        ),
{
    lemma_trimmed_shape(s);
    let start = lemma_trimmed_start_cut(s);
    let middle = s.skip(start);
    let end = lemma_trimmed_end_cut(middle);
    let before = s.take(start);
    let after = middle.skip(end);
    assert forall|i: int| 0 <= i < after.len() implies is_white_space(#[trigger] after[i]) by {
        assert(after[i] == middle[end + i]);
    }
    assert(before + trimmed(s) + after =~= s);
}

/// A text holds a fragment just when it is something, then the fragment, then
/// something. It begins with the fragment when nothing stands before it.
pub proof fn law_fragment_stands_between(s: Seq<char>, fragment: Seq<char>)
    ensures
        contains_text(s, fragment) <==> exists|before: Seq<char>, after: Seq<char>|
            s == #[trigger] (before + fragment + after),
        has_prefix(s, fragment) <==> exists|after: Seq<char>| s == #[trigger] (fragment + after),
{
    if contains_text(s, fragment) {
        let at = choose|at: int| occurs_at(s, fragment, at);
        let end = at + fragment.len();
        assert(s =~= s.take(at) + fragment + s.skip(end)) by {
            assert(s.subrange(at, end) =~= fragment);
            assert(s =~= s.take(at) + s.subrange(at, end) + s.skip(end));
        }
    }
    if exists|before: Seq<char>, after: Seq<char>| s == #[trigger] (before + fragment + after) {
        let (before, after) = choose|before: Seq<char>, after: Seq<char>|
            s == #[trigger] (before + fragment + after);
        let at = before.len() as int;
        assert(s.subrange(at, at + fragment.len()) =~= fragment);
        assert(occurs_at(s, fragment, at));
    }
    if has_prefix(s, fragment) {
        let end = fragment.len() as int;
        assert(s.subrange(0, end) =~= fragment);
        assert(s =~= fragment + s.skip(end)) by {
            assert(s =~= s.subrange(0, end) + s.skip(end));
        }
    }
    if exists|after: Seq<char>| s == #[trigger] (fragment + after) {
        let after = choose|after: Seq<char>| s == #[trigger] (fragment + after);
        assert(s.subrange(0, fragment.len() as int) =~= fragment);
    }
}

/// Lowering ASCII letters keeps the length of a text, moves each capital by the
/// distance between the cases, and keeps every other character.
pub proof fn law_ascii_lowering_by_character(s: Seq<char>, i: int)
    requires
        0 <= i < s.len(),
    ensures
        ascii_lowered(s).len() == s.len(),
        65 <= s[i] as int <= 90 ==> ascii_lowered(s)[i] as int == s[i] as int + 32,
        !(65 <= s[i] as int <= 90) ==> ascii_lowered(s)[i] == s[i],
{
}

/// The number that a row of decimal digits stands for.
pub open spec fn value_of(digits: Seq<char>) -> int
    decreases digits.len(),
{
    if digits.len() == 0 {
        0
    } else {
        10 * value_of(digits.drop_last()) + (digits.last() as int - 48)
    }
}

/// Decimal notation can be read back: it consists of digits, stands for the
/// number, and has no leading zero unless the number is zero.
pub proof fn law_decimal_reads_back(n: nat)
    ensures
        value_of(decimal(n)) == n,
        decimal(n).len() > 0,
        forall|i: int| 0 <= i < decimal(n).len() ==> 48 <= #[trigger] decimal(n)[i] as int <= 57,
        decimal(n)[0] as int == 48 <==> n == 0,
    decreases n,
{
    if n < 10 {
        reveal_with_fuel(value_of, 2);
        assert(decimal(n).drop_last() =~= Seq::empty());
    } else {
        law_decimal_reads_back(n / 10);
        let front = decimal(n / 10);
        assert(decimal(n).drop_last() =~= front);
        assert forall|i: int| 0 <= i < decimal(n).len() implies 48 <= #[trigger] decimal(
            n,
        )[i] as int <= 57 by {
            if i < front.len() {
                assert(decimal(n)[i] == front[i]);
            }
        }
        assert(decimal(n)[0] == front[0]);
    }
}

/// The texts of strings, and what becomes of them, go one by one.
pub proof fn law_texts_one_by_one(strings: Seq<String>, i: int)
    requires
        0 <= i < strings.len(),
    ensures
        texts(strings).len() == strings.len(),
        texts(strings)[i] == strings[i]@,
        lowered(texts(strings)).len() == strings.len(),
        lowered(texts(strings))[i] == lowercase(strings[i]@),
        lowered_trimmed(texts(strings)).len() == strings.len(),
        lowered_trimmed(texts(strings))[i] == lowercase(trimmed(strings[i]@)),
{
}

/// The texts of string slices go one by one.
pub proof fn law_slices_one_by_one(slices: Seq<&str>, i: int)
    ensures
        slice_texts(slices).len() == slices.len(),
        0 <= i < slices.len() ==> slice_texts(slices)[i] == slices[i]@,
{
}

} // verus!
