//! Tags: how workers are labelled, and how tasks ask for workers by label.

use vstd::prelude::*;

use crate::order::{
    ascending, insert_in_order, law_ascending_lists_are_equal, law_ordered_list_exists,
    lists_in_order, nonempty_in, precedes, sorted_without_empty,
};
use crate::platform::{shell_name, ShellKind};
use crate::text::{
    ascii_lower, ascii_lowered, chars_of, contains, contains_text, eq_ignore_ascii_case,
    is_ascii_text, law_fragment_stands_between, law_lowered_ascii, law_trimmed_ascii,
    law_trimmed_is_trimmed, lowercase, lowered_trimmed, texts, to_ascii_lower,
    to_lowered_trimmed, trimmed,
};

verus! {

/// Whether `parts` is the normal form of `tags`: the tags trimmed and in lower
/// case, without blank ones, each once, in dictionary order.
pub open spec fn is_normal_form(parts: Seq<Seq<char>>, tags: Seq<Seq<char>>) -> bool {
    lists_in_order(parts, nonempty_in(lowered_trimmed(tags)))
}

/// The normal form of tags.
pub open spec fn normal_form(tags: Seq<Seq<char>>) -> Seq<Seq<char>> {
    choose|parts: Seq<Seq<char>>| is_normal_form(parts, tags)
}

/// Brings tags into normal form.
pub fn normalize_tags(tags: Vec<String>) -> (normalized: Vec<String>)
    ensures
        is_normal_form(texts(normalized@), texts(tags@)),
        texts(normalized@) == normal_form(texts(tags@)),
{
    let lower = to_lowered_trimmed(&tags);
    let normalized = sorted_without_empty(&lower);
    proof {
        let parts = texts(normalized@);
        assert(is_normal_form(parts, texts(tags@)));
        law_normal_form_is_unique(parts, normal_form(texts(tags@)), texts(tags@));
    }
    normalized
}

/// Tags have one normal form only.
pub proof fn law_normal_form_is_unique(
    a: Seq<Seq<char>>,
    b: Seq<Seq<char>>,
    tags: Seq<Seq<char>>,
)
    requires
        is_normal_form(a, tags),
        is_normal_form(b, tags),
    ensures
        a == b,
{
    law_ascending_lists_are_equal(a, b);
}

/// Tags have a normal form, which `normal_form` is.
pub proof fn law_normal_form_exists(tags: Seq<Seq<char>>)
    ensures
        is_normal_form(normal_form(tags), tags),
{
    let lower = lowered_trimmed(tags);
    law_ordered_list_exists(lower);
    let list = choose|list: Seq<Seq<char>>| #[trigger] lists_in_order(list, nonempty_in(lower));
    assert(is_normal_form(list, tags));
}

/// Neither the order of tags nor repetitions among them matter.
pub proof fn law_normal_form_of_same_tags(
    parts: Seq<Seq<char>>,
    tags: Seq<Seq<char>>,
    others: Seq<Seq<char>>,
)
    requires
        is_normal_form(parts, tags),
        forall|t: Seq<char>| tags.contains(t) <==> others.contains(t),
    ensures
        is_normal_form(parts, others),
{
    assert forall|t: Seq<char>| lowered_trimmed(tags).contains(t) <==> lowered_trimmed(
        others,
    ).contains(t) by {
        lemma_lowered_member(tags, others, t);
        lemma_lowered_member(others, tags, t);
    }
}

proof fn lemma_lowered_member(tags: Seq<Seq<char>>, others: Seq<Seq<char>>, t: Seq<char>)
    requires
        forall|t: Seq<char>| tags.contains(t) ==> others.contains(t),
    ensures
        lowered_trimmed(tags).contains(t) ==> lowered_trimmed(others).contains(t),
{
    if lowered_trimmed(tags).contains(t) {
        let i = choose|i: int| 0 <= i < tags.len() && lowered_trimmed(tags)[i] == t;
        assert(tags.contains(tags[i]));
        let j = choose|j: int| 0 <= j < others.len() && others[j] == tags[i];
        assert(lowered_trimmed(others)[j] == t);
    }
}

/// Tags in normal form stay as they are when they are normalized again,
/// provided that each is its own trimmed lower case.
pub proof fn law_normal_form_is_stable(parts: Seq<Seq<char>>, tags: Seq<Seq<char>>)
    requires
        is_normal_form(parts, tags),
        forall|i: int| 0 <= i < parts.len() ==> lowercase(trimmed(#[trigger] parts[i])) == parts[i],
    ensures
        is_normal_form(parts, parts),
{
    assert(lowered_trimmed(parts) =~= parts);
    assert forall|t: Seq<char>| #[trigger]
        parts.contains(t) <==> t.len() > 0 && lowered_trimmed(parts).contains(t) by {
        if parts.contains(t) {
            assert(t.len() > 0);
        }
    }
}

/// Whether a tag is settled once it is trimmed and in lower case: doing both
/// again changes nothing.
pub open spec fn settles(tag: Seq<char>) -> bool {
    lowercase(trimmed(lowercase(trimmed(tag)))) == lowercase(trimmed(tag))
}

/// Tags that settle are normalized once and for all: normalizing them again
/// changes nothing.
pub proof fn law_settled_tags_are_normalized_once(tags: Seq<Seq<char>>)
    requires
        forall|i: int| 0 <= i < tags.len() ==> settles(#[trigger] tags[i]),
    ensures
        normal_form(normal_form(tags)) == normal_form(tags),
{
    let parts = normal_form(tags);
    law_normal_form_exists(tags);
    assert forall|i: int| 0 <= i < parts.len() implies lowercase(trimmed(#[trigger] parts[i]))
        == parts[i] by {
        assert(parts.contains(parts[i]));
        let k = choose|k: int| 0 <= k < tags.len() && lowered_trimmed(tags)[k] == parts[i];
        assert(settles(tags[k]));
    }
    law_normal_form_is_stable(parts, tags);
    law_normal_form_exists(parts);
    law_normal_form_is_unique(parts, normal_form(parts), parts);
}

/// ASCII tags settle.
pub proof fn law_ascii_tag_settles(tag: Seq<char>)
    requires
        is_ascii_text(tag),
    ensures
        settles(tag),
{
    law_trimmed_ascii(tag);
    law_trimmed_ascii(trimmed(tag));
    law_trimmed_is_trimmed(tag);
    law_lowered_ascii(trimmed(tag));
}

/// Normalizing ASCII tags again changes nothing.
pub proof fn law_ascii_tags_are_normalized_once(tags: Seq<Seq<char>>)
    requires
        forall|i: int| 0 <= i < tags.len() ==> is_ascii_text(#[trigger] tags[i]),
    ensures
        normal_form(normal_form(tags)) == normal_form(tags),
{
    assert forall|i: int| 0 <= i < tags.len() implies settles(#[trigger] tags[i]) by {
        law_ascii_tag_settles(tags[i]);
    }
    law_settled_tags_are_normalized_once(tags);
}

/// Whether a character may stand in the name of a task as it is.
pub open spec fn is_task_safe(c: char) -> bool {
    ||| 'a' <= c <= 'z'
    ||| '0' <= c <= '9'
    ||| c == '-'
    ||| c == '_'
}

/// What becomes of a character in the name of a task: ASCII letters in lower
/// case, digits, `-` and `_` stay, and anything else turns into `-`.
pub open spec fn task_safe_char(c: char) -> char {
    if is_task_safe(ascii_lower(c)) {
        ascii_lower(c)
    } else {
        '-'
    }
}

/// The form of a worker's name that goes into names of tasks and into tags.
pub open spec fn task_safe(id: Seq<char>) -> Seq<char> {
    id.map_values(|c: char| task_safe_char(c))
}

/// The form of a worker's name that goes into names of tasks and into tags.
pub fn worker_id_for_task(worker_id: &str) -> (safe: String)
    ensures
        safe@ == task_safe(worker_id@),
{
    let chars = chars_of(worker_id);
    let mut safe = String::new();
    let mut i: usize = 0;
    while i < chars.len()
        invariant
            chars@ == worker_id@,
            i <= chars.len(),
            safe@ == task_safe(worker_id@).take(i as int),
        decreases chars.len() - i,
    {
        let c = to_ascii_lower(chars[i]);
        if ('a' <= c && c <= 'z') || ('0' <= c && c <= '9') || c == '-' || c == '_' {
            safe.push(c);
        } else {
            safe.push('-');
        }
        assert(task_safe(worker_id@).take(i + 1) =~= task_safe(worker_id@).take(i as int).push(
            task_safe_char(worker_id@[i as int]),
        ));
        i = i + 1;
    }
    assert(task_safe(worker_id@).take(chars.len() as int) =~= task_safe(worker_id@));
    safe
}

/// The safe form of a name holds safe characters only, one for each character
/// of the name.
pub proof fn law_task_safe_is_safe(id: Seq<char>)
    ensures
        task_safe(id).len() == id.len(),
        forall|i: int| 0 <= i < id.len() ==> is_task_safe(#[trigger] task_safe(id)[i]),
{
}

/// A safe form is its own safe form.
pub proof fn law_task_safe_is_stable(id: Seq<char>)
    ensures
        task_safe(task_safe(id)) == task_safe(id),
{
    assert(task_safe(task_safe(id)) =~= task_safe(id));
}

/// The tag that a worker is asked for by its name with.
pub open spec fn identity_tag(id: Seq<char>) -> Seq<char> {
    "worker:"@ + task_safe(id)
}

/// The tag that a worker is asked for by its name with.
pub fn worker_identity_tag(worker_id: &str) -> (tag: String)
    ensures
        tag@ == identity_tag(worker_id@),
{
    "worker:".to_owned().concat(worker_id_for_task(worker_id).as_str())
}

/// Whether a tag is one that a worker carries besides those it was given.
pub open spec fn is_own_tag(
    tag: Seq<char>,
    id: Seq<char>,
    lowered_id: Seq<char>,
    operating_system: Seq<char>,
    shell: ShellKind,
) -> bool {
    ||| tag == operating_system
    ||| tag == shell_name(shell)
    ||| tag == identity_tag(id)
    ||| tag == "local"@ && contains_text(lowered_id, "local"@)
}

/// Adds to tags in normal form those that a worker carries of itself.
/// `lowered_id` is its name in lower case.
pub fn add_own_tags(
    normalized: Vec<String>,
    worker_id: &str,
    lowered_id: &str,
    operating_system: &str,
    shell: ShellKind,
) -> (tags: Vec<String>)
    requires
        ascending(texts(normalized@)),
    ensures
        lists_in_order(
            texts(tags@),
            |t: Seq<char>|
                texts(normalized@).contains(t) || is_own_tag(
                    t,
                    worker_id@,
                    lowered_id@,
                    operating_system@,
                    shell,
                ),
        ),
{
    let mut tags = normalized;
    insert_in_order(&mut tags, operating_system.to_owned());
    insert_in_order(&mut tags, shell.as_str().to_owned());
    insert_in_order(&mut tags, worker_identity_tag(worker_id));
    if contains(lowered_id, "local") {
        insert_in_order(&mut tags, "local".to_owned());
    }
    tags
}

/// Whether `parts` lists the tags of a worker: the normal form of those it was
/// given and those it carries of itself.
pub open spec fn are_worker_tags(
    parts: Seq<Seq<char>>,
    given: Seq<Seq<char>>,
    id: Seq<char>,
    operating_system: Seq<char>,
    shell: ShellKind,
) -> bool {
    lists_in_order(
        parts,
        |t: Seq<char>|
            (t.len() > 0 && lowered_trimmed(given).contains(t)) || is_own_tag(
                t,
                id,
                lowercase(id),
                operating_system,
                shell,
            ),
    )
}

/// The tags of a worker.
pub fn build_worker_tags(
    tags: Vec<String>,
    worker_id: &str,
    operating_system: &str,
    shell: ShellKind,
) -> (all: Vec<String>)
    ensures
        are_worker_tags(texts(all@), texts(tags@), worker_id@, operating_system@, shell),
{
    let normalized = normalize_tags(tags);
    let lower = worker_id.to_lowercase();
    add_own_tags(normalized, worker_id, lower.as_str(), operating_system, shell)
}

/// Whether a worker with the tags `carried` meets the tag `wanted`. Case does
/// not matter for ASCII letters.
pub open spec fn carries(carried: Seq<Seq<char>>, wanted: Seq<char>) -> bool {
    exists|j: int|
        0 <= j < carried.len() && ascii_lowered(#[trigger] carried[j]) == ascii_lowered(wanted)
}

/// Whether a worker with the tags `carried` meets all of `required`.
pub open spec fn meets(carried: Seq<Seq<char>>, required: Seq<Seq<char>>) -> bool {
    forall|i: int| 0 <= i < required.len() ==> carries(carried, #[trigger] required[i])
}

fn has_tag(carried: &[String], wanted: &str) -> (found: bool)
    ensures
        found == carries(texts(carried@), wanted@),
{
    let mut j: usize = 0;
    while j < carried.len()
        invariant
            j <= carried.len(),
            forall|k: int|
                0 <= k < j ==> ascii_lowered(#[trigger] texts(carried@)[k]) != ascii_lowered(
                    wanted@,
                ),
        decreases carried.len() - j,
    {
        if eq_ignore_ascii_case(carried[j].as_str(), wanted) {
            assert(ascii_lowered(texts(carried@)[j as int]) == ascii_lowered(wanted@));
            return true;
        }
        j = j + 1;
    }
    false
}

/// Whether a worker with the tags `carried` meets all of `required`.
pub fn has_all_tags(carried: &[String], required: &[String]) -> (all: bool)
    ensures
        all == meets(texts(carried@), texts(required@)),
{
    let mut i: usize = 0;
    while i < required.len()
        invariant
            i <= required.len(),
            forall|k: int|
                0 <= k < i ==> carries(texts(carried@), #[trigger] texts(required@)[k]),
        decreases required.len() - i,
    {
        if !has_tag(carried, required[i].as_str()) {
            assert(!carries(texts(carried@), texts(required@)[i as int]));
            return false;
        }
        i = i + 1;
    }
    true
}

/// A task that asks for a worker by its identity tag is met by that worker.
pub proof fn law_identity_tag_reaches_its_worker(
    carried: Seq<Seq<char>>,
    given: Seq<Seq<char>>,
    id: Seq<char>,
    operating_system: Seq<char>,
    shell: ShellKind,
)
    requires
        are_worker_tags(carried, given, id, operating_system, shell),
    ensures
        meets(carried, seq![identity_tag(id)]),
{
    assert(carried.contains(identity_tag(id)));
    let j = choose|j: int| 0 <= j < carried.len() && carried[j] == identity_tag(id);
    assert(ascii_lowered(carried[j]) == ascii_lowered(identity_tag(id)));
}

/// Every tag that a worker was given, once normalized, is one that it meets.
pub proof fn law_given_tags_are_met(
    carried: Seq<Seq<char>>,
    given: Seq<Seq<char>>,
    id: Seq<char>,
    operating_system: Seq<char>,
    shell: ShellKind,
    required: Seq<Seq<char>>,
)
    requires
        are_worker_tags(carried, given, id, operating_system, shell),
        is_normal_form(required, given),
    ensures
        meets(carried, required),
{
    assert forall|i: int| 0 <= i < required.len() implies carries(
        carried,
        #[trigger] required[i],
    ) by {
        assert(required.contains(required[i]));
        assert(carried.contains(required[i]));
        let j = choose|j: int| 0 <= j < carried.len() && carried[j] == required[i];
        assert(ascii_lowered(carried[j]) == ascii_lowered(required[i]));
    }
}

/// A task that asks for more is met by fewer workers.
pub proof fn law_fewer_requirements_are_met(
    carried: Seq<Seq<char>>,
    required: Seq<Seq<char>>,
    fewer: Seq<Seq<char>>,
)
    requires
        meets(carried, required),
        forall|t: Seq<char>| #[trigger] fewer.contains(t) ==> required.contains(t),
    ensures
        meets(carried, fewer),
{
    assert forall|i: int| 0 <= i < fewer.len() implies carries(carried, #[trigger] fewer[i]) by {
        assert(fewer.contains(fewer[i]));
        let j = choose|j: int| 0 <= j < required.len() && required[j] == fewer[i];
        assert(carries(carried, required[j]));
    }
}

/// A tag is in the normal form of several just when it is not empty and is one
/// of them, trimmed and in lower case. The normal form goes strictly upwards.
pub proof fn law_tags_in_normal_form(tags: Seq<String>, tag: Seq<char>)
    ensures
        normal_form(texts(tags)).contains(tag) <==> tag.len() > 0 && exists|i: int|
            0 <= i < tags.len() && lowercase(trimmed(#[trigger] tags[i]@)) == tag,
        ascending(normal_form(texts(tags))),
        forall|i: int, j: int|
            0 <= i < j < normal_form(texts(tags)).len() ==> precedes(
                #[trigger] normal_form(texts(tags))[i],
                #[trigger] normal_form(texts(tags))[j],
            ),
{
    let given = texts(tags);
    let lower = lowered_trimmed(given);
    law_normal_form_exists(given);
    if lower.contains(tag) {
        let i = choose|i: int| 0 <= i < lower.len() && lower[i] == tag;
        assert(lowercase(trimmed(tags[i]@)) == tag);
    }
    if exists|i: int| 0 <= i < tags.len() && lowercase(trimmed(#[trigger] tags[i]@)) == tag {
        let i = choose|i: int|
            0 <= i < tags.len() && lowercase(trimmed(#[trigger] tags[i]@)) == tag;
        assert(lower[i] == tag);
    }
    assert(normal_form(given).contains(tag) <==> nonempty_in(lower)(tag));
}

/// A name is made safe character by character: small letters, digits, `-` and
/// `_` stay, capitals turn into small letters, and anything else into `-`.
pub proof fn law_safe_names_by_character(id: Seq<char>, i: int)
    requires
        0 <= i < id.len(),
    ensures
        task_safe(id).len() == id.len(),
        ({
            let c = id[i] as int;
            let safe = task_safe(id)[i];
            &&& 97 <= c <= 122 || 48 <= c <= 57 || c == 45 || c == 95 ==> safe == id[i]
            &&& 65 <= c <= 90 ==> safe as int == c + 32
            &&& !(97 <= c <= 122 || 48 <= c <= 57 || c == 45 || c == 95 || 65 <= c <= 90)
                ==> safe == '-'
        }),
        identity_tag(id) == "worker:"@ + task_safe(id),
{
}

/// The tags of a worker are those it was given, trimmed and in lower case and
/// without blank ones, its operating system, its shell, its identity, and
/// `local` when its name holds that word; these and no others, in order.
pub proof fn law_tags_of_a_worker(
    carried: Seq<Seq<char>>,
    given: Seq<Seq<char>>,
    id: Seq<char>,
    operating_system: Seq<char>,
    shell: ShellKind,
    tag: Seq<char>,
)
    requires
        are_worker_tags(carried, given, id, operating_system, shell),
    ensures
        ascending(carried),
        carried.contains(tag) <==> {
            ||| tag.len() > 0 && exists|i: int|
                0 <= i < given.len() && lowercase(trimmed(#[trigger] given[i])) == tag
            ||| tag == operating_system
            ||| shell is Sh && tag == "sh"@
            ||| shell is PowerShell && tag == "powershell"@
            ||| tag == "worker:"@ + task_safe(id)
            ||| tag == "local"@ && exists|before: Seq<char>, after: Seq<char>|
                lowercase(id) == #[trigger] (before + "local"@ + after)
        },
{
    let lower = lowered_trimmed(given);
    law_fragment_stands_between(lowercase(id), "local"@);
    if lower.contains(tag) {
        let i = choose|i: int| 0 <= i < lower.len() && lower[i] == tag;
        assert(lowercase(trimmed(given[i])) == tag);
    }
    if exists|i: int| 0 <= i < given.len() && lowercase(trimmed(#[trigger] given[i])) == tag {
        let i = choose|i: int|
            0 <= i < given.len() && lowercase(trimmed(#[trigger] given[i])) == tag;
        assert(lower[i] == tag);
    }
}

/// One tag is met just when it is carried, character by character up to the case
/// of ASCII letters.
pub proof fn law_one_tag_is_met(carried: Seq<Seq<char>>, wanted: Seq<char>)
    ensures
        meets(carried, seq![wanted]) <==> exists|j: int|
            {
                &&& 0 <= j < carried.len()
                &&& (#[trigger] carried[j]).len() == wanted.len()
                &&& forall|k: int|
                    0 <= k < wanted.len() ==> ascii_lower(#[trigger] carried[j][k])
                        == ascii_lower(wanted[k])
            },
{
    let b = ascii_lowered(wanted);
    assert forall|j: int| 0 <= j < carried.len() implies (ascii_lowered(#[trigger] carried[j])
        == b) == {
        &&& carried[j].len() == wanted.len()
        &&& forall|k: int|
            0 <= k < wanted.len() ==> ascii_lower(#[trigger] carried[j][k]) == ascii_lower(
                wanted[k],
            )
    } by {
        let a = ascii_lowered(carried[j]);
        if a == b {
            assert(a.len() == b.len());
            assert forall|k: int| 0 <= k < wanted.len() implies ascii_lower(
                #[trigger] carried[j][k],
            ) == ascii_lower(wanted[k]) by {
                assert(a[k] == b[k]);
            }
        }
        if carried[j].len() == wanted.len() && forall|k: int|
            0 <= k < wanted.len() ==> ascii_lower(#[trigger] carried[j][k]) == ascii_lower(
                wanted[k],
            ) {
            assert(a =~= b);
        }
    }
    assert(seq![wanted][0] == wanted);
    assert(meets(carried, seq![wanted]) <==> carries(carried, wanted));
}

/// Several tags are met just when all of them are, in whatever way they are
/// divided; no tags at all are met by every worker.
pub proof fn law_tags_are_met_together(
    carried: Seq<Seq<char>>,
    some: Seq<Seq<char>>,
    others: Seq<Seq<char>>,
)
    ensures
        meets(carried, some + others) <==> meets(carried, some) && meets(carried, others),
        meets(carried, Seq::empty()),
{
    let all = some + others;
    if meets(carried, all) {
        assert forall|i: int| 0 <= i < some.len() implies carries(carried, #[trigger] some[i]) by {
            assert(all[i] == some[i]);
        }
        assert forall|i: int| 0 <= i < others.len() implies carries(
            carried,
            #[trigger] others[i],
        ) by {
            assert(all[some.len() + i] == others[i]);
        }
    }
}

} // verus!
