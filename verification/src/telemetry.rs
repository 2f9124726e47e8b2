//! Which of a machine's sensors measures its processor.

use vstd::prelude::*;

use crate::security::{contains_any, holds_any};
use crate::text::{contains_text, lowercase, lowered, texts, to_lowered};

verus! {

/// The words by which the label of a processor's sensor is known.
pub open spec fn cpu_words() -> Seq<Seq<char>> {
    seq!["cpu"@, "core"@, "tctl"@, "tdie"@]
}

/// Whether a label, given in lower case, is that of a processor's sensor.
pub fn is_cpu_label(lowered_label: &str) -> (cpu: bool)
    ensures
        cpu == holds_any(lowered_label@, cpu_words()),
{
    let words = vec!["cpu".to_owned(), "core".to_owned(), "tctl".to_owned(), "tdie".to_owned()];
    assert(texts(words@) =~= cpu_words());
    contains_any(lowered_label, &words)
}

/// The first of the labels, given in lower case, that is that of a processor's
/// sensor.
pub fn first_cpu_label(lowered_labels: &[String]) -> (at: Option<usize>)
    ensures
        match at {
            Some(at) => {
                &&& at < lowered_labels@.len()
                &&& holds_any(lowered_labels@[at as int]@, cpu_words())
                &&& forall|i: int|
                    0 <= i < at ==> !holds_any(#[trigger] lowered_labels@[i]@, cpu_words())
            },
            None => forall|i: int|
                0 <= i < lowered_labels@.len() ==> !holds_any(
                    #[trigger] lowered_labels@[i]@,
                    cpu_words(),
                ),
        },
{
    let mut i: usize = 0;
    while i < lowered_labels.len()
        invariant
            i <= lowered_labels.len(),
            forall|j: int| 0 <= j < i ==> !holds_any(#[trigger] lowered_labels@[j]@, cpu_words()),
        decreases lowered_labels.len() - i,
    {
        if is_cpu_label(lowered_labels[i].as_str()) {
            return Some(i);
        }
        i = i + 1;
    }
    None
}

/// The first of a machine's sensors that measures its processor, by its label.
pub fn cpu_sensor(labels: &[String]) -> (at: Option<usize>)
    ensures
        match at {
            Some(at) => {
                &&& at < labels@.len()
                &&& holds_any(lowercase(labels@[at as int]@), cpu_words())
                &&& forall|i: int|
                    0 <= i < at ==> !holds_any(lowercase(#[trigger] labels@[i]@), cpu_words())
            },
            None => forall|i: int|
                0 <= i < labels@.len() ==> !holds_any(
                    lowercase(#[trigger] labels@[i]@),
                    cpu_words(),
                ),
        },
{
    let lower = to_lowered(labels);
    assert(texts(lower@).len() == lowered(texts(labels@)).len());
    assert forall|i: int| 0 <= i < labels@.len() implies lower@[i]@ == lowercase(
        #[trigger] labels@[i]@,
    ) by {
        assert(texts(lower@)[i] == lowered(texts(labels@))[i]);
    }
    first_cpu_label(&lower)
}

/// The label of a sensor, in lower case, is that of a processor's just when one
/// of four words stands in it.
pub proof fn law_processor_labels(label: Seq<char>)
    ensures
        holds_any(label, cpu_words()) <==> contains_text(label, "cpu"@) || contains_text(
            label,
            "core"@,
        ) || contains_text(label, "tctl"@) || contains_text(label, "tdie"@),
{
    let words = cpu_words();
    assert(words[0] == "cpu"@ && words[1] == "core"@ && words[2] == "tctl"@ && words[3]
        == "tdie"@);
}

} // verus!
