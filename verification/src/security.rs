//! The command policy: which command lines a node may hand to its shell.
//!
//! A command line is refused when it holds a denied fragment. Otherwise it is
//! admitted when the policy allows unsafe commands, or when each of its
//! segments begins with an allowed command word. Case does not matter.

use vstd::prelude::*;

use crate::splitting::{
    each_ascii_lowered, glued, law_first_piece, law_first_piece_of_each,
    law_fragment_needs_its_characters, law_pieces_around_separator, law_pieces_of_ascii,
    law_pieces_of_concatenation, law_pieces_of_each_ascii, law_pieces_of_each_in_turn,
    law_pieces_of_each_led, law_pieces_of_each_led_by_text, law_pieces_of_each_lowered,
    law_pieces_of_led, law_pieces_of_led_by_text, law_pieces_of_lowered,
    law_whole_text_is_a_piece, law_whole_texts_are_pieces, led, lemma_pieces_of_each_not_empty,
    lemma_pieces_of_one, trailed,
};
use crate::text::{
    ascii_lowered, contains, contains_text, has_prefix, is_ascii_text, is_blank, is_white_space,
    law_blank_texts_are_trimmed_away, law_fragment_stands_between, law_lowered_ascii,
    law_pieces_of_each_are_free, law_pieces_without_separator, law_trimmed_ascii,
    law_trimmed_between_white_space, law_trimming_cuts_white_space_only, lemma_pieces_not_empty,
    lemma_trimmed_one_more, lowercase, lowered, lowered_trimmed, occurs_at, pieces,
    pieces_of_each, slice_texts, split, split_each, starts_with, texts, to_lowered,
    to_lowered_trimmed, trim, trimmed, trimmed_end, trimmed_start,
};

verus! {

/// Why a command line was refused.
#[derive(Debug, Clone)]
pub enum CommandPolicyError {
    /// The command line is blank.
    Empty,
    /// The policy does not admit the command line, which is given trimmed.
    Denied(String),
}

/// The rules that command lines are held to.
#[derive(Debug, Clone)]
pub struct CommandPolicy {
    pub allow_unsafe_commands: bool,
    pub allowed_prefixes: Vec<String>,
    pub denied_fragments: Vec<String>,
}

impl CommandPolicyError {
    /// The text that a user is shown.
    pub open spec fn text(&self) -> Seq<char> {
        match *self {
            CommandPolicyError::Empty => "comando vazio"@,
            CommandPolicyError::Denied(command) => {
                "comando bloqueado pela política de segurança: "@ + command@
            },
        }
    }

    /// The text that a user is shown.
    pub fn message(&self) -> (text: String)
        ensures
            text@ == self.text(),
    {
        match self {
            CommandPolicyError::Empty => "comando vazio".to_owned(),
            CommandPolicyError::Denied(command) => {
                "comando bloqueado pela política de segurança: ".to_owned().concat(
                    command.as_str(),
                )
            },
        }
    }
}

/// The command words that are allowed unless a configuration says otherwise.
pub open spec fn default_prefixes() -> Seq<Seq<char>> {
    seq![
        "hostname"@,
        "uptime"@,
        "uname"@,
        "free"@,
        "df"@,
        "nproc"@,
        "lscpu"@,
        "echo"@,
        "seq"@,
        "sleep"@,
        "sensors"@,
        "ip"@,
        "ping"@,
        "whoami"@,
        "date"@,
        "get-date"@,
    ]
}

/// The fragments that no command line may hold.
pub open spec fn default_fragments() -> Seq<Seq<char>> {
    seq![
        "rm -rf"@,
        "mkfs"@,
        "dd if="@,
        "shutdown"@,
        "reboot"@,
        "curl"@,
        "wget"@,
        "chmod 777"@,
        "chown"@,
        "useradd"@,
        "passwd"@,
        ":(){"@,
    ]
}

impl Default for CommandPolicy {
    fn default() -> (policy: Self)
        ensures
            policy.is_default(),
    {
        let policy = CommandPolicy {
            allow_unsafe_commands: false,
            allowed_prefixes: vec![
                "hostname".to_owned(),
                "uptime".to_owned(),
                "uname".to_owned(),
                "free".to_owned(),
                "df".to_owned(),
                "nproc".to_owned(),
                "lscpu".to_owned(),
                "echo".to_owned(),
                "seq".to_owned(),
                "sleep".to_owned(),
                "sensors".to_owned(),
                "ip".to_owned(),
                "ping".to_owned(),
                "whoami".to_owned(),
                "date".to_owned(),
                "get-date".to_owned(),
            ],
            denied_fragments: vec![
                "rm -rf".to_owned(),
                "mkfs".to_owned(),
                "dd if=".to_owned(),
                "shutdown".to_owned(),
                "reboot".to_owned(),
                "curl".to_owned(),
                "wget".to_owned(),
                "chmod 777".to_owned(),
                "chown".to_owned(),
                "useradd".to_owned(),
                "passwd".to_owned(),
                ":(){".to_owned(),
            ],
        };
        assert(texts(policy.allowed_prefixes@) =~= default_prefixes());
        assert(texts(policy.denied_fragments@) =~= default_fragments());
        policy
    }
}

impl CommandPolicy {
    /// Whether the policy is the default one.
    pub open spec fn is_default(&self) -> bool {
        &&& !self.allow_unsafe_commands
        &&& texts(self.allowed_prefixes@) == default_prefixes()
        &&& texts(self.denied_fragments@) == default_fragments()
    }
}

/// The segments of a command line: what stands between line breaks, `;`, `&&`
/// and `||`, in this order of splitting.
pub open spec fn segments(command: Seq<char>) -> Seq<Seq<char>> {
    pieces_of_each(
        pieces_of_each(pieces_of_each(pieces(command, seq!['\n']), seq![';']), seq!['&', '&']),
        seq!['|', '|'],
    )
}

/// Splits a command line into its segments.
pub fn command_segments<'a>(command: &'a str) -> (parts: Vec<&'a str>)
    ensures
        slice_texts(parts@) == segments(command@),
{
    proof {
        reveal_strlit("\n");
        reveal_strlit(";");
        reveal_strlit("&&");
        reveal_strlit("||");
        assert("\n"@ == seq!['\n']);
        assert(";"@ == seq![';']);
        assert("&&"@ == seq!['&', '&']);
        assert("||"@ == seq!['|', '|']);
    }
    let lines = split(command, "\n");
    let statements = split_each(&lines, ";");
    let conjuncts = split_each(&statements, "&&");
    split_each(&conjuncts, "||")
}

/// Whether `s` holds one of `fragments`.
pub open spec fn holds_any(s: Seq<char>, fragments: Seq<Seq<char>>) -> bool {
    exists|i: int| 0 <= i < fragments.len() && contains_text(s, #[trigger] fragments[i])
}

/// Whether a command word admits a segment: the segment is the word, or the
/// word followed by white space. The empty word admits nothing.
pub open spec fn word_admits(word: Seq<char>, segment: Seq<char>) -> bool {
    &&& word.len() > 0
    &&& has_prefix(segment, word)
    &&& segment.len() > word.len() ==> is_white_space(segment[word.len() as int])
}

/// Whether a segment is blank or admitted by one of `words`.
pub open spec fn segment_admitted(segment: Seq<char>, words: Seq<Seq<char>>) -> bool {
    segment.len() == 0 || exists|i: int|
        0 <= i < words.len() && word_admits(#[trigger] words[i], segment)
}

/// The rule on a command line that is not blank, all texts being given in
/// lower case, segments and words trimmed as well.
pub open spec fn rule_admits(
    command: Seq<char>,
    fragments: Seq<Seq<char>>,
    allow_unsafe: bool,
    segments: Seq<Seq<char>>,
    words: Seq<Seq<char>>,
) -> bool {
    &&& !holds_any(command, fragments)
    &&& allow_unsafe || forall|i: int|
        0 <= i < segments.len() ==> segment_admitted(#[trigger] segments[i], words)
}

/// Whether `s` holds one of `fragments`.
pub fn contains_any(s: &str, fragments: &[String]) -> (found: bool)
    ensures
        found == holds_any(s@, texts(fragments@)),
{
    let mut i: usize = 0;
    while i < fragments.len()
        invariant
            i <= fragments.len(),
            forall|j: int| 0 <= j < i ==> !contains_text(s@, #[trigger] texts(fragments@)[j]),
        decreases fragments.len() - i,
    {
        if contains(s, fragments[i].as_str()) {
            assert(contains_text(s@, texts(fragments@)[i as int]));
            return true;
        }
        i = i + 1;
    }
    false
}

/// Whether a segment is blank or admitted by one of `words`, all of them given
/// trimmed and in lower case.
pub fn lowered_segment_is_allowed(segment: &str, words: &[String]) -> (allowed: bool)
    ensures
        allowed == segment_admitted(segment@, texts(words@)),
{
    if segment.is_empty() {
        return true;
    }
    let length = segment.unicode_len();
    let mut i: usize = 0;
    while i < words.len()
        invariant
            length == segment@.len(),
            i <= words.len(),
            forall|j: int| 0 <= j < i ==> !word_admits(#[trigger] texts(words@)[j], segment@),
        decreases words.len() - i,
    {
        let word = words[i].as_str();
        assert(word@ == texts(words@)[i as int]);
        if !word.is_empty() && starts_with(segment, word) {
            let end = word.unicode_len();
            if length == end || segment.get_char(end).is_whitespace() {
                assert(word_admits(texts(words@)[i as int], segment@));
                return true;
            }
        }
        i = i + 1;
    }
    false
}

/// Decides on a command line that is not blank. `command` is the command line
/// itself, trimmed; the other texts are in lower case, `segments` and `words`
/// trimmed as well.
pub fn judge_lowered(
    command: &str,
    lowered: &str,
    fragments: &[String],
    allow_unsafe: bool,
    segments: &[String],
    words: &[String],
) -> (verdict: Result<(), CommandPolicyError>)
    ensures
        match verdict {
            Ok(()) => rule_admits(
                lowered@,
                texts(fragments@),
                allow_unsafe,
                texts(segments@),
                texts(words@),
            ),
            Err(CommandPolicyError::Denied(text)) => text@ == command@ && !rule_admits(
                lowered@,
                texts(fragments@),
                allow_unsafe,
                texts(segments@),
                texts(words@),
            ),
            Err(CommandPolicyError::Empty) => false,
        },
{
    if contains_any(lowered, fragments) {
        return Err(CommandPolicyError::Denied(command.to_owned()));
    }
    if allow_unsafe {
        return Ok(());
    }
    let mut i: usize = 0;
    while i < segments.len()
        invariant
            i <= segments.len(),
            !allow_unsafe,
            forall|j: int|
                0 <= j < i ==> segment_admitted(#[trigger] texts(segments@)[j], texts(words@)),
        decreases segments.len() - i,
    {
        if !lowered_segment_is_allowed(segments[i].as_str(), words) {
            assert(!segment_admitted(texts(segments@)[i as int], texts(words@)));
            return Err(CommandPolicyError::Denied(command.to_owned()));
        }
        i = i + 1;
    }
    Ok(())
}

impl CommandPolicy {
    /// Whether the policy admits a segment of a command line.
    pub open spec fn admits_segment(&self, segment: Seq<char>) -> bool {
        segment_admitted(
            lowercase(trimmed(segment)),
            lowered_trimmed(texts(self.allowed_prefixes@)),
        )
    }

    /// Whether the policy admits each of several segments.
    pub open spec fn admits_all(&self, parts: Seq<Seq<char>>) -> bool {
        forall|i: int| 0 <= i < parts.len() ==> self.admits_segment(#[trigger] parts[i])
    }

    /// Whether a command line holds a fragment that the policy denies.
    pub open spec fn denies(&self, command: Seq<char>) -> bool {
        holds_any(lowercase(trimmed(command)), lowered(texts(self.denied_fragments@)))
    }

    /// Whether the policy admits a command line.
    pub open spec fn admits(&self, command: Seq<char>) -> bool {
        &&& trimmed(command).len() > 0
        &&& !self.denies(command)
        &&& self.allow_unsafe_commands || self.admits_all(segments(trimmed(command)))
    }

    /// Whether `verdict` is the policy's answer to a command line.
    pub open spec fn answers(
        &self,
        command: Seq<char>,
        verdict: Result<(), CommandPolicyError>,
    ) -> bool {
        match verdict {
            Ok(()) => self.admits(command),
            Err(CommandPolicyError::Empty) => trimmed(command).len() == 0,
            Err(CommandPolicyError::Denied(text)) => {
                &&& trimmed(command).len() > 0
                &&& !self.admits(command)
                &&& text@ == trimmed(command)
            },
        }
    }

    /// Holds a command line to the policy.
    pub fn validate(&self, command: &str) -> (verdict: Result<(), CommandPolicyError>)
        ensures
            self.answers(command@, verdict),
    {
        let command = trim(command);
        if command.is_empty() {
            return Err(CommandPolicyError::Empty);
        }
        let lower = command.to_lowercase();
        let fragments = to_lowered(&self.denied_fragments);
        let words = to_lowered_trimmed(&self.allowed_prefixes);
        let parts = command_segments(command);
        let mut lower_parts: Vec<String> = Vec::new();
        let mut i: usize = 0;
        while i < parts.len()
            invariant
                i <= parts.len(),
                texts(lower_parts@) == lowered_trimmed(slice_texts(parts@)).take(i as int),
            decreases parts.len() - i,
        {
            let ghost all = lowered_trimmed(slice_texts(parts@));
            let ghost before = texts(lower_parts@);
            lower_parts.push(trim(parts[i]).to_lowercase());
            assert(texts(lower_parts@) =~= before.push(all[i as int]));
            assert(all.take(i + 1) =~= all.take(i as int).push(all[i as int]));
            i = i + 1;
        }
        let verdict = judge_lowered(
            command,
            lower.as_str(),
            &fragments,
            self.allow_unsafe_commands,
            &lower_parts,
            &words,
        );
        proof {
            let all = segments(command@);
            let lower_all = lowered_trimmed(all);
            assert(texts(lower_parts@) =~= lower_all);
            let words = texts(words@);
            if forall|i: int| 0 <= i < all.len() ==> self.admits_segment(#[trigger] all[i]) {
                assert forall|i: int| 0 <= i < lower_all.len() implies segment_admitted(
                    #[trigger] lower_all[i],
                    words,
                ) by {
                    assert(self.admits_segment(all[i]));
                }
            }
            if forall|i: int| 0 <= i < lower_all.len() ==> segment_admitted(
                #[trigger] lower_all[i],
                words,
            ) {
                assert forall|i: int| 0 <= i < all.len() implies self.admits_segment(
                    #[trigger] all[i],
                ) by {
                    assert(segment_admitted(lower_all[i], words));
                }
            }
        }
        verdict
    }

    /// Whether the policy admits a segment of a command line.
    pub fn segment_is_allowed(&self, segment: &str) -> (allowed: bool)
        ensures
            allowed == self.admits_segment(segment@),
    {
        let lower = trim(segment).to_lowercase();
        let words = to_lowered_trimmed(&self.allowed_prefixes);
        lowered_segment_is_allowed(lower.as_str(), &words)
    }
}

/// Whether a process with the given effective user id runs as root. Platforms
/// without user ids have none to give.
pub fn is_root(effective_user_id: Option<u32>) -> (root: bool)
    ensures
        root == (effective_user_id == Some(0u32)),
{
    match effective_user_id {
        Some(id) => id == 0,
        None => false,
    }
}

/// Whether a text separates the segments of a command line.
pub open spec fn is_separator(s: Seq<char>) -> bool {
    s == seq!['\n'] || s == seq![';'] || s == seq!['&', '&'] || s == seq!['|', '|']
}

/// No segment hides another: none holds a separator.
pub proof fn law_segments_hold_no_separator(command: Seq<char>, i: int, separator: Seq<char>)
    requires
        0 <= i < segments(command).len(),
        is_separator(separator),
    ensures
        !contains_text(segments(command)[i], separator),
{
    let lines = pieces(command, seq!['\n']);
    let statements = pieces_of_each(lines, seq![';']);
    let conjuncts = pieces_of_each(statements, seq!['&', '&']);
    if separator == seq!['\n'] {
        assert forall|k: int| 0 <= k < lines.len() implies !contains_text(
            #[trigger] lines[k],
            separator,
        ) by {
            law_pieces_without_separator(command, separator, k);
        }
    }
    if separator == seq!['\n'] || separator == seq![';'] {
        assert forall|k: int| 0 <= k < statements.len() implies !contains_text(
            #[trigger] statements[k],
            separator,
        ) by {
            law_pieces_of_each_are_free(lines, seq![';'], separator, k);
        }
    }
    if separator != seq!['|', '|'] {
        assert forall|k: int| 0 <= k < conjuncts.len() implies !contains_text(
            #[trigger] conjuncts[k],
            separator,
        ) by {
            law_pieces_of_each_are_free(statements, seq!['&', '&'], separator, k);
        }
    }
    law_pieces_of_each_are_free(conjuncts, seq!['|', '|'], separator, i);
}

/// A denied fragment is final: no policy with the same denied fragments admits
/// the command line, whatever else it allows.
pub proof fn law_denied_fragment_is_final(
    policy: CommandPolicy,
    other: CommandPolicy,
    command: Seq<char>,
)
    requires
        policy.denies(command),
        texts(other.denied_fragments@) == texts(policy.denied_fragments@),
    ensures
        !other.admits(command),
{
}

/// A policy that allows unsafe commands admits whatever is neither blank nor
/// denied.
pub proof fn law_unsafe_policy_admits_the_rest(policy: CommandPolicy, command: Seq<char>)
    requires
        policy.allow_unsafe_commands,
    ensures
        policy.admits(command) <==> trimmed(command).len() > 0 && !policy.denies(command),
{
}

/// A policy that does not allow unsafe commands admits a command line only if
/// it admits each of its segments.
pub proof fn law_every_segment_is_held_to_the_policy(
    policy: CommandPolicy,
    command: Seq<char>,
    i: int,
)
    requires
        !policy.allow_unsafe_commands,
        policy.admits(command),
        0 <= i < segments(trimmed(command)).len(),
    ensures
        policy.admits_segment(segments(trimmed(command))[i]),
{
}

/// A policy with fewer denied fragments, with more allowed words, or with
/// unsafe commands allowed admits no fewer command lines.
pub proof fn law_laxer_policy_admits_more(
    strict: CommandPolicy,
    lax: CommandPolicy,
    command: Seq<char>,
)
    requires
        strict.admits(command),
        strict.allow_unsafe_commands ==> lax.allow_unsafe_commands,
        forall|t: Seq<char>| #[trigger]
            texts(lax.denied_fragments@).contains(t) ==> texts(strict.denied_fragments@).contains(
                t,
            ),
        forall|t: Seq<char>| #[trigger]
            texts(strict.allowed_prefixes@).contains(t) ==> texts(lax.allowed_prefixes@).contains(
                t,
            ),
    ensures
        lax.admits(command),
{
    let strict_fragments = texts(strict.denied_fragments@);
    let lax_fragments = texts(lax.denied_fragments@);
    let strict_words = texts(strict.allowed_prefixes@);
    let lax_words = texts(lax.allowed_prefixes@);
    if lax.denies(command) {
        let i = choose|i: int|
            0 <= i < lax_fragments.len() && contains_text(
                lowercase(trimmed(command)),
                #[trigger] lowered(lax_fragments)[i],
            );
        assert(lax_fragments.contains(lax_fragments[i]));
        let j = choose|j: int|
            0 <= j < strict_fragments.len() && strict_fragments[j] == lax_fragments[i];
        assert(contains_text(lowercase(trimmed(command)), lowered(strict_fragments)[j]));
    }
    if !lax.allow_unsafe_commands {
        let all = segments(trimmed(command));
        assert forall|k: int| 0 <= k < all.len() implies lax.admits_segment(#[trigger] all[k]) by {
            let segment = lowercase(trimmed(all[k]));
            assert(strict.admits_segment(all[k]));
            if segment.len() > 0 {
                let i = choose|i: int|
                    0 <= i < strict_words.len() && word_admits(
                        #[trigger] lowered_trimmed(strict_words)[i],
                        segment,
                    );
                assert(strict_words.contains(strict_words[i]));
                let j = choose|j: int| 0 <= j < lax_words.len() && lax_words[j] == strict_words[i];
                assert(word_admits(lowered_trimmed(lax_words)[j], segment));
            }
        }
    }
}

/// A word admits no longer word that merely begins with it.
pub proof fn law_word_is_not_smuggled(word: Seq<char>, segment: Seq<char>)
    requires
        segment.len() > word.len(),
        !is_white_space(segment[word.len() as int]),
    ensures
        !word_admits(word, segment),
{
}

/// Blank words admit nothing: a segment that is not blank needs a word that is
/// not.
pub proof fn law_blank_words_admit_nothing(segment: Seq<char>, words: Seq<Seq<char>>)
    requires
        segment.len() > 0,
        forall|i: int| 0 <= i < words.len() ==> (#[trigger] words[i]).len() == 0,
    ensures
        !segment_admitted(segment, words),
{
}

/// White space around a command line does not matter: the policy gives the same
/// answer, down to the text of a denial.
pub proof fn law_surrounding_space_does_not_matter(
    policy: CommandPolicy,
    before: Seq<char>,
    command: Seq<char>,
    after: Seq<char>,
)
    requires
        is_blank(before),
        is_blank(after),
    ensures
        trimmed(before + command + after) == trimmed(command),
        policy.admits(before + command + after) == policy.admits(command),
        policy.denies(before + command + after) == policy.denies(command),
        forall|verdict: Result<(), CommandPolicyError>| #[trigger]
            policy.answers(before + command + after, verdict) == policy.answers(command, verdict),
{
    law_trimmed_between_white_space(before, command, after);
}

/// A line break or a semicolon between two command lines keeps their segments
/// apart.
pub proof fn law_segments_around_separator(a: Seq<char>, b: Seq<char>, separator: char)
    requires
        separator == '\n' || separator == ';',
    ensures
        segments(a + seq![separator] + b) == segments(a) + segments(b),
{
    let whole = a + seq![separator] + b;
    let front = pieces(a, seq!['\n']);
    let back = pieces(b, seq!['\n']);
    if separator == '\n' {
        law_pieces_around_separator(a, b, '\n');
        law_pieces_of_each_in_turn(front, back, seq![';']);
    } else {
        let mark = seq![';'];
        lemma_pieces_not_empty(a, seq!['\n']);
        lemma_pieces_not_empty(b, seq!['\n']);
        assert(!mark.contains('\n'));
        assert(seq!['\n'][0] == '\n');
        law_fragment_needs_its_characters(mark, seq!['\n'], 0);
        law_whole_text_is_a_piece(mark, seq!['\n']);
        law_pieces_of_concatenation(a, mark, '\n');
        law_pieces_of_concatenation(a + mark, b, '\n');
        let meeting = front.last() + mark + back[0];
        assert(glued(glued(front, seq![mark]), back) =~= front.drop_last() + seq![meeting]
            + back.drop_first());
        law_pieces_around_separator(front.last(), back[0], ';');
        law_pieces_of_each_in_turn(
            front.drop_last() + seq![meeting],
            back.drop_first(),
            mark,
        );
        assert((front.drop_last() + seq![meeting]).drop_last() =~= front.drop_last());
        law_pieces_of_each_in_turn(seq![back[0]], back.drop_first(), mark);
        assert(seq![back[0]] + back.drop_first() =~= back);
        lemma_pieces_of_one(back[0], mark);
        assert(pieces_of_each(pieces(whole, seq!['\n']), mark) =~= pieces_of_each(front, mark)
            + pieces_of_each(back, mark));
    }
    let front = pieces_of_each(front, seq![';']);
    let back = pieces_of_each(back, seq![';']);
    law_pieces_of_each_in_turn(front, back, seq!['&', '&']);
    law_pieces_of_each_in_turn(
        pieces_of_each(front, seq!['&', '&']),
        pieces_of_each(back, seq!['&', '&']),
        seq!['|', '|'],
    );
}

/// The only segment of the empty command line is empty.
proof fn lemma_segments_of_empty()
    ensures
        segments(Seq::empty()) == seq![Seq::<char>::empty()],
{
    let empty = Seq::<char>::empty();
    assert(pieces(empty, seq!['\n']) == seq![empty]);
    lemma_pieces_of_one(empty, seq![';']);
    assert(pieces(empty, seq![';']) == seq![empty]);
    lemma_pieces_of_one(empty, seq!['&', '&']);
    assert(pieces(empty, seq!['&', '&']) == seq![empty]);
    lemma_pieces_of_one(empty, seq!['|', '|']);
    assert(pieces(empty, seq!['|', '|']) == seq![empty]);
}

/// A white space character other than a line break, at either end of a command
/// line, goes to the first or the last segment.
proof fn lemma_segments_led(command: Seq<char>, c: char)
    requires
        is_white_space(c),
        c != '\n',
    ensures
        segments(command).len() > 0,
        segments(seq![c] + command) == led(segments(command), c),
        segments(command.push(c)) == trailed(segments(command), c),
{
    let lines = pieces(command, seq!['\n']);
    let statements = pieces_of_each(lines, seq![';']);
    let conjuncts = pieces_of_each(statements, seq!['&', '&']);
    lemma_pieces_not_empty(command, seq!['\n']);
    lemma_pieces_of_each_not_empty(lines, seq![';']);
    lemma_pieces_of_each_not_empty(statements, seq!['&', '&']);
    lemma_pieces_of_each_not_empty(conjuncts, seq!['|', '|']);
    law_pieces_of_led(command, seq!['\n'], c);
    law_pieces_of_each_led(lines, seq![';'], c);
    law_pieces_of_each_led(statements, seq!['&', '&'], c);
    law_pieces_of_each_led(conjuncts, seq!['|', '|'], c);
}

/// White space at either end of a command line does not matter to whether the
/// segments are admitted.
proof fn lemma_segments_one_more(policy: CommandPolicy, command: Seq<char>, c: char)
    requires
        is_white_space(c),
    ensures
        policy.admits_all(segments(seq![c] + command)) == policy.admits_all(segments(command)),
        policy.admits_all(segments(command.push(c))) == policy.admits_all(segments(command)),
{
    let parts = segments(command);
    let empty = Seq::<char>::empty();
    if c == '\n' {
        assert(empty + seq![c] + command =~= seq![c] + command);
        assert(command + seq![c] + empty =~= command.push(c));
        law_segments_around_separator(empty, command, c);
        law_segments_around_separator(command, empty, c);
        lemma_segments_of_empty();
        lemma_blank_segment(policy, empty);
        lemma_admits_all_in_turn(policy, seq![empty], parts);
        lemma_admits_all_in_turn(policy, parts, seq![empty]);
    } else {
        lemma_segments_led(command, c);
        lemma_trimmed_one_more(parts[0], c);
        lemma_trimmed_one_more(parts.last(), c);
        lemma_admits_all_alike(policy, led(parts, c), parts);
        lemma_admits_all_alike(policy, trailed(parts, c), parts);
    }
}

proof fn lemma_blank_segment(policy: CommandPolicy, segment: Seq<char>)
    requires
        is_blank(segment),
    ensures
        policy.admits_segment(segment),
{
    law_blank_texts_are_trimmed_away(segment);
    law_lowered_ascii(trimmed(segment));
}

proof fn lemma_admits_all_in_turn(policy: CommandPolicy, p: Seq<Seq<char>>, q: Seq<Seq<char>>)
    ensures
        policy.admits_all(p + q) <==> policy.admits_all(p) && policy.admits_all(q),
{
    if policy.admits_all(p + q) {
        assert forall|i: int| 0 <= i < p.len() implies policy.admits_segment(#[trigger] p[i]) by {
            assert(p[i] == (p + q)[i]);
        }
        assert forall|i: int| 0 <= i < q.len() implies policy.admits_segment(#[trigger] q[i]) by {
            assert(q[i] == (p + q)[p.len() + i]);
        }
    }
}

proof fn lemma_admits_all_alike(policy: CommandPolicy, p: Seq<Seq<char>>, q: Seq<Seq<char>>)
    requires
        p.len() == q.len(),
        forall|i: int|
            0 <= i < p.len() ==> trimmed(#[trigger] p[i]) == trimmed(q[i]),
    ensures
        policy.admits_all(p) == policy.admits_all(q),
{
    assert forall|i: int| 0 <= i < p.len() implies policy.admits_segment(#[trigger] p[i])
        == policy.admits_segment(q[i]) by {}
    if policy.admits_all(p) {
        assert forall|i: int| 0 <= i < q.len() implies policy.admits_segment(#[trigger] q[i]) by {
            assert(policy.admits_segment(p[i]));
        }
    }
}

/// The policy admits the segments of a command line just as it admits those of
/// the command line trimmed.
pub proof fn law_trimming_spares_the_segments(policy: CommandPolicy, command: Seq<char>)
    ensures
        policy.admits_all(segments(trimmed(command))) == policy.admits_all(segments(command)),
{
    lemma_leading_space(policy, command);
    lemma_trailing_space(policy, trimmed_start(command));
}

proof fn lemma_leading_space(policy: CommandPolicy, command: Seq<char>)
    ensures
        policy.admits_all(segments(trimmed_start(command))) == policy.admits_all(
            segments(command),
        ),
    decreases command.len(),
{
    if command.len() > 0 && is_white_space(command[0]) {
        let rest = command.drop_first();
        assert(seq![command[0]] + rest =~= command);
        lemma_segments_one_more(policy, rest, command[0]);
        lemma_leading_space(policy, rest);
    }
}

proof fn lemma_trailing_space(policy: CommandPolicy, command: Seq<char>)
    ensures
        policy.admits_all(segments(trimmed_end(command))) == policy.admits_all(segments(command)),
    decreases command.len(),
{
    if command.len() > 0 && is_white_space(command.last()) {
        let rest = command.drop_last();
        assert(rest.push(command.last()) =~= command);
        lemma_segments_one_more(policy, rest, command.last());
        lemma_trailing_space(policy, rest);
    }
}

/// A command line made of two with a semicolon between them is held to the
/// policy part by part: the policy admits it just when it holds no denied
/// fragment and each part is blank, or has only segments that are admitted.
/// Where nothing is denied, each part is blank or itself admitted.
pub proof fn law_compound_command(policy: CommandPolicy, a: Seq<char>, b: Seq<char>)
    requires
        !policy.allow_unsafe_commands,
    ensures
        policy.admits(a + seq![';'] + b) <==> !policy.denies(a + seq![';'] + b)
            && policy.admits_all(segments(a)) && policy.admits_all(segments(b)),
        policy.denied_fragments@.len() == 0 ==> (policy.admits(a + seq![';'] + b) <==> (is_blank(a)
            || policy.admits(a)) && (is_blank(b) || policy.admits(b))),
{
    let whole = a + seq![';'] + b;
    assert(whole[a.len() as int] == ';');
    law_blank_texts_are_trimmed_away(whole);
    law_trimming_spares_the_segments(policy, whole);
    law_segments_around_separator(a, b, ';');
    lemma_admits_all_in_turn(policy, segments(a), segments(b));
    lemma_part_of_command(policy, a);
    lemma_part_of_command(policy, b);
}

proof fn lemma_part_of_command(policy: CommandPolicy, part: Seq<char>)
    requires
        !policy.allow_unsafe_commands,
    ensures
        policy.denied_fragments@.len() == 0 ==> (policy.admits_all(segments(part)) <==> is_blank(
            part,
        ) || policy.admits(part)),
{
    law_blank_texts_are_trimmed_away(part);
    law_trimming_spares_the_segments(policy, part);
    if is_blank(part) {
        assert(trimmed(part) =~= Seq::empty());
        lemma_segments_of_empty();
        lemma_blank_segment(policy, Seq::empty());
    }
}

/// The segments of an ASCII command line are ASCII text, and the case of letters
/// does not matter to where they end.
pub proof fn law_segments_of_ascii(command: Seq<char>)
    ensures
        segments(ascii_lowered(command)) == each_ascii_lowered(segments(command)),
        is_ascii_text(command) ==> forall|i: int|
            0 <= i < segments(command).len() ==> is_ascii_text(#[trigger] segments(command)[i]),
{
    let lines = pieces(command, seq!['\n']);
    let statements = pieces_of_each(lines, seq![';']);
    let conjuncts = pieces_of_each(statements, seq!['&', '&']);
    law_pieces_of_lowered(command, seq!['\n']);
    law_pieces_of_each_lowered(lines, seq![';']);
    law_pieces_of_each_lowered(statements, seq!['&', '&']);
    law_pieces_of_each_lowered(conjuncts, seq!['|', '|']);
    if is_ascii_text(command) {
        assert forall|i: int| 0 <= i < lines.len() implies is_ascii_text(#[trigger] lines[i]) by {
            law_pieces_of_ascii(command, seq!['\n'], i);
        }
        assert forall|i: int| 0 <= i < statements.len() implies is_ascii_text(
            #[trigger] statements[i],
        ) by {
            law_pieces_of_each_ascii(lines, seq![';'], i);
        }
        assert forall|i: int| 0 <= i < conjuncts.len() implies is_ascii_text(
            #[trigger] conjuncts[i],
        ) by {
            law_pieces_of_each_ascii(statements, seq!['&', '&'], i);
        }
        assert forall|i: int| 0 <= i < segments(command).len() implies is_ascii_text(
            #[trigger] segments(command)[i],
        ) by {
            law_pieces_of_each_ascii(conjuncts, seq!['|', '|'], i);
        }
    }
}

/// A policy sees command lines in lower case only: of two that are the same in
/// lower case, trimmed and segment by segment, it admits both or neither.
pub proof fn law_only_lower_case_matters(
    policy: CommandPolicy,
    command: Seq<char>,
    other: Seq<char>,
)
    requires
        is_blank(other) == is_blank(command),
        lowercase(trimmed(other)) == lowercase(trimmed(command)),
        lowered_trimmed(segments(trimmed(other))) == lowered_trimmed(segments(trimmed(command))),
    ensures
        policy.admits(other) == policy.admits(command),
        policy.denies(other) == policy.denies(command),
{
    law_blank_texts_are_trimmed_away(command);
    law_blank_texts_are_trimmed_away(other);
    lemma_admits_all_by_lower_case(
        policy,
        segments(trimmed(other)),
        segments(trimmed(command)),
    );
    lemma_admits_all_by_lower_case(
        policy,
        segments(trimmed(command)),
        segments(trimmed(other)),
    );
}

proof fn lemma_admits_all_by_lower_case(
    policy: CommandPolicy,
    p: Seq<Seq<char>>,
    q: Seq<Seq<char>>,
)
    requires
        lowered_trimmed(p) == lowered_trimmed(q),
    ensures
        policy.admits_all(p) ==> policy.admits_all(q),
{
    if policy.admits_all(p) {
        assert(lowered_trimmed(p).len() == p.len() && lowered_trimmed(q).len() == q.len());
        assert forall|i: int| 0 <= i < q.len() implies policy.admits_segment(#[trigger] q[i]) by {
            assert(policy.admits_segment(p[i]));
            assert(lowered_trimmed(p)[i] == lowered_trimmed(q)[i]);
        }
    }
}

proof fn lemma_lowered_command(policy: CommandPolicy, command: Seq<char>)
    requires
        is_ascii_text(command),
    ensures
        policy.admits(ascii_lowered(command)) == policy.admits(command),
        policy.denies(ascii_lowered(command)) == policy.denies(command),
{
    let lower = ascii_lowered(command);
    let plain = trimmed(command);
    law_trimmed_ascii(command);
    law_lowered_ascii(plain);
    law_segments_of_ascii(plain);
    law_blank_texts_are_trimmed_away(command);
    law_blank_texts_are_trimmed_away(lower);
    let parts = segments(plain);
    let lower_parts = segments(trimmed(lower));
    assert forall|i: int| 0 <= i < parts.len() implies lowercase(trimmed(#[trigger] lower_parts[i]))
        == lowercase(trimmed(parts[i])) by {
        assert(is_ascii_text(parts[i]));
        assert(lower_parts[i] == ascii_lowered(parts[i]));
        law_trimmed_ascii(parts[i]);
        law_lowered_ascii(trimmed(parts[i]));
    }
    assert(lowered_trimmed(lower_parts) =~= lowered_trimmed(parts));
    law_only_lower_case_matters(policy, command, lower);
}

/// The case of letters in an ASCII command line does not matter: a policy admits
/// both of two command lines that differ in nothing else, or neither.
pub proof fn law_ascii_case_does_not_matter(
    policy: CommandPolicy,
    command: Seq<char>,
    other: Seq<char>,
)
    requires
        is_ascii_text(command),
        ascii_lowered(other) == ascii_lowered(command),
    ensures
        policy.admits(other) == policy.admits(command),
        policy.denies(other) == policy.denies(command),
{
    law_lowered_ascii(command);
    law_lowered_ascii(other);
    lemma_lowered_command(policy, command);
    lemma_lowered_command(policy, other);
}

/// What it takes for a segment that is not empty to be admitted, character by
/// character: it begins with all of an allowed word that is not empty, and ends
/// there or goes on with white space.
pub proof fn law_admitted_segment_begins_with_a_word(segment: Seq<char>, words: Seq<Seq<char>>)
    ensures
        segment_admitted(segment, words) <==> segment.len() == 0 || exists|j: int|
            {
                &&& 0 <= j < words.len()
                &&& 0 < (#[trigger] words[j]).len() <= segment.len()
                &&& forall|k: int| 0 <= k < words[j].len() ==> segment[k] == words[j][k]
                &&& segment.len() == words[j].len() || is_white_space(
                    segment[words[j].len() as int],
                )
            },
{
    assert forall|j: int| 0 <= j < words.len() implies word_admits(#[trigger] words[j], segment)
        == {
        &&& 0 < words[j].len() <= segment.len()
        &&& forall|k: int| 0 <= k < words[j].len() ==> segment[k] == words[j][k]
        &&& segment.len() == words[j].len() || is_white_space(segment[words[j].len() as int])
    } by {
        let word = words[j];
        if has_prefix(segment, word) {
            let front = segment.subrange(0, word.len() as int);
            assert(front == word);
            assert forall|k: int| 0 <= k < word.len() implies segment[k] == word[k] by {
                assert(front[k] == segment[k]);
            }
        }
        if word.len() <= segment.len() && forall|k: int|
            0 <= k < word.len() ==> segment[k] == word[k] {
            assert(segment.subrange(0, word.len() as int) =~= word);
        }
    }
}

/// The first token of a segment decides, where the allowed words are single
/// tokens: the segment is admitted just when that token is one of the words.
pub proof fn law_first_token_decides(segment: Seq<char>, words: Seq<Seq<char>>, end: int)
    requires
        0 < end <= segment.len(),
        forall|k: int| 0 <= k < end ==> !is_white_space(#[trigger] segment[k]),
        end < segment.len() ==> is_white_space(segment[end]),
        forall|j: int, k: int|
            0 <= j < words.len() && 0 <= k < words[j].len() ==> !is_white_space(
                #[trigger] words[j][k],
            ),
    ensures
        segment_admitted(segment, words) <==> words.contains(segment.take(end)),
{
    law_admitted_segment_begins_with_a_word(segment, words);
    let token = segment.take(end);
    if segment_admitted(segment, words) {
        let j = choose|j: int|
            {
                &&& 0 <= j < words.len()
                &&& 0 < (#[trigger] words[j]).len() <= segment.len()
                &&& forall|k: int| 0 <= k < words[j].len() ==> segment[k] == words[j][k]
                &&& segment.len() == words[j].len() || is_white_space(
                    segment[words[j].len() as int],
                )
            };
        let length = words[j].len() as int;
        if length > end {
            assert(segment[end] == words[j][end]);
        }
        if length < end {
            assert(!is_white_space(segment[length]));
        }
        assert(words[j] =~= token);
    }
    if words.contains(token) {
        let j = choose|j: int| 0 <= j < words.len() && words[j] == token;
        assert forall|k: int| 0 <= k < words[j].len() implies segment[k] == words[j][k] by {
            assert(token[k] == segment[k]);
        }
    }
}

/// A text holds one of several fragments just when it is something, then one of
/// them, then something.
pub proof fn law_held_fragment_stands_between(s: Seq<char>, fragments: Seq<Seq<char>>)
    ensures
        holds_any(s, fragments) <==> exists|i: int, before: Seq<char>, after: Seq<char>|
            0 <= i < fragments.len() && s == #[trigger] (before + fragments[i] + after),
{
    if holds_any(s, fragments) {
        let i = choose|i: int| 0 <= i < fragments.len() && contains_text(s, #[trigger] fragments[i]);
        law_fragment_stands_between(s, fragments[i]);
        let (before, after) = choose|before: Seq<char>, after: Seq<char>|
            s == #[trigger] (before + fragments[i] + after);
        assert(s == before + fragments[i] + after);
    }
    if exists|i: int, before: Seq<char>, after: Seq<char>|
        0 <= i < fragments.len() && s == #[trigger] (before + fragments[i] + after) {
        let (i, before, after) = choose|i: int, before: Seq<char>, after: Seq<char>|
            0 <= i < fragments.len() && s == #[trigger] (before + fragments[i] + after);
        law_fragment_stands_between(s, fragments[i]);
        assert(contains_text(s, fragments[i]));
    }
}

/// A denied fragment, wherever it stands in a command line, keeps the command
/// line out, and so does a command line of white space only.
pub proof fn law_denied_and_blank_commands_stay_out(policy: CommandPolicy, command: Seq<char>)
    ensures
        (forall|i: int| 0 <= i < command.len() ==> is_white_space(#[trigger] command[i]))
            ==> !policy.admits(command),
        forall|i: int, before: Seq<char>, after: Seq<char>|
            0 <= i < policy.denied_fragments@.len() && lowercase(trimmed(command)) == #[trigger] (
            before + lowercase(policy.denied_fragments@[i]@) + after) ==> !policy.admits(command),
{
    law_blank_texts_are_trimmed_away(command);
    let fragments = lowered(texts(policy.denied_fragments@));
    law_held_fragment_stands_between(lowercase(trimmed(command)), fragments);
    assert forall|i: int, before: Seq<char>, after: Seq<char>|
        0 <= i < policy.denied_fragments@.len() && lowercase(trimmed(command)) == #[trigger] (before
            + lowercase(policy.denied_fragments@[i]@) + after) implies !policy.admits(command) by {
        assert(fragments[i] == lowercase(policy.denied_fragments@[i]@));
        assert(lowercase(trimmed(command)) == before + fragments[i] + after);
    }
}

/// A policy admits just the command lines that are not blank, that hold none of
/// its denied fragments, and that it either need not look into, allowing unsafe
/// commands, or whose every segment begins with an allowed word. Command line,
/// fragments, segments and words are compared in lower case; segments and words
/// are trimmed.
pub proof fn law_what_a_policy_admits(policy: CommandPolicy, command: Seq<char>)
    ensures
        policy.admits(command) <==> {
            &&& exists|i: int| 0 <= i < command.len() && !is_white_space(#[trigger] command[i])
            &&& forall|i: int, before: Seq<char>, after: Seq<char>|
                0 <= i < policy.denied_fragments@.len() ==> lowercase(trimmed(command))
                    != #[trigger] (before + lowercase(policy.denied_fragments@[i]@) + after)
            &&& policy.allow_unsafe_commands || forall|i: int|
                0 <= i < segments(trimmed(command)).len() ==> begins_with_word(
                    lowercase(trimmed(#[trigger] segments(trimmed(command))[i])),
                    policy.allowed_prefixes@,
                )
        },
{
    law_denied_and_blank_commands_stay_out(policy, command);
    law_blank_texts_are_trimmed_away(command);
    let lower = lowercase(trimmed(command));
    let fragments = lowered(texts(policy.denied_fragments@));
    law_held_fragment_stands_between(lower, fragments);
    if policy.denies(command) {
        let (i, before, after) = choose|i: int, before: Seq<char>, after: Seq<char>|
            0 <= i < fragments.len() && lower == #[trigger] (before + fragments[i] + after);
        assert(lower == before + lowercase(policy.denied_fragments@[i]@) + after);
    }
    let parts = segments(trimmed(command));
    assert forall|i: int| 0 <= i < parts.len() implies policy.admits_segment(#[trigger] parts[i])
        == begins_with_word(lowercase(trimmed(parts[i])), policy.allowed_prefixes@) by {
        lemma_begins_with_word(policy, parts[i]);
    }
    if policy.admits_all(parts) {
        assert forall|i: int| 0 <= i < parts.len() implies begins_with_word(
            lowercase(trimmed(#[trigger] parts[i])),
            policy.allowed_prefixes@,
        ) by {
            assert(policy.admits_segment(parts[i]));
        }
    }
}

/// Whether a text is empty or begins with all of one of several words, each
/// trimmed and in lower case, and ends there or goes on with white space. Words
/// that are blank do not count.
pub open spec fn begins_with_word(s: Seq<char>, words: Seq<String>) -> bool {
    s.len() == 0 || exists|j: int, rest: Seq<char>|
        {
            &&& 0 <= j < words.len()
            &&& s == #[trigger] (lowercase(trimmed(words[j]@)) + rest)
            &&& rest.len() < s.len()
            &&& rest.len() == 0 || is_white_space(rest[0])
        }
}

proof fn lemma_begins_with_word(policy: CommandPolicy, segment: Seq<char>)
    ensures
        policy.admits_segment(segment) == begins_with_word(
            lowercase(trimmed(segment)),
            policy.allowed_prefixes@,
        ),
{
    let s = lowercase(trimmed(segment));
    let given = policy.allowed_prefixes@;
    let words = lowered_trimmed(texts(given));
    law_admitted_segment_begins_with_a_word(s, words);
    if policy.admits_segment(segment) && s.len() > 0 {
        let j = choose|j: int| 0 <= j < words.len() && word_admits(#[trigger] words[j], s);
        law_fragment_stands_between(s, words[j]);
        let rest = choose|after: Seq<char>| s == #[trigger] (words[j] + after);
        assert(s == lowercase(trimmed(given[j]@)) + rest);
    }
    if begins_with_word(s, given) && s.len() > 0 {
        let (j, rest) = choose|j: int, rest: Seq<char>|
            {
                &&& 0 <= j < given.len()
                &&& s == #[trigger] (lowercase(trimmed(given[j]@)) + rest)
                &&& rest.len() < s.len()
                &&& rest.len() == 0 || is_white_space(rest[0])
            };
        assert(words[j] == lowercase(trimmed(given[j]@)));
        law_fragment_stands_between(s, words[j]);
        assert(s == words[j] + rest);
        assert(word_admits(words[j], s));
    }
}

/// Which answer a command line gets: it is said to be empty when it is white
/// space only, admitted when the policy admits it, and otherwise denied, with
/// its text given without the white space around it.
pub proof fn law_answers(policy: CommandPolicy, command: Seq<char>, text: String)
    ensures
        policy.answers(command, Ok(())) <==> policy.admits(command),
        policy.answers(command, Err(CommandPolicyError::Empty)) <==> forall|i: int|
            0 <= i < command.len() ==> is_white_space(#[trigger] command[i]),
        policy.answers(command, Err(CommandPolicyError::Denied(text))) ==> {
            &&& !policy.admits(command)
            &&& text@.len() > 0
            &&& !is_white_space(text@[0])
            &&& !is_white_space(text@[text@.len() - 1])
            &&& exists|before: Seq<char>, after: Seq<char>|
                {
                    &&& command == #[trigger] (before + text@ + after)
                    &&& forall|i: int|
                        0 <= i < before.len() ==> is_white_space(#[trigger] before[i])
                    &&& forall|i: int| 0 <= i < after.len() ==> is_white_space(#[trigger] after[i])
                }
        },
{
    law_blank_texts_are_trimmed_away(command);
    law_trimming_cuts_white_space_only(command);
}

/// What a user is told of a denial names the command line: it ends with its
/// text, and different texts are told apart.
pub proof fn law_denials_name_the_command(a: String, b: String)
    ensures
        a@.is_suffix_of(CommandPolicyError::Denied(a).text()),
        CommandPolicyError::Denied(a).text() == CommandPolicyError::Denied(b).text() ==> a@ == b@,
        CommandPolicyError::Denied(a).text()
            == "comando bloqueado pela política de segurança: "@ + a@,
        CommandPolicyError::Empty.text() == "comando vazio"@,
{
    let intro = "comando bloqueado pela política de segurança: "@;
    let whole = intro + a@;
    assert(whole.subrange(whole.len() - a@.len(), whole.len() as int) =~= a@);
    if intro + a@ == intro + b@ {
        assert((intro + a@).skip(intro.len() as int) =~= a@);
        assert((intro + b@).skip(intro.len() as int) =~= b@);
    }
}

/// The default policy does not allow unsafe commands, denies what could do harm,
/// and allows what only looks.
pub proof fn law_default_policy_lists(policy: CommandPolicy)
    requires
        policy.is_default(),
    ensures
        !policy.allow_unsafe_commands,
        texts(policy.denied_fragments@) == seq![
            "rm -rf"@,
            "mkfs"@,
            "dd if="@,
            "shutdown"@,
            "reboot"@,
            "curl"@,
            "wget"@,
            "chmod 777"@,
            "chown"@,
            "useradd"@,
            "passwd"@,
            ":(){"@,
        ],
        texts(policy.allowed_prefixes@) == seq![
            "hostname"@,
            "uptime"@,
            "uname"@,
            "free"@,
            "df"@,
            "nproc"@,
            "lscpu"@,
            "echo"@,
            "seq"@,
            "sleep"@,
            "sensors"@,
            "ip"@,
            "ping"@,
            "whoami"@,
            "date"@,
            "get-date"@,
        ],
{
}

proof fn lemma_front_stays(a: Seq<char>, parts: Seq<Seq<char>>, separator: Seq<char>)
    requires
        separator.len() > 0,
        !a.contains(separator[0]),
    ensures
        pieces_of_each(seq![a] + parts, separator) == seq![a] + pieces_of_each(parts, separator),
{
    law_fragment_needs_its_characters(a, separator, 0);
    law_whole_texts_are_pieces(seq![a], separator);
    law_pieces_of_each_in_turn(seq![a], parts, separator);
}

/// A command line is cut at its first separator, whichever of the four it is:
/// what stands before it is the first segment, and the others are those of what
/// stands behind it.
pub proof fn law_segments_from_the_left(a: Seq<char>, separator: Seq<char>, b: Seq<char>)
    requires
        forall|i: int|
            0 <= i < a.len() ==> #[trigger] a[i] != '\n' && a[i] != ';' && a[i] != '&' && a[i]
                != '|',
        separator == seq!['\n'] || separator == seq![';'] || separator == seq!['&', '&']
            || separator == seq!['|', '|'],
    ensures
        segments(a + separator + b) == seq![a] + segments(b),
{
    let line = seq!['\n'];
    let semicolon = seq![';'];
    let and = seq!['&', '&'];
    let or = seq!['|', '|'];
    let front = a + separator;
    let lines = pieces(b, line);
    let statements = pieces_of_each(lines, semicolon);
    let conjuncts = pieces_of_each(statements, and);
    lemma_pieces_not_empty(b, line);
    lemma_pieces_of_each_not_empty(lines, semicolon);
    lemma_pieces_of_each_not_empty(statements, and);
    assert(!a.contains('\n') && !a.contains(';') && !a.contains('&') && !a.contains('|'));
    if separator == line {
        law_first_piece(a, line, b);
        lemma_front_stays(a, lines, semicolon);
        lemma_front_stays(a, statements, and);
        lemma_front_stays(a, conjuncts, or);
    } else {
        assert forall|i: int| 0 <= i < front.len() implies !line.contains(#[trigger] front[i]) by {
            if i < a.len() {
                assert(front[i] == a[i]);
            } else {
                assert(front[i] == separator[i - a.len()]);
            }
        }
        law_pieces_of_led_by_text(front, b, line);
        if separator == semicolon {
            law_first_piece_of_each(a, lines, semicolon);
            lemma_front_stays(a, statements, and);
            lemma_front_stays(a, conjuncts, or);
        } else {
            assert forall|i: int| 0 <= i < front.len() implies !semicolon.contains(
                #[trigger] front[i],
            ) by {
                if i < a.len() {
                    assert(front[i] == a[i]);
                } else {
                    assert(front[i] == separator[i - a.len()]);
                }
            }
            law_pieces_of_each_led_by_text(front, lines, semicolon);
            if separator == and {
                law_first_piece_of_each(a, statements, and);
                lemma_front_stays(a, conjuncts, or);
            } else {
                assert forall|i: int| 0 <= i < front.len() implies !and.contains(
                    #[trigger] front[i],
                ) by {
                    if i < a.len() {
                        assert(front[i] == a[i]);
                    } else {
                        assert(front[i] == separator[i - a.len()]);
                    }
                }
                law_pieces_of_each_led_by_text(front, statements, and);
                law_first_piece_of_each(a, conjuncts, or);
            }
        }
    }
}

/// A command line without line breaks and semicolons, and without two `&` or two
/// `|` in a row, is its own only segment. Single `&` and `|` do not cut.
pub proof fn law_uncut_command(command: Seq<char>)
    requires
        forall|i: int| 0 <= i < command.len() ==> #[trigger] command[i] != '\n' && command[i] != ';',
        forall|i: int, j: int|
            0 <= i < command.len() && j == i + 1 && j < command.len() ==> !(#[trigger] command[i]
                == '&' && #[trigger] command[j] == '&') && !(command[i] == '|' && command[j]
                == '|'),
    ensures
        segments(command) == seq![command],
{
    assert(!command.contains('\n') && !command.contains(';'));
    law_fragment_needs_its_characters(command, seq!['\n'], 0);
    law_fragment_needs_its_characters(command, seq![';'], 0);
    lemma_no_two_in_a_row(command, '&');
    lemma_no_two_in_a_row(command, '|');
    law_whole_text_is_a_piece(command, seq!['\n']);
    law_whole_texts_are_pieces(seq![command], seq![';']);
    law_whole_texts_are_pieces(seq![command], seq!['&', '&']);
    law_whole_texts_are_pieces(seq![command], seq!['|', '|']);
}

proof fn lemma_no_two_in_a_row(s: Seq<char>, c: char)
    ensures
        contains_text(s, seq![c, c]) <==> exists|i: int, j: int|
            0 <= i && j == i + 1 && j < s.len() && #[trigger] s[i] == c && #[trigger] s[j] == c,
{
    if contains_text(s, seq![c, c]) {
        let at = choose|at: int| occurs_at(s, seq![c, c], at);
        let found = s.subrange(at, at + 2);
        assert(found[0] == s[at] && found[1] == s[at + 1]);
        assert(seq![c, c][0] == c && seq![c, c][1] == c);
    }
    if exists|i: int, j: int|
        0 <= i && j == i + 1 && j < s.len() && #[trigger] s[i] == c && #[trigger] s[j] == c {
        let (i, j) = choose|i: int, j: int|
            0 <= i && j == i + 1 && j < s.len() && #[trigger] s[i] == c && #[trigger] s[j] == c;
        assert(s.subrange(i, i + 2) =~= seq![c, c]);
        assert(occurs_at(s, seq![c, c], i));
    }
}

/// No segment holds a line break or a semicolon, nor two `&` or two `|` in a row.
pub proof fn law_segments_by_character(command: Seq<char>, i: int, k: int)
    requires
        0 <= i < segments(command).len(),
        0 <= k < segments(command)[i].len(),
    ensures
        segments(command)[i][k] != '\n',
        segments(command)[i][k] != ';',
        k + 1 < segments(command)[i].len() ==> !(segments(command)[i][k] == '&' && segments(
            command,
        )[i][k + 1] == '&') && !(segments(command)[i][k] == '|' && segments(command)[i][k + 1]
            == '|'),
{
    let s = segments(command)[i];
    law_segments_hold_no_separator(command, i, seq!['\n']);
    law_segments_hold_no_separator(command, i, seq![';']);
    law_segments_hold_no_separator(command, i, seq!['&', '&']);
    law_segments_hold_no_separator(command, i, seq!['|', '|']);
    lemma_no_two_in_a_row(s, '&');
    lemma_no_two_in_a_row(s, '|');
    assert(s.subrange(k, k + 1) =~= seq![s[k]]);
    if s[k] == '\n' {
        assert(occurs_at(s, seq!['\n'], k));
    }
    if s[k] == ';' {
        assert(occurs_at(s, seq![';'], k));
    }
    if k + 1 < s.len() {
        let next = k + 1;
        assert(s[next] == s[k + 1]);
    }
}

/// A policy hands a segment to its words: the segment is admitted just when it
/// is blank or, trimmed and in lower case, begins with an allowed word.
pub proof fn law_what_segments_a_policy_admits(policy: CommandPolicy, segment: Seq<char>)
    ensures
        policy.admits_segment(segment) <==> begins_with_word(
            lowercase(trimmed(segment)),
            policy.allowed_prefixes@,
        ),
{
    lemma_begins_with_word(policy, segment);
}

} // verus!
