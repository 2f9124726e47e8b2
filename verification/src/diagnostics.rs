//! New workers can introduce themselves: the default policy admits the commands
//! that they are asked to do it with.

use vstd::prelude::*;

use crate::security::{
    default_fragments, default_prefixes, holds_any, law_segments_around_separator,
    segment_admitted, segments, word_admits, CommandPolicy,
};
use crate::splitting::{
    law_first_piece, law_fragment_needs_its_characters, law_whole_text_is_a_piece,
    law_whole_texts_are_pieces, lemma_pieces_of_one,
};
use crate::tasks::diagnostic_command;
use crate::text::{
    ascii_lowered, contains_text, is_ascii_text, is_white_space, lemma_trimmed_one_more,
    lowercase, lowered, lowered_trimmed, occurs_at, trimmed,
};

verus! {

/// Whether a text is ASCII text without capitals.
spec fn is_small(s: Seq<char>) -> bool {
    forall|i: int| 0 <= i < s.len() ==> #[trigger] s[i] <= '\u{7f}' && !('A' <= s[i] <= 'Z')
}

proof fn lemma_small(s: Seq<char>)
    requires
        is_small(s),
    ensures
        lowercase(s) == s,
{
    assert(is_ascii_text(s));
    assert(ascii_lowered(s) =~= s);
}

proof fn lemma_trim_nothing(s: Seq<char>)
    requires
        s.len() > 0,
        !is_white_space(s[0]),
        !is_white_space(s.last()),
    ensures
        trimmed(s) == s,
{
}

/// A text without characters of separators is its own only segment.
proof fn lemma_single_segment(s: Seq<char>)
    requires
        !s.contains('\n'),
        !s.contains(';'),
        !s.contains('&'),
        !s.contains('|'),
    ensures
        segments(s) == seq![s],
{
    law_fragment_needs_its_characters(s, seq!['\n'], 0);
    law_fragment_needs_its_characters(s, seq![';'], 0);
    law_fragment_needs_its_characters(s, seq!['&', '&'], 0);
    law_fragment_needs_its_characters(s, seq!['|', '|'], 0);
    law_whole_text_is_a_piece(s, seq!['\n']);
    law_whole_texts_are_pieces(seq![s], seq![';']);
    law_whole_texts_are_pieces(seq![s], seq!['&', '&']);
    law_whole_texts_are_pieces(seq![s], seq!['|', '|']);
}

/// The default fragments are in lower case.
proof fn lemma_default_fragments()
    ensures
        lowered(default_fragments()) == default_fragments(),
{
    reveal_strlit("rm -rf");
    reveal_strlit("mkfs");
    reveal_strlit("dd if=");
    reveal_strlit("shutdown");
    reveal_strlit("reboot");
    reveal_strlit("curl");
    reveal_strlit("wget");
    reveal_strlit("chmod 777");
    reveal_strlit("chown");
    reveal_strlit("useradd");
    reveal_strlit("passwd");
    reveal_strlit(":(){");
    let all = default_fragments();
    assert forall|i: int| 0 <= i < all.len() implies lowercase(#[trigger] all[i]) == all[i] by {
        assert(is_small(all[i]));
        lemma_small(all[i]);
    }
    assert(lowered(all) =~= all);
}

/// A segment that a default command word begins is admitted.
proof fn lemma_default_word(policy: CommandPolicy, segment: Seq<char>, i: int)
    requires
        policy.is_default(),
        0 <= i < default_prefixes().len(),
        is_small(default_prefixes()[i]),
        trimmed(default_prefixes()[i]) == default_prefixes()[i],
        word_admits(default_prefixes()[i], lowercase(trimmed(segment))),
    ensures
        policy.admits_segment(segment),
{
    let words = default_prefixes();
    lemma_small(words[i]);
    assert(lowered_trimmed(words)[i] == words[i]);
    assert(segment_admitted(lowercase(trimmed(segment)), lowered_trimmed(words)));
}

/// The segments of the command for `sh`.
spec fn sh_segments() -> Seq<Seq<char>> {
    seq![
        "hostname"@.push(' '),
        (seq![' '] + "uname -a"@).push(' '),
        seq![' '] + "uptime"@,
    ]
}

proof fn lemma_sh_segments()
    ensures
        segments("hostname && uname -a && uptime"@) == sh_segments(),
{
    let command = "hostname && uname -a && uptime"@;
    let and = seq!['&', '&'];
    let first = sh_segments()[0];
    let second = sh_segments()[1];
    let third = sh_segments()[2];
    reveal_strlit("hostname && uname -a && uptime");
    reveal_strlit("hostname");
    reveal_strlit("uname -a");
    reveal_strlit("uptime");
    assert(command =~= first + and + (second + and + third));
    assert(!command.contains('\n') && !command.contains(';'));
    assert(!first.contains('&') && !first.contains('|'));
    assert(!second.contains('&') && !second.contains('|'));
    assert(!third.contains('&') && !third.contains('|'));
    law_fragment_needs_its_characters(command, seq!['\n'], 0);
    law_fragment_needs_its_characters(command, seq![';'], 0);
    law_whole_text_is_a_piece(command, seq!['\n']);
    law_whole_texts_are_pieces(seq![command], seq![';']);
    law_first_piece(first, and, second + and + third);
    law_first_piece(second, and, third);
    law_fragment_needs_its_characters(third, and, 0);
    law_whole_text_is_a_piece(third, and);
    lemma_pieces_of_one(command, and);
    assert(seq![first] + (seq![second] + seq![third]) =~= sh_segments());
    law_fragment_needs_its_characters(first, seq!['|', '|'], 0);
    law_fragment_needs_its_characters(second, seq!['|', '|'], 0);
    law_fragment_needs_its_characters(third, seq!['|', '|'], 0);
    law_whole_texts_are_pieces(sh_segments(), seq!['|', '|']);
}

proof fn lemma_sh_segments_are_admitted(policy: CommandPolicy)
    requires
        policy.is_default(),
    ensures
        policy.admits_all(sh_segments()),
{
    reveal_strlit("hostname");
    reveal_strlit("uname");
    reveal_strlit("uname -a");
    reveal_strlit("uptime");

    lemma_trimmed_one_more("hostname"@, ' ');
    lemma_trim_nothing("hostname"@);
    lemma_small("hostname"@);
    assert("hostname"@.subrange(0, 8) =~= "hostname"@);
    lemma_default_word(policy, sh_segments()[0], 0);

    lemma_trimmed_one_more(seq![' '] + "uname -a"@, ' ');
    lemma_trimmed_one_more("uname -a"@, ' ');
    lemma_trim_nothing("uname -a"@);
    lemma_small("uname -a"@);
    lemma_trim_nothing("uname"@);
    assert("uname -a"@.subrange(0, 5) =~= "uname"@);
    lemma_default_word(policy, sh_segments()[1], 2);

    lemma_trimmed_one_more("uptime"@, ' ');
    lemma_trim_nothing("uptime"@);
    lemma_small("uptime"@);
    assert("uptime"@.subrange(0, 6) =~= "uptime"@);
    lemma_default_word(policy, sh_segments()[2], 1);
}

proof fn lemma_default_policy_admits_for_sh(policy: CommandPolicy)
    requires
        policy.is_default(),
    ensures
        policy.admits("hostname && uname -a && uptime"@),
{
    let command = "hostname && uname -a && uptime"@;
    reveal_strlit("hostname && uname -a && uptime");
    lemma_trim_nothing(command);
    assert(is_small(command));
    lemma_small(command);
    lemma_sh_holds_no_fragment();
    lemma_default_fragments();
    lemma_sh_segments();
    lemma_sh_segments_are_admitted(policy);
}

proof fn lemma_sh_holds_no_fragment()
    ensures
        !holds_any("hostname && uname -a && uptime"@, default_fragments()),
{
    let command = "hostname && uname -a && uptime"@;
    reveal_strlit("hostname && uname -a && uptime");
    reveal_strlit("rm -rf");
    reveal_strlit("mkfs");
    reveal_strlit("dd if=");
    reveal_strlit("shutdown");
    reveal_strlit("reboot");
    reveal_strlit("curl");
    reveal_strlit("wget");
    reveal_strlit("chmod 777");
    reveal_strlit("chown");
    reveal_strlit("useradd");
    reveal_strlit("passwd");
    reveal_strlit(":(){");
    law_fragment_needs_its_characters(command, "rm -rf"@, 0);
    law_fragment_needs_its_characters(command, "mkfs"@, 1);
    law_fragment_needs_its_characters(command, "dd if="@, 0);
    law_fragment_needs_its_characters(command, "shutdown"@, 4);
    law_fragment_needs_its_characters(command, "reboot"@, 0);
    law_fragment_needs_its_characters(command, "curl"@, 0);
    law_fragment_needs_its_characters(command, "wget"@, 0);
    law_fragment_needs_its_characters(command, "chmod 777"@, 0);
    law_fragment_needs_its_characters(command, "chown"@, 0);
    law_fragment_needs_its_characters(command, "useradd"@, 3);
    law_fragment_needs_its_characters(command, "passwd"@, 4);
    law_fragment_needs_its_characters(command, ":(){"@, 0);
}

proof fn lemma_default_policy_admits_for_powershell(policy: CommandPolicy)
    requires
        policy.is_default(),
    ensures
        policy.admits("hostname; whoami; Get-Date"@),
{
    let command = "hostname; whoami; Get-Date"@;
    reveal_strlit("hostname; whoami; Get-Date");
    reveal_strlit("hostname; whoami; get-date");
    lemma_trim_nothing(command);
    assert(is_ascii_text(command));
    assert(ascii_lowered(command) =~= "hostname; whoami; get-date"@);
    lemma_powershell_holds_no_fragment();
    lemma_default_fragments();

    let first = "hostname"@;
    let second = seq![' '] + "whoami"@;
    let third = seq![' '] + "Get-Date"@;
    reveal_strlit("hostname");
    reveal_strlit("whoami");
    reveal_strlit("Get-Date");
    reveal_strlit("get-date");
    assert(command =~= first + seq![';'] + (second + seq![';'] + third));
    law_segments_around_separator(first, second + seq![';'] + third, ';');
    law_segments_around_separator(second, third, ';');
    lemma_single_segment(first);
    lemma_single_segment(second);
    lemma_single_segment(third);
    assert(segments(command) =~= seq![first, second, third]);

    lemma_trim_nothing("hostname"@);
    lemma_small("hostname"@);
    assert("hostname"@.subrange(0, 8) =~= "hostname"@);
    lemma_default_word(policy, first, 0);

    lemma_trimmed_one_more("whoami"@, ' ');
    lemma_trim_nothing("whoami"@);
    lemma_small("whoami"@);
    assert("whoami"@.subrange(0, 6) =~= "whoami"@);
    lemma_default_word(policy, second, 13);

    lemma_trimmed_one_more("Get-Date"@, ' ');
    lemma_trim_nothing("Get-Date"@);
    lemma_trim_nothing("get-date"@);
    assert(is_ascii_text("Get-Date"@));
    assert(ascii_lowered("Get-Date"@) =~= "get-date"@);
    assert("get-date"@.subrange(0, 8) =~= "get-date"@);
    lemma_default_word(policy, third, 15);
}

proof fn lemma_powershell_holds_no_fragment()
    ensures
        !holds_any("hostname; whoami; get-date"@, default_fragments()),
{
    let command = "hostname; whoami; get-date"@;
    reveal_strlit("hostname; whoami; get-date");
    reveal_strlit("rm -rf");
    reveal_strlit("mkfs");
    reveal_strlit("dd if=");
    reveal_strlit("shutdown");
    reveal_strlit("reboot");
    reveal_strlit("curl");
    reveal_strlit("wget");
    reveal_strlit("chmod 777");
    reveal_strlit("chown");
    reveal_strlit("useradd");
    reveal_strlit("passwd");
    reveal_strlit(":(){");
    law_fragment_needs_its_characters(command, "rm -rf"@, 0);
    law_fragment_needs_its_characters(command, "mkfs"@, 1);
    law_fragment_needs_its_characters(command, "dd if="@, 4);
    law_fragment_needs_its_characters(command, "shutdown"@, 2);
    law_fragment_needs_its_characters(command, "reboot"@, 0);
    law_fragment_needs_its_characters(command, "curl"@, 0);
    law_fragment_needs_its_characters(command, "chmod 777"@, 0);
    law_fragment_needs_its_characters(command, "chown"@, 0);
    law_fragment_needs_its_characters(command, "useradd"@, 0);
    law_fragment_needs_its_characters(command, "passwd"@, 0);
    law_fragment_needs_its_characters(command, ":(){"@, 0);
    assert forall|at: int| !occurs_at(command, "wget"@, at) by {
        if occurs_at(command, "wget"@, at) {
            let found = command.subrange(at, at + 4);
            assert(found[0] == command[at] && found[1] == command[at + 1]);
        }
    }
    assert(!contains_text(command, "wget"@));
}

/// The default policy admits the command that a new worker is asked to introduce
/// itself with, whatever shell it announces.
pub proof fn law_default_policy_admits_diagnostics(policy: CommandPolicy, shell: Seq<char>)
    requires
        policy.is_default(),
    ensures
        policy.admits(diagnostic_command(shell)),
{
    lemma_default_policy_admits_for_sh(policy);
    lemma_default_policy_admits_for_powershell(policy);
}

} // verus!
