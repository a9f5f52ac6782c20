//! Command parsing.
//!
//! The leading token of a query string, the substring strictly before the
//! first space, is its command; a query without a space is its own command.
//! The command is computed on every search request as a hook for
//! command-specific routing, though today every command is handled alike.

use vstd::prelude::*;
use vstd::string::*;

verus! {

/// A query string as received from a client: the raw text of the `query`
/// request parameter.
pub struct SearchBy {
    pub query: String,
}

/// Whether the text holds at least one space character.
pub open spec fn has_space(s: Seq<char>) -> bool {
    exists|i: int| 0 <= i < s.len() && s[i] == ' '
}

/// The leading command token: the characters strictly before the first
/// space, or all of them if there is no space.
pub open spec fn command_of(s: Seq<char>) -> Seq<char>
    decreases s.len(),
{
    if s.len() == 0 {
        s
    } else if s[0] == ' ' {
        Seq::<char>::empty()
    } else {
        seq![s[0]] + command_of(s.subrange(1, s.len() as int))
    }
}

/// A query without a space is its own command.
pub proof fn lemma_command_of_no_space(s: Seq<char>)
    requires
        !has_space(s),
    ensures
        command_of(s) == s,
    decreases s.len(),
{
    if s.len() > 0 {
        let tail = s.subrange(1, s.len() as int);
        assert(!has_space(tail)) by {
            assert(forall|i: int| 0 <= i < tail.len() ==> tail[i] == #[trigger] s[i + 1]);
        }
        lemma_command_of_no_space(tail);
        assert(seq![s[0]] + tail =~= s);
    }
}

/// On a query whose first space stands at index `i`, the command is exactly
/// the prefix before index `i`.
pub proof fn lemma_command_of_first_space(s: Seq<char>, i: int)
    requires
        0 <= i < s.len(),
        s[i] == ' ',
        forall|j: int| 0 <= j < i ==> s[j] != ' ',
    ensures
        command_of(s) == s.subrange(0, i),
    decreases s.len(),
{
    if i == 0 {
        assert(s.subrange(0, 0) =~= Seq::<char>::empty());
    } else {
        let tail = s.subrange(1, s.len() as int);
        assert(forall|j: int| 0 <= j < tail.len() ==> tail[j] == #[trigger] s[j + 1]);
        lemma_command_of_first_space(tail, i - 1);
        assert(seq![s[0]] + tail.subrange(0, i - 1) =~= s.subrange(0, i));
    }
}

/// The leading command token of a raw query string: the substring strictly
/// before the first space, or the whole string when it holds no space.
pub fn get_command_from_query_string(query_string: &str) -> (command: &str)
    ensures
        command@ == command_of(query_string@),
        !has_space(query_string@) ==> command@ == query_string@,
{
    let n = query_string.unicode_len();
    let mut i: usize = 0;
    while i < n
        invariant
            n == query_string@.len(),
            i <= n,
            forall|j: int| 0 <= j < i ==> query_string@[j] != ' ',
        decreases n - i,
    {
        if query_string.get_char(i) == ' ' {
            proof {
                lemma_command_of_first_space(query_string@, i as int);
            }
            return query_string.substring_char(0, i);
        }
        i += 1;
    }
    proof {
        lemma_command_of_no_space(query_string@);
    }
    query_string
}

/// The dispatch form of a query: a leading command token where one exists,
/// or a plain search term. Every command is handled as a plain search today;
/// the variant is the hook for command-specific routing.
pub enum ParsedQuery {
    Command { token: String },
    PlainQuery,
}

/// Classify a raw query into its dispatch form.
pub fn classify_query(raw: &str) -> (parsed: ParsedQuery)
    ensures
        match parsed {
            ParsedQuery::Command { token } => has_space(raw@) && token@ == command_of(raw@),
            ParsedQuery::PlainQuery => !has_space(raw@),
        },
{
    let n = raw.unicode_len();
    let mut i: usize = 0;
    while i < n
        invariant
            n == raw@.len(),
            i <= n,
            forall|j: int| 0 <= j < i ==> raw@[j] != ' ',
        decreases n - i,
    {
        if raw.get_char(i) == ' ' {
            let command = get_command_from_query_string(raw);
            return ParsedQuery::Command { token: command.to_owned() };
        }
        i += 1;
    }
    ParsedQuery::PlainQuery
}

} // verus!
