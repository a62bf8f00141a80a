//! In-band session commands: `!key value` directives inside a prompt.
//!
//! A prompt is cut into whitespace-separated tokens. A token that starts with
//! `!` and has something after it is a directive: its key is the rest of the
//! token, its value is the token that follows (empty when there is none).
//! The value token is consumed with the directive. Parsing never fails.

use crate::text::{
    is_whitespace, lemma_blank_text_has_no_tokens, split_whitespace, tokens, views,
};
use vstd::hash_map::StringHashMap;
use vstd::prelude::*;
use vstd::string::*;

verus! {

/// Directives by key.
pub type Commands = StringHashMap<String>;

/// A token introduces a directive when it is `!` followed by at least one
/// more character.
pub open spec fn is_directive(token: Seq<char>) -> bool {
    token.len() > 1 && token[0] == '!'
}

/// Key of a directive token: the token without its leading `!`.
pub open spec fn directive_key(token: Seq<char>) -> Seq<char> {
    token.subrange(1, token.len() as int)
}

/// Value of the directive at position `at`: the next token, or nothing.
pub open spec fn directive_value(words: Seq<Seq<char>>, at: int) -> Seq<char> {
    if at + 1 < words.len() {
        words[at + 1]
    } else {
        Seq::empty()
    }
}

/// Directives of `words[at..]` laid over `found`; a later directive replaces
/// an earlier one with the same key.
pub open spec fn directives_from(
    words: Seq<Seq<char>>,
    at: int,
    found: Map<Seq<char>, Seq<char>>,
) -> Map<Seq<char>, Seq<char>>
    decreases words.len() + 1 - at,
{
    if at < 0 || at >= words.len() {
        found
    } else if is_directive(words[at]) {
        directives_from(
            words,
            at + 2,
            found.insert(directive_key(words[at]), directive_value(words, at)),
        )
    } else {
        directives_from(words, at + 1, found)
    }
}

/// The directive mapping of a prompt.
pub open spec fn directives(prompt: Seq<char>) -> Map<Seq<char>, Seq<char>> {
    directives_from(tokens(prompt), 0, Map::empty())
}

/// A prompt of nothing, or of nothing but whitespace, has no directives.
pub proof fn lemma_blank_prompt_has_no_directives(prompt: Seq<char>)
    requires
        forall|i: int| 0 <= i < prompt.len() ==> is_whitespace(#[trigger] prompt[i]),
    ensures
        directives(prompt) == Map::<Seq<char>, Seq<char>>::empty(),
{
    lemma_blank_text_has_no_tokens(prompt);
}

/// Laying directives over a map keeps its keys, and every key that comes
/// on top is the rest of a directive token: it is never empty.
pub proof fn lemma_directive_keys_are_not_empty(
    words: Seq<Seq<char>>,
    at: int,
    found: Map<Seq<char>, Seq<char>>,
)
    requires
        forall|key: Seq<char>| found.contains_key(key) ==> key.len() > 0,
    ensures
        forall|key: Seq<char>|
            directives_from(words, at, found).contains_key(key) ==> key.len() > 0,
    decreases words.len() + 1 - at,
{
    if 0 <= at < words.len() {
        if is_directive(words[at]) {
            let laid = found.insert(directive_key(words[at]), directive_value(words, at));
            assert(directive_key(words[at]).len() == words[at].len() - 1);
            assert forall|key: Seq<char>| laid.contains_key(key) implies key.len() > 0 by {
                if key != directive_key(words[at]) {
                    assert(found.contains_key(key));
                }
            }
            lemma_directive_keys_are_not_empty(words, at + 2, laid);
            assert(directives_from(words, at, found) == directives_from(words, at + 2, laid));
        } else {
            lemma_directive_keys_are_not_empty(words, at + 1, found);
            assert(directives_from(words, at, found) == directives_from(words, at + 1, found));
        }
    }
}

/// Views of the values of a string-keyed map.
pub open spec fn value_views(found: Map<Seq<char>, String>) -> Map<Seq<char>, Seq<char>> {
    found.map_values(|value: String| value@)
}

/// All `!key value` directives of `input`, by key. Of two directives with
/// the same key the later one stands.
pub fn extract_commands(input: &str) -> (commands: Commands)
    ensures
        value_views(commands@) == directives(input@),
{
    let words = split_whitespace(input);
    let mut commands: Commands = StringHashMap::new();
    let mut at: usize = 0;
    assert(value_views(commands@) =~= Map::<Seq<char>, Seq<char>>::empty());
    while at < words.len()
        invariant
            views(words@) == tokens(input@),
            directives_from(tokens(input@), at as int, value_views(commands@)) == directives(
                input@,
            ),
        decreases words.len() - at,
    {
        let ghost found = value_views(commands@);
        let word = words[at].as_str();
        assert(word@ == tokens(input@)[at as int]);
        let length: usize = word.unicode_len();
        if length > 1 && word.get_char(0) == '!' {
            let key = String::from_str(word.substring_char(1, length));
            let value = if at + 1 < words.len() {
                words[at + 1].clone()
            } else {
                String::new()
            };
            assert(value@ == directive_value(tokens(input@), at as int));
            commands.insert(key, value);
            assert(value_views(commands@) =~= found.insert(key@, value@));
            assert(directives_from(tokens(input@), at as int, found) == directives_from(
                tokens(input@),
                at + 2,
                found.insert(key@, value@),
            ));
            if at + 1 < words.len() {
                at = at + 2;
            } else {
                at = at + 1;
            }
        } else {
            at = at + 1;
        }
    }
    commands
}

} // verus!
