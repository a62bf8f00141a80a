//! Text as sequences of characters: whitespace, tokens, trimming.

use vstd::prelude::*;
use vstd::std_specs::iter::IteratorSpec;
use vstd::string::*;

verus! {

broadcast use vstd::string::group_string_axioms;

/// Views of a sequence of strings.
pub open spec fn views(words: Seq<String>) -> Seq<Seq<char>> {
    words.map_values(|word: String| word@)
}

/// Whether Unicode classes `c` as `White_Space`.
pub open spec fn is_whitespace(c: char) -> bool {
    let code = c as u32;
    ||| 0x09 <= code <= 0x0D
    ||| code == 0x20
    ||| code == 0x85
    ||| code == 0xA0
    ||| code == 0x1680
    ||| 0x2000 <= code <= 0x200A
    ||| code == 0x2028
    ||| code == 0x2029
    ||| code == 0x202F
    ||| code == 0x205F
    ||| code == 0x3000
}

/// Left-to-right scan of `text`: the tokens already closed by a whitespace
/// character, and the characters of the token still open at the end.
pub open spec fn scan(text: Seq<char>) -> (Seq<Seq<char>>, Seq<char>)
    decreases text.len(),
{
    if text.len() == 0 {
        (Seq::empty(), Seq::empty())
    } else {
        let (closed, open) = scan(text.drop_last());
        if !is_whitespace(text.last()) {
            (closed, open.push(text.last()))
        } else if open.len() > 0 {
            (closed.push(open), Seq::empty())
        } else {
            (closed, open)
        }
    }
}

/// The maximal runs of non-whitespace characters of `text`, in order.
pub open spec fn tokens(text: Seq<char>) -> Seq<Seq<char>> {
    let (closed, open) = scan(text);
    if open.len() > 0 {
        closed.push(open)
    } else {
        closed
    }
}

/// Whether `word` has at least one character and no whitespace in it.
pub open spec fn is_word(word: Seq<char>) -> bool {
    &&& word.len() > 0
    &&& forall|i: int| 0 <= i < word.len() ==> !is_whitespace(#[trigger] word[i])
}

/// A scan closes words only, and what it holds open has no whitespace in
/// it.
pub proof fn lemma_scan_yields_words(text: Seq<char>)
    ensures
        forall|i: int| 0 <= i < scan(text).0.len() ==> is_word(#[trigger] scan(text).0[i]),
        forall|i: int| 0 <= i < scan(text).1.len() ==> !is_whitespace(#[trigger] scan(text).1[i]),
    decreases text.len(),
{
    if text.len() > 0 {
        lemma_scan_yields_words(text.drop_last());
        let (closed, open) = scan(text.drop_last());
        let (now_closed, now_open) = scan(text);
        assert forall|i: int| 0 <= i < now_closed.len() implies is_word(
            #[trigger] now_closed[i],
        ) by {
            if i < closed.len() {
                assert(now_closed[i] == closed[i]);
            } else {
                assert(now_closed[i] == open);
                assert forall|j: int| 0 <= j < open.len() implies !is_whitespace(
                    #[trigger] open[j],
                ) by {}
            }
        }
        assert forall|i: int| 0 <= i < now_open.len() implies !is_whitespace(
            #[trigger] now_open[i],
        ) by {
            if i < open.len() {
                assert(now_open[i] == open[i]);
            }
        }
    }
}

/// Every token is a word: it is not empty and holds no whitespace.
pub proof fn lemma_tokens_are_words(text: Seq<char>)
    ensures
        forall|i: int| 0 <= i < tokens(text).len() ==> is_word(#[trigger] tokens(text)[i]),
{
    lemma_scan_yields_words(text);
    let (closed, open) = scan(text);
    assert forall|i: int| 0 <= i < tokens(text).len() implies is_word(
        #[trigger] tokens(text)[i],
    ) by {
        if i < closed.len() {
            assert(tokens(text)[i] == closed[i]);
        } else {
            assert(tokens(text)[i] == open);
            assert forall|j: int| 0 <= j < open.len() implies !is_whitespace(
                #[trigger] open[j],
            ) by {}
        }
    }
}

/// Text that is whitespace throughout has no tokens.
pub proof fn lemma_blank_text_has_no_tokens(text: Seq<char>)
    requires
        forall|i: int| 0 <= i < text.len() ==> is_whitespace(#[trigger] text[i]),
    ensures
        scan(text) == (Seq::<Seq<char>>::empty(), Seq::<char>::empty()),
        tokens(text) == Seq::<Seq<char>>::empty(),
    decreases text.len(),
{
    if text.len() > 0 {
        lemma_blank_text_has_no_tokens(text.drop_last());
    }
}

/// Whether `c` is whitespace.
pub fn is_whitespace_char(c: char) -> (yes: bool)
    ensures
        yes == is_whitespace(c),
{
    let code: u32 = c as u32;
    (0x09 <= code && code <= 0x0D) || code == 0x20 || code == 0x85 || code == 0xA0 || code
        == 0x1680 || (0x2000 <= code && code <= 0x200A) || code == 0x2028 || code == 0x2029 || code
        == 0x202F || code == 0x205F || code == 0x3000
}

/// The characters of `text`, in order.
pub fn chars_of(text: &str) -> (chars: Vec<char>)
    ensures
        chars@ == text@,
{
    let mut chars: Vec<char> = Vec::new();
    let mut rest = text.chars();
    loop
        invariant
            rest.obeys_prophetic_iter_laws(),
            rest.decrease() is Some,
            chars@ + rest.remaining() == text@,
        decreases rest.decrease()->0,
    {
        match rest.next() {
            Some(c) => {
                chars.push(c);
            },
            None => {
                return chars;
            },
        }
    }
}

/// Splits `text` at whitespace, dropping empty pieces.
pub fn split_whitespace(text: &str) -> (words: Vec<String>)
    ensures
        views(words@) == tokens(text@),
{
    let chars = chars_of(text);
    let mut words: Vec<String> = Vec::new();
    let mut start: usize = 0;
    let mut at: usize = 0;
    assert(text@.take(0) =~= Seq::<char>::empty());
    assert(views(words@) =~= Seq::<Seq<char>>::empty());
    while at < chars.len()
        invariant
            chars@ == text@,
            start <= at <= chars.len(),
            views(words@) == scan(text@.take(at as int)).0,
            text@.subrange(start as int, at as int) == scan(text@.take(at as int)).1,
        decreases chars.len() - at,
    {
        let ghost before = text@.take(at as int);
        let ghost after = text@.take(at + 1);
        assert(after.drop_last() =~= before);
        assert(after.last() == chars@[at as int]);
        if is_whitespace_char(chars[at]) {
            if start < at {
                let word = String::from_str(text.substring_char(start, at));
                proof {
                    assert(views(words@.push(word)) =~= views(words@).push(word@));
                }
                words.push(word);
            }
            start = at + 1;
            assert(text@.subrange(start as int, at + 1) =~= Seq::<char>::empty());
        } else {
            assert(text@.subrange(start as int, at + 1) =~= text@.subrange(
                start as int,
                at as int,
            ).push(chars@[at as int]));
        }
        at = at + 1;
    }
    assert(text@.take(at as int) =~= text@);
    if start < at {
        let word = String::from_str(text.substring_char(start, at));
        proof {
            assert(views(words@.push(word)) =~= views(words@).push(word@));
        }
        words.push(word);
    }
    words
}

/// Whether two texts hold the same characters.
pub fn text_eq(left: &str, right: &str) -> (same: bool)
    ensures
        same == (left@ == right@),
{
    let left_chars = chars_of(left);
    let right_chars = chars_of(right);
    if left_chars.len() != right_chars.len() {
        return false;
    }
    let mut at: usize = 0;
    while at < left_chars.len()
        invariant
            left_chars@ == left@,
            right_chars@ == right@,
            left_chars.len() == right_chars.len(),
            at <= left_chars.len(),
            left@.take(at as int) == right@.take(at as int),
        decreases left_chars.len() - at,
    {
        if left_chars[at] != right_chars[at] {
            assert(left@[at as int] != right@[at as int]);
            return false;
        }
        assert(left@.take(at + 1) =~= left@.take(at as int).push(left@[at as int]));
        assert(right@.take(at + 1) =~= right@.take(at as int).push(right@[at as int]));
        at = at + 1;
    }
    assert(left@ =~= left@.take(at as int));
    assert(right@ =~= right@.take(at as int));
    true
}

/// Code of `c`, with the upper-case ASCII letters taken to lower case.
pub open spec fn ascii_lower(c: char) -> u32 {
    let code = c as u32;
    if 0x41 <= code <= 0x5A {
        (code + 0x20) as u32
    } else {
        code
    }
}

/// Whether two texts are the same but for the case of ASCII letters.
pub open spec fn eq_ignore_ascii_case(left: Seq<char>, right: Seq<char>) -> bool {
    &&& left.len() == right.len()
    &&& forall|i: int| 0 <= i < left.len() ==> ascii_lower(left[i]) == ascii_lower(right[i])
}

/// Code of `c`, with the upper-case ASCII letters taken to lower case.
pub fn ascii_lower_code(c: char) -> (code: u32)
    ensures
        code == ascii_lower(c),
{
    let code: u32 = c as u32;
    if 0x41 <= code && code <= 0x5A {
        code + 0x20
    } else {
        code
    }
}

/// Whether `left` and `right` are the same but for the case of ASCII
/// letters.
pub fn chars_eq_ignore_ascii_case(left: &[char], right: &[char]) -> (same: bool)
    ensures
        same == eq_ignore_ascii_case(left@, right@),
{
    if left.len() != right.len() {
        return false;
    }
    let mut at: usize = 0;
    while at < left.len()
        invariant
            left.len() == right.len(),
            at <= left.len(),
            forall|i: int| 0 <= i < at ==> ascii_lower(left@[i]) == ascii_lower(right@[i]),
        decreases left.len() - at,
    {
        if ascii_lower_code(left[at]) != ascii_lower_code(right[at]) {
            return false;
        }
        at = at + 1;
    }
    true
}

} // verus!
