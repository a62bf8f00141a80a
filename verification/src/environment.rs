//! Environment files: one `KEY=VALUE` assignment per line.

use crate::text::{chars_of, is_whitespace, is_whitespace_char, views};
use vstd::prelude::*;
use vstd::string::*;

verus! {

/// First index from `from` on at which `text` holds no whitespace; the
/// length of `text` where it holds nothing else from there on.
pub open spec fn skip_whitespace(text: Seq<char>, from: int) -> int
    decreases text.len() - from,
{
    if 0 <= from < text.len() && is_whitespace(text[from]) {
        skip_whitespace(text, from + 1)
    } else {
        from
    }
}

/// End of `text[..to]` once the whitespace at its end is left off.
pub open spec fn drop_whitespace(text: Seq<char>, to: int) -> int
    decreases to,
{
    if 0 < to <= text.len() && is_whitespace(text[to - 1]) {
        drop_whitespace(text, to - 1)
    } else {
        to
    }
}

/// `text` without the whitespace at its start and at its end.
pub open spec fn trimmed(text: Seq<char>) -> Seq<char> {
    let start = skip_whitespace(text, 0);
    let end = drop_whitespace(text, text.len() as int);
    if start < end {
        text.subrange(start, end)
    } else {
        Seq::empty()
    }
}

/// First index from `from` on at which `text` holds `mark`; the length of
/// `text` where there is none.
pub open spec fn find(text: Seq<char>, mark: char, from: int) -> int
    decreases text.len() - from,
{
    if 0 <= from < text.len() && text[from] != mark {
        find(text, mark, from + 1)
    } else {
        from
    }
}

/// A line without the carriage return at its end, if it has one.
pub open spec fn strip_return(line: Seq<char>) -> Seq<char> {
    if line.len() > 0 && line.last() == '\r' {
        line.drop_last()
    } else {
        line
    }
}

/// Left-to-right scan of `text`: the lines already ended by a line feed,
/// and the characters of the line still open at the end.
pub open spec fn scan_lines(text: Seq<char>) -> (Seq<Seq<char>>, Seq<char>)
    decreases text.len(),
{
    if text.len() == 0 {
        (Seq::empty(), Seq::empty())
    } else {
        let (ended, open) = scan_lines(text.drop_last());
        if text.last() == '\n' {
            (ended.push(strip_return(open)), Seq::empty())
        } else {
            (ended, open.push(text.last()))
        }
    }
}

/// The lines of `text`. A line ends at a line feed, or at a carriage return
/// and a line feed; the last line need not be ended.
pub open spec fn lines(text: Seq<char>) -> Seq<Seq<char>> {
    let (ended, open) = scan_lines(text);
    if open.len() > 0 {
        ended.push(open)
    } else {
        ended
    }
}

/// What one line of an environment file says.
#[derive(Debug, PartialEq, Eq)]
pub enum EnvLine {
    /// `KEY=VALUE`: the variable and its value, both trimmed.
    Assign(String, String),
    /// A line without `=`: it is passed over, and kept for a warning.
    Skipped(String),
}

/// Mathematical value of an [`EnvLine`].
pub enum EnvLineView {
    Assign(Seq<char>, Seq<char>),
    Skipped(Seq<char>),
}

impl View for EnvLine {
    type V = EnvLineView;

    open spec fn view(&self) -> EnvLineView {
        match self {
            EnvLine::Assign(key, value) => EnvLineView::Assign(key@, value@),
            EnvLine::Skipped(line) => EnvLineView::Skipped(line@),
        }
    }
}

/// What `line` says: it is cut at its first `=`, and both sides are
/// trimmed.
pub open spec fn parsed_line(line: Seq<char>) -> EnvLineView {
    let at = find(line, '=', 0);
    if at < line.len() {
        EnvLineView::Assign(
            trimmed(line.subrange(0, at)),
            trimmed(line.subrange(at + 1, line.len() as int)),
        )
    } else {
        EnvLineView::Skipped(line)
    }
}

/// What the lines of an environment file say, line by line.
pub open spec fn parsed(contents: Seq<char>) -> Seq<EnvLineView> {
    lines(contents).map_values(|line: Seq<char>| parsed_line(line))
}

/// Views of a sequence of parsed lines.
pub open spec fn line_views(parsed: Seq<EnvLine>) -> Seq<EnvLineView> {
    parsed.map_values(|line: EnvLine| line@)
}

/// `text` without the whitespace at its start and at its end.
pub fn trim(text: &str) -> (result: String)
    ensures
        result@ == trimmed(text@),
{
    let chars = chars_of(text);
    let mut start: usize = 0;
    while start < chars.len() && is_whitespace_char(chars[start])
        invariant
            chars@ == text@,
            start <= chars.len(),
            skip_whitespace(text@, start as int) == skip_whitespace(text@, 0),
        decreases chars.len() - start,
    {
        start = start + 1;
    }
    let mut end: usize = chars.len();
    while end > 0 && is_whitespace_char(chars[end - 1])
        invariant
            chars@ == text@,
            end <= chars.len(),
            drop_whitespace(text@, end as int) == drop_whitespace(text@, text@.len() as int),
        decreases end,
    {
        end = end - 1;
    }
    if start < end {
        String::from_str(text.substring_char(start, end))
    } else {
        String::new()
    }
}

/// The lines of `text`.
pub fn split_lines(text: &str) -> (result: Vec<String>)
    ensures
        views(result@) == lines(text@),
{
    let chars = chars_of(text);
    let mut result: Vec<String> = Vec::new();
    let mut start: usize = 0;
    let mut at: usize = 0;
    assert(text@.take(0) =~= Seq::<char>::empty());
    assert(views(result@) =~= Seq::<Seq<char>>::empty());
    assert(text@.subrange(0, 0) =~= Seq::<char>::empty());
    while at < chars.len()
        invariant
            chars@ == text@,
            start <= at <= chars.len(),
            views(result@) == scan_lines(text@.take(at as int)).0,
            text@.subrange(start as int, at as int) == scan_lines(text@.take(at as int)).1,
        decreases chars.len() - at,
    {
        let ghost open = text@.subrange(start as int, at as int);
        assert(text@.take(at + 1).drop_last() =~= text@.take(at as int));
        if chars[at] == '\n' {
            let end: usize = if start < at && chars[at - 1] == '\r' {
                at - 1
            } else {
                at
            };
            let line = String::from_str(text.substring_char(start, end));
            assert(line@ =~= strip_return(open));
            assert(views(result@.push(line)) =~= views(result@).push(line@));
            result.push(line);
            start = at + 1;
            assert(text@.subrange(start as int, at + 1) =~= Seq::<char>::empty());
        } else {
            assert(text@.subrange(start as int, at + 1) =~= open.push(chars@[at as int]));
        }
        at = at + 1;
    }
    assert(text@.take(at as int) =~= text@);
    if start < at {
        let line = String::from_str(text.substring_char(start, at));
        assert(views(result@.push(line)) =~= views(result@).push(line@));
        result.push(line);
    }
    result
}

/// Reads one line of an environment file.
pub fn parse_line(line: &str) -> (result: EnvLine)
    ensures
        result@ == parsed_line(line@),
{
    let chars = chars_of(line);
    let mut at: usize = 0;
    while at < chars.len() && chars[at] != '='
        invariant
            chars@ == line@,
            at <= chars.len(),
            find(line@, '=', at as int) == find(line@, '=', 0),
        decreases chars.len() - at,
    {
        at = at + 1;
    }
    if at < chars.len() {
        let key = trim(line.substring_char(0, at));
        let value = trim(line.substring_char(at + 1, chars.len()));
        EnvLine::Assign(key, value)
    } else {
        EnvLine::Skipped(String::from_str(line))
    }
}

/// Reads the contents of an environment file, line by line: the
/// assignments to make, and the lines that hold none.
pub fn parse_environment(contents: &str) -> (result: Vec<EnvLine>)
    ensures
        line_views(result@) == parsed(contents@),
{
    let all = split_lines(contents);
    let mut result: Vec<EnvLine> = Vec::new();
    let mut at: usize = 0;
    while at < all.len()
        invariant
            views(all@) == lines(contents@),
            at <= all.len(),
            line_views(result@) == parsed(contents@).take(at as int),
        decreases all.len() - at,
    {
        let entry = parse_line(all[at].as_str());
        assert(all[at as int]@ == views(all@)[at as int]);
        assert(entry@ == parsed(contents@)[at as int]);
        assert(line_views(result@.push(entry)) =~= line_views(result@).push(entry@));
        assert(parsed(contents@).take(at as int).push(entry@) =~= parsed(contents@).take(
            at + 1,
        ));
        result.push(entry);
        at = at + 1;
    }
    assert(parsed(contents@).take(at as int) =~= parsed(contents@));
    result
}

} // verus!
