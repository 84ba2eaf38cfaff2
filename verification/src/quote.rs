//! Shell quoting of single words and of word lists.

use vstd::prelude::*;

verus! {

/// Characters that the quoting leaves as they are.
pub open spec fn is_bare(c: char) -> bool {
    ||| 'A' <= c <= 'Z'
    ||| 'a' <= c <= 'z'
    ||| '0' <= c <= '9'
    ||| c == '_'
    ||| c == '-'
    ||| c == '.'
    ||| c == ','
    ||| c == ':'
    ||| c == '/'
    ||| c == '@'
}

/// The quoted form of one character of a non-empty word: a line feed is
/// wrapped in single quotes, a bare character stands for itself, any other
/// character is preceded by a backslash.
pub open spec fn escape_char(c: char) -> Seq<char> {
    if c == '\n' {
        seq!['\'', '\n', '\'']
    } else if is_bare(c) {
        seq![c]
    } else {
        seq!['\\', c]
    }
}

/// The quoted forms of the characters of `word`, one after the other.
pub open spec fn escape_each(word: Seq<char>) -> Seq<char>
    decreases word.len(),
{
    if word.len() == 0 {
        Seq::empty()
    } else {
        escape_each(word.drop_last()) + escape_char(word.last())
    }
}

/// The quoted form of `word`: a pair of single quotes for the empty word,
/// otherwise its characters quoted one by one.
pub open spec fn escape_spec(word: Seq<char>) -> Seq<char> {
    if word.len() == 0 {
        seq!['\'', '\'']
    } else {
        escape_each(word)
    }
}

/// `parts` joined, with `sep` between neighbours.
pub open spec fn join_with(parts: Seq<Seq<char>>, sep: Seq<char>) -> Seq<char>
    decreases parts.len(),
{
    if parts.len() == 0 {
        Seq::empty()
    } else if parts.len() == 1 {
        parts[0]
    } else {
        join_with(parts.drop_last(), sep) + sep + parts.last()
    }
}

/// The quoted forms of `words`, joined by single spaces.
pub open spec fn join_spec(words: Seq<Seq<char>>) -> Seq<char> {
    join_with(words.map_values(|w: Seq<char>| escape_spec(w)), seq![' '])
}

/// The texts that a list of string slices stands for.
pub open spec fn texts(words: Seq<&str>) -> Seq<Seq<char>> {
    words.map_values(|w: &str| w@)
}

/// Calls `shellwords::escape`, which returns `''` for the empty string and
/// otherwise puts a backslash before every character outside
/// `A-Z a-z 0-9 _ - . , : / @` and line feed, then wraps each line feed in
/// single quotes.
#[verifier::external_body]
pub(crate) fn escape(word: &str) -> (res: String)
    ensures
        res@ == escape_spec(word@),
{
    shellwords::escape(word)
}

/// Calls `shellwords::join`, which quotes each word as `shellwords::escape`
/// does and joins the results with single spaces.
#[verifier::external_body]
pub(crate) fn join(words: &Vec<&str>) -> (res: String)
    ensures
        res@ == join_spec(texts(words@)),
{
    shellwords::join(words.as_slice())
}

} // verus!
