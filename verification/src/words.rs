//! Splitting a text into its words.

use vstd::prelude::*;
use vstd::string::*;

verus! {

/// The characters that separate words: the code points that Unicode
/// classes as `White_Space`.
pub open spec fn is_whitespace(c: char) -> bool {
    let u = c as u32;
    ||| 0x09 <= u <= 0x0d
    ||| u == 0x20
    ||| u == 0x85
    ||| u == 0xa0
    ||| u == 0x1680
    ||| 0x2000 <= u <= 0x200a
    ||| u == 0x2028
    ||| u == 0x2029
    ||| u == 0x202f
    ||| u == 0x205f
    ||| u == 0x3000
}

/// Tells whether a character separates words.
pub fn is_whitespace_char(c: char) -> (b: bool)
    ensures
        b == is_whitespace(c),
{
    let u: u32 = c as u32;
    (0x09 <= u && u <= 0x0d) || u == 0x20 || u == 0x85 || u == 0xa0 || u == 0x1680 || (0x2000 <= u
        && u <= 0x200a) || u == 0x2028 || u == 0x2029 || u == 0x202f || u == 0x205f || u == 0x3000
}

/// The end of the run of non-whitespace characters that starts at `from`:
/// the first position at or after `from` that holds whitespace, or the
/// length of the text.
pub open spec fn word_end(text: Seq<char>, from: int) -> int
    decreases text.len() - from,
{
    if from < 0 || from >= text.len() || is_whitespace(text[from]) {
        from
    } else {
        word_end(text, from + 1)
    }
}

/// A run of non-whitespace characters ends at or after its start and
/// within the text.
pub proof fn lemma_word_end_bounds(text: Seq<char>, from: int)
    requires
        0 <= from <= text.len(),
    ensures
        from <= word_end(text, from) <= text.len(),
        from < text.len() && !is_whitespace(text[from]) ==> from < word_end(text, from),
    decreases text.len() - from,
{
    if from < text.len() && !is_whitespace(text[from]) {
        lemma_word_end_bounds(text, from + 1);
    }
}

/// The words of `text` from position `from` on: its maximal runs of
/// non-whitespace characters, in order.
pub open spec fn words_from(text: Seq<char>, from: int) -> Seq<Seq<char>>
    decreases text.len() - from,
{
    if from < 0 || from >= text.len() {
        Seq::<Seq<char>>::empty()
    } else if is_whitespace(text[from]) {
        words_from(text, from + 1)
    } else {
        proof {
            lemma_word_end_bounds(text, from);
        }
        seq![text.subrange(from, word_end(text, from))] + words_from(text, word_end(text, from))
    }
}

/// The words of `text`.
pub open spec fn words_of(text: Seq<char>) -> Seq<Seq<char>> {
    words_from(text, 0)
}

/// A list of string slices as character sequences.
pub open spec fn words_view(words: Seq<&str>) -> Seq<Seq<char>> {
    Seq::new(words.len(), |i: int| words[i]@)
}

/// Splits a text at whitespace into its words. Leading, trailing and
/// repeated whitespace yields no empty words.
pub fn split_whitespace<'a>(text: &'a str) -> (words: Vec<&'a str>)
    ensures
        words_view(words@) == words_of(text@),
{
    let n = text.unicode_len();
    let mut words: Vec<&'a str> = Vec::new();
    let mut i: usize = 0;
    while i < n
        invariant
            i <= n,
            n == text@.len(),
            words_view(words@) + words_from(text@, i as int) == words_of(text@),
        decreases n - i,
    {
        if is_whitespace_char(text.get_char(i)) {
            i += 1;
        } else {
            let start = i;
            let mut j: usize = i + 1;
            while j < n && !is_whitespace_char(text.get_char(j))
                invariant
                    start < j <= n,
                    n == text@.len(),
                    word_end(text@, start as int) == word_end(text@, j as int),
                decreases n - j,
            {
                j += 1;
            }
            let word = text.substring_char(start, j);
            let ghost before = words@;
            words.push(word);
            assert(words_view(words@) =~= words_view(before) + seq![
                text@.subrange(start as int, j as int),
            ]);
            assert(words_view(before) + (seq![text@.subrange(start as int, j as int)] + words_from(
                text@,
                j as int,
            )) =~= words_view(words@) + words_from(text@, j as int));
            i = j;
        }
    }
    words
}

} // verus!
