//! From Markdown to speakable text.
//!
//! The rendering keeps what a person would read aloud (link labels and code among it) and drops
//! what only serves presentation: emphasis and heading marks, list bullets, fences, link
//! targets.

use vstd::prelude::*;
use vstd::slice::slice_subrange;
use vstd::utf8::encode_utf8;

use crate::text::{
    append_chars, collapse, collapsed, find_char, find_from, has_prefix, is_digit, is_white,
    is_whitespace, join, join_chars, lemma_find_from, lemma_words_nonempty, lines, removed,
    split_lines, split_words, starts_with, texts, to_chars, to_text, trim, trim_start, trimmed,
    trimmed_start, without, words,
};

verus! {

broadcast use vstd::string::group_string_axioms;

/// Longest spoken overview, in characters.
pub const MAX_OVERVIEW_CHARS: usize = 420;

// ---------------------------------------------------------------------------
// Links
// ---------------------------------------------------------------------------

/// Opening minus closing parentheses in `s` from position `from` up to, not including, `to`.
pub open spec fn balance(s: Seq<char>, from: int, to: int) -> int
    decreases to - from,
{
    if to <= from {
        0
    } else {
        balance(s, from, to - 1) + if s[to - 1] == '(' {
            1int
        } else if s[to - 1] == ')' {
            -1int
        } else {
            0int
        }
    }
}

/// True when the parenthesis at `k` closes everything opened from `open` on.
pub open spec fn closes_at(s: Seq<char>, open: int, k: int) -> bool {
    s[k] == ')' && balance(s, open, k + 1) == 0
}

/// The first position at or after `from` that closes everything opened from `open` on.
pub open spec fn first_closing(s: Seq<char>, open: int, from: int) -> Option<int>
    decreases s.len() - from,
{
    if from >= s.len() {
        None
    } else if closes_at(s, open, from) {
        Some(from)
    } else {
        first_closing(s, open, from + 1)
    }
}

/// The parenthesis that closes the one at `open`.
pub open spec fn closing_paren(s: Seq<char>, open: int) -> Option<int> {
    first_closing(s, open, open)
}

/// What `first_closing` finds.
pub proof fn lemma_first_closing(s: Seq<char>, open: int, from: int)
    ensures
        match first_closing(s, open, from) {
            Some(k) => from <= k < s.len() && closes_at(s, open, k) && forall|j: int|
                from <= j < k ==> !closes_at(s, open, j),
            None => forall|j: int| from <= j < s.len() ==> !closes_at(s, open, j),
        },
    decreases s.len() - from,
{
    if from < s.len() && !closes_at(s, open, from) {
        lemma_first_closing(s, open, from + 1);
    }
}

/// The position of the parenthesis that closes the one at `open_index`, if there is one.
pub fn matching_paren(characters: &[char], open_index: usize) -> (r: Option<usize>)
    ensures
        match r {
            Some(k) => closing_paren(characters@, open_index as int) == Some(k as int),
            None => closing_paren(characters@, open_index as int) is None,
        },
        r matches Some(k) ==> open_index <= k < characters@.len(),
{
    let mut depth: i128 = 0;
    let mut index: usize = open_index;
    let n: usize = characters.len();
    while index < n
        invariant
            n == characters@.len(),
            open_index <= index,
            index <= n || index == open_index,
            depth == balance(characters@, open_index as int, index as int),
            -(index - open_index) <= depth <= index - open_index,
            closing_paren(characters@, open_index as int) == first_closing(
                characters@,
                open_index as int,
                index as int,
            ),
        decreases n - index,
    {
        let character = characters[index];
        if character == '(' {
            depth = depth + 1;
        } else if character == ')' {
            depth = depth - 1;
            if depth == 0 {
                return Some(index);
            }
        }
        index = index + 1;
    }
    None
}

/// Where a link stands: its label is `start..end`, and the text goes on at `next`.
pub struct LinkSpan {
    pub start: int,
    pub end: int,
    pub next: int,
}

/// The link or image that begins at position `i`: `[label](target)` or `![label](target)`.
pub open spec fn link_at(s: Seq<char>, i: int) -> Option<LinkSpan> {
    let image = s[i] == '!' && i + 1 < s.len() && s[i + 1] == '[';
    if s[i] != '[' && !image {
        None
    } else {
        let start = if image {
            i + 2
        } else {
            i + 1
        };
        let end = find_from(s, ']', start);
        if end + 1 < s.len() && s[end + 1] == '(' {
            match closing_paren(s, end + 1) {
                Some(close) => Some(LinkSpan { start, end, next: close + 1 }),
                None => None,
            }
        } else {
            None
        }
    }
}

/// The position after the automatic link (`<https://...>`) that begins at position `i`.
pub open spec fn autolink_at(s: Seq<char>, i: int) -> Option<int> {
    let end = find_from(s, '>', i + 1);
    if s[i] == '<' && end < s.len() && is_address(s.subrange(i + 1, end)) {
        Some(end + 1)
    } else {
        None
    }
}

/// What an automatic link may hold.
pub open spec fn is_address(s: Seq<char>) -> bool {
    starts_with(s, "http://"@) || starts_with(s, "https://"@) || starts_with(s, "mailto:"@)
}

/// A link lies within the text, and its label is shorter than the text.
pub proof fn lemma_link_at(s: Seq<char>, i: int)
    requires
        0 <= i < s.len(),
    ensures
        link_at(s, i) matches Some(link) ==> i < link.start <= link.end < link.next <= s.len()
            && link.start <= i + 2 && s[link.end] == ']' && s[link.end + 1] == '(',
{
    let image = s[i] == '!' && i + 1 < s.len() && s[i + 1] == '[';
    let start = if image {
        i + 2
    } else {
        i + 1
    };
    if start <= s.len() {
        lemma_find_from(s, ']', start);
        let end = find_from(s, ']', start);
        lemma_first_closing(s, end + 1, end + 1);
    }
}

/// An automatic link lies within the text.
pub proof fn lemma_autolink_at(s: Seq<char>, i: int)
    requires
        0 <= i < s.len(),
    ensures
        autolink_at(s, i) matches Some(next) ==> i < next <= s.len(),
{
    lemma_find_from(s, '>', i + 1);
}

/// The link or image that begins at position `i`, as label start, label end and next position.
fn find_link(s: &[char], i: usize) -> (r: Option<(usize, usize, usize)>)
    requires
        i < s@.len(),
    ensures
        match r {
            Some((start, end, next)) => link_at(s@, i as int) == Some(
                LinkSpan { start: start as int, end: end as int, next: next as int },
            ),
            None => link_at(s@, i as int) is None,
        },
{
    let n: usize = s.len();
    let image = s[i] == '!' && i + 1 < n && s[i + 1] == '[';
    if s[i] != '[' && !image {
        return None;
    }
    let start: usize = if image {
        i + 2
    } else {
        i + 1
    };
    let end: usize = find_char(s, ']', start);
    if end < n && end + 1 < n && s[end + 1] == '(' {
        match matching_paren(s, end + 1) {
            Some(close) => Some((start, end, close + 1)),
            None => None,
        }
    } else {
        None
    }
}

/// The position after the automatic link that begins at position `i`.
fn find_autolink(s: &[char], i: usize) -> (r: Option<usize>)
    requires
        i < s@.len(),
    ensures
        match r {
            Some(next) => autolink_at(s@, i as int) == Some(next as int),
            None => autolink_at(s@, i as int) is None,
        },
{
    if s[i] != '<' {
        return None;
    }
    let end: usize = find_char(s, '>', i + 1);
    if end >= s.len() {
        return None;
    }
    let candidate = slice_subrange(s, i + 1, end);
    if has_prefix(candidate, "http://") || has_prefix(candidate, "https://") || has_prefix(
        candidate,
        "mailto:",
    ) {
        Some(end + 1)
    } else {
        None
    }
}

// ---------------------------------------------------------------------------
// Inline marks
// ---------------------------------------------------------------------------

/// The characters that only mark emphasis or code.
pub open spec fn is_mark(c: char) -> bool {
    c == '`' || c == '*' || c == '_' || c == '~'
}

/// What the text of `s` from position `i` on reads as: a backslash keeps the character after it,
/// marks go, a link reads as its label, an automatic link goes, and anything else stays.
pub open spec fn inline_from(s: Seq<char>, i: int) -> Seq<char>
    decreases s.len(), s.len() - i,
{
    if i < 0 || i >= s.len() {
        Seq::empty()
    } else if s[i] == '\\' && i + 1 < s.len() {
        seq![s[i + 1]] + inline_from(s, i + 2)
    } else if is_mark(s[i]) {
        inline_from(s, i + 1)
    } else {
        proof {
            lemma_link_at(s, i);
            lemma_autolink_at(s, i);
        }
        match link_at(s, i) {
            Some(link) => collapse(inline_from(s.subrange(link.start, link.end), 0)) + inline_from(
                s,
                link.next,
            ),
            None => match autolink_at(s, i) {
                Some(next) => inline_from(s, next),
                None => seq![s[i]] + inline_from(s, i + 1),
            },
        }
    }
}

/// A line of Markdown as it is spoken: inline marks removed, white space collapsed.
pub open spec fn inline_text(s: Seq<char>) -> Seq<char> {
    collapse(inline_from(s, 0))
}

/// A line of Markdown as it is spoken.
fn inline_chars(s: &[char]) -> (r: Vec<char>)
    ensures
        r@ == inline_text(s@),
    decreases s@.len(),
{
    let mut output: Vec<char> = Vec::new();
    let mut index: usize = 0;
    let n: usize = s.len();
    while index < n
        invariant
            n == s@.len(),
            index <= n,
            inline_from(s@, 0) == output@ + inline_from(s@, index as int),
        decreases n - index,
    {
        let character = s[index];
        let ghost start = output@;
        let ghost at = index as int;
        proof {
            lemma_link_at(s@, at);
            lemma_autolink_at(s@, at);
        }
        if character == '\\' && index + 1 < n {
            output.push(s[index + 1]);
            index = index + 2;
            proof {
                assert(output@ + inline_from(s@, index as int) =~= start + (seq![s@[at + 1]]
                    + inline_from(s@, index as int)));
            }
        } else if character == '`' || character == '*' || character == '_' || character == '~' {
            index = index + 1;
        } else {
            match find_link(s, index) {
                Some((label_start, label_end, next)) => {
                    let label = slice_subrange(s, label_start, label_end);
                    let spoken = inline_chars(label);
                    append_chars(&mut output, spoken.as_slice());
                    index = next;
                    proof {
                        assert(output@ + inline_from(s@, index as int) =~= start + (spoken@
                            + inline_from(s@, index as int)));
                    }
                },
                None => {
                    match find_autolink(s, index) {
                        Some(next) => {
                            index = next;
                        },
                        None => {
                            output.push(character);
                            index = index + 1;
                            proof {
                                assert(output@ + inline_from(s@, index as int) =~= start + (
                                seq![character] + inline_from(s@, index as int)));
                            }
                        },
                    }
                },
            }
        }
    }
    proof {
        assert(output@ + inline_from(s@, index as int) =~= output@);
    }
    collapsed(output.as_slice())
}

/// A line of Markdown as it is spoken: inline marks removed, white space collapsed.
pub fn strip_inline_markdown(line: &str) -> (r: String)
    ensures
        r@ == inline_text(line@),
{
    let chars = to_chars(line);
    let spoken = inline_chars(chars.as_slice());
    to_text(spoken.as_slice())
}

// ---------------------------------------------------------------------------
// Block marks
// ---------------------------------------------------------------------------

/// The test for characters that are not white space.
pub open spec fn is_ink() -> spec_fn(char) -> bool {
    |c: char| !is_white(c)
}

/// The characters that a horizontal rule is made of.
pub open spec fn is_rule_mark(c: char) -> bool {
    c == '-' || c == '*' || c == '_'
}

/// True for a horizontal rule: at least three marks and, white space aside, nothing else.
pub open spec fn is_rule(line: Seq<char>) -> bool {
    let marks = line.filter(is_ink());
    marks.len() >= 3 && forall|i: int| 0 <= i < marks.len() ==> is_rule_mark(#[trigger] marks[i])
}

/// True for a horizontal rule.
fn rule_chars(line: &[char]) -> (r: bool)
    ensures
        r == is_rule(line@),
{
    let mut count: usize = 0;
    let mut only_marks = true;
    let mut i: usize = 0;
    let ghost ink = is_ink();
    proof {
        reveal(Seq::filter);
        assert(line@.take(0) =~= Seq::<char>::empty());
    }
    while i < line.len()
        invariant
            i <= line@.len(),
            count <= i,
            ink == is_ink(),
            count == line@.take(i as int).filter(ink).len(),
            only_marks == (forall|j: int|
                0 <= j < line@.take(i as int).filter(ink).len() ==> is_rule_mark(
                    #[trigger] line@.take(i as int).filter(ink)[j],
                )),
        decreases line@.len() - i,
    {
        let c = line[i];
        let ghost before = line@.take(i as int).filter(ink);
        let ghost after = line@.take(i + 1).filter(ink);
        proof {
            reveal(Seq::filter);
            assert(line@.take(i + 1).drop_last() =~= line@.take(i as int));
            assert(ink(c) == !is_white(c));
            if ink(c) {
                assert(after == before.push(c));
            } else {
                assert(after == before);
            }
        }
        if !is_whitespace(c) {
            count = count + 1;
            if !(c == '-' || c == '*' || c == '_') {
                only_marks = false;
                proof {
                    assert(after[after.len() - 1] == c);
                }
            }
            proof {
                if only_marks {
                    assert forall|j: int| 0 <= j < after.len() implies is_rule_mark(
                        #[trigger] after[j],
                    ) by {
                        if j < before.len() {
                            assert(after[j] == before[j]);
                        }
                    }
                } else if is_rule_mark(c) {
                    let j = choose|j: int| 0 <= j < before.len() && !is_rule_mark(before[j]);
                    assert(after[j] == before[j]);
                }
            }
        }
        i = i + 1;
    }
    proof {
        assert(line@.take(i as int) =~= line@);
    }
    count >= 3 && only_marks
}

/// True for a horizontal rule.
pub fn is_horizontal_rule(line: &str) -> (r: bool)
    ensures
        r == is_rule(line@),
{
    let chars = to_chars(line);
    rule_chars(chars.as_slice())
}

/// `s` without its leading `#` characters.
pub open spec fn without_hashes(s: Seq<char>) -> Seq<char>
    decreases s.len(),
{
    if s.len() > 0 && s[0] == '#' {
        without_hashes(s.skip(1))
    } else {
        s
    }
}

/// The number of decimal digits that `s` begins with.
pub open spec fn digit_count(s: Seq<char>) -> int
    decreases s.len(),
{
    if s.len() > 0 && is_digit(s[0]) {
        1 + digit_count(s.skip(1))
    } else {
        0
    }
}

/// `s` without the mark of a quotation.
pub open spec fn without_quote(s: Seq<char>) -> Seq<char> {
    if s.len() > 0 && s[0] == '>' {
        trim_start(s.skip(1))
    } else {
        s
    }
}

/// `s` without the mark of a bulleted item.
pub open spec fn without_bullet(s: Seq<char>) -> Seq<char> {
    if starts_with(s, "- "@) || starts_with(s, "* "@) || starts_with(s, "+ "@) {
        s.skip(2)
    } else {
        s
    }
}

/// `s` without the number of a numbered item (`1. ` or `1) `).
pub open spec fn without_number(s: Seq<char>) -> Seq<char> {
    let n = digit_count(s);
    if n > 0 && (starts_with(s.skip(n), ". "@) || starts_with(s.skip(n), ") "@)) {
        s.skip(n + 2)
    } else {
        s
    }
}

/// A line without the marks of quotation, heading and list item.
pub open spec fn block_text(line: Seq<char>) -> Seq<char> {
    without_number(without_bullet(trim_start(without_hashes(without_quote(line)))))
}

/// Digits are counted within the text.
pub proof fn lemma_digit_count(s: Seq<char>)
    ensures
        0 <= digit_count(s) <= s.len(),
    decreases s.len(),
{
    if s.len() > 0 && is_digit(s[0]) {
        lemma_digit_count(s.skip(1));
    }
}

/// A line without the marks of quotation, heading and list item.
fn block_chars(line: &[char]) -> (r: &[char])
    ensures
        r@ == block_text(line@),
{
    let quoted: &[char] = if line.len() > 0 && line[0] == '>' {
        proof {
            assert(line@.subrange(1, line@.len() as int) =~= line@.skip(1));
        }
        trimmed_start(slice_subrange(line, 1, line.len()))
    } else {
        line
    };
    let mut hashes: usize = 0;
    proof {
        assert(quoted@.skip(0) =~= quoted@);
    }
    while hashes < quoted.len() && quoted[hashes] == '#'
        invariant
            hashes <= quoted@.len(),
            without_hashes(quoted@) == without_hashes(quoted@.skip(hashes as int)),
        decreases quoted@.len() - hashes,
    {
        proof {
            assert(quoted@.skip(hashes as int).skip(1) =~= quoted@.skip(hashes + 1));
        }
        hashes = hashes + 1;
    }
    proof {
        assert(quoted@.subrange(hashes as int, quoted@.len() as int) =~= quoted@.skip(
            hashes as int,
        ));
    }
    let heading = trimmed_start(slice_subrange(quoted, hashes, quoted.len()));
    proof {
        reveal_strlit("- ");
        reveal_strlit("* ");
        reveal_strlit("+ ");
        reveal_strlit(". ");
        reveal_strlit(") ");
    }
    let item: &[char] = if has_prefix(heading, "- ") || has_prefix(heading, "* ") || has_prefix(
        heading,
        "+ ",
    ) {
        proof {
            assert(heading@.subrange(2, heading@.len() as int) =~= heading@.skip(2));
        }
        slice_subrange(heading, 2, heading.len())
    } else {
        heading
    };
    let mut digits: usize = 0;
    proof {
        assert(item@.skip(0) =~= item@);
        lemma_digit_count(item@);
    }
    while digits < item.len() && '0' <= item[digits] && item[digits] <= '9'
        invariant
            digits <= item@.len(),
            digit_count(item@) == digits + digit_count(item@.skip(digits as int)),
        decreases item@.len() - digits,
    {
        proof {
            assert(item@.skip(digits as int).skip(1) =~= item@.skip(digits + 1));
        }
        digits = digits + 1;
    }
    proof {
        assert(item@.subrange(digits as int, item@.len() as int) =~= item@.skip(digits as int));
    }
    let after = slice_subrange(item, digits, item.len());
    if digits > 0 && (has_prefix(after, ". ") || has_prefix(after, ") ")) {
        proof {
            assert(item@.subrange(digits + 2, item@.len() as int) =~= item@.skip(digits + 2));
        }
        slice_subrange(item, digits + 2, item.len())
    } else {
        item
    }
}

/// A line without the marks of quotation, heading and list item.
pub fn strip_block_markers(line: &str) -> (r: String)
    ensures
        r@ == block_text(line@),
{
    let chars = to_chars(line);
    to_text(block_chars(chars.as_slice()))
}

// ---------------------------------------------------------------------------
// Whole texts
// ---------------------------------------------------------------------------

/// True for a line that opens or closes a block of code.
pub open spec fn is_fence(line: Seq<char>) -> bool {
    starts_with(line, "```"@) || starts_with(line, "~~~"@)
}

/// What one trimmed line reads as, outside or inside a block of code.
pub open spec fn spoken_line(line: Seq<char>, in_code: bool) -> Seq<char> {
    if in_code {
        inline_text(line)
    } else {
        inline_text(block_text(line))
    }
}

/// True when the lines of `source` leave a block of code open.
pub open spec fn in_code_after(source: Seq<Seq<char>>) -> bool
    decreases source.len(),
{
    if source.len() == 0 {
        false
    } else if is_fence(trim(source.last())) {
        !in_code_after(source.drop_last())
    } else {
        in_code_after(source.drop_last())
    }
}

/// The spoken lines of a text: fences, horizontal rules outside code, and lines with nothing to
/// say are left out.
pub open spec fn spoken_lines(source: Seq<Seq<char>>) -> Seq<Seq<char>>
    decreases source.len(),
{
    if source.len() == 0 {
        Seq::empty()
    } else {
        let before = spoken_lines(source.drop_last());
        let in_code = in_code_after(source.drop_last());
        let line = trim(source.last());
        if is_fence(line) || (!in_code && is_rule(line)) || spoken_line(line, in_code).len() == 0 {
            before
        } else {
            before.push(spoken_line(line, in_code))
        }
    }
}

/// The plain, speakable rendering of a Markdown text.
pub open spec fn speech(body: Seq<char>) -> Seq<char> {
    join(spoken_lines(lines(without(body, '\r'))), seq!['\n'])
}

/// The plain, speakable rendering of a Markdown text, as characters.
fn speech_chars(body: &[char]) -> (r: Vec<char>)
    ensures
        r@ == speech(body@),
{
    let clean = removed(body, '\r');
    let source = split_lines(clean.as_slice());
    let ghost all = texts(source@);
    let mut in_fenced_code = false;
    let mut spoken: Vec<Vec<char>> = Vec::new();
    let mut i: usize = 0;
    proof {
        assert(all.take(0) =~= Seq::<Seq<char>>::empty());
        assert(texts(spoken@) =~= Seq::<Seq<char>>::empty());
    }
    while i < source.len()
        invariant
            i <= source@.len(),
            all == texts(source@),
            in_fenced_code == in_code_after(all.take(i as int)),
            texts(spoken@) == spoken_lines(all.take(i as int)),
        decreases source@.len() - i,
    {
        proof {
            assert(all.take(i + 1).drop_last() =~= all.take(i as int));
            assert(all.take(i + 1).last() == source@[i as int]@);
        }
        let line = trimmed(source[i].as_slice());
        if has_prefix(line, "```") || has_prefix(line, "~~~") {
            in_fenced_code = !in_fenced_code;
        } else if in_fenced_code || !rule_chars(line) {
            let said = if in_fenced_code {
                inline_chars(line)
            } else {
                inline_chars(block_chars(line))
            };
            if said.len() > 0 {
                let ghost before = texts(spoken@);
                let ghost words_said = said@;
                spoken.push(said);
                proof {
                    assert(texts(spoken@) =~= before.push(words_said));
                }
            }
        }
        i = i + 1;
    }
    proof {
        assert(all.take(i as int) =~= all);
    }
    join_chars(&spoken, '\n')
}

/// The plain, speakable rendering of a Markdown text. It keeps what a person would read (link
/// labels and code among it) and drops marks and link targets.
pub fn speech_text(body: &str) -> (r: String)
    ensures
        r@ == speech(body@),
{
    let chars = to_chars(body);
    let spoken = speech_chars(chars.as_slice());
    to_text(spoken.as_slice())
}

// ---------------------------------------------------------------------------
// Overviews
// ---------------------------------------------------------------------------

/// The first `k` words, with single spaces between them.
pub open spec fn first_words(all: Seq<Seq<char>>, k: int) -> Seq<char> {
    join(all.take(k), seq![' '])
}

/// True when word `k` still fits behind the words before it. A word weighs its UTF-8 bytes.
pub open spec fn fits(all: Seq<Seq<char>>, k: int) -> bool {
    first_words(all, k).len() + encode_utf8(all[k]).len() + if k > 0 {
        1int
    } else {
        0int
    } <= MAX_OVERVIEW_CHARS
}

/// The number of words taken when the first `k` are taken already.
pub open spec fn overview_from(all: Seq<Seq<char>>, k: int) -> int
    decreases all.len() - k,
{
    if k < all.len() && fits(all, k) {
        overview_from(all, k + 1)
    } else {
        k
    }
}

/// The spoken overview of a Markdown text: as many leading words as fit, or the whole speech
/// when not even the first word fits.
pub open spec fn overview(body: Seq<char>) -> Seq<char> {
    let all = words(speech(body));
    let k = overview_from(all, 0);
    if k == 0 {
        speech(body)
    } else {
        first_words(all, k)
    }
}

/// The spoken overview of a Markdown text.
pub fn spoken_overview(body: &str) -> (r: String)
    ensures
        r@ == overview(body@),
{
    let chars = to_chars(body);
    let spoken = speech_chars(chars.as_slice());
    let parts = split_words(spoken.as_slice());
    let ghost all = texts(parts@);
    let mut taken: Vec<char> = Vec::new();
    let mut k: usize = 0;
    let mut full = false;
    proof {
        assert(all.take(0) =~= Seq::<Seq<char>>::empty());
        lemma_words_nonempty(spoken@);
    }
    while k < parts.len() && !full
        invariant
            k <= parts@.len(),
            all == texts(parts@),
            taken@ == first_words(all, k as int),
            taken@.len() <= MAX_OVERVIEW_CHARS,
            k > 0 <==> taken@.len() > 0,
            forall|i: int| 0 <= i < all.len() ==> (#[trigger] all[i]).len() > 0,
            overview_from(all, 0) == overview_from(all, k as int),
            full ==> k < all.len() && !fits(all, k as int),
        decreases
                parts@.len() - k,
                if full {
                    0int
                } else {
                    1int
                },
    {
        let word = to_text(parts[k].as_slice());
        proof {
            assert(all[k as int] == word@);
        }
        let weight: usize = word.as_str().as_bytes().len();
        let gap: usize = if k > 0 {
            1
        } else {
            0
        };
        if weight > MAX_OVERVIEW_CHARS || taken.len() + weight + gap > MAX_OVERVIEW_CHARS {
            full = true;
        } else {
            let ghost start = taken@;
            if k > 0 {
                taken.push(' ');
            }
            append_chars(&mut taken, parts[k].as_slice());
            proof {
                assert(all.take(k + 1).drop_last() =~= all.take(k as int));
                if k > 0 {
                    assert(taken@ =~= start + seq![' '] + word@);
                } else {
                    assert(taken@ =~= word@);
                }
                lemma_weight(word@);
            }
            k = k + 1;
        }
    }
    if k == 0 {
        to_text(spoken.as_slice())
    } else {
        to_text(taken.as_slice())
    }
}

/// A text has at least as many bytes as characters.
pub proof fn lemma_weight(s: Seq<char>)
    ensures
        encode_utf8(s).len() >= s.len(),
    decreases s.len(),
{
    if s.len() > 0 {
        lemma_weight(s.drop_first());
    }
}

} // verus!
