//! What holds of every spoken rendering.

use vstd::prelude::*;
use vstd::utf8::encode_utf8;

use crate::speech::{
    autolink_at, balance, block_text, closes_at, closing_paren, first_closing, first_words, fits,
    in_code_after, inline_from, inline_text, is_address, is_fence, is_mark, is_rule,
    lemma_autolink_at, lemma_first_closing, lemma_link_at, lemma_weight, link_at, overview,
    overview_from, speech, spoken_line, spoken_lines, LinkSpan, MAX_OVERVIEW_CHARS,
};
use crate::text::{
    collapse, find_from, is_white, join, lemma_find_from, lemma_words_nonempty, lemma_words_open,
    lines, trim, without, words,
};

verus! {

// ---------------------------------------------------------------------------
// Words
// ---------------------------------------------------------------------------

/// True for a word: not empty, and without white space.
pub open spec fn is_word(s: Seq<char>) -> bool {
    s.len() > 0 && forall|i: int| 0 <= i < s.len() ==> !is_white(#[trigger] s[i])
}

/// The words of a text are words.
proof fn lemma_words_are_words(s: Seq<char>)
    ensures
        forall|i: int| 0 <= i < words(s).len() ==> is_word(#[trigger] words(s)[i]),
    decreases s.len(),
{
    lemma_words_nonempty(s);
    if s.len() > 0 {
        let shorter = s.drop_last();
        lemma_words_are_words(shorter);
        let before = words(shorter);
        let all = words(s);
        assert forall|i: int| 0 <= i < all.len() implies is_word(#[trigger] all[i]) by {
            if !is_white(s.last()) {
                if s.len() >= 2 && !is_white(s[s.len() - 2]) {
                    lemma_words_open(shorter);
                    if i < all.len() - 1 {
                        assert(all[i] == before[i]);
                    } else {
                        assert(is_word(before[before.len() - 1]));
                        assert(all[i] == before.last().push(s.last()));
                    }
                } else if i < before.len() {
                    assert(all[i] == before[i]);
                }
            } else {
                assert(all[i] == before[i]);
            }
        }
    }
}

/// A word behind a text that is empty or ends in white space is one more word.
proof fn lemma_words_append(s: Seq<char>, word: Seq<char>)
    requires
        is_word(word),
        s.len() == 0 || is_white(s.last()),
    ensures
        words(s + word) == words(s).push(word),
    decreases word.len(),
{
    let t = s + word;
    let shorter = word.drop_last();
    assert(t.drop_last() =~= s + shorter);
    assert(t.last() == word.last());
    assert(!is_white(word[word.len() - 1]));
    if word.len() == 1 {
        assert(s + shorter =~= s);
        assert(word =~= seq![word.last()]);
        if s.len() > 0 {
            assert(t[t.len() - 2] == s.last());
        }
    } else {
        assert(is_word(shorter)) by {
            assert forall|i: int| 0 <= i < shorter.len() implies !is_white(#[trigger] shorter[i]) by {
                assert(shorter[i] == word[i]);
            }
        }
        lemma_words_append(s, shorter);
        assert(t[t.len() - 2] == word[word.len() - 2]);
        let before = words(s).push(shorter);
        assert(before.drop_last() =~= words(s));
        assert(before.last().push(t.last()) =~= word);
    }
}

/// The words of words joined by spaces are those words.
pub proof fn lemma_words_of_join(parts: Seq<Seq<char>>)
    requires
        forall|i: int| 0 <= i < parts.len() ==> is_word(#[trigger] parts[i]),
    ensures
        words(join(parts, seq![' '])) == parts,
    decreases parts.len(),
{
    if parts.len() == 0 {
        assert(words(join(parts, seq![' '])) =~= parts);
    } else if parts.len() == 1 {
        let none: Seq<char> = Seq::empty();
        assert(is_word(parts[0]));
        lemma_words_append(none, parts[0]);
        assert(none + parts[0] =~= parts[0]);
        assert(words(none).push(parts[0]) =~= parts);
    } else {
        let rest = parts.drop_last();
        assert forall|i: int| 0 <= i < rest.len() implies is_word(#[trigger] rest[i]) by {
            assert(rest[i] == parts[i]);
        }
        lemma_words_of_join(rest);
        let head = join(rest, seq![' ']) + seq![' '];
        assert(head.drop_last() =~= join(rest, seq![' ']));
        assert(is_white(' '));
        assert(words(head) == rest);
        assert(is_word(parts[parts.len() - 1]));
        lemma_words_append(head, parts.last());
        assert(rest.push(parts.last()) =~= parts);
    }
}

/// Collapsing white space a second time changes nothing, and keeps every word.
pub proof fn law_collapsing_keeps_the_words(s: Seq<char>)
    ensures
        words(collapse(s)) == words(s),
        collapse(collapse(s)) == collapse(s),
{
    lemma_words_are_words(s);
    lemma_words_of_join(words(s));
}

// ---------------------------------------------------------------------------
// Inline marks
// ---------------------------------------------------------------------------

/// True for a character that stands for itself wherever it occurs.
pub open spec fn is_plain(c: char) -> bool {
    c != '\\' && c != '[' && c != '<' && !is_mark(c)
}

/// The test for characters that are not marks.
pub open spec fn is_unmarked() -> spec_fn(char) -> bool {
    |c: char| !is_mark(c)
}

proof fn lemma_filter_first(s: Seq<char>, keep: spec_fn(char) -> bool)
    requires
        s.len() > 0,
    ensures
        s.filter(keep) == if keep(s[0]) {
            seq![s[0]] + s.skip(1).filter(keep)
        } else {
            s.skip(1).filter(keep)
        },
    decreases s.len(),
{
    reveal(Seq::filter);
    let rest = s.skip(1);
    if s.len() == 1 {
        assert(s.drop_last() =~= Seq::<char>::empty());
        assert(rest =~= Seq::<char>::empty());
        assert(rest.filter(keep) =~= Seq::<char>::empty());
        assert(s.last() == s[0]);
        assert(rest.filter(keep).push(s[0]) =~= seq![s[0]]);
        assert(seq![s[0]] + rest.filter(keep) =~= seq![s[0]]);
    } else {
        lemma_filter_first(s.drop_last(), keep);
        assert(s.drop_last().skip(1) =~= rest.drop_last());
        assert(rest.last() == s.last());
        let inner = rest.drop_last().filter(keep);
        if keep(s.last()) {
            assert(seq![s[0]] + inner.push(s.last()) =~= (seq![s[0]] + inner).push(s.last()));
        }
    }
}

proof fn lemma_marks_go(s: Seq<char>, i: int)
    requires
        0 <= i <= s.len(),
        forall|j: int| 0 <= j < s.len() ==> is_plain(#[trigger] s[j]) || is_mark(s[j]),
    ensures
        inline_from(s, i) == s.skip(i).filter(is_unmarked()),
    decreases s.len() - i,
{
    if i == s.len() {
        reveal(Seq::filter);
        assert(s.skip(i) =~= Seq::<char>::empty());
    } else {
        assert(is_plain(s[i]) || is_mark(s[i]));
        lemma_marks_go(s, i + 1);
        lemma_filter_first(s.skip(i), is_unmarked());
        assert(s.skip(i).skip(1) =~= s.skip(i + 1));
        assert(s.skip(i)[0] == s[i]);
        if i + 1 < s.len() {
            assert(is_plain(s[i + 1]) || is_mark(s[i + 1]));
        }
        assert(link_at(s, i) is None);
        assert(autolink_at(s, i) is None);
    }
}

/// Emphasis and code marks are dropped, and what they mark is spoken: of a line of plain
/// characters and marks just the plain characters are left.
pub proof fn law_emphasis_is_dropped(s: Seq<char>)
    requires
        forall|j: int| 0 <= j < s.len() ==> is_plain(#[trigger] s[j]) || is_mark(s[j]),
    ensures
        inline_text(s) == collapse(s.filter(is_unmarked())),
{
    lemma_marks_go(s, 0);
    assert(s.skip(0) =~= s);
}

proof fn lemma_plain_stays(s: Seq<char>, i: int, to: int)
    requires
        0 <= i <= to <= s.len(),
        forall|j: int| i <= j < to ==> is_plain(#[trigger] s[j]),
        i < to && s[to - 1] == '!' ==> to == s.len() || s[to] != '[',
    ensures
        inline_from(s, i) == s.subrange(i, to) + inline_from(s, to),
    decreases to - i,
{
    if i < to {
        assert(is_plain(s[i]));
        if i + 1 < to {
            assert(is_plain(s[i + 1]));
        }
        lemma_plain_stays(s, i + 1, to);
        assert(s.subrange(i, to) =~= seq![s[i]] + s.subrange(i + 1, to));
        assert(seq![s[i]] + (s.subrange(i + 1, to) + inline_from(s, to)) =~= seq![s[i]]
            + s.subrange(i + 1, to) + inline_from(s, to));
    } else {
        assert(s.subrange(i, to) + inline_from(s, to) =~= inline_from(s, to));
    }
}

/// Plain text is spoken as it is, but for its white space.
pub proof fn law_plain_text_is_spoken_as_it_is(s: Seq<char>)
    requires
        forall|j: int| 0 <= j < s.len() ==> is_plain(#[trigger] s[j]),
    ensures
        inline_text(s) == collapse(s),
{
    law_emphasis_is_dropped(s);
    lemma_filter_all(s);
}

proof fn lemma_filter_all(s: Seq<char>)
    requires
        forall|j: int| 0 <= j < s.len() ==> !is_mark(#[trigger] s[j]),
    ensures
        s.filter(is_unmarked()) == s,
    decreases s.len(),
{
    reveal(Seq::filter);
    if s.len() == 0 {
        assert(s.filter(is_unmarked()) =~= s);
    } else {
        let shorter = s.drop_last();
        assert forall|j: int| 0 <= j < shorter.len() implies !is_mark(#[trigger] shorter[j]) by {
            assert(shorter[j] == s[j]);
        }
        lemma_filter_all(shorter);
        assert(!is_mark(s[s.len() - 1]));
        assert(shorter.push(s.last()) =~= s);
    }
}

// ---------------------------------------------------------------------------
// Links
// ---------------------------------------------------------------------------

proof fn lemma_find_shift(s: Seq<char>, c: char, k: int, from: int)
    requires
        0 <= k <= s.len(),
        0 <= from <= s.len() - k,
    ensures
        find_from(s, c, k + from) == k + find_from(s.skip(k), c, from),
    decreases s.len() - from,
{
    if k + from < s.len() && s[k + from] != c {
        lemma_find_shift(s, c, k, from + 1);
    }
}

proof fn lemma_balance_shift(s: Seq<char>, k: int, from: int, to: int)
    requires
        0 <= k <= s.len(),
        0 <= from,
        to <= s.len() - k,
    ensures
        balance(s, k + from, k + to) == balance(s.skip(k), from, to),
    decreases to - from,
{
    if from < to {
        lemma_balance_shift(s, k, from, to - 1);
    }
}

proof fn lemma_closing_shift(s: Seq<char>, k: int, open: int, from: int)
    requires
        0 <= k <= s.len(),
        0 <= open <= from <= s.len() - k,
    ensures
        first_closing(s, k + open, k + from) == match first_closing(s.skip(k), open, from) {
            Some(i) => Some(k + i),
            None => None,
        },
    decreases s.len() - from,
{
    if k + from < s.len() {
        lemma_balance_shift(s, k, open, from + 1);
        lemma_closing_shift(s, k, open, from + 1);
    }
}

/// What is spoken of the rest of a line does not depend on what stands before it.
pub proof fn lemma_inline_shift(s: Seq<char>, k: int, i: int)
    requires
        0 <= k <= s.len(),
        0 <= i,
    ensures
        inline_from(s, k + i) == inline_from(s.skip(k), i),
    decreases s.len() - i,
{
    let t = s.skip(k);
    if k + i < s.len() {
        assert(t[i] == s[k + i]);
        if s[k + i] == '\\' && k + i + 1 < s.len() {
            assert(t[i + 1] == s[k + i + 1]);
            lemma_inline_shift(s, k, i + 2);
        } else if is_mark(s[k + i]) {
            lemma_inline_shift(s, k, i + 1);
        } else {
            lemma_link_at(t, i);
            lemma_link_at(s, k + i);
            lemma_autolink_at(t, i);
            lemma_autolink_at(s, k + i);
            if i + 1 < t.len() {
                assert(t[i + 1] == s[k + i + 1]);
                lemma_find_shift(s, ']', k, i + 1);
            }
            if i + 2 <= t.len() {
                lemma_find_shift(s, ']', k, i + 2);
            }
            lemma_find_shift(s, '>', k, i + 1);
            let image = t[i] == '!' && i + 1 < t.len() && t[i + 1] == '[';
            if t[i] == '[' || image {
                let start = if image {
                    i + 2
                } else {
                    i + 1
                };
                let end = find_from(t, ']', start);
                lemma_find_from(t, ']', start);
                if end + 1 < t.len() {
                    assert(t[end + 1] == s[k + end + 1]);
                    lemma_closing_shift(s, k, end + 1, end + 1);
                }
            }
            match link_at(t, i) {
                Some(link) => {
                    assert(link_at(s, k + i) == Some(
                        LinkSpan {
                            start: k + link.start,
                            end: k + link.end,
                            next: k + link.next,
                        },
                    ));
                    assert(t.subrange(link.start, link.end) =~= s.subrange(
                        k + link.start,
                        k + link.end,
                    ));
                    lemma_inline_shift(s, k, link.next);
                },
                None => {
                    assert(link_at(s, k + i) is None);
                    let end = find_from(t, '>', i + 1);
                    lemma_find_from(t, '>', i + 1);
                    assert(t.subrange(i + 1, end) =~= s.subrange(k + i + 1, k + end));
                    match autolink_at(t, i) {
                        Some(next) => lemma_inline_shift(s, k, next),
                        None => lemma_inline_shift(s, k, i + 1),
                    }
                },
            }
        }
    }
}

/// The line made of these parts.
pub open spec fn line_with_link(
    before: Seq<char>,
    opening: Seq<char>,
    label: Seq<char>,
    target: Seq<char>,
    after: Seq<char>,
) -> Seq<char> {
    before + opening + label + seq![']', '('] + target + seq![')'] + after
}

/// True when the parentheses of a text pair up.
pub open spec fn is_balanced(s: Seq<char>) -> bool {
    balance(s, 0, s.len() as int) == 0 && forall|j: int|
        0 <= j <= s.len() ==> #[trigger] balance(s, 0, j) >= 0
}

pub proof fn lemma_target_balance(s: Seq<char>, open: int, target: Seq<char>, j: int)
    requires
        0 <= open,
        open + 1 + target.len() <= s.len(),
        s[open] == '(',
        s.subrange(open + 1, open + 1 + target.len()) == target,
        0 <= j <= target.len(),
    ensures
        balance(s, open, open + 1 + j) == 1 + balance(target, 0, j),
    decreases j,
{
    if j > 0 {
        lemma_target_balance(s, open, target, j - 1);
        assert(s[open + j] == s.subrange(open + 1, open + 1 + target.len())[j - 1]);
    } else {
        assert(balance(s, open, open) == 0);
    }
}

/// A link or an image is spoken as its label: nothing of its target is left. The text before it
/// is plain here, and the parentheses in the target pair up; what follows is spoken as it would
/// be alone.
pub proof fn law_link_is_spoken_as_its_label(
    before: Seq<char>,
    image: bool,
    label: Seq<char>,
    target: Seq<char>,
    after: Seq<char>,
)
    requires
        forall|j: int| 0 <= j < before.len() ==> is_plain(#[trigger] before[j]),
        !image && before.len() > 0 ==> before.last() != '!',
        !label.contains(']'),
        is_balanced(target),
    ensures
        ({
            let opening = if image {
                seq!['!', '[']
            } else {
                seq!['[']
            };
            inline_from(line_with_link(before, opening, label, target, after), 0) == before
                + inline_text(label) + inline_from(after, 0)
        }),
{
    let opening = if image {
        seq!['!', '[']
    } else {
        seq!['[']
    };
    let s = line_with_link(before, opening, label, target, after);
    let i = before.len() as int;
    let start = i + opening.len();
    let end = start + label.len();
    let close = end + 2 + target.len();
    assert forall|j: int| 0 <= j < i implies is_plain(#[trigger] s[j]) by {
        assert(s[j] == before[j]);
    }
    assert(s[i] == opening[0]);
    if i > 0 {
        assert(s[i - 1] == before.last());
    }
    lemma_plain_stays(s, 0, i);
    assert(s.subrange(0, i) =~= before);
    assert(s[start - 1] == '[');
    assert(s[end] == ']');
    assert(s[end + 1] == '(');
    assert(s[close] == ')');
    assert forall|j: int| start <= j < end implies s[j] != ']' by {
        assert(s[j] == label[j - start]);
        assert(label.contains(label[j - start]));
    }
    lemma_find_from(s, ']', start);
    assert(find_from(s, ']', start) == end) by {
        let found = find_from(s, ']', start);
        if found < end {
            assert(s[found] == ']');
        }
        if found > end {
            assert(s[end] != ']');
        }
    }
    assert(s.subrange(end + 2, end + 2 + target.len()) =~= target);
    lemma_first_closing(s, end + 1, end + 1);
    lemma_target_balance(s, end + 1, target, target.len() as int);
    assert(closes_at(s, end + 1, close));
    assert(closing_paren(s, end + 1) == Some(close)) by {
        match first_closing(s, end + 1, end + 1) {
            Some(k) => {
                if k < close {
                    assert(closes_at(s, end + 1, k));
                    assert(s[k] == ')');
                    assert(k > end + 1);
                    let j = k - end - 1;
                    lemma_target_balance(s, end + 1, target, j);
                    assert(balance(target, 0, j) >= 0);
                } else if k > close {
                    assert(!closes_at(s, end + 1, close));
                }
            },
            None => {
                assert(!closes_at(s, end + 1, close));
            },
        }
    }
    let link = LinkSpan { start, end, next: close + 1 };
    assert(link_at(s, i) == Some(link));
    let inner = s.subrange(start, end);
    assert(inner =~= label);
    lemma_inline_shift(s, close + 1, 0);
    assert(s.skip(close + 1) =~= after);
    assert(inline_from(s, i) == inline_text(label) + inline_from(after, 0));
    assert(before + (inline_text(label) + inline_from(after, 0)) =~= before + inline_text(label)
        + inline_from(after, 0));
}

/// An automatic link is not spoken at all.
pub proof fn law_automatic_link_is_dropped(
    before: Seq<char>,
    address: Seq<char>,
    after: Seq<char>,
)
    requires
        forall|j: int| 0 <= j < before.len() ==> is_plain(#[trigger] before[j]),
        is_address(address),
        !address.contains('>'),
    ensures
        inline_from(before + seq!['<'] + address + seq!['>'] + after, 0) == before + inline_from(
            after,
            0,
        ),
{
    let s = before + seq!['<'] + address + seq!['>'] + after;
    let i = before.len() as int;
    let end = i + 1 + address.len();
    assert forall|j: int| 0 <= j < i implies is_plain(#[trigger] s[j]) by {
        assert(s[j] == before[j]);
    }
    assert(s[i] == '<');
    assert(s[end] == '>');
    lemma_plain_stays(s, 0, i);
    assert(s.subrange(0, i) =~= before);
    assert forall|j: int| i + 1 <= j < end implies s[j] != '>' by {
        assert(s[j] == address[j - i - 1]);
        assert(address.contains(address[j - i - 1]));
    }
    lemma_find_from(s, '>', i + 1);
    assert(find_from(s, '>', i + 1) == end) by {
        let found = find_from(s, '>', i + 1);
        if found < end {
            assert(s[found] == '>');
        }
        if found > end {
            assert(s[end] != '>');
        }
    }
    assert(s.subrange(i + 1, end) =~= address);
    assert(link_at(s, i) is None);
    assert(autolink_at(s, i) == Some(end + 1));
    lemma_inline_shift(s, end + 1, 0);
    assert(s.skip(end + 1) =~= after);
}

/// An escaped character is spoken, whatever it would have marked.
pub proof fn law_escaped_character_is_spoken(
    before: Seq<char>,
    escaped: char,
    after: Seq<char>,
)
    requires
        forall|j: int| 0 <= j < before.len() ==> is_plain(#[trigger] before[j]),
    ensures
        inline_from(before + seq!['\\', escaped] + after, 0) == before + seq![escaped]
            + inline_from(after, 0),
{
    let s = before + seq!['\\', escaped] + after;
    let i = before.len() as int;
    assert forall|j: int| 0 <= j < i implies is_plain(#[trigger] s[j]) by {
        assert(s[j] == before[j]);
    }
    assert(s[i] == '\\');
    assert(s[i + 1] == escaped);
    lemma_plain_stays(s, 0, i);
    assert(s.subrange(0, i) =~= before);
    lemma_inline_shift(s, i + 2, 0);
    assert(s.skip(i + 2) =~= after);
    assert(before + (seq![escaped] + inline_from(after, 0)) =~= before + seq![escaped]
        + inline_from(after, 0));
}

// ---------------------------------------------------------------------------
// Blocks
// ---------------------------------------------------------------------------

/// The lines that fence code are not spoken, nor are horizontal rules outside code.
pub proof fn law_fences_and_rules_are_not_spoken(source: Seq<Seq<char>>, line: Seq<char>)
    requires
        is_fence(trim(line)) || (is_rule(trim(line)) && !in_code_after(source)),
    ensures
        spoken_lines(source.push(line)) == spoken_lines(source),
{
    assert(source.push(line).drop_last() =~= source);
}

/// A fence opens a block of code or closes the open one; no other line does.
pub proof fn law_fences_alternate(source: Seq<Seq<char>>, line: Seq<char>)
    ensures
        in_code_after(source.push(line)) == (in_code_after(source) != is_fence(trim(line))),
{
    assert(source.push(line).drop_last() =~= source);
}

// ---------------------------------------------------------------------------
// Overviews
// ---------------------------------------------------------------------------

proof fn lemma_overview_from(all: Seq<Seq<char>>, k: int)
    requires
        0 <= k <= all.len(),
        k > 0 ==> first_words(all, k).len() <= MAX_OVERVIEW_CHARS,
    ensures
        k <= overview_from(all, k) <= all.len(),
        overview_from(all, k) > 0 ==> first_words(all, overview_from(all, k)).len()
            <= MAX_OVERVIEW_CHARS,
        overview_from(all, k) < all.len() ==> !fits(all, overview_from(all, k)),
    decreases all.len() - k,
{
    if k < all.len() && fits(all, k) {
        lemma_weight(all[k]);
        assert(all.take(k + 1).drop_last() =~= all.take(k));
        assert(all.take(k + 1).last() == all[k]);
        lemma_overview_from(all, k + 1);
    }
}

/// A text of words joined by spaces ends in a character that is not white space.
proof fn lemma_collapse_ends_in_ink(s: Seq<char>)
    requires
        collapse(s).len() > 0,
    ensures
        !is_white(collapse(s).last()),
{
    let parts = words(s);
    lemma_words_are_words(s);
    assert(parts.len() > 0);
    let last = parts[parts.len() - 1];
    assert(is_word(last));
    assert(!is_white(last[last.len() - 1]));
    if parts.len() > 1 {
        let whole = join(parts.drop_last(), seq![' ']) + seq![' '] + last;
        assert(collapse(s) == whole);
        assert(whole[whole.len() - 1] == last[last.len() - 1]);
    }
}

proof fn lemma_spoken_lines(source: Seq<Seq<char>>)
    ensures
        forall|i: int|
            0 <= i < spoken_lines(source).len() ==> (#[trigger] spoken_lines(source)[i]).len() > 0
                && !is_white(spoken_lines(source)[i].last()),
    decreases source.len(),
{
    if source.len() > 0 {
        let rest = source.drop_last();
        lemma_spoken_lines(rest);
        let line = trim(source.last());
        let in_code = in_code_after(rest);
        let spoken = spoken_line(line, in_code);
        let before = spoken_lines(rest);
        let all = spoken_lines(source);
        if spoken.len() > 0 {
            if in_code {
                lemma_collapse_ends_in_ink(inline_from(line, 0));
            } else {
                lemma_collapse_ends_in_ink(inline_from(block_text(line), 0));
            }
        }
        assert forall|i: int| 0 <= i < all.len() implies (#[trigger] all[i]).len() > 0 && !is_white(
            all[i].last(),
        ) by {
            if i < before.len() {
                assert(all[i] == before[i]);
            } else {
                assert(all[i] == spoken);
            }
        }
    }
}

/// Speech that is not empty has a word.
proof fn lemma_speech_has_words(body: Seq<char>)
    requires
        speech(body).len() > 0,
    ensures
        words(speech(body)).len() > 0,
{
    let parts = spoken_lines(lines(without(body, '\r')));
    lemma_spoken_lines(lines(without(body, '\r')));
    assert(parts.len() > 0);
    let last = parts[parts.len() - 1];
    assert(last.len() > 0 && !is_white(last.last()));
    if parts.len() > 1 {
        let whole = join(parts.drop_last(), seq!['\n']) + seq!['\n'] + last;
        assert(speech(body) == whole);
        assert(whole[whole.len() - 1] == last[last.len() - 1]);
    }
    lemma_words_open(speech(body));
}

/// A spoken overview is at most 420 characters long, unless not even the first word of the
/// speech fits; then it is the whole speech.
pub proof fn law_overview_is_bounded(body: Seq<char>)
    ensures
        ({
            let all = words(speech(body));
            if all.len() > 0 && encode_utf8(all[0]).len() > MAX_OVERVIEW_CHARS {
                overview(body) == speech(body)
            } else {
                overview(body).len() <= MAX_OVERVIEW_CHARS
            }
        }),
{
    let all = words(speech(body));
    if speech(body).len() > 0 {
        lemma_speech_has_words(body);
    }
    assert(all.take(0) =~= Seq::<Seq<char>>::empty());
    lemma_overview_from(all, 0);
}

/// There is an overview exactly when there is something to say.
pub proof fn law_overview_is_empty_only_for_silence(body: Seq<char>)
    ensures
        overview(body).len() == 0 <==> speech(body).len() == 0,
{
    let all = words(speech(body));
    assert(all.take(0) =~= Seq::<Seq<char>>::empty());
    lemma_overview_from(all, 0);
    lemma_words_nonempty(speech(body));
    let k = overview_from(all, 0);
    if k > 0 {
        let taken = all.take(k);
        assert(taken.last() == all[k - 1]);
        assert(all[k - 1].len() > 0);
        if k == 1 {
            assert(join(taken, seq![' ']) == taken[0]);
        } else {
            assert(join(taken, seq![' ']) == join(taken.drop_last(), seq![' ']) + seq![' ']
                + taken.last());
        }
        assert(speech(body).len() > 0);
    }
}

/// An overview consists of the first words of the speech, unbroken and in order; and where it
/// leaves words out, the next one would not have fitted.
pub proof fn law_overview_begins_the_speech(body: Seq<char>)
    ensures
        ({
            let all = words(speech(body));
            let k = overview_from(all, 0);
            &&& 0 <= k <= all.len()
            &&& k > 0 ==> words(overview(body)) == all.take(k)
            &&& k < all.len() ==> !fits(all, k)
        }),
{
    let all = words(speech(body));
    assert(all.take(0) =~= Seq::<Seq<char>>::empty());
    lemma_overview_from(all, 0);
    lemma_words_are_words(speech(body));
    let k = overview_from(all, 0);
    let taken = all.take(k);
    assert forall|i: int| 0 <= i < taken.len() implies is_word(#[trigger] taken[i]) by {
        assert(taken[i] == all[i]);
    }
    lemma_words_of_join(taken);
}

} // verus!
