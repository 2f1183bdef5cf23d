//! What is spoken of a line and of a text, said without reference to how it is found.

use vstd::prelude::*;
use vstd::utf8::encode_utf8;

use crate::speech::{
    autolink_at, balance, block_text, closes_at, closing_paren, digit_count, fits, in_code_after,
    inline_from, inline_text, is_address, is_fence, is_ink, is_mark, is_rule, is_rule_mark,
    lemma_digit_count, lemma_first_closing, lemma_link_at, link_at, overview, overview_from, speech,
    spoken_lines, without_bullet, without_hashes, without_number, without_quote,
};
use crate::speech_laws::{
    is_balanced, law_overview_begins_the_speech, lemma_inline_shift, lemma_target_balance,
};
use crate::text::{
    find_from, is_digit, is_white, join, lemma_find_from, lines, starts_with, trim, trim_start,
    without, words,
};
use crate::text_laws::{
    all_white, law_beginnings_can_be_continued, law_newlines_end_lines, law_taking_a_character_out,
    lemma_trim_start_parts,
};

verus! {

// ---------------------------------------------------------------------------
// Block marks
// ---------------------------------------------------------------------------

/// True for the mark of a quotation, with the white space behind it, or for nothing.
pub open spec fn is_quote_mark(q: Seq<char>) -> bool {
    q.len() == 0 || (q[0] == '>' && all_white(q.skip(1)))
}

/// True for the marks of a heading, with the white space behind them, or for nothing.
pub open spec fn is_heading_mark(h: Seq<char>, hashes: int) -> bool {
    0 <= hashes <= h.len() && (forall|i: int| 0 <= i < hashes ==> #[trigger] h[i] == '#')
        && all_white(h.skip(hashes))
}

/// True for the mark of a bulleted item.
pub open spec fn is_bullet(b: Seq<char>) -> bool {
    b.len() == 2 && (b[0] == '-' || b[0] == '*' || b[0] == '+') && b[1] == ' '
}

/// True for the mark of a numbered item: digits, a full stop or a parenthesis, and a space.
pub open spec fn is_number_mark(m: Seq<char>) -> bool {
    &&& m.len() >= 3
    &&& m[m.len() - 1] == ' '
    &&& m[m.len() - 2] == '.' || m[m.len() - 2] == ')'
    &&& forall|i: int| 0 <= i < m.len() - 2 ==> '0' <= #[trigger] m[i] && m[i] <= '9'
}

/// True when a text begins with a bullet.
pub open spec fn begins_with_bullet(s: Seq<char>) -> bool {
    s.len() >= 2 && is_bullet(s.take(2))
}

/// True when a text begins with the mark of a numbered item.
pub open spec fn begins_with_number(s: Seq<char>) -> bool {
    exists|n: int| 0 <= n <= s.len() && is_number_mark(#[trigger] s.take(n))
}

proof fn lemma_digits_before(s: Seq<char>, n: int)
    requires
        0 <= n < s.len(),
        forall|i: int| 0 <= i < n ==> is_digit(#[trigger] s[i]),
        !is_digit(s[n]),
    ensures
        digit_count(s) == n,
    decreases n,
{
    if n > 0 {
        assert(is_digit(s[0]));
        let rest = s.skip(1);
        assert forall|i: int| 0 <= i < n - 1 implies is_digit(#[trigger] rest[i]) by {
            assert(rest[i] == s[i + 1]);
        }
        lemma_digits_before(rest, n - 1);
    }
}

proof fn lemma_counted_digits(s: Seq<char>)
    ensures
        forall|i: int| 0 <= i < digit_count(s) ==> is_digit(#[trigger] s[i]),
    decreases s.len(),
{
    if s.len() > 0 && is_digit(s[0]) {
        let rest = s.skip(1);
        lemma_digit_count(rest);
        lemma_counted_digits(rest);
        assert(digit_count(s) == digit_count(rest) + 1);
        assert forall|i: int| 0 <= i < digit_count(s) implies is_digit(#[trigger] s[i]) by {
            if i > 0 {
                assert(s[i] == rest[i - 1]);
            }
        }
    }
}

proof fn lemma_two(s: Seq<char>, text: Seq<char>, a: char, b: char)
    requires
        text =~= seq![a, b],
    ensures
        starts_with(s, text) <==> s.len() >= 2 && s[0] == a && s[1] == b,
{
    if starts_with(s, text) {
        assert(s.take(2)[0] == text[0]);
        assert(s.take(2)[1] == text[1]);
    } else if s.len() >= 2 && s[0] == a && s[1] == b {
        assert(s.take(2) =~= text);
    }
}

/// What the mark of a numbered item is to `without_number`.
proof fn lemma_number(s: Seq<char>)
    ensures
        begins_with_number(s) ==> digit_count(s) > 0 && digit_count(s) + 2 <= s.len()
            && is_number_mark(s.take(digit_count(s) + 2)) && without_number(s) == s.skip(
            digit_count(s) + 2,
        ),
        !begins_with_number(s) ==> without_number(s) == s,
{
    reveal_strlit(". ");
    reveal_strlit(") ");
    lemma_digit_count(s);
    lemma_counted_digits(s);
    let n = digit_count(s);
    lemma_two(s.skip(n), ". "@, '.', ' ');
    lemma_two(s.skip(n), ") "@, ')', ' ');
    if begins_with_number(s) {
        let k = choose|k: int| 0 <= k <= s.len() && is_number_mark(#[trigger] s.take(k));
        let m = s.take(k);
        assert forall|i: int| 0 <= i < k - 2 implies is_digit(#[trigger] s[i]) by {
            assert(m[i] == s[i]);
        }
        assert(m[k - 2] == s[k - 2]);
        assert(m[k - 1] == s[k - 1]);
        lemma_digits_before(s, k - 2);
        assert(s.skip(n)[0] == s[k - 2]);
        assert(s.skip(n)[1] == s[k - 1]);
    } else if without_number(s) != s {
        let m = s.take(n + 2);
        assert(s.skip(n)[0] == s[n]);
        assert(s.skip(n)[1] == s[n + 1]);
        assert forall|i: int| 0 <= i < m.len() - 2 implies '0' <= #[trigger] m[i] && m[i]
            <= '9' by {
            assert(m[i] == s[i]);
            assert(is_digit(s[i]));
        }
        assert(is_number_mark(s.take(n + 2)));
    }
}

proof fn lemma_bullet(s: Seq<char>)
    ensures
        without_bullet(s) == if begins_with_bullet(s) {
            s.skip(2)
        } else {
            s
        },
{
    reveal_strlit("- ");
    reveal_strlit("* ");
    reveal_strlit("+ ");
    lemma_two(s, "- "@, '-', ' ');
    lemma_two(s, "* "@, '*', ' ');
    lemma_two(s, "+ "@, '+', ' ');
    if s.len() >= 2 {
        assert(s.take(2)[0] == s[0] && s.take(2)[1] == s[1]);
    }
}

proof fn lemma_trim_start_of_white(white: Seq<char>, rest: Seq<char>)
    requires
        all_white(white),
        rest.len() == 0 || !is_white(rest[0]),
    ensures
        trim_start(white + rest) == rest,
    decreases white.len(),
{
    let s = white + rest;
    if white.len() > 0 {
        assert(s[0] == white[0]);
        let shorter = white.skip(1);
        assert(s.skip(1) =~= shorter + rest);
        assert forall|i: int| 0 <= i < shorter.len() implies is_white(#[trigger] shorter[i]) by {
            assert(shorter[i] == white[i + 1]);
        }
        lemma_trim_start_of_white(shorter, rest);
    } else {
        assert(s =~= rest);
    }
}

proof fn lemma_hashes_go(s: Seq<char>, n: int)
    requires
        0 <= n <= s.len(),
        forall|i: int| 0 <= i < n ==> #[trigger] s[i] == '#',
        n == s.len() || s[n] != '#',
    ensures
        without_hashes(s) == s.skip(n),
    decreases n,
{
    if n > 0 {
        assert(s[0] == '#');
        let rest = s.skip(1);
        assert forall|i: int| 0 <= i < n - 1 implies #[trigger] rest[i] == '#' by {
            assert(rest[i] == s[i + 1]);
        }
        lemma_hashes_go(rest, n - 1);
        assert(rest.skip(n - 1) =~= s.skip(n));
    } else {
        assert(s.skip(0) =~= s);
    }
}

/// The marks of quotation, heading and list item are dropped from the start of a line, in this
/// order, and what follows them is kept whole. The parts are taken as long as they reach: where a
/// mark is missing, what follows does not begin with one.
pub proof fn law_block_marks_are_dropped(
    quote: Seq<char>,
    heading: Seq<char>,
    hashes: int,
    bullet: Seq<char>,
    number: Seq<char>,
    rest: Seq<char>,
)
    requires
        is_quote_mark(quote),
        is_heading_mark(heading, hashes),
        bullet.len() == 0 || is_bullet(bullet),
        number.len() == 0 || is_number_mark(number),
        ({
            let item = number + rest;
            let list = bullet + item;
            let head = heading + list;
            &&& quote.len() == 0 && head.len() > 0 ==> head[0] != '>'
            &&& quote.len() > 0 && head.len() > 0 ==> !is_white(head[0])
            &&& hashes == heading.len() && list.len() > 0 ==> list[0] != '#'
            &&& list.len() > 0 ==> !is_white(list[0])
            &&& bullet.len() == 0 ==> !begins_with_bullet(item)
            &&& number.len() == 0 ==> !begins_with_number(rest)
        }),
    ensures
        block_text(quote + (heading + (bullet + (number + rest)))) == rest,
{
    let item = number + rest;
    let list = bullet + item;
    let head = heading + list;
    let line = quote + head;
    assert(without_quote(line) == head) by {
        if quote.len() > 0 {
            assert(line[0] == '>');
            assert(line.skip(1) =~= quote.skip(1) + head);
            lemma_trim_start_of_white(quote.skip(1), head);
        } else {
            assert(line =~= head);
        }
    }
    let white = heading.skip(hashes);
    assert(head.skip(hashes) =~= white + list);
    assert forall|i: int| 0 <= i < hashes implies #[trigger] head[i] == '#' by {
        assert(head[i] == heading[i]);
    }
    if hashes < head.len() {
        if hashes < heading.len() {
            assert(head[hashes] == heading[hashes]);
            assert(heading[hashes] == white[0]);
            assert(is_white(white[0]));
        } else {
            assert(head[hashes] == list[0]);
        }
    }
    lemma_hashes_go(head, hashes);
    lemma_trim_start_of_white(white, list);
    lemma_bullet(list);
    if bullet.len() > 0 {
        assert(list.take(2) =~= bullet);
        assert(list.skip(2) =~= item);
    } else {
        assert(list =~= item);
    }
    lemma_number(item);
    if number.len() > 0 {
        assert(item.take(number.len() as int) =~= number);
        assert(begins_with_number(item));
        let k = digit_count(item) + 2;
        let m = number.len() as int;
        assert(is_number_mark(item.take(k)));
        lemma_counted_digits(item);
        assert forall|i: int| 0 <= i < m - 2 implies is_digit(#[trigger] item[i]) by {
            assert(item[i] == number[i]);
        }
        assert(item[m - 2] == number[m - 2]);
        lemma_digits_before(item, m - 2);
        assert(item.skip(m) =~= rest);
    } else {
        assert(item =~= rest);
    }
}

/// A line that begins with none of the block marks is kept whole.
pub proof fn law_unmarked_lines_are_kept_whole(line: Seq<char>)
    requires
        line.len() > 0 ==> line[0] != '>' && line[0] != '#' && !is_white(line[0]),
        !begins_with_bullet(line),
        !begins_with_number(line),
    ensures
        block_text(line) == line,
{
    let none: Seq<char> = Seq::empty();
    assert(none + line =~= line);
    assert(none.skip(0) =~= none);
    law_block_marks_are_dropped(none, none, 0, none, none, line);
}

/// True when a line is these block marks and then `rest`.
pub open spec fn is_marked_line(
    line: Seq<char>,
    quote: Seq<char>,
    heading: Seq<char>,
    hashes: int,
    bullet: Seq<char>,
    number: Seq<char>,
    rest: Seq<char>,
) -> bool {
    &&& is_quote_mark(quote)
    &&& is_heading_mark(heading, hashes)
    &&& bullet.len() == 0 || is_bullet(bullet)
    &&& number.len() == 0 || is_number_mark(number)
    &&& line == quote + (heading + (bullet + (number + rest)))
}

proof fn lemma_hashes_parts(s: Seq<char>) -> (n: int)
    ensures
        0 <= n <= s.len(),
        forall|i: int| 0 <= i < n ==> #[trigger] s[i] == '#',
        without_hashes(s) == s.skip(n),
    decreases s.len(),
{
    if s.len() > 0 && s[0] == '#' {
        let rest = s.skip(1);
        let n = lemma_hashes_parts(rest);
        assert(rest.skip(n) =~= s.skip(n + 1));
        assert forall|i: int| 0 <= i < n + 1 implies #[trigger] s[i] == '#' by {
            if i > 0 {
                assert(s[i] == rest[i - 1]);
            }
        }
        n + 1
    } else {
        assert(s.skip(0) =~= s);
        0
    }
}

/// What is dropped from the start of a line is block marks and nothing else.
pub proof fn law_only_block_marks_are_dropped(line: Seq<char>)
    ensures
        exists|
            quote: Seq<char>,
            heading: Seq<char>,
            hashes: int,
            bullet: Seq<char>,
            number: Seq<char>,
        | #[trigger]
            is_marked_line(line, quote, heading, hashes, bullet, number, block_text(line)),
{
    let head = without_quote(line);
    let none: Seq<char> = Seq::empty();
    let quote = if line.len() > 0 && line[0] == '>' {
        lemma_trim_start_parts(line.skip(1));
        let white = choose|white: Seq<char>|
            line.skip(1) == #[trigger] (white + trim_start(line.skip(1))) && all_white(white);
        let q = seq!['>'] + white;
        assert(q.skip(1) =~= white);
        assert(line =~= seq!['>'] + line.skip(1));
        assert(line =~= q + head);
        q
    } else {
        assert(line =~= none + head);
        none
    };
    let hashes = lemma_hashes_parts(head);
    let behind = head.skip(hashes);
    lemma_trim_start_parts(behind);
    let list = trim_start(behind);
    let white = choose|white: Seq<char>|
        behind == #[trigger] (white + list) && all_white(white);
    let heading = head.take(hashes) + white;
    assert(heading.skip(hashes) =~= white);
    assert(head =~= head.take(hashes) + behind);
    assert(head =~= heading + list);
    assert(is_heading_mark(heading, hashes));
    lemma_bullet(list);
    let item = without_bullet(list);
    let bullet = if begins_with_bullet(list) {
        list.take(2)
    } else {
        none
    };
    assert(list =~= bullet + item);
    lemma_number(item);
    let rest = without_number(item);
    let number = if begins_with_number(item) {
        item.take(digit_count(item) + 2)
    } else {
        none
    };
    assert(item =~= number + rest);
    assert(is_marked_line(line, quote, heading, hashes, bullet, number, block_text(line)));
}

/// A horizontal rule is a line of hyphens, stars and underlines, at least three of them, and white
/// space.
pub proof fn law_rules_are_three_marks_or_more(line: Seq<char>)
    ensures
        is_rule(line) <==> (forall|i: int|
            0 <= i < line.len() ==> is_white(#[trigger] line[i]) || line[i] == '-' || line[i] == '*'
                || line[i] == '_') && exists|a: int, b: int, c: int|
            0 <= a < b < c < line.len() && !is_white(#[trigger] line[a]) && !is_white(
                #[trigger] line[b],
            ) && !is_white(#[trigger] line[c]),
{
    lemma_ink(line);
    let marks = line.filter(is_ink());
    if marks.len() >= 3 {
        lemma_ink_places(line, 0);
        lemma_ink_places(line, 1);
        lemma_ink_places(line, 2);
        let a = ink_place(line, 0);
        let b = ink_place(line, 1);
        let c = ink_place(line, 2);
        lemma_ink_order(line, 0, 1);
        lemma_ink_order(line, 1, 2);
        assert(!is_white(line[a]) && !is_white(line[b]) && !is_white(line[c]));
    }
    if exists|a: int, b: int, c: int|
        0 <= a < b < c < line.len() && !is_white(#[trigger] line[a]) && !is_white(
            #[trigger] line[b],
        ) && !is_white(#[trigger] line[c]) {
        let (a, b, c) = choose|a: int, b: int, c: int|
            0 <= a < b < c < line.len() && !is_white(#[trigger] line[a]) && !is_white(
                #[trigger] line[b],
            ) && !is_white(#[trigger] line[c]);
        lemma_three_inks(line, a, b, c);
    }
}

/// The place of the k-th character that is not white space.
spec fn ink_place(s: Seq<char>, k: int) -> int
    decreases s.len(),
{
    if s.len() == 0 {
        0
    } else if !is_white(s.last()) && s.drop_last().filter(is_ink()).len() == k {
        s.len() - 1
    } else {
        ink_place(s.drop_last(), k)
    }
}

proof fn lemma_ink_places(s: Seq<char>, k: int)
    requires
        0 <= k < s.filter(is_ink()).len(),
    ensures
        0 <= ink_place(s, k) < s.len(),
        !is_white(s[ink_place(s, k)]),
        s[ink_place(s, k)] == s.filter(is_ink())[k],
    decreases s.len(),
{
    reveal(Seq::filter);
    if s.len() > 0 {
        let rest = s.drop_last();
        if !is_white(s.last()) && rest.filter(is_ink()).len() == k {
        } else {
            lemma_ink_places(rest, k);
            assert(s[ink_place(rest, k)] == rest[ink_place(rest, k)]);
        }
    }
}

proof fn lemma_ink_order(s: Seq<char>, j: int, k: int)
    requires
        0 <= j < k < s.filter(is_ink()).len(),
    ensures
        ink_place(s, j) < ink_place(s, k),
    decreases s.len(),
{
    reveal(Seq::filter);
    if s.len() > 0 {
        let rest = s.drop_last();
        if !is_white(s.last()) && rest.filter(is_ink()).len() == k {
            lemma_ink_places(rest, j);
        } else {
            lemma_ink_order(rest, j, k);
        }
    }
}

/// The filtered characters are those that are not white space.
proof fn lemma_ink(s: Seq<char>)
    ensures
        (forall|i: int|
            0 <= i < s.filter(is_ink()).len() ==> is_rule_mark(#[trigger] s.filter(is_ink())[i]))
            <==> (forall|i: int|
            0 <= i < s.len() ==> is_white(#[trigger] s[i]) || s[i] == '-' || s[i] == '*' || s[i]
                == '_'),
    decreases s.len(),
{
    reveal(Seq::filter);
    if s.len() > 0 {
        let rest = s.drop_last();
        lemma_ink(rest);
        let before = rest.filter(is_ink());
        let all = s.filter(is_ink());
        let c = s.last();
        assert(c == s[s.len() - 1]);
        if forall|i: int| 0 <= i < all.len() ==> is_rule_mark(#[trigger] all[i]) {
            assert forall|i: int| 0 <= i < before.len() implies is_rule_mark(
                #[trigger] before[i],
            ) by {
                assert(all[i] == before[i]);
            }
            if !is_white(c) {
                assert(all[all.len() - 1] == c);
            }
            assert forall|i: int| 0 <= i < s.len() implies is_white(#[trigger] s[i]) || s[i] == '-'
                || s[i] == '*' || s[i] == '_' by {
                if i < rest.len() {
                    assert(s[i] == rest[i]);
                }
            }
        }
        if forall|i: int|
            0 <= i < s.len() ==> is_white(#[trigger] s[i]) || s[i] == '-' || s[i] == '*' || s[i]
                == '_' {
            assert forall|i: int| 0 <= i < rest.len() implies is_white(#[trigger] rest[i])
                || rest[i] == '-' || rest[i] == '*' || rest[i] == '_' by {
                assert(s[i] == rest[i]);
            }
            assert forall|i: int| 0 <= i < all.len() implies is_rule_mark(#[trigger] all[i]) by {
                if i < before.len() {
                    assert(all[i] == before[i]);
                }
            }
        }
    }
}

proof fn lemma_some_ink(s: Seq<char>, a: int)
    requires
        0 <= a < s.len(),
        !is_white(s[a]),
    ensures
        s.filter(is_ink()).len() >= 1,
    decreases s.len(),
{
    reveal(Seq::filter);
    if a < s.len() - 1 {
        assert(s.drop_last()[a] == s[a]);
        lemma_some_ink(s.drop_last(), a);
    }
}

proof fn lemma_two_inks(s: Seq<char>, a: int, b: int)
    requires
        0 <= a < b < s.len(),
        !is_white(s[a]),
        !is_white(s[b]),
    ensures
        s.filter(is_ink()).len() >= 2,
    decreases s.len(),
{
    reveal(Seq::filter);
    let rest = s.drop_last();
    assert(rest[a] == s[a]);
    if b < s.len() - 1 {
        assert(rest[b] == s[b]);
        lemma_two_inks(rest, a, b);
    } else {
        lemma_some_ink(rest, a);
    }
}

proof fn lemma_three_inks(s: Seq<char>, a: int, b: int, c: int)
    requires
        0 <= a < b < c < s.len(),
        !is_white(s[a]),
        !is_white(s[b]),
        !is_white(s[c]),
    ensures
        s.filter(is_ink()).len() >= 3,
    decreases s.len(),
{
    reveal(Seq::filter);
    let rest = s.drop_last();
    assert(rest[a] == s[a]);
    assert(rest[b] == s[b]);
    if c < s.len() - 1 {
        assert(rest[c] == s[c]);
        lemma_three_inks(rest, a, b, c);
    } else {
        lemma_two_inks(rest, a, b);
    }
}

/// A fence is a line that begins with three backquotes or three tildes.
pub proof fn law_fences_are_three_marks(line: Seq<char>)
    ensures
        is_fence(line) <==> line.len() >= 3 && ((line[0] == '`' && line[1] == '`' && line[2] == '`')
            || (line[0] == '~' && line[1] == '~' && line[2] == '~')),
{
    reveal_strlit("```");
    reveal_strlit("~~~");
    if line.len() >= 3 {
        let head = line.take(3);
        assert(head[0] == line[0] && head[1] == line[1] && head[2] == line[2]);
        if line[0] == '`' && line[1] == '`' && line[2] == '`' {
            assert(head =~= "```"@);
        }
        if line[0] == '~' && line[1] == '~' && line[2] == '~' {
            assert(head =~= "~~~"@);
        }
    }
}

// ---------------------------------------------------------------------------
// Inline marks
// ---------------------------------------------------------------------------

/// Four characters mark emphasis and code.
pub proof fn law_four_characters_are_marks(c: char)
    ensures
        is_mark(c) <==> c == '`' || c == '*' || c == '_' || c == '~',
{
}

/// An automatic link begins with one of three schemes.
pub proof fn law_addresses_begin_with_a_scheme(rest: Seq<char>, s: Seq<char>)
    ensures
        is_address("http://"@ + rest),
        is_address("https://"@ + rest),
        is_address("mailto:"@ + rest),
        is_address(s) ==> exists|tail: Seq<char>|
            s == #[trigger] ("http://"@ + tail) || s == "https://"@ + tail || s == "mailto:"@
                + tail,
{
    law_beginnings_can_be_continued("http://"@ + rest, "http://"@);
    law_beginnings_can_be_continued("https://"@ + rest, "https://"@);
    law_beginnings_can_be_continued("mailto:"@ + rest, "mailto:"@);
    if is_address(s) {
        let scheme = if starts_with(s, "http://"@) {
            "http://"@
        } else if starts_with(s, "https://"@) {
            "https://"@
        } else {
            "mailto:"@
        };
        law_beginnings_can_be_continued(s, scheme);
        let tail = choose|tail: Seq<char>| s == #[trigger] (scheme + tail);
        assert(s == "http://"@ + tail || s == "https://"@ + tail || s == "mailto:"@ + tail);
    }
}

/// Each mark is dropped, whatever follows it.
pub proof fn law_marks_are_not_spoken(mark: char, rest: Seq<char>)
    requires
        mark == '`' || mark == '*' || mark == '_' || mark == '~',
    ensures
        inline_from(seq![mark] + rest, 0) == inline_from(rest, 0),
{
    let s = seq![mark] + rest;
    assert(s[0] == mark);
    lemma_inline_shift(s, 1, 0);
    assert(s.skip(1) =~= rest);
}

/// Any character that begins nothing is spoken, and so is a backslash with nothing behind it.
pub proof fn law_other_characters_are_spoken(c: char, rest: Seq<char>)
    requires
        c != '`' && c != '*' && c != '_' && c != '~' && c != '[' && c != '<',
        c == '!' && rest.len() > 0 ==> rest[0] != '[',
        c == '\\' ==> rest.len() == 0,
    ensures
        inline_from(seq![c] + rest, 0) == seq![c] + inline_from(rest, 0),
        inline_from(Seq::<char>::empty(), 0) == Seq::<char>::empty(),
{
    let s = seq![c] + rest;
    assert(s[0] == c);
    if s.len() > 1 {
        assert(s[1] == rest[0]);
    }
    assert(link_at(s, 0) is None);
    assert(autolink_at(s, 0) is None);
    lemma_inline_shift(s, 1, 0);
    assert(s.skip(1) =~= rest);
}

/// True when a text goes on as a link does behind its opening bracket.
pub open spec fn continues_link(
    rest: Seq<char>,
    label: Seq<char>,
    target: Seq<char>,
    after: Seq<char>,
) -> bool {
    rest == label + seq![']', '('] + target + seq![')'] + after && !label.contains(']')
        && is_balanced(target)
}

proof fn lemma_inside_target(s: Seq<char>, open: int, close: int, j: int)
    requires
        0 <= open < close < s.len(),
        s[open] == '(',
        closing_paren(s, open) == Some(close),
        open < j <= close,
    ensures
        balance(s, open, j) >= 1,
    decreases j,
{
    lemma_first_closing(s, open, open);
    if j == open + 1 {
        assert(balance(s, open, open) == 0);
    } else {
        lemma_inside_target(s, open, close, j - 1);
        assert(!closes_at(s, open, j - 1));
    }
}

proof fn lemma_links_continue(s: Seq<char>, i: int)
    requires
        0 <= i < s.len(),
        link_at(s, i) is Some,
    ensures
        ({
            let link = link_at(s, i)->Some_0;
            exists|label: Seq<char>, target: Seq<char>, after: Seq<char>| #[trigger]
                continues_link(s.skip(link.start), label, target, after)
        }),
{
    lemma_link_at(s, i);
    let link = link_at(s, i)->Some_0;
    let open = link.end + 1;
    let close = link.next - 1;
    lemma_find_from(s, ']', link.start);
    lemma_first_closing(s, open, open);
    let label = s.subrange(link.start, link.end);
    let target = s.subrange(open + 1, close);
    let after = s.skip(link.next);
    let rest = s.skip(link.start);
    assert(rest =~= label + seq![']', '('] + target + seq![')'] + after);
    assert(!label.contains(']')) by {
        if label.contains(']') {
            let k = choose|k: int| 0 <= k < label.len() && label[k] == ']';
            assert(s[link.start + k] == ']');
        }
    }
    assert forall|j: int| 0 <= j <= target.len() implies #[trigger] balance(target, 0, j) >= 0 by {
        lemma_target_balance(s, open, target, j);
        lemma_inside_target(s, open, close, open + 1 + j);
    }
    lemma_target_balance(s, open, target, target.len() as int);
    assert(continues_link(rest, label, target, after));
}

/// A bracket that no link begins with is spoken.
pub proof fn law_brackets_without_link_are_spoken(rest: Seq<char>)
    requires
        forall|label: Seq<char>, target: Seq<char>, after: Seq<char>|
            !#[trigger] continues_link(rest, label, target, after),
    ensures
        inline_from(seq!['['] + rest, 0) == seq!['['] + inline_from(rest, 0),
        inline_from(seq!['!', '['] + rest, 0) == seq!['!', '['] + inline_from(rest, 0),
{
    let s = seq!['['] + rest;
    assert(s[0] == '[');
    if link_at(s, 0) is Some {
        lemma_links_continue(s, 0);
        lemma_link_at(s, 0);
        assert(s.skip(1) =~= rest);
    }
    assert(autolink_at(s, 0) is None);
    lemma_inline_shift(s, 1, 0);
    assert(s.skip(1) =~= rest);
    let t = seq!['!', '['] + rest;
    assert(t[0] == '!' && t[1] == '[');
    if link_at(t, 0) is Some {
        lemma_links_continue(t, 0);
        lemma_link_at(t, 0);
        assert(t.skip(2) =~= rest);
    }
    assert(autolink_at(t, 0) is None);
    lemma_inline_shift(t, 1, 0);
    assert(t.skip(1) =~= s);
    assert(seq!['!'] + (seq!['['] + inline_from(rest, 0)) =~= seq!['!', '['] + inline_from(
        rest,
        0,
    ));
}

/// An angle bracket that no automatic link begins with is spoken.
pub proof fn law_angle_brackets_without_link_are_spoken(rest: Seq<char>)
    requires
        forall|address: Seq<char>, after: Seq<char>|
            rest == #[trigger] (address + seq!['>'] + after) && !address.contains('>')
                ==> !is_address(address),
    ensures
        inline_from(seq!['<'] + rest, 0) == seq!['<'] + inline_from(rest, 0),
{
    let s = seq!['<'] + rest;
    assert(s[0] == '<');
    assert(link_at(s, 0) is None);
    if autolink_at(s, 0) is Some {
        let end = find_from(s, '>', 1);
        lemma_find_from(s, '>', 1);
        let address = s.subrange(1, end);
        let after = s.skip(end + 1);
        assert(rest =~= address + seq!['>'] + after);
        if address.contains('>') {
            let k = choose|k: int| 0 <= k < address.len() && address[k] == '>';
            assert(s[1 + k] == '>');
        }
    }
    lemma_inline_shift(s, 1, 0);
    assert(s.skip(1) =~= rest);
}

/// The spoken line has its words with single spaces between them.
pub proof fn law_spoken_words_are_joined_by_spaces(s: Seq<char>)
    ensures
        inline_text(s) == join(words(inline_from(s, 0)), seq![' ']),
{
}

// ---------------------------------------------------------------------------
// Lines
// ---------------------------------------------------------------------------

/// A line outside code is spoken without its block marks, a line of code with them; a line with
/// nothing to say adds nothing. What was spoken before stays as it was.
pub proof fn law_lines_are_spoken_in_turn(source: Seq<Seq<char>>, line: Seq<char>)
    requires
        !is_fence(trim(line)),
        in_code_after(source) || !is_rule(trim(line)),
    ensures
        ({
            let said = if in_code_after(source) {
                inline_text(trim(line))
            } else {
                inline_text(block_text(trim(line)))
            };
            spoken_lines(source.push(line)) == if said.len() == 0 {
                spoken_lines(source)
            } else {
                spoken_lines(source).push(said)
            }
        }),
{
    assert(source.push(line).drop_last() =~= source);
}

/// Speech begins outside code, with nothing said.
pub proof fn law_speech_begins_with_nothing(line: Seq<char>)
    ensures
        !in_code_after(Seq::empty()),
        spoken_lines(Seq::empty()) == Seq::<Seq<char>>::empty(),
        speech(Seq::empty()) == Seq::<char>::empty(),
{
    law_newlines_end_lines(Seq::empty(), line);
    law_taking_a_character_out(Seq::empty(), '\r', Seq::empty());
}

/// Speech has a line for each spoken line of the text; carriage returns are not heard.
pub proof fn law_speech_is_its_spoken_lines(before: Seq<char>, after: Seq<char>)
    ensures
        speech(before + seq!['\r'] + after) == speech(before + after),
        !before.contains('\r') ==> speech(before) == join(spoken_lines(lines(before)), seq!['\n']),
{
    law_taking_a_character_out(before, '\r', after);
}

/// A text of one ordinary line is spoken as that line is.
pub proof fn law_one_line_is_spoken_alone(line: Seq<char>)
    requires
        !line.contains('\r'),
        !line.contains('\n'),
        !is_fence(trim(line)),
        !is_rule(trim(line)),
    ensures
        speech(line) == inline_text(block_text(trim(line))),
{
    law_speech_is_its_spoken_lines(line, line);
    law_newlines_end_lines(line, line);
    law_speech_begins_with_nothing(line);
    let none: Seq<Seq<char>> = Seq::empty();
    if line.len() > 0 {
        law_lines_are_spoken_in_turn(none, line);
        assert(none.push(line) =~= seq![line]);
        let said = inline_text(block_text(trim(line)));
        if said.len() > 0 {
            assert(none.push(said) =~= seq![said]);
        } else {
            assert(speech(line) =~= said);
        }
    } else {
        assert(line =~= Seq::<char>::empty());
        assert(trim(line) =~= line);
        assert(digit_count(line) == 0);
        law_unmarked_lines_are_kept_whole(line);
        assert(inline_from(line, 0) =~= line);
        assert(words(line) =~= Seq::<Seq<char>>::empty());
    }
}

// ---------------------------------------------------------------------------
// Overviews
// ---------------------------------------------------------------------------

/// The length that the first `k` words take, joined by spaces, with the weight of the next one.
pub open spec fn length_with(all: Seq<Seq<char>>, k: int) -> int {
    if k == 0 {
        encode_utf8(all[0]).len() as int
    } else {
        join(all.take(k), seq![' ']).len() as int + 1 + encode_utf8(all[k]).len()
    }
}

proof fn lemma_taken_words_fit(all: Seq<Seq<char>>, from: int, j: int)
    requires
        0 <= from <= j < overview_from(all, from),
    ensures
        j < all.len(),
        fits(all, j),
    decreases all.len() - from,
{
    if from < all.len() && fits(all, from) {
        if from < j {
            lemma_taken_words_fit(all, from + 1, j);
        }
    }
}

/// An overview is the first words of the speech with single spaces between them, word after word
/// as long as the length stays within 420; and the whole speech where the first word is longer.
pub proof fn law_overview_takes_the_words_that_fit(body: Seq<char>)
    ensures
        ({
            let all = words(speech(body));
            exists|k: int|
                0 <= k <= all.len() && overview(body) == (if k == 0 {
                    speech(body)
                } else {
                    join(#[trigger] all.take(k), seq![' '])
                }) && (forall|j: int| 0 <= j < k ==> #[trigger] length_with(all, j) <= 420) && (k
                    < all.len() ==> length_with(all, k) > 420)
        }),
{
    let all = words(speech(body));
    law_overview_begins_the_speech(body);
    let k = overview_from(all, 0);
    assert(all.take(0) =~= Seq::<Seq<char>>::empty());
    assert forall|j: int| 0 <= j < k implies #[trigger] length_with(all, j) <= 420 by {
        lemma_taken_words_fit(all, 0, j);
    }
    assert(overview(body) == (if k == 0 {
        speech(body)
    } else {
        join(all.take(k), seq![' '])
    }));
}

// ---------------------------------------------------------------------------
// Parentheses
// ---------------------------------------------------------------------------

/// The balance counts opening parentheses up and closing ones down, and nothing else.
pub proof fn law_balance_counts_parentheses(s: Seq<char>, from: int, to: int)
    requires
        0 <= from <= to < s.len(),
    ensures
        balance(s, from, from) == 0,
        s[to] == '(' ==> balance(s, from, to + 1) == balance(s, from, to) + 1,
        s[to] == ')' ==> balance(s, from, to + 1) == balance(s, from, to) - 1,
        s[to] != '(' && s[to] != ')' ==> balance(s, from, to + 1) == balance(s, from, to),
{
}

/// The parenthesis that closes another is the first closing one at which the balance is even.
pub proof fn law_first_even_parenthesis_closes(s: Seq<char>, open: int, k: int)
    requires
        0 <= open,
    ensures
        closing_paren(s, open) == Some(k) <==> open <= k < s.len() && s[k] == ')' && balance(
            s,
            open,
            k + 1,
        ) == 0 && forall|j: int| open <= j < k && #[trigger] s[j] == ')' ==> balance(s, open, j + 1)
            != 0,
        closing_paren(s, open) is None <==> forall|j: int|
            open <= j < s.len() && #[trigger] s[j] == ')' ==> balance(s, open, j + 1) != 0,
{
    lemma_first_closing(s, open, open);
    assert forall|j: int| open <= j < s.len() implies (closes_at(s, open, j) <==> #[trigger] s[j]
        == ')' && balance(s, open, j + 1) == 0) by {}
    match closing_paren(s, open) {
        Some(found) => {
            assert(s[found] == ')');
            if open <= k < s.len() && s[k] == ')' && balance(s, open, k + 1) == 0 && forall|j: int|
                open <= j < k && #[trigger] s[j] == ')' ==> balance(s, open, j + 1) != 0 {
                assert(closes_at(s, open, k));
                if found < k {
                    assert(s[found] == ')');
                } else if k < found {
                    assert(!closes_at(s, open, k));
                }
            }
            assert forall|j: int| open <= j < found && #[trigger] s[j] == ')' implies balance(
                s,
                open,
                j + 1,
            ) != 0 by {
                assert(!closes_at(s, open, j));
            }
        },
        None => {
            assert forall|j: int| open <= j < s.len() && #[trigger] s[j] == ')' implies balance(
                s,
                open,
                j + 1,
            ) != 0 by {
                assert(!closes_at(s, open, j));
            }
        },
    }
}

} // verus!
