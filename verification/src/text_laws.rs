//! What holds of every text.

use vstd::prelude::*;

use crate::text::{
    collapse, has_part, is_blank, is_white, join, lemma_split_nonempty, lemma_words_open, lines,
    other_than, precedes, split, starts_with, trim, trim_end, trim_start, without, words,
};

verus! {

// ---------------------------------------------------------------------------
// White space
// ---------------------------------------------------------------------------

/// True when every character is white space.
pub open spec fn all_white(s: Seq<char>) -> bool {
    forall|i: int| 0 <= i < s.len() ==> is_white(#[trigger] s[i])
}

/// True when some character is not white space.
pub open spec fn has_ink(s: Seq<char>) -> bool {
    exists|i: int| 0 <= i < s.len() && !is_white(#[trigger] s[i])
}

/// True when `inner` is `s` without the white space around it, and nothing else.
pub open spec fn is_trimmed(s: Seq<char>, before: Seq<char>, inner: Seq<char>, after: Seq<char>) -> bool {
    &&& s == before + inner + after
    &&& all_white(before)
    &&& all_white(after)
    &&& inner.len() > 0 ==> !is_white(inner[0]) && !is_white(inner[inner.len() - 1])
}

pub proof fn lemma_trim_start_parts(s: Seq<char>)
    ensures
        exists|before: Seq<char>|
            s == #[trigger] (before + trim_start(s)) && all_white(before),
        trim_start(s).len() > 0 ==> !is_white(trim_start(s)[0]),
    decreases s.len(),
{
    if s.len() > 0 && is_white(s[0]) {
        let rest = s.skip(1);
        lemma_trim_start_parts(rest);
        let before = choose|before: Seq<char>|
            rest == #[trigger] (before + trim_start(rest)) && all_white(before);
        let more = seq![s[0]] + before;
        assert(trim_start(s) == trim_start(rest));
        assert(s =~= seq![s[0]] + rest);
        assert(s =~= more + trim_start(s));
        assert forall|i: int| 0 <= i < more.len() implies is_white(#[trigger] more[i]) by {
            if i > 0 {
                assert(more[i] == before[i - 1]);
            }
        }
    } else {
        let none: Seq<char> = Seq::empty();
        assert(s =~= none + trim_start(s));
    }
}

proof fn lemma_trim_end_parts(s: Seq<char>)
    ensures
        exists|after: Seq<char>| s == #[trigger] (trim_end(s) + after) && all_white(after),
        trim_end(s).len() > 0 ==> !is_white(trim_end(s).last()),
    decreases s.len(),
{
    if s.len() > 0 && is_white(s.last()) {
        let rest = s.drop_last();
        lemma_trim_end_parts(rest);
        let after = choose|after: Seq<char>|
            rest == #[trigger] (trim_end(rest) + after) && all_white(after);
        let more = after.push(s.last());
        assert(trim_end(s) == trim_end(rest));
        assert(s =~= rest.push(s.last()));
        assert(s =~= trim_end(s) + more);
        assert forall|i: int| 0 <= i < more.len() implies is_white(#[trigger] more[i]) by {
            if i < after.len() {
                assert(more[i] == after[i]);
            }
        }
    } else {
        let none: Seq<char> = Seq::empty();
        assert(s =~= trim_end(s) + none);
    }
}

/// Trimming takes away the white space around a text, all of it, and nothing else.
pub proof fn law_trimming_takes_only_the_white_space_around(s: Seq<char>)
    ensures
        exists|before: Seq<char>, after: Seq<char>| #[trigger]
            is_trimmed(s, before, trim(s), after),
{
    lemma_trim_start_parts(s);
    let t = trim_start(s);
    let before = choose|before: Seq<char>| s == #[trigger] (before + t) && all_white(before);
    lemma_trim_end_parts(t);
    let u = trim_end(t);
    let after = choose|after: Seq<char>| t == #[trigger] (u + after) && all_white(after);
    assert(s =~= before + u + after);
    if u.len() > 0 {
        assert(u[0] == t[0]);
    }
    assert(is_trimmed(s, before, trim(s), after));
}

/// There is one way to trim a text.
pub proof fn law_trimming_is_unique(
    s: Seq<char>,
    before: Seq<char>,
    inner: Seq<char>,
    after: Seq<char>,
)
    requires
        is_trimmed(s, before, inner, after),
    ensures
        trim(s) == inner,
{
    law_trimming_takes_only_the_white_space_around(s);
    let (b, a) = choose|b: Seq<char>, a: Seq<char>| #[trigger] is_trimmed(s, b, trim(s), a);
    let t = trim(s);
    if t.len() == 0 || inner.len() == 0 {
        if t.len() > 0 {
            assert(s[b.len() as int] == t[0]);
            if b.len() < before.len() {
                assert(s[b.len() as int] == before[b.len() as int]);
            } else {
                assert(s[b.len() as int] == after[b.len() - before.len()]);
            }
        }
        if inner.len() > 0 {
            assert(s[before.len() as int] == inner[0]);
            if before.len() < b.len() {
                assert(s[before.len() as int] == b[before.len() as int]);
            } else {
                assert(s[before.len() as int] == a[before.len() - b.len()]);
            }
        }
        assert(t =~= inner);
    } else {
        if before.len() < b.len() {
            assert(s[before.len() as int] == inner[0]);
            assert(s[before.len() as int] == b[before.len() as int]);
        } else if b.len() < before.len() {
            assert(s[b.len() as int] == t[0]);
            assert(s[b.len() as int] == before[b.len() as int]);
        }
        let n = b.len() as int;
        let e = n + t.len();
        let f = n + inner.len();
        if e < f {
            assert(s[f - 1] == inner[inner.len() - 1]);
            assert(s[f - 1] == a[f - 1 - e]);
        } else if f < e {
            assert(s[e - 1] == t[t.len() - 1]);
            assert(s[e - 1] == after[e - 1 - f]);
        }
        assert(t =~= s.subrange(n, e));
        assert(inner =~= s.subrange(n, f));
    }
}

/// A text is blank when it holds nothing but white space.
pub proof fn law_blank_means_all_white(s: Seq<char>)
    ensures
        is_blank(s) <==> all_white(s),
        is_blank(s) <==> !has_ink(s),
        trim(s).len() > 0 <==> has_ink(s),
{
    law_trimming_takes_only_the_white_space_around(s);
    let (b, a) = choose|b: Seq<char>, a: Seq<char>| #[trigger] is_trimmed(s, b, trim(s), a);
    let t = trim(s);
    if t.len() > 0 {
        assert(s[b.len() as int] == t[0]);
    } else {
        assert forall|i: int| 0 <= i < s.len() implies is_white(#[trigger] s[i]) by {
            if i < b.len() {
                assert(s[i] == b[i]);
            } else {
                assert(s[i] == a[i - b.len()]);
            }
        }
    }
}

/// White space is what Unicode calls so: tab to carriage return, space, next line, the no-break
/// space, and the spaces and separators from U+1680 on.
pub proof fn law_white_space_is_that_of_unicode(c: char)
    ensures
        is_white(c) <==> c as int == 32 || (9 <= c as int && c as int <= 13) || c as int == 133
            || c as int == 160 || c as int == 5760 || (8192 <= c as int && c as int <= 8202)
            || c as int == 8232 || c as int == 8233 || c as int == 8239 || c as int == 8287
            || c as int == 12288,
{
}

// ---------------------------------------------------------------------------
// Parts
// ---------------------------------------------------------------------------

/// A text begins with another when the other can be continued to it.
pub proof fn law_beginnings_can_be_continued(s: Seq<char>, prefix: Seq<char>)
    ensures
        starts_with(s, prefix) <==> exists|rest: Seq<char>| s == #[trigger] (prefix + rest),
{
    if starts_with(s, prefix) {
        let rest = s.skip(prefix.len() as int);
        assert(s =~= prefix + rest);
    }
    if exists|rest: Seq<char>| s == #[trigger] (prefix + rest) {
        let rest = choose|rest: Seq<char>| s == #[trigger] (prefix + rest);
        assert(s.take(prefix.len() as int) =~= prefix);
    }
}

/// A text holds another when it is the other with something before and something behind.
pub proof fn law_parts_stand_between(s: Seq<char>, needle: Seq<char>)
    ensures
        has_part(s, needle) <==> exists|a: Seq<char>, b: Seq<char>| s == #[trigger] (a + needle + b),
{
    if has_part(s, needle) {
        let i = choose|i: int| 0 <= i <= s.len() && starts_with(#[trigger] s.skip(i), needle);
        law_beginnings_can_be_continued(s.skip(i), needle);
        let rest = choose|rest: Seq<char>| s.skip(i) == #[trigger] (needle + rest);
        assert(s =~= s.take(i) + (needle + rest));
        assert(s =~= s.take(i) + needle + rest);
    }
    if exists|a: Seq<char>, b: Seq<char>| s == #[trigger] (a + needle + b) {
        let (a, b) = choose|a: Seq<char>, b: Seq<char>| s == #[trigger] (a + needle + b);
        let i = a.len() as int;
        assert(s.skip(i) =~= needle + b);
        law_beginnings_can_be_continued(s.skip(i), needle);
        assert(starts_with(s.skip(i), needle));
    }
}

// ---------------------------------------------------------------------------
// Splitting and joining
// ---------------------------------------------------------------------------

/// Splitting loses nothing: the pieces joined by the separator are the text.
pub proof fn law_split_pieces_join_again(s: Seq<char>, separator: char)
    ensures
        join(split(s, separator), seq![separator]) == s,
        forall|i: int|
            0 <= i < split(s, separator).len() ==> !(#[trigger] split(s, separator)[i]).contains(
                separator,
            ),
    decreases s.len(),
{
    lemma_split_nonempty(s, separator);
    let all = split(s, separator);
    if s.len() == 0 {
        assert(all =~= seq![Seq::<char>::empty()]);
        assert(join(all, seq![separator]) =~= s);
    } else {
        let rest = s.drop_last();
        law_split_pieces_join_again(rest, separator);
        lemma_split_nonempty(rest, separator);
        let before = split(rest, separator);
        if s.last() == separator {
            assert(all.drop_last() =~= before);
            assert(all.len() >= 2);
            assert(join(all, seq![separator]) =~= rest + seq![separator]);
            assert(s =~= rest + seq![separator]);
        } else {
            let piece = before.last().push(s.last());
            assert(all.drop_last() =~= before.drop_last());
            assert(all.last() == piece);
            if before.len() == 1 {
                assert(join(before, seq![separator]) == before[0]);
                assert(join(all, seq![separator]) == piece);
                assert(s =~= rest.push(s.last()));
            } else {
                let head = join(before.drop_last(), seq![separator]);
                assert(join(before, seq![separator]) == head + seq![separator] + before.last());
                assert(join(all, seq![separator]) == head + seq![separator] + piece);
                assert(s =~= rest.push(s.last()));
                assert(head + seq![separator] + piece =~= (head + seq![separator]
                    + before.last()).push(s.last()));
            }
        }
        assert forall|i: int| 0 <= i < all.len() implies !(#[trigger] all[i]).contains(
            separator,
        ) by {
            if i < all.len() - 1 || s.last() == separator {
                if i < before.len() {
                    assert(all[i] == before[i]);
                }
            } else {
                let last = before[before.len() - 1];
                assert(!last.contains(separator));
                if all[i].contains(separator) {
                    let k = choose|k: int| 0 <= k < all[i].len() && all[i][k] == separator;
                    if k < last.len() {
                        assert(last[k] == separator);
                    }
                }
            }
        }
    }
}

/// A separator ends one piece and begins the next.
pub proof fn law_separators_separate(a: Seq<char>, separator: char, b: Seq<char>)
    ensures
        split(a + seq![separator] + b, separator) == split(a, separator) + split(b, separator),
    decreases b.len(),
{
    let whole = a + seq![separator] + b;
    lemma_split_nonempty(a, separator);
    lemma_split_nonempty(b, separator);
    if b.len() == 0 {
        assert(whole.drop_last() =~= a);
        assert(whole.last() == separator);
        assert(split(b, separator) =~= seq![Seq::<char>::empty()]);
        assert(split(whole, separator) =~= split(a, separator) + split(b, separator));
    } else {
        let shorter = b.drop_last();
        law_separators_separate(a, separator, shorter);
        lemma_split_nonempty(shorter, separator);
        assert(whole.drop_last() =~= a + seq![separator] + shorter);
        assert(whole.last() == b.last());
        let x = split(a, separator);
        let y = split(shorter, separator);
        assert((x + y).last() == y.last());
        assert((x + y).drop_last() =~= x + y.drop_last());
        assert(split(whole, separator) =~= x + split(b, separator));
    }
}

/// A text without the separator is one piece.
pub proof fn law_unseparated_text_is_one_piece(s: Seq<char>, separator: char)
    requires
        !s.contains(separator),
    ensures
        split(s, separator) == seq![s],
    decreases s.len(),
{
    if s.len() == 0 {
        assert(s =~= Seq::<char>::empty());
        assert(split(s, separator) =~= seq![s]);
    } else {
        let rest = s.drop_last();
        assert(s.contains(s[s.len() - 1]));
        if rest.contains(separator) {
            let k = choose|k: int| 0 <= k < rest.len() && rest[k] == separator;
            assert(s[k] == separator);
        }
        law_unseparated_text_is_one_piece(rest, separator);
        let before = seq![rest];
        assert(before.drop_last() =~= Seq::<Seq<char>>::empty());
        assert(rest.push(s.last()) =~= s);
        assert(split(s, separator) =~= seq![s]);
    }
}

/// The lines of a text: what stands before a newline is a line, and so is what stands behind the
/// last one, unless it is empty.
pub proof fn law_newlines_end_lines(a: Seq<char>, b: Seq<char>)
    requires
        !a.contains('\n'),
    ensures
        lines(Seq::<char>::empty()) == Seq::<Seq<char>>::empty(),
        a.len() > 0 ==> lines(a) == seq![a],
        lines(a + seq!['\n'] + b) == seq![a] + lines(b),
{
    let none: Seq<char> = Seq::empty();
    law_unseparated_text_is_one_piece(none, '\n');
    law_unseparated_text_is_one_piece(a, '\n');
    assert(seq![none].drop_last() =~= Seq::<Seq<char>>::empty());
    law_separators_separate(a, '\n', b);
    lemma_split_nonempty(b, '\n');
    let pieces = split(b, '\n');
    let whole = seq![a] + pieces;
    assert(whole.last() == pieces.last());
    assert(whole.drop_last() =~= seq![a] + pieces.drop_last());
}

/// Joining puts the separator between neighbours and nowhere else.
pub proof fn law_joining_two_lists(
    a: Seq<Seq<char>>,
    b: Seq<Seq<char>>,
    separator: Seq<char>,
)
    requires
        a.len() > 0,
        b.len() > 0,
    ensures
        join(a + b, separator) == join(a, separator) + separator + join(b, separator),
    decreases b.len(),
{
    let all = a + b;
    assert(all.drop_last() =~= a + b.drop_last());
    assert(all.last() == b.last());
    if b.len() == 1 {
        assert(a + b.drop_last() =~= a);
    } else {
        law_joining_two_lists(a, b.drop_last(), separator);
        let x = join(a, separator);
        let y = join(b.drop_last(), separator);
        assert(x + separator + y + separator + b.last() =~= x + separator + (y + separator
            + b.last()));
    }
}

/// Joining nothing gives nothing, and joining one text gives that text.
pub proof fn law_joining_few(part: Seq<char>, separator: Seq<char>)
    ensures
        join(Seq::<Seq<char>>::empty(), separator) == Seq::<char>::empty(),
        join(seq![part], separator) == part,
{
}

/// White space separates words.
pub proof fn law_white_space_separates_words(a: Seq<char>, c: char, b: Seq<char>)
    requires
        is_white(c),
    ensures
        words(a + seq![c] + b) == words(a) + words(b),
    decreases b.len(),
{
    let whole = a + seq![c] + b;
    if b.len() == 0 {
        assert(whole.drop_last() =~= a);
        assert(words(b) =~= Seq::<Seq<char>>::empty());
        assert(words(a) + words(b) =~= words(a));
    } else {
        let shorter = b.drop_last();
        law_white_space_separates_words(a, c, shorter);
        assert(whole.drop_last() =~= a + seq![c] + shorter);
        assert(whole.last() == b.last());
        let x = words(a);
        let y = words(shorter);
        if !is_white(b.last()) {
            if b.len() >= 2 && !is_white(b[b.len() - 2]) {
                assert(whole[whole.len() - 2] == b[b.len() - 2]);
                assert(shorter.last() == b[b.len() - 2]);
                lemma_words_open(shorter);
                assert((x + y).drop_last() =~= x + y.drop_last());
                assert((x + y).last() == y.last());
                assert(words(whole) =~= x + words(b));
            } else {
                if b.len() >= 2 {
                    assert(whole[whole.len() - 2] == b[b.len() - 2]);
                } else {
                    assert(whole[whole.len() - 2] == c);
                }
                assert(words(whole) =~= x + words(b));
            }
        }
    }
}

/// A text without white space is one word, if it is not empty.
pub proof fn law_unbroken_text_is_one_word(s: Seq<char>)
    requires
        forall|i: int| 0 <= i < s.len() ==> !is_white(#[trigger] s[i]),
    ensures
        words(s) == if s.len() == 0 {
            Seq::empty()
        } else {
            seq![s]
        },
    decreases s.len(),
{
    if s.len() > 0 {
        let rest = s.drop_last();
        assert forall|i: int| 0 <= i < rest.len() implies !is_white(#[trigger] rest[i]) by {
            assert(rest[i] == s[i]);
        }
        law_unbroken_text_is_one_word(rest);
        assert(!is_white(s[s.len() - 1]));
        if rest.len() == 0 {
            assert(s =~= seq![s.last()]);
            assert(words(rest).push(seq![s.last()]) =~= seq![s]);
        } else {
            assert(!is_white(s[s.len() - 2]));
            let before = seq![rest];
            assert(before.drop_last() =~= Seq::<Seq<char>>::empty());
            assert(rest.push(s.last()) =~= s);
            assert(words(s) =~= seq![s]);
        }
    }
}

/// Collapsing keeps the words and puts one space between neighbours.
pub proof fn law_collapsing_joins_words_by_spaces(s: Seq<char>)
    ensures
        collapse(s) == join(words(s), seq![' ']),
{
}

/// Taking a character out takes every occurrence of it, and nothing else.
pub proof fn law_taking_a_character_out(a: Seq<char>, c: char, b: Seq<char>)
    ensures
        without(a + seq![c] + b, c) == without(a + b, c),
        !a.contains(c) ==> without(a, c) == a,
{
    let keep = other_than(c);
    assert(a + seq![c] + b =~= a + (seq![c] + b));
    lemma_filter_distributes(a, seq![c] + b, keep);
    lemma_filter_distributes(seq![c], b, keep);
    lemma_filter_distributes(a, b, keep);
    reveal(Seq::filter);
    assert(seq![c].drop_last() =~= Seq::<char>::empty());
    assert(Seq::<char>::empty().filter(keep) =~= Seq::<char>::empty());
    assert(seq![c].filter(keep) =~= Seq::<char>::empty());
    assert(Seq::<char>::empty() + b.filter(keep) =~= b.filter(keep));
    if !a.contains(c) {
        lemma_nothing_taken_out(a, c);
    }
}

proof fn lemma_nothing_taken_out(a: Seq<char>, c: char)
    requires
        !a.contains(c),
    ensures
        without(a, c) == a,
    decreases a.len(),
{
    reveal(Seq::filter);
    if a.len() == 0 {
        assert(without(a, c) =~= a);
    } else {
        let rest = a.drop_last();
        assert(a.contains(a[a.len() - 1]));
        if rest.contains(c) {
            let k = choose|k: int| 0 <= k < rest.len() && rest[k] == c;
            assert(a[k] == c);
        }
        lemma_nothing_taken_out(rest, c);
        assert(rest.push(a.last()) =~= a);
    }
}

/// Filtering two texts one after the other.
pub proof fn lemma_filter_distributes(a: Seq<char>, b: Seq<char>, keep: spec_fn(char) -> bool)
    ensures
        (a + b).filter(keep) == a.filter(keep) + b.filter(keep),
    decreases b.len(),
{
    reveal(Seq::filter);
    if b.len() == 0 {
        assert(a + b =~= a);
        assert(b.filter(keep) =~= Seq::<char>::empty());
        assert(a.filter(keep) + b.filter(keep) =~= a.filter(keep));
    } else {
        let shorter = b.drop_last();
        lemma_filter_distributes(a, shorter, keep);
        assert((a + b).drop_last() =~= a + shorter);
        assert((a + b).last() == b.last());
        assert((a.filter(keep) + shorter.filter(keep)).push(b.last()) =~= a.filter(keep)
            + shorter.filter(keep).push(b.last()));
    }
}

// ---------------------------------------------------------------------------
// Order
// ---------------------------------------------------------------------------

/// The order of texts is that of a dictionary: a common beginning does not matter, the first
/// difference decides, and a text comes before its continuations.
pub proof fn law_order_is_that_of_a_dictionary(
    common: Seq<char>,
    a: Seq<char>,
    b: Seq<char>,
    x: char,
    y: char,
)
    ensures
        x < y ==> precedes(common + seq![x] + a, common + seq![y] + b),
        precedes(common, common + seq![x] + a),
        !precedes(common + a, common),
    decreases common.len(),
{
    let p = common + seq![x] + a;
    let q = common + seq![y] + b;
    if common.len() == 0 {
        assert(p[0] == x);
        assert(q[0] == y);
    } else {
        let rest = common.skip(1);
        law_order_is_that_of_a_dictionary(rest, a, b, x, y);
        assert(p.skip(1) =~= rest + seq![x] + a);
        assert(q.skip(1) =~= rest + seq![y] + b);
        assert((common + a).skip(1) =~= rest + a);
        assert(p[0] == common[0] && q[0] == common[0] && (common + a)[0] == common[0]);
    }
}

} // verus!
