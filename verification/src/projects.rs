//! Project slugs and the names of project rooms.

use vstd::prelude::*;

use crate::text::{
    ascii_lower, concat, is_digit, is_white, option_text, to_chars, to_text, trim, trim_text,
    trimmed,
};
use crate::text_laws::{has_ink, law_blank_means_all_white};

verus! {

broadcast use vstd::string::group_string_axioms;

/// Why a project slug was refused.
#[derive(Clone, Copy, Debug, PartialEq, Eq, Structural)]
pub enum SlugError {
    /// A slug is lowercase kebab-case.
    NotKebabCase,
}

/// The text with ASCII letters in lower case.
pub open spec fn lowered(s: Seq<char>) -> Seq<char> {
    Seq::new(s.len(), |i: int| ascii_lower(s[i]))
}

/// True for a character of a slug.
pub open spec fn is_slug_char(c: char) -> bool {
    'a' <= c <= 'z' || is_digit(c) || c == '-'
}

/// True for a slug: not empty, of lowercase letters, digits and hyphens, with no hyphen at
/// either end.
pub open spec fn is_slug(s: Seq<char>) -> bool {
    &&& s.len() > 0
    &&& forall|i: int| 0 <= i < s.len() ==> is_slug_char(#[trigger] s[i])
    &&& s[0] != '-'
    &&& s.last() != '-'
}

/// The slug that a text stands for: trimmed and in lower case.
pub open spec fn slug_of(value: Seq<char>) -> Seq<char> {
    lowered(trim(value))
}

/// The slug that a text stands for, if it is one.
pub fn normalize_project_slug(value: &str) -> (r: Result<String, SlugError>)
    ensures
        match r {
            Ok(slug) => slug@ == slug_of(value@) && is_slug(slug@),
            Err(error) => error == SlugError::NotKebabCase && !is_slug(slug_of(value@)),
        },
{
    let chars = to_chars(value);
    let source = trimmed(chars.as_slice());
    let mut slug: Vec<char> = Vec::new();
    let mut i: usize = 0;
    let ghost whole = slug_of(value@);
    while i < source.len()
        invariant
            source@ == trim(value@),
            whole == slug_of(value@),
            i <= source@.len(),
            slug@ == whole.take(i as int),
            forall|j: int| 0 <= j < i ==> is_slug_char(#[trigger] whole[j]),
        decreases source@.len() - i,
    {
        let c = source[i];
        let lower: char = if 'A' <= c && c <= 'Z' {
            ((c as u8) + 32) as char
        } else {
            c
        };
        proof {
            assert(whole[i as int] == ascii_lower(source@[i as int]));
            assert(lower == whole[i as int]);
        }
        if !(('a' <= lower && lower <= 'z') || ('0' <= lower && lower <= '9') || lower == '-') {
            return Err(SlugError::NotKebabCase);
        }
        slug.push(lower);
        proof {
            assert(slug@ =~= whole.take(i + 1));
        }
        i = i + 1;
    }
    proof {
        assert(slug@ =~= whole);
    }
    let n: usize = slug.len();
    if n == 0 || slug[0] == '-' || slug[n - 1] == '-' {
        return Err(SlugError::NotKebabCase);
    }
    Ok(to_text(slug.as_slice()))
}

/// The text with spaces in place of hyphens.
pub open spec fn spaced(s: Seq<char>) -> Seq<char> {
    Seq::new(
        s.len(),
        |i: int|
            if s[i] == '-' {
                ' '
            } else {
                s[i]
            },
    )
}

/// The name of a project's room: the display name, unless it is blank or missing, else one made
/// from the slug.
pub open spec fn room_name(display_name: Option<Seq<char>>, slug: Seq<char>) -> Seq<char> {
    match display_name {
        Some(name) if trim(name).len() > 0 => trim(name),
        _ => "Project · "@ + spaced(slug),
    }
}

/// The name of a project's room.
pub fn project_room_name(display_name: &Option<String>, slug: &str) -> (r: String)
    ensures
        r@ == room_name(option_text(*display_name), slug@),
{
    match display_name {
        Some(name) => {
            let trimmed_name = trim_text(name.as_str());
            if !trimmed_name.as_str().is_empty() {
                return trimmed_name;
            }
        },
        None => {},
    }
    let chars = to_chars(slug);
    let mut out: Vec<char> = Vec::new();
    let mut i: usize = 0;
    while i < chars.len()
        invariant
            chars@ == slug@,
            i <= chars@.len(),
            out@ == spaced(slug@).take(i as int),
        decreases chars@.len() - i,
    {
        if chars[i] == '-' {
            out.push(' ');
        } else {
            out.push(chars[i]);
        }
        proof {
            assert(out@ =~= spaced(slug@).take(i + 1));
        }
        i = i + 1;
    }
    proof {
        assert(out@ =~= spaced(slug@));
    }
    let rest = to_text(out.as_slice());
    concat("Project · ", rest.as_str())
}

proof fn lemma_trim_ink(s: Seq<char>)
    requires
        s.len() > 0 ==> !is_white(s[0]) && !is_white(s.last()),
    ensures
        trim(s) == s,
{
}

/// A slug stands for itself: normalising it again changes nothing.
pub proof fn law_slug_stands_for_itself(value: Seq<char>)
    requires
        is_slug(slug_of(value)),
    ensures
        slug_of(slug_of(value)) == slug_of(value),
{
    let slug = slug_of(value);
    assert(is_slug_char(slug[0]) && is_slug_char(slug[slug.len() - 1]));
    lemma_trim_ink(slug);
    assert forall|i: int| 0 <= i < slug.len() implies ascii_lower(#[trigger] slug[i])
        == slug[i] by {
        assert(is_slug_char(slug[i]));
    }
    assert(lowered(slug) =~= slug);
}

/// A slug is what the trimmed text says, with just the ASCII capitals made small.
pub proof fn law_slugs_only_make_capitals_small(value: Seq<char>, i: int)
    requires
        0 <= i < trim(value).len(),
    ensures
        slug_of(value).len() == trim(value).len(),
        'A' <= trim(value)[i] && trim(value)[i] <= 'Z' ==> slug_of(value)[i] as int == trim(
            value,
        )[i] as int + 32,
        !('A' <= trim(value)[i] && trim(value)[i] <= 'Z') ==> slug_of(value)[i] == trim(value)[i],
{
}

/// Slugs are made of small letters, digits and inner hyphens: any such text of one character or
/// more is one, and no other text is.
pub proof fn law_slugs_are_kebab_case(s: Seq<char>)
    ensures
        is_slug(s) <==> s.len() >= 1 && s[0] != '-' && s[s.len() - 1] != '-' && forall|i: int|
            0 <= i < s.len() ==> {
                let c = (#[trigger] s[i]) as int;
                c == 45 || (48 <= c && c <= 57) || (97 <= c && c <= 122)
            },
{
    if is_slug(s) {
        assert forall|i: int| 0 <= i < s.len() implies {
            let c = (#[trigger] s[i]) as int;
            c == 45 || (48 <= c && c <= 57) || (97 <= c && c <= 122)
        } by {
            assert(is_slug_char(s[i]));
        }
    }
    if s.len() >= 1 && forall|i: int|
        0 <= i < s.len() ==> {
            let c = (#[trigger] s[i]) as int;
            c == 45 || (48 <= c && c <= 57) || (97 <= c && c <= 122)
        } {
        assert forall|i: int| 0 <= i < s.len() implies is_slug_char(#[trigger] s[i]) by {
            let c = s[i] as int;
            assert(c == 45 || (48 <= c && c <= 57) || (97 <= c && c <= 122));
        }
    }
}

/// A room has the display name of its project, trimmed, wherever that says something.
pub proof fn law_rooms_have_the_display_name(name: Seq<char>, slug: Seq<char>)
    ensures
        has_ink(name) ==> room_name(Some(name), slug) == trim(name),
        !has_ink(name) ==> room_name(Some(name), slug) == room_name(None, slug),
{
    law_blank_means_all_white(name);
}

/// Without a display name the name of a room shows the slug, with spaces for hyphens; different
/// slugs give different names.
pub proof fn law_rooms_are_named_after_their_slug(slug: Seq<char>, other: Seq<char>, i: int)
    requires
        0 <= i < slug.len(),
    ensures
        room_name(None, slug).len() == 10 + slug.len(),
        room_name(None, slug).take(10) == "Project · "@,
        room_name(None, slug)[10 + i] == if slug[i] == '-' {
            ' '
        } else {
            slug[i]
        },
        is_slug(slug) && is_slug(other) && slug != other ==> room_name(None, slug) != room_name(
            None,
            other,
        ),
{
    reveal_strlit("Project · ");
    let a = room_name(None, slug);
    let b = room_name(None, other);
    assert(a.take(10) =~= "Project · "@);
    if is_slug(slug) && is_slug(other) && a == b {
        assert(a.len() == 10 + slug.len());
        assert(b.len() == 10 + other.len());
        assert forall|k: int| 0 <= k < slug.len() implies slug[k] == other[k] by {
            assert(a[10 + k] == spaced(slug)[k]);
            assert(b[10 + k] == spaced(other)[k]);
            assert(is_slug_char(slug[k]) && is_slug_char(other[k]));
        }
        assert(slug =~= other);
    }
}

} // verus!
