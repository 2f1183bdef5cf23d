//! File paths, compared by what they name.
//!
//! Repeated and trailing slashes and inner `.` steps name nothing. A `.` at the start of a
//! relative path is kept.

use vstd::prelude::*;

use crate::text::{join, lemma_split_nonempty, split, split_chars, texts, to_chars};
use crate::text_laws::{
    law_joining_two_lists, law_separators_separate, law_split_pieces_join_again,
    law_unseparated_text_is_one_piece,
};

verus! {

broadcast use vstd::string::group_string_axioms;

/// What a path names.
#[verifier::ext_equal]
pub struct PathView {
    /// It begins at the root.
    pub rooted: bool,
    /// It begins with a `.` step.
    pub here: bool,
    /// Its steps.
    pub steps: Seq<Seq<char>>,
}

/// True for a step that names something.
pub open spec fn names_something() -> spec_fn(Seq<char>) -> bool {
    |step: Seq<char>| step.len() > 0 && step != seq!['.']
}

/// What a path names.
pub open spec fn path_view(path: Seq<char>) -> PathView {
    let rooted = path.len() > 0 && path[0] == '/';
    PathView {
        rooted,
        here: !rooted && split(path, '/')[0] == seq!['.'],
        steps: split(path, '/').filter(names_something()),
    }
}

/// True when a path has a parent: it has a step to leave out.
pub open spec fn has_parent(path: Seq<char>) -> bool {
    path_view(path).steps.len() > 0 || path_view(path).here
}

/// The entry `name` in the parent of a path.
pub open spec fn sibling(path: Seq<char>, name: Seq<char>) -> PathView {
    let view = path_view(path);
    if view.steps.len() > 0 {
        PathView { steps: view.steps.drop_last().push(name), ..view }
    } else {
        PathView { rooted: false, here: false, steps: seq![name] }
    }
}

/// A path taken apart.
struct Taken {
    rooted: bool,
    here: bool,
    steps: Vec<Vec<char>>,
}

fn is_dot(step: &Vec<char>) -> (r: bool)
    ensures
        r == (step@ == seq!['.']),
{
    let r = step.len() == 1 && step[0] == '.';
    proof {
        if r {
            assert(step@ =~= seq!['.']);
        }
    }
    r
}

fn take_apart(path: &str) -> (r: Taken)
    ensures
        (PathView { rooted: r.rooted, here: r.here, steps: texts(r.steps@) }) == path_view(path@),
{
    let chars = to_chars(path);
    let pieces = split_chars(chars.as_slice(), '/');
    let rooted = chars.len() > 0 && chars[0] == '/';
    let ghost all = split(path@, '/');
    let ghost keep = names_something();
    proof {
        lemma_split_nonempty(path@, '/');
        assert(texts(pieces@)[0] == pieces@[0]@);
    }
    let here = !rooted && is_dot(&pieces[0]);
    let mut steps: Vec<Vec<char>> = Vec::new();
    let mut i: usize = 0;
    proof {
        reveal(Seq::filter);
        assert(all.take(0) =~= Seq::<Seq<char>>::empty());
        assert(texts(steps@) =~= Seq::<Seq<char>>::empty());
    }
    while i < pieces.len()
        invariant
            i <= pieces@.len(),
            texts(pieces@) == all,
            keep == names_something(),
            texts(steps@) == all.take(i as int).filter(keep),
        decreases pieces@.len() - i,
    {
        proof {
            reveal(Seq::filter);
            assert(all.take(i + 1).drop_last() =~= all.take(i as int));
            assert(all[i as int] == pieces@[i as int]@);
        }
        if pieces[i].len() > 0 && !is_dot(&pieces[i]) {
            let ghost before = texts(steps@);
            let step = crate::text::copy_chars(pieces[i].as_slice());
            steps.push(step);
            proof {
                assert(texts(steps@) =~= before.push(all[i as int]));
            }
        }
        i = i + 1;
    }
    proof {
        assert(all.take(i as int) =~= all);
    }
    Taken { rooted, here, steps }
}

fn same_chars(a: &Vec<char>, b: &Vec<char>) -> (r: bool)
    ensures
        r == (a@ == b@),
{
    if a.len() != b.len() {
        return false;
    }
    let mut i: usize = 0;
    while i < a.len()
        invariant
            a@.len() == b@.len(),
            i <= a@.len(),
            forall|j: int| 0 <= j < i ==> a@[j] == b@[j],
        decreases a@.len() - i,
    {
        if a[i] != b[i] {
            return false;
        }
        i = i + 1;
    }
    proof {
        assert(a@ =~= b@);
    }
    true
}

/// True when `other` is the entry `name` in the parent of `path`. Nothing when `path` has no
/// parent.
pub fn is_sibling(path: &str, other: &str, name: &str) -> (r: Option<bool>)
    ensures
        r == if has_parent(path@) {
            Some(path_view(other@) == sibling(path@, name@))
        } else {
            None
        },
{
    let base = take_apart(path);
    let found = take_apart(other);
    let last = to_chars(name);
    let ghost wanted = sibling(path@, name@);
    let n: usize = base.steps.len();
    if n == 0 && !base.here {
        return None;
    }
    let rooted = n > 0 && base.rooted;
    let here = n > 0 && base.here;
    let mut steps = base.steps;
    if n > 0 {
        let _ = steps.pop();
    }
    steps.push(last);
    proof {
        assert(texts(steps@) =~= wanted.steps);
    }
    if found.rooted != rooted || found.here != here || found.steps.len() != steps.len() {
        return Some(false);
    }
    let mut i: usize = 0;
    let ghost shown = path_view(other@);
    while i < steps.len()
        invariant
            texts(steps@) == wanted.steps,
            texts(found.steps@) == shown.steps,
            steps@.len() == found.steps@.len(),
            i <= steps@.len(),
            wanted == sibling(path@, name@),
            shown == path_view(other@),
            has_parent(path@),
            forall|j: int| 0 <= j < i ==> wanted.steps[j] == shown.steps[j],
        decreases steps@.len() - i,
    {
        proof {
            assert(wanted.steps[i as int] == steps@[i as int]@);
            assert(shown.steps[i as int] == found.steps@[i as int]@);
        }
        if !same_chars(&steps[i], &found.steps[i]) {
            return Some(false);
        }
        i = i + 1;
    }
    proof {
        assert(wanted.steps =~= shown.steps);
    }
    Some(true)
}

// ---------------------------------------------------------------------------
// What holds of every path
// ---------------------------------------------------------------------------

/// True for a text that is one step: it names something and holds no slash.
pub open spec fn is_step(step: Seq<char>) -> bool {
    step.len() > 0 && step != seq!['.'] && !step.contains('/')
}

/// Slashes separate steps; nothing and a dot between them are no steps.
pub proof fn law_slashes_separate_steps(a: Seq<char>, b: Seq<char>)
    ensures
        path_view(a + seq!['/'] + b).steps == path_view(a).steps + path_view(b).steps,
        is_step(a) ==> path_view(a).steps == seq![a],
        a.len() == 0 || a == seq!['.'] ==> path_view(a).steps == Seq::<Seq<char>>::empty(),
{
    law_separators_separate(a, '/', b);
    Seq::filter_distributes_over_add(split(a, '/'), split(b, '/'), names_something());
    if !a.contains('/') {
        law_unseparated_text_is_one_piece(a, '/');
        let keep = names_something();
        reveal(Seq::filter);
        assert(seq![a].drop_last() =~= Seq::<Seq<char>>::empty());
        assert(seq![a].last() == a);
        assert(Seq::<Seq<char>>::empty().filter(keep) =~= Seq::<Seq<char>>::empty());
        assert(Seq::<Seq<char>>::empty().push(a) =~= seq![a]);
    }
}

/// A path begins at the root when it begins with a slash. One that does not is kept apart by a dot
/// in front.
pub proof fn law_paths_begin_at_the_root_or_here(path: Seq<char>, rest: Seq<char>)
    ensures
        path_view(path).rooted <==> path.len() > 0 && path[0] == '/',
        path_view(seq!['.']).here,
        path_view(seq!['.', '/'] + rest).here,
        path.len() > 0 && path[0] != '.' ==> !path_view(path).here,
        path.len() == 0 ==> !path_view(path).here,
        path.len() >= 2 && path[1] != '/' ==> !path_view(path).here,
        has_parent(path) <==> path_view(path).here || path_view(path).steps.len() > 0,
{
    let dot: Seq<char> = seq!['.'];
    law_unseparated_text_is_one_piece(dot, '/');
    law_separators_separate(dot, '/', rest);
    assert(seq!['.', '/'] + rest =~= dot + seq!['/'] + rest);
    assert(split(dot + seq!['/'] + rest, '/')[0] == dot);
    if path_view(path).here {
        law_split_pieces_join_again(path, '/');
        let pieces = split(path, '/');
        lemma_split_nonempty(path, '/');
        if pieces.len() == 1 {
            assert(path == dot);
        } else {
            let first = pieces.take(1);
            let others = pieces.skip(1);
            assert(pieces =~= first + others);
            law_joining_two_lists(first, others, seq!['/']);
            assert(join(first, seq!['/']) == dot);
            assert(path =~= dot + seq!['/'] + join(others, seq!['/']));
            assert(path[0] == '.' && path[1] == '/');
        }
    }
}

/// The sibling of a path is the other name in the same directory: a last step is exchanged, and
/// nothing else.
pub proof fn law_siblings_share_their_directory(
    directory: Seq<char>,
    last: Seq<char>,
    name: Seq<char>,
)
    requires
        is_step(last),
        is_step(name),
    ensures
        sibling(directory + seq!['/'] + last, name) == path_view(directory + seq!['/'] + name),
        sibling(last, name) == path_view(name),
        has_parent(directory + seq!['/'] + last),
        has_parent(last),
{
    law_slashes_separate_steps(directory, last);
    law_slashes_separate_steps(directory, name);
    law_slashes_separate_steps(last, last);
    law_slashes_separate_steps(name, name);
    law_separators_separate(directory, '/', last);
    law_separators_separate(directory, '/', name);
    lemma_split_nonempty(directory, '/');
    let a = directory + seq!['/'] + last;
    let b = directory + seq!['/'] + name;
    assert(split(a, '/')[0] == split(directory, '/')[0]);
    assert(split(b, '/')[0] == split(directory, '/')[0]);
    assert(a[0] == b[0]);
    let steps = path_view(directory).steps;
    assert((steps + seq![last]).drop_last().push(name) =~= steps + seq![name]);
    assert(sibling(a, name) =~= path_view(b));
    assert(seq![last].drop_last().push(name) =~= seq![name]);
    law_unseparated_text_is_one_piece(last, '/');
    law_unseparated_text_is_one_piece(name, '/');
    assert(last.contains(last[0]));
    assert(name.contains(name[0]));
    assert(sibling(last, name) =~= path_view(name));
}

} // verus!
