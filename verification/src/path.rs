//! The last component of a path and the path of its parent.
//!
//! A path is read as text in which `/` separates the components. Separators
//! that follow one another count once, a `.` component counts only at the
//! start of the path, and a `/` at the start is the root.
use vstd::prelude::*;
use vstd::string::*;
use crate::convert::chars_of;

verus! {

/// How many characters stand before the components of `p`: one for the root
/// `/`, one for a `.` that begins a relative path, else none.
pub open spec fn body_start(p: Seq<char>) -> int {
    if p.len() > 0 && p[0] == '/' {
        1
    } else if p.len() > 0 && p[0] == '.' && (p.len() == 1 || p[1] == '/') {
        1
    } else {
        0
    }
}

/// Where the component that ends at `end` begins: behind the last `/` in
/// `p[low..end]`, or at `low` where there is none.
pub open spec fn component_start(p: Seq<char>, low: int, end: int) -> int
    decreases end - low,
{
    if end <= low {
        low
    } else if p[end - 1] == '/' {
        end
    } else {
        component_start(p, low, end - 1)
    }
}

/// Where `p[low..end]` ends once its last component and the separator before
/// it are taken away.
pub open spec fn before_component(p: Seq<char>, low: int, end: int) -> int {
    let start = component_start(p, low, end);
    if start > low {
        start - 1
    } else {
        low
    }
}

/// Whether a component is `.`, the directory itself.
pub open spec fn is_dot(component: Seq<char>) -> bool {
    component.len() == 1 && component[0] == '.'
}

/// Whether a component is `..`, the directory above.
pub open spec fn is_dot_dot(component: Seq<char>) -> bool {
    component.len() == 2 && component[0] == '.' && component[1] == '.'
}

/// Whether a component counts for nothing: the empty one between two
/// separators, and `.`.
pub open spec fn is_skipped(component: Seq<char>) -> bool {
    component.len() == 0 || is_dot(component)
}

/// Where `p[..end]` ends once the separators and `.` components at its end
/// are dropped.
pub open spec fn trimmed_end(p: Seq<char>, end: int) -> int
    decreases end,
    via trimmed_end_decreases
{
    let low = body_start(p);
    if end <= low || end > p.len() {
        end
    } else {
        let start = component_start(p, low, end);
        if is_skipped(p.subrange(start, end)) {
            trimmed_end(p, before_component(p, low, end))
        } else {
            end
        }
    }
}

#[via_fn]
proof fn trimmed_end_decreases(p: Seq<char>, end: int) {
    if body_start(p) < end <= p.len() {
        lemma_component_start_bounds(p, body_start(p), end);
    }
}

/// Where the last component of `p` begins and ends, if `p` has one beside
/// the root and a leading `.`.
pub open spec fn last_component(p: Seq<char>) -> Option<(int, int)> {
    let end = trimmed_end(p, p.len() as int);
    if end <= body_start(p) {
        None
    } else {
        Some((component_start(p, body_start(p), end), end))
    }
}

/// The file name of the path `p`: its last component, unless that is `..`.
pub open spec fn file_name_of(p: Seq<char>) -> Option<Seq<char>> {
    match last_component(p) {
        None => None,
        Some((start, end)) => if is_dot_dot(p.subrange(start, end)) {
            None
        } else {
            Some(p.subrange(start, end))
        },
    }
}

/// The parent of the path `p`: `p` without its last component and without
/// the separators and `.` components before it; empty where `p` has no last
/// component.
pub open spec fn parent_of(p: Seq<char>) -> Seq<char> {
    match last_component(p) {
        None => Seq::empty(),
        Some((start, end)) => p.subrange(
            0,
            trimmed_end(p, before_component(p, body_start(p), end)),
        ),
    }
}

/// `component_start` stays between its bounds.
pub proof fn lemma_component_start_bounds(p: Seq<char>, low: int, end: int)
    requires
        low <= end,
    ensures
        low <= component_start(p, low, end) <= end,
    decreases end - low,
{
    if end > low && p[end - 1] != '/' {
        lemma_component_start_bounds(p, low, end - 1);
    }
}

/// `trimmed_end` gives an end that is no later, and no earlier than the
/// start of the components where `end` was not.
pub proof fn lemma_trimmed_end_bounds(p: Seq<char>, end: int)
    requires
        0 <= end <= p.len(),
    ensures
        0 <= trimmed_end(p, end) <= end,
        end >= body_start(p) ==> trimmed_end(p, end) >= body_start(p),
    decreases end,
{
    let low = body_start(p);
    if end > low {
        lemma_component_start_bounds(p, low, end);
        let start = component_start(p, low, end);
        if is_skipped(p.subrange(start, end)) {
            lemma_trimmed_end_bounds(p, before_component(p, low, end));
        }
    }
}

/// A component holds no separator, and one stands before it unless it
/// begins where the search began.
pub proof fn lemma_component_is_whole(p: Seq<char>, low: int, end: int)
    requires
        low <= end,
    ensures
        forall|k: int| component_start(p, low, end) <= k < end ==> p[k] != '/',
        component_start(p, low, end) > low ==> p[component_start(p, low, end) - 1] == '/',
    decreases end - low,
{
    if end > low && p[end - 1] != '/' {
        lemma_component_is_whole(p, low, end - 1);
    }
}

/// Where `trimmed_end` stops above the start of the components, the
/// component that ends there counts.
pub proof fn lemma_trimmed_end_stops(p: Seq<char>, end: int)
    requires
        0 <= end <= p.len(),
    ensures
        trimmed_end(p, end) > body_start(p) ==> !is_skipped(
            p.subrange(
                component_start(p, body_start(p), trimmed_end(p, end)),
                trimmed_end(p, end),
            ),
        ),
    decreases end,
{
    let low = body_start(p);
    if end > low {
        lemma_component_start_bounds(p, low, end);
        let start = component_start(p, low, end);
        if is_skipped(p.subrange(start, end)) {
            lemma_trimmed_end_stops(p, before_component(p, low, end));
        }
    }
}

/// A file name is a piece of the path, is not empty, holds no separator, and
/// is neither `.` nor `..`.
pub proof fn lemma_file_name_is_a_component(p: Seq<char>)
    requires
        file_name_of(p) is Some,
    ensures
        ({
            let name = file_name_of(p)->0;
            &&& name.len() > 0
            &&& forall|k: int| 0 <= k < name.len() ==> name[k] != '/'
            &&& !is_dot(name)
            &&& !is_dot_dot(name)
            &&& exists|from: int, to: int|
                0 <= from <= to <= p.len() && name == #[trigger] p.subrange(from, to)
        }),
{
    let low = body_start(p);
    let end = trimmed_end(p, p.len() as int);
    lemma_trimmed_end_bounds(p, p.len() as int);
    lemma_trimmed_end_stops(p, p.len() as int);
    lemma_component_start_bounds(p, low, end);
    lemma_component_is_whole(p, low, end);
    let start = component_start(p, low, end);
    let name = p.subrange(start, end);
    assert(forall|k: int| 0 <= k < name.len() ==> name[k] == p[start + k]);
}

/// The parent of a path is a piece from its start, and shorter than the
/// path where the path has a last component.
pub proof fn lemma_parent_is_a_prefix(p: Seq<char>)
    ensures
        parent_of(p).is_prefix_of(p),
        last_component(p) is Some ==> parent_of(p).len() < p.len(),
{
    let low = body_start(p);
    let end = trimmed_end(p, p.len() as int);
    lemma_trimmed_end_bounds(p, p.len() as int);
    if end > low {
        lemma_trimmed_end_stops(p, p.len() as int);
        lemma_component_start_bounds(p, low, end);
        let cut = before_component(p, low, end);
        lemma_trimmed_end_bounds(p, cut);
        let stop = trimmed_end(p, cut);
        assert(p.subrange(0, stop).subrange(0, stop) =~= p.subrange(0, stop));
    } else {
        assert(parent_of(p) =~= p.subrange(0, 0));
    }
}

/// Behind a separator, a name that is a component of its own is the file
/// name of the path, whatever stands before the separator.
pub proof fn lemma_file_name_after_separator(dir: Seq<char>, name: Seq<char>)
    requires
        name.len() > 0,
        forall|k: int| 0 <= k < name.len() ==> name[k] != '/',
        !is_dot(name),
        !is_dot_dot(name),
    ensures
        file_name_of(dir + seq!['/'] + name) == Some(name),
{
    let p = dir + seq!['/'] + name;
    let low = body_start(p);
    let end = p.len() as int;
    let from = dir.len() + 1;
    assert(p[from - 1] == '/');
    assert(forall|k: int| from <= k < end ==> p[k] == name[k - from]);
    assert(low <= from);
    lemma_component_start_at(p, low, from as int, end);
    assert(p.subrange(from as int, end) =~= name);
}

/// A path reads the same up to `end` as any longer path that begins with
/// it, as long as the two agree on what stands before the components.
pub proof fn lemma_same_start_same_parts(p: Seq<char>, q: Seq<char>, end: int)
    requires
        0 <= end <= p.len() <= q.len(),
        p =~= q.subrange(0, p.len() as int),
        body_start(p) == body_start(q),
    ensures
        forall|e: int| 0 <= e <= end ==> component_start(p, body_start(p), e) == component_start(
            q,
            body_start(p),
            e,
        ),
        trimmed_end(p, end) == trimmed_end(q, end),
    decreases end,
{
    let low = body_start(p);
    assert forall|e: int| 0 <= e <= end implies component_start(p, low, e) == component_start(
        q,
        low,
        e,
    ) by {
        lemma_component_start_same(p, q, low, e);
    }
    if end > low {
        lemma_component_start_bounds(p, low, end);
        let start = component_start(p, low, end);
        assert(p.subrange(start, end) =~= q.subrange(start, end));
        if is_skipped(p.subrange(start, end)) {
            lemma_same_start_same_parts(p, q, before_component(p, low, end));
        }
    }
}

/// The component that ends at `end` begins at the same place in a path and
/// in a longer one that begins with it.
pub proof fn lemma_component_start_same(p: Seq<char>, q: Seq<char>, low: int, end: int)
    requires
        0 <= low,
        0 <= end <= p.len() <= q.len(),
        p =~= q.subrange(0, p.len() as int),
    ensures
        component_start(p, low, end) == component_start(q, low, end),
    decreases end - low,
{
    if end > low {
        assert(p[end - 1] == q.subrange(0, p.len() as int)[end - 1]);
        if p[end - 1] != '/' {
            lemma_component_start_same(p, q, low, end - 1);
        }
    }
}

/// Where a directory does not end in a separator or a `.` component, it is
/// the parent of each name in it: of the path made of the directory, a
/// separator, and a name that is a component of its own.
pub proof fn lemma_parent_before_separator(dir: Seq<char>, name: Seq<char>)
    requires
        dir.len() > 0,
        trimmed_end(dir, dir.len() as int) == dir.len(),
        name.len() > 0,
        forall|k: int| 0 <= k < name.len() ==> name[k] != '/',
        !is_dot(name),
    ensures
        parent_of(dir + seq!['/'] + name) == dir,
{
    let p = dir + seq!['/'] + name;
    let low = body_start(p);
    let end = p.len() as int;
    let from = dir.len() + 1;
    assert(p[from - 1] == '/');
    assert(forall|k: int| from <= k < end ==> p[k] == name[k - from]);
    assert(body_start(dir) == low) by {
        assert(p[0] == dir[0]);
        if dir.len() > 1 {
            assert(p[1] == dir[1]);
        }
    }
    lemma_component_start_at(p, low, from as int, end);
    assert(p.subrange(from as int, end) =~= name);
    assert(dir =~= p.subrange(0, dir.len() as int));
    lemma_same_start_same_parts(dir, p, dir.len() as int);
}

/// A name that is a component of its own is its own file name.
pub proof fn lemma_file_name_of_bare_name(name: Seq<char>)
    requires
        name.len() > 0,
        forall|k: int| 0 <= k < name.len() ==> name[k] != '/',
        !is_dot(name),
        !is_dot_dot(name),
    ensures
        file_name_of(name) == Some(name),
        parent_of(name) == Seq::<char>::empty(),
{
    let end = name.len() as int;
    assert(body_start(name) == 0);
    lemma_component_start_at(name, 0, 0, end);
    assert(name.subrange(0, end) =~= name);
    assert(before_component(name, 0, end) == 0);
    assert(name.subrange(0, 0) =~= Seq::<char>::empty());
}

/// The component that ends at `end` begins at `from` where no separator
/// stands from there on and one stands before it, or the search began there.
pub proof fn lemma_component_start_at(p: Seq<char>, low: int, from: int, end: int)
    requires
        0 <= low <= from <= end <= p.len(),
        forall|k: int| from <= k < end ==> p[k] != '/',
        from > low ==> p[from - 1] == '/',
    ensures
        component_start(p, low, end) == from,
    decreases end - from,
{
    if end > from {
        lemma_component_start_at(p, low, from, end - 1);
    }
}

fn body_start_in(chars: &Vec<char>) -> (low: usize)
    ensures
        low == body_start(chars@),
        low <= chars.len(),
{
    if chars.len() > 0 && chars[0] == '/' {
        1
    } else if chars.len() > 0 && chars[0] == '.' && (chars.len() == 1 || chars[1] == '/') {
        1
    } else {
        0
    }
}

fn component_start_in(chars: &Vec<char>, low: usize, end: usize) -> (start: usize)
    requires
        low <= end <= chars.len(),
    ensures
        start == component_start(chars@, low as int, end as int),
        low <= start <= end,
{
    let mut i: usize = end;
    while i > low && chars[i - 1] != '/'
        invariant
            low <= i <= end <= chars.len(),
            component_start(chars@, low as int, end as int) == component_start(
                chars@,
                low as int,
                i as int,
            ),
        decreases i,
    {
        i -= 1;
    }
    i
}

fn is_skipped_in(chars: &Vec<char>, start: usize, end: usize) -> (skipped: bool)
    requires
        start <= end <= chars.len(),
    ensures
        skipped == is_skipped(chars@.subrange(start as int, end as int)),
{
    end - start == 0 || (end - start == 1 && chars[start] == '.')
}

fn is_dot_dot_in(chars: &Vec<char>, start: usize, end: usize) -> (parent: bool)
    requires
        start <= end <= chars.len(),
    ensures
        parent == is_dot_dot(chars@.subrange(start as int, end as int)),
{
    end - start == 2 && chars[start] == '.' && chars[start + 1] == '.'
}

fn trimmed_end_in(chars: &Vec<char>, low: usize, end: usize) -> (trimmed: usize)
    requires
        end <= chars.len(),
        low == body_start(chars@),
    ensures
        trimmed == trimmed_end(chars@, end as int),
        trimmed <= end,
{
    let mut e: usize = end;
    while e > low
        invariant
            e <= end <= chars.len(),
            low == body_start(chars@),
            trimmed_end(chars@, end as int) == trimmed_end(chars@, e as int),
        decreases e,
    {
        let start = component_start_in(chars, low, e);
        if !is_skipped_in(chars, start, e) {
            return e;
        }
        e = if start > low {
            start - 1
        } else {
            low
        };
    }
    e
}

fn last_component_in(chars: &Vec<char>) -> (found: Option<(usize, usize)>)
    ensures
        match found {
            None => last_component(chars@) is None,
            Some((start, end)) => last_component(chars@) == Some((start as int, end as int))
                && body_start(chars@) <= start <= end <= chars.len(),
        },
{
    let low = body_start_in(chars);
    let end = trimmed_end_in(chars, low, chars.len());
    if end <= low {
        None
    } else {
        Some((component_start_in(chars, low, end), end))
    }
}

/// The file name of `path`: its last component, where it has one and that is
/// not `..`.
pub fn file_name(path: &str) -> (name: Option<&str>)
    ensures
        match name {
            None => file_name_of(path@) is None,
            Some(n) => file_name_of(path@) == Some(n@),
        },
{
    let chars = chars_of(path);
    match last_component_in(&chars) {
        None => None,
        Some((start, end)) => {
            if is_dot_dot_in(&chars, start, end) {
                None
            } else {
                Some(path.substring_char(start, end))
            }
        },
    }
}

/// The parent of `path`: what stands before its last component, without the
/// separators at its end; empty where `path` has no last component.
pub fn parent_name(path: &str) -> (parent: &str)
    ensures
        parent@ == parent_of(path@),
{
    let chars = chars_of(path);
    match last_component_in(&chars) {
        None => path.substring_char(0, 0),
        Some((start, end)) => {
            let low = body_start_in(&chars);
            let cut = if start > low {
                start - 1
            } else {
                low
            };
            let stop = trimmed_end_in(&chars, low, cut);
            path.substring_char(0, stop)
        },
    }
}

} // verus!
