//! Names that carry a number in brackets, the name that follows one, and the
//! search for the first name that is free.
//!
//! The search is offered twice. `free_name` takes the names that exist as a
//! list. `start_search` and `continue_search` take them one answer at a
//! time, for a caller that has to ask for each candidate whether it exists.
use vstd::prelude::*;
use vstd::string::*;
use crate::capture::{captured_groups, find_groups, group_at, group_texts, pattern_compiles};
use crate::compare::same_text;
use crate::number::{
    decimal,
    lemma_number_below_power,
    lemma_written_number_reads_back,
    lemma_written_width,
    number_of,
    padded_decimal,
    parse_number,
    pow10,
    zero_padded,
};

verus! {

/// How a name is read, as a regular expression for the whole name: a stem,
/// as short as can be; then, if it is there, a number of two digits in square
/// brackets; then, if it is there, a dot and word characters to the end.
/// Group 1 is the stem, group 2 the brackets with the number, group 3 the
/// number, group 4 the extension with its dot.
pub const NAME_PATTERN: &'static str = r"(?i)^(.+?)(\[(\d\d)\])?(\.\w+)?$";

/// The text of a group, or the empty text for a group that is not there.
pub open spec fn text_or_empty(group: Option<Seq<char>>) -> Seq<char> {
    match group {
        Some(t) => t,
        None => Seq::empty(),
    }
}

/// `digits` between square brackets.
pub open spec fn bracketed(digits: Seq<char>) -> Seq<char> {
    seq!['['] + digits + seq![']']
}

/// Whether the groups of a name can be followed: where the brackets are
/// there, the number in them is there too, spells a number in the digits `0`
/// to `9`, and that number is under `i32::MAX`.
pub open spec fn can_follow(groups: Seq<Option<Seq<char>>>) -> bool {
    group_at(groups, 2) is Some ==> (group_at(groups, 3) matches Some(digits) && (number_of(
        digits,
    ) matches Some(v) && v < i32::MAX))
}

/// The number of the name that follows: zero after a name without a number,
/// else its number plus one.
pub open spec fn following_number(groups: Seq<Option<Seq<char>>>) -> nat {
    if group_at(groups, 2) is None {
        0
    } else {
        number_of(group_at(groups, 3)->0)->0 + 1
    }
}

/// The digits of the name that follows: `00` after a name without a number,
/// else the following number, written to the width of the old number, or
/// wider where it does not fit.
pub open spec fn following_digits(groups: Seq<Option<Seq<char>>>) -> Seq<char> {
    if group_at(groups, 2) is None {
        seq!['0', '0']
    } else {
        zero_padded(decimal(following_number(groups)), group_at(groups, 3)->0.len())
    }
}

/// The brackets of the name that follows.
pub open spec fn following_brackets(groups: Seq<Option<Seq<char>>>) -> Seq<char> {
    bracketed(following_digits(groups))
}

/// The name that follows the name with these groups: its stem, the following
/// brackets, its extension.
pub open spec fn following_name(groups: Seq<Option<Seq<char>>>) -> Seq<char> {
    text_or_empty(group_at(groups, 1)) + following_brackets(groups) + text_or_empty(
        group_at(groups, 4),
    )
}

/// The digits of the following name spell the following number. They are as
/// many as the digits of the old number where the following number fits that
/// width, and more where it does not: after `99` comes `100`.
pub proof fn lemma_following_digits(groups: Seq<Option<Seq<char>>>)
    requires
        can_follow(groups),
    ensures
        number_of(following_digits(groups)) == Some(following_number(groups)),
        group_at(groups, 2) is None ==> following_digits(groups).len() == 2,
        group_at(groups, 2) is Some ==> {
            let width = group_at(groups, 3)->0.len();
            &&& following_number(groups) <= pow10(width)
            &&& following_number(groups) < pow10(width) ==> following_digits(groups).len()
                == width
            &&& following_number(groups) == pow10(width) ==> following_digits(groups).len()
                == width + 1
        },
{
    if group_at(groups, 2) is None {
        let zeros = seq!['0', '0'];
        assert(zeros.drop_last() =~= seq!['0']);
        assert(number_of(zeros.drop_last()) == Some(0nat));
    } else {
        let digits = group_at(groups, 3)->0;
        let n = following_number(groups);
        lemma_number_below_power(digits);
        lemma_written_number_reads_back(n, digits.len());
        lemma_written_width(n, digits.len());
        lemma_written_width(n, digits.len() + 1);
        reveal_with_fuel(pow10, 2);
    }
}

/// Group `n` of `groups`, as the string that holds it.
fn group_ref(groups: &Vec<Option<String>>, n: usize) -> (g: Option<&String>)
    ensures
        match g {
            Some(s) => group_at(group_texts(groups@), n as int) == Some(s@),
            None => group_at(group_texts(groups@), n as int) is None,
        },
{
    if n < groups.len() {
        groups[n].as_ref()
    } else {
        None
    }
}

/// Whether the name with these groups can be followed.
pub fn groups_can_follow(groups: &Vec<Option<String>>) -> (ok: bool)
    ensures
        ok == can_follow(group_texts(groups@)),
{
    match group_ref(groups, 2) {
        None => true,
        Some(_) => match group_ref(groups, 3) {
            None => false,
            Some(digits) => match parse_number(digits.as_str()) {
                None => false,
                Some(v) => v < 0x7fff_ffff,
            },
        },
    }
}

/// The name that follows the name with these groups.
pub fn name_after(groups: &Vec<Option<String>>) -> (name: String)
    requires
        can_follow(group_texts(groups@)),
    ensures
        name@ == following_name(group_texts(groups@)),
{
    let mut name = String::new();
    if let Some(stem) = group_ref(groups, 1) {
        name.append(stem.as_str());
    }
    proof {
        reveal_strlit("[");
        reveal_strlit("]");
        reveal_strlit("00");
    }
    name.append("[");
    match group_ref(groups, 2) {
        None => {
            name.append("00");
        },
        Some(_) => {
            let digits = group_ref(groups, 3).unwrap();
            let v = parse_number(digits.as_str()).unwrap();
            let width = digits.as_str().unicode_len();
            let number = padded_decimal(v + 1, width);
            name.append(number.as_str());
        },
    }
    name.append("]");
    if let Some(ext) = group_ref(groups, 4) {
        name.append(ext.as_str());
    }
    assert(name@ =~= following_name(group_texts(groups@)));
    name
}

/// Whether `name` has a name that follows it: the pattern compiles, `name`
/// matches it, and its groups can be followed.
pub open spec fn has_next(name: Seq<char>) -> bool {
    pattern_compiles(NAME_PATTERN@) && (captured_groups(NAME_PATTERN@, name) matches Some(
        groups,
    ) && can_follow(groups))
}

/// The name that follows `name`, where it has one.
pub open spec fn next_of(name: Seq<char>) -> Seq<char> {
    following_name(captured_groups(NAME_PATTERN@, name)->0)
}

/// The name that follows `name`: `[00]` put between stem and extension where
/// `name` has no number in brackets, else its number raised by one. Nothing
/// is asked of the file system.
pub fn next_name(name: &str) -> (next: String)
    requires
        has_next(name@),
    ensures
        next@ == next_of(name@),
{
    let groups = find_groups(NAME_PATTERN, name).unwrap().unwrap();
    name_after(&groups)
}

/// The name that follows `name`, or `None` where it has none.
pub fn find_next_name(name: &str) -> (next: Option<String>)
    ensures
        next is Some <==> has_next(name@),
        next matches Some(n) ==> n@ == next_of(name@),
{
    match find_groups(NAME_PATTERN, name) {
        Ok(Some(groups)) => {
            if groups_can_follow(&groups) {
                Some(next_name(name))
            } else {
                None
            }
        },
        _ => None,
    }
}

/// Whether `name` is one of the names in `taken`.
pub open spec fn is_taken(name: Seq<char>, taken: Seq<String>) -> bool {
    exists|i: int| 0 <= i < taken.len() && (#[trigger] taken[i])@ == name
}

/// The first of `candidate` and the names that follow it, one after the
/// other, that is not in `taken`, where at most `budget` names are followed;
/// `None` where a taken name has no name that follows it, or the budget is
/// used up on taken names.
pub open spec fn first_free_from(candidate: Seq<char>, taken: Seq<String>, budget: nat) -> Option<
    Seq<char>,
>
    decreases budget,
{
    if !is_taken(candidate, taken) {
        Some(candidate)
    } else if budget == 0 || !has_next(candidate) {
        None
    } else {
        first_free_from(next_of(candidate), taken, (budget - 1) as nat)
    }
}

/// The first free name after `name`: of the names that follow `name`, one
/// after the other, the first that is not in `taken`. `name` itself is never
/// the answer. One name more is tried than `taken` holds, and no more.
pub open spec fn first_free(name: Seq<char>, taken: Seq<String>) -> Option<Seq<char>> {
    if has_next(name) {
        first_free_from(next_of(name), taken, taken.len())
    } else {
        None
    }
}

/// The name that is reached from `name` by following `k` times.
pub open spec fn nth_next(name: Seq<char>, k: nat) -> Seq<char>
    decreases k,
{
    if k == 0 {
        name
    } else {
        nth_next(next_of(name), (k - 1) as nat)
    }
}

/// How many names the search passes over, from `candidate` on, before it
/// ends.
pub open spec fn passed_over(candidate: Seq<char>, taken: Seq<String>, budget: nat) -> nat
    decreases budget,
{
    if !is_taken(candidate, taken) || budget == 0 || !has_next(candidate) {
        0
    } else {
        1 + passed_over(next_of(candidate), taken, (budget - 1) as nat)
    }
}

/// The first free name is free, and it is the least: it is reached by
/// following from `candidate` a number of times, and each name that was
/// passed over on the way is taken and has a name that follows it.
pub proof fn lemma_first_free_is_least(candidate: Seq<char>, taken: Seq<String>, budget: nat)
    ensures
        first_free_from(candidate, taken, budget) matches Some(free) ==> {
            let k = passed_over(candidate, taken, budget);
            &&& k <= budget
            &&& free == nth_next(candidate, k)
            &&& !is_taken(free, taken)
            &&& forall|j: nat|
                j < k ==> is_taken(#[trigger] nth_next(candidate, j), taken) && has_next(
                    nth_next(candidate, j),
                )
        },
    decreases budget,
{
    if is_taken(candidate, taken) && budget > 0 && has_next(candidate) {
        let rest = next_of(candidate);
        lemma_first_free_is_least(rest, taken, (budget - 1) as nat);
        if first_free_from(candidate, taken, budget) is Some {
            let k = passed_over(candidate, taken, budget);
            assert forall|j: nat| j < k implies is_taken(
                #[trigger] nth_next(candidate, j),
                taken,
            ) && has_next(nth_next(candidate, j)) by {
                if j > 0 {
                    assert(nth_next(candidate, j) == nth_next(rest, (j - 1) as nat));
                }
            }
        }
    }
}

/// Whether `name` is one of the names in `taken`.
pub fn is_among(name: &str, taken: &Vec<String>) -> (found: bool)
    ensures
        found == is_taken(name@, taken@),
{
    let mut i: usize = 0;
    while i < taken.len()
        invariant
            i <= taken.len(),
            forall|k: int| 0 <= k < i ==> (#[trigger] taken@[k])@ != name@,
        decreases taken.len() - i,
    {
        if same_text(taken[i].as_str(), name) {
            return true;
        }
        i += 1;
    }
    false
}

/// The first free name after `name`, where `taken` holds the names that
/// exist: the names that follow `name` are tried one after the other, and
/// the first that is not in `taken` is returned.
pub fn free_name(name: &str, taken: &Vec<String>) -> (free: String)
    requires
        first_free(name@, taken@) is Some,
    ensures
        Some(free@) == first_free(name@, taken@),
        !is_taken(free@, taken@),
{
    let mut candidate = next_name(name);
    let mut budget: usize = taken.len();
    while is_among(candidate.as_str(), taken)
        invariant
            first_free_from(candidate@, taken@, budget as nat) == first_free(name@, taken@),
            first_free(name@, taken@) is Some,
        decreases budget,
    {
        candidate = next_name(candidate.as_str());
        budget -= 1;
    }
    candidate
}

/// The first free name after `name`, or `None` where there is none: where a
/// name that would have to be followed has no name that follows it, or where
/// one name more than `taken` holds has been tried and each was taken.
pub fn find_free_name(name: &str, taken: &Vec<String>) -> (free: Option<String>)
    ensures
        match free {
            Some(f) => Some(f@) == first_free(name@, taken@) && !is_taken(f@, taken@),
            None => first_free(name@, taken@) is None,
        },
{
    let mut candidate = match find_next_name(name) {
        Some(next) => next,
        None => return None,
    };
    let mut budget: usize = taken.len();
    while is_among(candidate.as_str(), taken)
        invariant
            first_free_from(candidate@, taken@, budget as nat) == first_free(name@, taken@),
        decreases budget,
    {
        if budget == 0 {
            return None;
        }
        candidate = match find_next_name(candidate.as_str()) {
            Some(next) => next,
            None => return None,
        };
        budget -= 1;
    }
    Some(free_name(name, taken))
}

/// What the search for a free name does next.
#[derive(Debug)]
pub enum Search {
    /// Find out whether a file or a directory of this name exists, and go on
    /// with `continue_search`.
    Probe(String),
    /// The name is free, and the search is over.
    Free(String),
    /// No name follows this one, so the search cannot go on from it.
    Stuck(String),
}

/// Begins the search for a free name after `name`: the name that follows it
/// is the first to be probed. `name` itself is never the answer.
pub fn start_search(name: &str) -> (step: Search)
    ensures
        has_next(name@) ==> (step matches Search::Probe(n) && n@ == next_of(name@)),
        !has_next(name@) ==> (step matches Search::Stuck(n) && n@ == name@),
{
    match find_next_name(name) {
        Some(next) => Search::Probe(next),
        None => Search::Stuck(name.to_owned()),
    }
}

/// Goes on with the search once `candidate` has been probed: it is the
/// answer where nothing of that name exists; where something does, the name
/// that follows it is probed next.
pub fn continue_search(candidate: String, exists: bool) -> (step: Search)
    ensures
        !exists ==> step == Search::Free(candidate),
        exists && has_next(candidate@) ==> (step matches Search::Probe(n) && n@ == next_of(
            candidate@,
        )),
        exists && !has_next(candidate@) ==> step == Search::Stuck(candidate),
{
    if !exists {
        return Search::Free(candidate);
    }
    match find_next_name(candidate.as_str()) {
        Some(next) => Search::Probe(next),
        None => Search::Stuck(candidate),
    }
}

} // verus!
