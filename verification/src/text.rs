//! The operations as methods of strings and string slices.
use vstd::prelude::*;
use vstd::utf8::*;
use crate::capture::{
    capture_group,
    captured_groups,
    group_outcome,
    has_group,
    pattern_compiles,
    CaptureError,
};
use crate::compare::{ends_with_any, ends_with_one_of, same_text};
use crate::convert::{bytes_of, chars_of};
use crate::index::{first_free, free_name, is_taken};
use crate::path::{file_name, file_name_of, parent_name, parent_of};

verus! {

/// `std::path::Path`, of which only its text is spoken of.
#[verifier::external_type_specification]
#[verifier::external_body]
pub struct ExPath(std::path::Path);

/// The text that a path holds: the characters of the string that
/// `std::path::Path::to_str` yields for it, where the path is valid Unicode.
pub uninterp spec fn path_text(path: &std::path::Path) -> Seq<char>;

/// `std::path::Path::new` on `s`, which wraps the string slice as a path
/// without copying or changing it.
///
/// Believed, not proved: the path holds the text of `s`.
#[verifier::external_body]
fn path_of<'a>(s: &'a str) -> (path: &'a std::path::Path)
    ensures
        path_text(path) == s@,
{
    std::path::Path::new(s)
}

/// Conversions of an owned string.
pub trait MyTraitForString: View<V = Seq<char>> {
    /// The characters of the string, in order.
    fn to_vec_char(&self) -> (chars: Vec<char>)
        ensures
            chars@ == self@,
    ;

    /// The bytes of the string, in order: its UTF-8 encoding, which decodes
    /// to the string again.
    fn to_vec_u8(&self) -> (bytes: Vec<u8>)
        ensures
            bytes@ == encode_utf8(self@),
            valid_utf8(bytes@),
            decode_utf8(bytes@) == self@,
    ;
}

impl MyTraitForString for String {
    fn to_vec_char(&self) -> (chars: Vec<char>) {
        chars_of(self.as_str())
    }

    fn to_vec_u8(&self) -> (bytes: Vec<u8>) {
        bytes_of(self.as_str())
    }
}

/// Operations of a string slice.
pub trait MyTraitForStringSlice<'a>: View<V = Seq<char>> + Sized {
    /// Whether the string equals `a` or `b`.
    fn equals_to_one_of_2(self, a: &str, b: &str) -> (found: bool)
        ensures
            found == (self@ == a@ || self@ == b@),
    ;

    /// Whether the string equals `a`, `b` or `c`.
    fn equals_to_one_of_3(self, a: &str, b: &str, c: &str) -> (found: bool)
        ensures
            found == (self@ == a@ || self@ == b@ || self@ == c@),
    ;

    /// The text of capture group `n` of the leftmost match of `regex` in the
    /// string; group 0 is the whole match. See `capture_group`.
    fn get_regex_matched_group_n(self, regex: &str, n: usize) -> (r: Result<String, CaptureError>)
        requires
            pattern_compiles(regex@) ==> has_group(captured_groups(regex@, self@), n as int),
        ensures
            !pattern_compiles(regex@) ==> (r matches Err(CaptureError::Compile { pattern: p })
                && p@ == regex@),
            pattern_compiles(regex@) ==> group_outcome(captured_groups(regex@, self@), n as int, r),
    ;

    /// The first free name after the string, read as a name with a number
    /// in brackets, where `taken` holds the names that exist: the names that
    /// follow the string are tried one after the other, and the first that
    /// is not in `taken` is returned. See `free_name`.
    fn name_increase_width_2(self, taken: &Vec<String>) -> (free: String)
        requires
            first_free(self@, taken@) is Some,
        ensures
            Some(free@) == first_free(self@, taken@),
            !is_taken(free@, taken@),
    ;

    /// The path that the string spells: a path that holds the string's text,
    /// unchanged.
    fn to_path(self) -> (path: &'a std::path::Path)
        ensures
            path_text(path) == self@,
    ;

    /// The characters of the string, in order.
    fn to_vec_char(self) -> (chars: Vec<char>)
        ensures
            chars@ == self@,
    ;

    /// The bytes of the string, in order: its UTF-8 encoding, which decodes
    /// to the string again.
    fn to_vec_u8(self) -> (bytes: Vec<u8>)
        ensures
            bytes@ == encode_utf8(self@),
            valid_utf8(bytes@),
            decode_utf8(bytes@) == self@,
    ;

    /// Whether the string ends with one of the strings in `v`.
    fn ends_with_vec(self, v: Vec<&str>) -> (found: bool)
        ensures
            found == ends_with_one_of(self@, v@),
    ;

    /// The file name of the path that the string spells.
    fn get_file_name(self) -> (name: &'a str)
        requires
            file_name_of(self@) is Some,
        ensures
            Some(name@) == file_name_of(self@),
    ;

    /// The parent of the path that the string spells, or the empty string.
    fn get_folder_name(self) -> (parent: &'a str)
        ensures
            parent@ == parent_of(self@),
    ;
}

impl<'a> MyTraitForStringSlice<'a> for &'a str {
    fn equals_to_one_of_2(self, a: &str, b: &str) -> (found: bool) {
        same_text(self, a) || same_text(self, b)
    }

    fn equals_to_one_of_3(self, a: &str, b: &str, c: &str) -> (found: bool) {
        same_text(self, a) || same_text(self, b) || same_text(self, c)
    }

    fn get_regex_matched_group_n(self, regex: &str, n: usize) -> (r: Result<String, CaptureError>) {
        capture_group(self, regex, n)
    }

    fn name_increase_width_2(self, taken: &Vec<String>) -> (free: String) {
        free_name(self, taken)
    }

    fn to_path(self) -> (path: &'a std::path::Path) {
        path_of(self)
    }

    fn to_vec_char(self) -> (chars: Vec<char>) {
        chars_of(self)
    }

    fn to_vec_u8(self) -> (bytes: Vec<u8>) {
        bytes_of(self)
    }

    fn ends_with_vec(self, v: Vec<&str>) -> (found: bool) {
        ends_with_any(self, &v)
    }

    fn get_file_name(self) -> (name: &'a str) {
        file_name(self).unwrap()
    }

    fn get_folder_name(self) -> (parent: &'a str) {
        parent_name(self)
    }
}

} // verus!
