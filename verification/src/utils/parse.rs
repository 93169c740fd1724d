//! Byte-offset views of the scan limit and of the line holding an offset.
use vstd::prelude::*;

use crate::tep_tag::{byte_offset, fits, line_end, line_has, line_start};
use crate::text::{
    char_width_of, chars_of, find_pat, find_pat_in, lemma_utf8_len_prefix_mono,
    lemma_utf8_len_step, utf8_len,
};

verus! {

/// `off` is the byte offset of a character boundary of `s`.
pub open spec fn is_boundary(s: Seq<char>, off: int) -> bool {
    exists|k: int| 0 <= k <= s.len() && byte_offset(s, k) == off
}

/// Byte offset of the first occurrence of `marker`, or the byte length.
pub open spec fn spec_scan_limit(s: Seq<char>, marker: Seq<char>) -> int {
    match find_pat(s, marker, 0, s.len() as int) {
        Some(k) => byte_offset(s, k),
        None => utf8_len(s) as int,
    }
}

proof fn lemma_byte_offset_le(s: Seq<char>, k: int)
    requires
        0 <= k <= s.len(),
    ensures
        byte_offset(s, k) <= utf8_len(s),
{
    lemma_utf8_len_prefix_mono(s, k, s.len() as int);
    assert(s.take(s.len() as int) =~= s);
}

/// Converts a character index to its byte offset.
fn byte_offset_of(s: &[char], k: usize) -> (r: usize)
    requires
        k <= s@.len(),
        fits(s@),
    ensures
        r == byte_offset(s@, k as int),
{
    let mut bytes: usize = 0;
    let mut j: usize = 0;
    proof {
        assert(s@.take(0) =~= Seq::<char>::empty());
        lemma_byte_offset_le(s@, k as int);
    }
    while j < k
        invariant
            j <= k <= s@.len(),
            fits(s@),
            byte_offset(s@, k as int) <= utf8_len(s@),
            bytes == byte_offset(s@, j as int),
        decreases k - j,
    {
        proof {
            lemma_utf8_len_step(s@, j as int);
            lemma_utf8_len_prefix_mono(s@, (j + 1) as int, k as int);
        }
        bytes = bytes + char_width_of(s[j]);
        j += 1;
    }
    bytes
}

/// Converts a byte offset at a character boundary to the character index.
fn char_index_of(s: &[char], off: usize) -> (k: usize)
    requires
        is_boundary(s@, off as int),
        fits(s@),
    ensures
        k <= s@.len(),
        byte_offset(s@, k as int) == off,
{
    let ghost k0 = choose|k: int| 0 <= k <= s@.len() && byte_offset(s@, k) == off;
    let mut bytes: usize = 0;
    let mut j: usize = 0;
    proof {
        assert(s@.take(0) =~= Seq::<char>::empty());
        lemma_byte_offset_le(s@, k0);
    }
    while bytes < off
        invariant
            0 <= k0 <= s@.len(),
            byte_offset(s@, k0) == off,
            fits(s@),
            off <= utf8_len(s@),
            j <= k0,
            bytes == byte_offset(s@, j as int),
        decreases k0 - j,
    {
        proof {
            if j == k0 {
                assert(false);
            }
            lemma_utf8_len_step(s@, j as int);
            lemma_utf8_len_prefix_mono(s@, (j + 1) as int, k0);
        }
        bytes = bytes + char_width_of(s[j]);
        j += 1;
    }
    proof {
        if j < k0 {
            lemma_utf8_len_prefix_mono(s@, j + 1, k0);
            lemma_utf8_len_step(s@, j as int);
        }
    }
    j
}

proof fn lemma_byte_offset_injective(s: Seq<char>, j: int, k: int)
    requires
        0 <= j <= s.len(),
        0 <= k <= s.len(),
        byte_offset(s, j) == byte_offset(s, k),
    ensures
        j == k,
{
    if j < k {
        lemma_utf8_len_prefix_mono(s, j, k);
    } else if k < j {
        lemma_utf8_len_prefix_mono(s, k, j);
    }
}

/// Byte offset where scanning stops: the first `ignore_after_marker`, or
/// the end of the input.
pub fn parse_scan_limit(input: &str, ignore_after_marker: &str) -> (r: usize)
    requires
        fits(input@),
    ensures
        r == spec_scan_limit(input@, ignore_after_marker@),
{
    let s = chars_of(input);
    let m = chars_of(ignore_after_marker);
    match find_pat_in(&s, &m, 0, s.len()) {
        Some(k) => byte_offset_of(&s, k),
        None => {
            proof {
                assert(s@.take(s@.len() as int) =~= s@);
            }
            byte_offset_of(&s, s.len())
        },
    }
}

/// Byte range of the line holding byte offset `offset`, without its line
/// break.
pub fn line_range_at(input: &str, offset: usize) -> (r: std::ops::Range<usize>)
    requires
        fits(input@),
        is_boundary(input@, offset as int),
    ensures
        forall|k: int|
            0 <= k <= input@.len() && byte_offset(input@, k) == offset ==> r.start == byte_offset(
                input@,
                line_start(input@, k),
            ) && r.end == byte_offset(input@, line_end(input@, k)),
        r.start <= offset <= r.end <= utf8_len(input@),
{
    let s = chars_of(input);
    let k = char_index_of(&s, offset);
    let mut a: usize = k;
    while a > 0 && s[a - 1] != '\n'
        invariant
            a <= k <= s@.len(),
            line_start(s@, a as int) == line_start(s@, k as int),
        decreases a,
    {
        a -= 1;
    }
    let e = match crate::text::find_char_in(&s, '\n', k, s.len()) {
        Some(j) => j,
        None => s.len(),
    };
    proof {
        crate::text::lemma_find_char(s@, '\n', k as int, s@.len() as int);
        assert forall|k2: int|
            0 <= k2 <= input@.len() && byte_offset(input@, k2) == offset implies k2 == k by {
            lemma_byte_offset_injective(s@, k2, k as int);
        }
    }
    proof {
        crate::tep_tag::lemma_line_bounds(s@, k as int);
        lemma_utf8_len_prefix_mono(s@, a as int, k as int);
        lemma_utf8_len_prefix_mono(s@, k as int, e as int);
        lemma_byte_offset_le(s@, e as int);
    }
    let start = byte_offset_of(&s, a);
    let end = byte_offset_of(&s, e);
    start..end
}

/// Whether the line holding byte offset `offset` contains `marker`.
pub fn line_contains_marker(input: &str, offset: usize, marker: &str) -> (r: bool)
    requires
        fits(input@),
        is_boundary(input@, offset as int),
    ensures
        forall|k: int|
            0 <= k <= input@.len() && byte_offset(input@, k) == offset ==> r == line_has(
                input@,
                k,
                marker@,
            ),
{
    let s = chars_of(input);
    let m = chars_of(marker);
    let k = char_index_of(&s, offset);
    let mut a: usize = k;
    while a > 0 && s[a - 1] != '\n'
        invariant
            a <= k <= s@.len(),
            line_start(s@, a as int) == line_start(s@, k as int),
        decreases a,
    {
        a -= 1;
    }
    let e = match crate::text::find_char_in(&s, '\n', k, s.len()) {
        Some(j) => j,
        None => s.len(),
    };
    proof {
        crate::text::lemma_find_char(s@, '\n', k as int, s@.len() as int);
        assert forall|k2: int|
            0 <= k2 <= input@.len() && byte_offset(input@, k2) == offset implies k2 == k by {
            lemma_byte_offset_injective(s@, k2, k as int);
        }
    }
    find_pat_in(&s, &m, a, e).is_some()
}

} // verus!
