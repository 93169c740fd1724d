//! The tag language: entity declarations `#!#tep:(name)`, relations
//! `#!#tep:(from)->(to)`, and anchors `#!#tep:[name](ref, ...)`, each with an
//! optional metadata block `{key="value", ...}`.
//!
//! A scan walks the text up to the first `#tepignoreafter`, skips every line
//! holding `#tepignore`, and at each `#!#tep:` tries an anchor, then a
//! relation, then an entity declaration; a tag that parses is recorded and
//! the scan resumes right after it.
use vstd::prelude::*;

use crate::names::{
    check_name, lemma_accepted_name_shape, lemma_normalize_idempotent, name_ok, normalize,
    normalize_chars,
};
use crate::text::{
    char_width_of, chars_eq, chars_of, copy_range, find_char, find_char_in, find_pat, find_pat_in,
    lemma_find_char, lemma_find_pat, lemma_utf8_len_concat, lemma_utf8_len_prefix_ge,
    lemma_utf8_len_step, matches_at,
    matches_at_exec, opt_int, string_of, trim, trim_bounds, utf8_len,
};

verus! {

// ---------------------------------------------------------------------------
// Literals of the tag language
// ---------------------------------------------------------------------------

pub open spec fn tep_prefix() -> Seq<char> {
    seq!['#', '!', '#', 't', 'e', 'p', ':']
}

pub open spec fn entity_open() -> Seq<char> {
    seq!['#', '!', '#', 't', 'e', 'p', ':', '(']
}

pub open spec fn anchor_open() -> Seq<char> {
    seq!['#', '!', '#', 't', 'e', 'p', ':', '[']
}

/// The bracketed anchor form `[#!#tep:name](ref, ...)`, read like
/// `#!#tep:[name](ref, ...)`.
pub open spec fn bracket_open() -> Seq<char> {
    seq!['[', '#', '!', '#', 't', 'e', 'p', ':']
}

/// Where a tag may begin: at `#!#tep:`, or at the `[` of a bracketed anchor.
pub open spec fn tag_start(s: Seq<char>, i: int) -> bool {
    matches_at(s, i, tep_prefix()) || matches_at(s, i, bracket_open())
}

pub open spec fn arrow_open() -> Seq<char> {
    seq!['-', '>', '(']
}

/// `#tepignore`: a line holding it is never scanned for tags.
pub open spec fn ignore_marker() -> Seq<char> {
    seq!['#', 't', 'e', 'p', 'i', 'g', 'n', 'o', 'r', 'e']
}

/// `#tepignoreafter`: nothing after its first occurrence is scanned.
pub open spec fn ignore_after_marker() -> Seq<char> {
    seq!['#', 't', 'e', 'p', 'i', 'g', 'n', 'o', 'r', 'e', 'a', 'f', 't', 'e', 'r']
}

pub open spec fn ref_key() -> Seq<char> {
    seq!['r', 'e', 'f']
}

pub open spec fn description_key() -> Seq<char> {
    seq!['d', 'e', 's', 'c', 'r', 'i', 'p', 't', 'i', 'o', 'n']
}

/// Which metadata keys a kind of tag knows.
#[derive(Clone, Copy, Debug, PartialEq, Eq)]
pub enum KnownFields {
    /// `ref` and `description` (entity declarations).
    RefAndDescription,
    /// `description` only (relations and anchors).
    DescriptionOnly,
}

pub open spec fn known_keys(kind: KnownFields) -> Seq<Seq<char>> {
    match kind {
        KnownFields::RefAndDescription => seq![ref_key(), description_key()],
        KnownFields::DescriptionOnly => seq![description_key()],
    }
}

pub fn tep_prefix_chars() -> (r: Vec<char>)
    ensures
        r@ == tep_prefix(),
{
    vec!['#', '!', '#', 't', 'e', 'p', ':']
}

pub fn entity_open_chars() -> (r: Vec<char>)
    ensures
        r@ == entity_open(),
{
    vec!['#', '!', '#', 't', 'e', 'p', ':', '(']
}

pub fn anchor_open_chars() -> (r: Vec<char>)
    ensures
        r@ == anchor_open(),
{
    vec!['#', '!', '#', 't', 'e', 'p', ':', '[']
}

pub fn bracket_open_chars() -> (r: Vec<char>)
    ensures
        r@ == bracket_open(),
{
    vec!['[', '#', '!', '#', 't', 'e', 'p', ':']
}

pub fn arrow_open_chars() -> (r: Vec<char>)
    ensures
        r@ == arrow_open(),
{
    vec!['-', '>', '(']
}

pub fn ignore_marker_chars() -> (r: Vec<char>)
    ensures
        r@ == ignore_marker(),
{
    vec!['#', 't', 'e', 'p', 'i', 'g', 'n', 'o', 'r', 'e']
}

pub fn ignore_after_marker_chars() -> (r: Vec<char>)
    ensures
        r@ == ignore_after_marker(),
{
    vec!['#', 't', 'e', 'p', 'i', 'g', 'n', 'o', 'r', 'e', 'a', 'f', 't', 'e', 'r']
}

fn is_known_key(key: &[char], kind: KnownFields) -> (r: bool)
    ensures
        r == known_keys(kind).contains(key@),
{
    let d: Vec<char> = vec!['d', 'e', 's', 'c', 'r', 'i', 'p', 't', 'i', 'o', 'n'];
    let f: Vec<char> = vec!['r', 'e', 'f'];
    let is_d = chars_eq(key, &d);
    let is_f = chars_eq(key, &f);
    proof {
        let ks = known_keys(kind);
        match kind {
            KnownFields::RefAndDescription => {
                if ks.contains(key@) {
                    let j = choose|j: int| 0 <= j < ks.len() && ks[j] == key@;
                    assert(j == 0 || j == 1);
                }
                if is_f {
                    assert(ks[0] == key@);
                }
                if is_d {
                    assert(ks[1] == key@);
                }
            },
            KnownFields::DescriptionOnly => {
                if ks.contains(key@) {
                    let j = choose|j: int| 0 <= j < ks.len() && ks[j] == key@;
                    assert(j == 0);
                }
                if is_d {
                    assert(ks[0] == key@);
                }
            },
        }
    }
    match kind {
        KnownFields::RefAndDescription => is_d || is_f,
        KnownFields::DescriptionOnly => is_d,
    }
}

// ---------------------------------------------------------------------------
// Metadata blocks
// ---------------------------------------------------------------------------

/// The metadata of a tag: its fields in order of first appearance, each key
/// once with its last value; the keys that appeared more than once (once per
/// repetition); and the keys the tag kind does not know (once per
/// appearance).
pub struct MetaModel {
    pub fields: Seq<(Seq<char>, Seq<char>)>,
    pub duplicate_keys: Seq<Seq<char>>,
    pub unknown_fields: Seq<Seq<char>>,
}

pub open spec fn empty_meta() -> MetaModel {
    MetaModel { fields: seq![], duplicate_keys: seq![], unknown_fields: seq![] }
}

/// First index at or after `i` whose key is `k`.
pub open spec fn key_index(fields: Seq<(Seq<char>, Seq<char>)>, k: Seq<char>, i: int) -> Option<
    int,
>
    decreases fields.len() - i,
{
    if i < 0 || i >= fields.len() {
        None
    } else if fields[i].0 == k {
        Some(i)
    } else {
        key_index(fields, k, i + 1)
    }
}

pub proof fn lemma_key_index(fields: Seq<(Seq<char>, Seq<char>)>, k: Seq<char>, i: int)
    requires
        0 <= i,
    ensures
        match key_index(fields, k, i) {
            Some(j) => i <= j < fields.len() && fields[j].0 == k && forall|m: int|
                i <= m < j ==> #[trigger] fields[m].0 != k,
            None => forall|m: int| i <= m < fields.len() ==> #[trigger] fields[m].0 != k,
        },
    decreases fields.len() - i,
{
    if i < fields.len() && fields[i].0 != k {
        lemma_key_index(fields, k, i + 1);
    }
}

/// The value stored under `k`.
pub open spec fn meta_get(m: MetaModel, k: Seq<char>) -> Option<Seq<char>> {
    match key_index(m.fields, k, 0) {
        Some(j) => Some(m.fields[j].1),
        None => None,
    }
}

/// Looking a key up gives the value of the first field with that key, and
/// nothing when no field has it.
pub proof fn lemma_meta_get_first_field(m: MetaModel, k: Seq<char>)
    ensures
        forall|j: int|
            0 <= j < m.fields.len() && (#[trigger] m.fields[j]).0 == k && (forall|i: int|
                0 <= i < j ==> m.fields[i].0 != k) ==> meta_get(m, k) == Some(m.fields[j].1),
        (forall|i: int| 0 <= i < m.fields.len() ==> m.fields[i].0 != k) ==> meta_get(m, k) is None,
{
    let f = m.fields;
    lemma_key_index(f, k, 0);
    assert forall|j: int|
        0 <= j < f.len() && (#[trigger] f[j]).0 == k && (forall|i: int| 0 <= i < j ==> f[i].0 != k)
        implies meta_get(m, k) == Some(f[j].1) by {
        match key_index(f, k, 0) {
            Some(j2) => {
                if j2 < j {
                    assert(f[j2].0 != k);
                }
                if j2 > j {
                    assert(f[j].0 != k);
                }
            },
            None => {
                assert(f[j].0 != k);
            },
        }
    }
    if forall|i: int| 0 <= i < f.len() ==> f[i].0 != k {
        if let Some(j2) = key_index(f, k, 0) {
            assert(f[j2].0 != k);
        }
    }
}

/// Inserts or overwrites one entry.
pub open spec fn add_entry(m: MetaModel, k: Seq<char>, v: Seq<char>, known: Seq<Seq<char>>) -> MetaModel {
    MetaModel {
        fields: match key_index(m.fields, k, 0) {
            Some(j) => m.fields.update(j, (k, v)),
            None => m.fields.push((k, v)),
        },
        duplicate_keys: if key_index(m.fields, k, 0) is Some {
            m.duplicate_keys.push(k)
        } else {
            m.duplicate_keys
        },
        unknown_fields: if known.contains(k) {
            m.unknown_fields
        } else {
            m.unknown_fields.push(k)
        },
    }
}

/// Index of the `}` closing a metadata block whose body starts at `i`; a
/// `}` inside double quotes does not count, and inside quotes a backslash
/// escapes the next character.
pub open spec fn meta_end(s: Seq<char>, i: int, escaped: bool, in_quotes: bool) -> Option<int>
    decreases s.len() - i,
{
    if i < 0 || i >= s.len() {
        None
    } else if escaped {
        meta_end(s, i + 1, false, in_quotes)
    } else if s[i] == '\\' && in_quotes {
        meta_end(s, i + 1, true, in_quotes)
    } else if s[i] == '"' {
        meta_end(s, i + 1, false, !in_quotes)
    } else if s[i] == '}' && !in_quotes {
        Some(i)
    } else {
        meta_end(s, i + 1, false, in_quotes)
    }
}

/// A trimmed segment, kept only when not empty.
pub open spec fn emit(x: Seq<char>) -> Seq<Seq<char>> {
    if trim(x).len() > 0 {
        seq![trim(x)]
    } else {
        seq![]
    }
}

/// The comma-separated segments of a metadata body from index `i` on, the
/// current segment having started at `start`; commas inside quotes do not
/// separate.
pub open spec fn segments_from(t: Seq<char>, i: int, start: int, escaped: bool, in_quotes: bool) -> Seq<
    Seq<char>,
>
    decreases t.len() - i,
{
    if i < 0 || start < 0 || start > i || i >= t.len() {
        emit(t.subrange(start, t.len() as int))
    } else if escaped {
        segments_from(t, i + 1, start, false, in_quotes)
    } else if t[i] == '\\' && in_quotes {
        segments_from(t, i + 1, start, true, in_quotes)
    } else if t[i] == '"' {
        segments_from(t, i + 1, start, false, !in_quotes)
    } else if t[i] == ',' && !in_quotes {
        emit(t.subrange(start, i)) + segments_from(t, i + 1, i + 1, false, in_quotes)
    } else {
        segments_from(t, i + 1, start, false, in_quotes)
    }
}

pub open spec fn segments(t: Seq<char>) -> Seq<Seq<char>> {
    segments_from(t, 0, 0, false, false)
}

/// `str::replace` of the two-character pattern `a b` by `r`, left to right.
pub open spec fn replace_pair(t: Seq<char>, a: char, b: char, r: char) -> Seq<char>
    decreases t.len(),
{
    if t.len() == 0 {
        t
    } else if t.len() >= 2 && t[0] == a && t[1] == b {
        seq![r] + replace_pair(t.subrange(2, t.len() as int), a, b, r)
    } else {
        seq![t[0]] + replace_pair(t.drop_first(), a, b, r)
    }
}

/// A quoted value without its quotes, `\"` read as `"` and then `\\` as `\`.
pub open spec fn unquote(v: Seq<char>) -> Option<Seq<char>> {
    if v.len() >= 2 && v[0] == '"' && v[v.len() - 1] == '"' {
        Some(
            replace_pair(
                replace_pair(v.subrange(1, v.len() - 1), '\\', '"', '"'),
                '\\',
                '\\',
                '\\',
            ),
        )
    } else {
        None
    }
}

/// `key = "value"`: the key before the first `=` must not be blank and the
/// value must be quoted.
pub open spec fn parse_segment(seg: Seq<char>) -> Option<(Seq<char>, Seq<char>)> {
    match find_char(seg, '=', 0, seg.len() as int) {
        None => None,
        Some(eq) => {
            let key = trim(seg.subrange(0, eq));
            if key.len() == 0 {
                None
            } else {
                match unquote(trim(seg.subrange(eq + 1, seg.len() as int))) {
                    None => None,
                    Some(v) => Some((key, v)),
                }
            }
        },
    }
}

/// Trimming a text that is whitespace, a core that starts and ends with
/// something else, and whitespace again gives the core.
pub proof fn lemma_trim_padded(p: Seq<char>, c: Seq<char>, q: Seq<char>)
    requires
        forall|i: int| 0 <= i < p.len() ==> crate::text::is_ws(#[trigger] p[i]),
        forall|i: int| 0 <= i < q.len() ==> crate::text::is_ws(#[trigger] q[i]),
        c.len() > 0,
        !crate::text::is_ws(c[0]),
        !crate::text::is_ws(c[c.len() - 1]),
    ensures
        trim(p + c + q) == c,
{
    let s = p + c + q;
    let lo = p.len() as int;
    let hi = (p.len() + c.len()) as int;
    crate::text::lemma_skip_ws_bounds(s, 0);
    let a = crate::text::skip_ws(s, 0);
    assert(s[lo] == c[0]);
    if a < lo {
        assert(s[a] == p[a]);
    }
    if a > lo {
        assert(crate::text::is_ws(s[lo]));
    }
    assert(a == lo);
    crate::text::lemma_back_ws_bounds(s, a, s.len() as int);
    let b = crate::text::back_ws(s, a, s.len() as int);
    assert(s[hi - 1] == c[c.len() - 1]);
    if b < hi {
        assert(crate::text::is_ws(s[hi - 1]));
    }
    if b > hi {
        assert(s[b - 1] == q[b - 1 - hi]);
    }
    assert(b == hi);
    assert(s.subrange(a, b) =~= c);
}

/// Replacing a pair that starts with a character the text lacks changes
/// nothing.
pub proof fn lemma_replace_pair_absent(t: Seq<char>, a: char, b: char, r: char)
    requires
        forall|i: int| 0 <= i < t.len() ==> #[trigger] t[i] != a,
    ensures
        replace_pair(t, a, b, r) == t,
    decreases t.len(),
{
    if t.len() > 0 {
        assert(t[0] != a);
        lemma_replace_pair_absent(t.drop_first(), a, b, r);
        assert(seq![t[0]] + t.drop_first() =~= t);
    }
}

/// A metadata segment `key = "value"` reads as the field `(key, value)`,
/// whatever whitespace stands around the key, around `=` and after the
/// quoted value: the key is the trimmed text before the first `=`, the
/// value the quoted text after it, without its quotes.
pub proof fn lemma_segment_reads_key_and_value(
    sp1: Seq<char>,
    k: Seq<char>,
    sp2: Seq<char>,
    sp3: Seq<char>,
    v: Seq<char>,
    sp4: Seq<char>,
)
    requires
        forall|i: int| 0 <= i < sp1.len() ==> crate::text::is_ws(#[trigger] sp1[i]),
        forall|i: int| 0 <= i < sp2.len() ==> crate::text::is_ws(#[trigger] sp2[i]),
        forall|i: int| 0 <= i < sp3.len() ==> crate::text::is_ws(#[trigger] sp3[i]),
        forall|i: int| 0 <= i < sp4.len() ==> crate::text::is_ws(#[trigger] sp4[i]),
        k.len() > 0,
        !crate::text::is_ws(k[0]),
        !crate::text::is_ws(k[k.len() - 1]),
        forall|i: int| 0 <= i < k.len() ==> #[trigger] k[i] != '=',
        forall|i: int| 0 <= i < v.len() ==> #[trigger] v[i] != '\\',
    ensures
        parse_segment(sp1 + k + sp2 + seq!['='] + sp3 + seq!['"'] + v + seq!['"'] + sp4) == Some(
            (k, v),
        ),
{
    let before = sp1 + k + sp2;
    let quoted = seq!['"'] + v + seq!['"'];
    let after = sp3 + quoted + sp4;
    let seg = sp1 + k + sp2 + seq!['='] + sp3 + seq!['"'] + v + seq!['"'] + sp4;
    assert(seg =~= before + seq!['='] + after);
    let eq = before.len() as int;
    assert(seg[eq] == '=');
    assert forall|i: int| 0 <= i < eq implies #[trigger] seg[i] != '=' by {
        assert(seg[i] == before[i]);
        if i < sp1.len() {
            assert(crate::text::is_ws(sp1[i]));
        } else if i < sp1.len() + k.len() {
            assert(before[i] == k[i - sp1.len()]);
        } else {
            assert(before[i] == sp2[i - sp1.len() - k.len()]);
            assert(crate::text::is_ws(sp2[i - sp1.len() - k.len()]));
        }
    }
    lemma_find_char(seg, '=', 0, seg.len() as int);
    assert(find_char(seg, '=', 0, seg.len() as int) == Some(eq));
    assert(seg.subrange(0, eq) =~= before);
    assert(seg.subrange(eq + 1, seg.len() as int) =~= after);
    lemma_trim_padded(sp1, k, sp2);
    assert(sp1 + k + sp2 == before);
    lemma_trim_padded(sp3, quoted, sp4);
    assert(sp3 + quoted + sp4 == after);
    assert(quoted.subrange(1, quoted.len() - 1) =~= v);
    lemma_replace_pair_absent(v, '\\', '"', '"');
    lemma_replace_pair_absent(v, '\\', '\\', '\\');
    assert(unquote(quoted) == Some(v));
}

/// Applies the segments in order; a segment that does not parse is skipped.
pub open spec fn apply_segments(segs: Seq<Seq<char>>, known: Seq<Seq<char>>) -> MetaModel
    decreases segs.len(),
{
    if segs.len() == 0 {
        empty_meta()
    } else {
        let m = apply_segments(segs.drop_last(), known);
        match parse_segment(segs.last()) {
            None => m,
            Some((k, v)) => add_entry(m, k, v, known),
        }
    }
}

pub open spec fn parse_fields(inner: Seq<char>, known: Seq<Seq<char>>) -> MetaModel {
    apply_segments(segments(inner), known)
}

/// The metadata block at index `p`, with the index right after it; no block
/// at all is empty metadata, and a block that is never closed fails.
pub open spec fn meta_block(s: Seq<char>, p: int, known: Seq<Seq<char>>) -> Option<(MetaModel, int)> {
    if 0 <= p < s.len() && s[p] == '{' {
        match meta_end(s, p + 1, false, false) {
            None => None,
            Some(c) => Some((parse_fields(s.subrange(p + 1, c), known), c + 1)),
        }
    } else {
        Some((empty_meta(), p))
    }
}

// ---------------------------------------------------------------------------
// Metadata: executable side
// ---------------------------------------------------------------------------

/// Parsed metadata of a tag (see `MetaModel`).
#[derive(Debug, Clone, PartialEq, Eq)]
pub struct ParsedMetadata {
    pub fields: Vec<(String, String)>,
    pub duplicate_keys: Vec<String>,
    pub unknown_fields: Vec<String>,
}

pub open spec fn strings_view(v: Seq<String>) -> Seq<Seq<char>> {
    Seq::new(v.len(), |i: int| v[i]@)
}

pub open spec fn pairs_view(v: Seq<(String, String)>) -> Seq<(Seq<char>, Seq<char>)> {
    Seq::new(v.len(), |i: int| (v[i].0@, v[i].1@))
}

pub open spec fn char_vecs_view(v: Seq<Vec<char>>) -> Seq<Seq<char>> {
    Seq::new(v.len(), |i: int| v[i]@)
}

impl View for ParsedMetadata {
    type V = MetaModel;

    open spec fn view(&self) -> MetaModel {
        MetaModel {
            fields: pairs_view(self.fields@),
            duplicate_keys: strings_view(self.duplicate_keys@),
            unknown_fields: strings_view(self.unknown_fields@),
        }
    }
}

impl ParsedMetadata {
    pub fn empty() -> (r: ParsedMetadata)
        ensures
            r@ == empty_meta(),
    {
        let r = ParsedMetadata { fields: Vec::new(), duplicate_keys: Vec::new(), unknown_fields: Vec::new() };
        proof {
            assert(r@.fields =~= empty_meta().fields);
            assert(r@.duplicate_keys =~= empty_meta().duplicate_keys);
            assert(r@.unknown_fields =~= empty_meta().unknown_fields);
        }
        r
    }

    /// The value stored under `key`.
    pub fn get(&self, key: &str) -> (r: Option<String>)
        ensures
            match meta_get(self@, key@) {
                Some(v) => r matches Some(x) && x@ == v,
                None => r is None,
            },
    {
        let k = string_of(&chars_of(key));
        match self.find_key(&k) {
            Some(j) => Some(self.fields[j].1.clone()),
            None => None,
        }
    }

    fn find_key(&self, key: &String) -> (r: Option<usize>)
        ensures
            opt_int(r) == key_index(self@.fields, key@, 0),
            r matches Some(j) ==> j < self.fields@.len(),
    {
        let ghost f = self@.fields;
        let mut j: usize = 0;
        while j < self.fields.len()
            invariant
                j <= self.fields@.len(),
                f == pairs_view(self.fields@),
                key_index(f, key@, j as int) == key_index(f, key@, 0),
            decreases self.fields.len() - j,
        {
            if self.fields[j].0 == *key {
                return Some(j);
            }
            j += 1;
        }
        None
    }

    fn add(&mut self, key: Vec<char>, value: Vec<char>, kind: KnownFields)
        ensures
            final(self)@ == add_entry(old(self)@, key@, value@, known_keys(kind)),
    {
        let ghost m0 = self@;
        let known = is_known_key(&key, kind);
        let k = string_of(&key);
        let v = string_of(&value);
        match self.find_key(&k) {
            Some(j) => {
                self.duplicate_keys.push(k.clone());
                if !known {
                    self.unknown_fields.push(k.clone());
                }
                self.fields.set(j, (k, v));
            },
            None => {
                if !known {
                    self.unknown_fields.push(k.clone());
                }
                self.fields.push((k, v));
            },
        }
        proof {
            let m1 = add_entry(m0, key@, value@, known_keys(kind));
            assert(self@.fields =~= m1.fields);
            assert(self@.duplicate_keys =~= m1.duplicate_keys);
            assert(self@.unknown_fields =~= m1.unknown_fields);
        }
    }
}

impl Default for ParsedMetadata {
    fn default() -> (r: ParsedMetadata)
        ensures
            r@ == empty_meta(),
    {
        ParsedMetadata::empty()
    }
}


fn find_metadata_end(s: &[char], start: usize) -> (r: Option<usize>)
    ensures
        opt_int(r) == meta_end(s@, start as int, false, false),
        r matches Some(c) ==> start <= c < s@.len(),
{
    let mut escaped = false;
    let mut in_quotes = false;
    let mut i: usize = start;
    while i < s.len()
        invariant
            start <= i,
            meta_end(s@, i as int, escaped, in_quotes) == meta_end(s@, start as int, false, false),
        decreases s.len() - i,
    {
        let ch = s[i];
        if escaped {
            escaped = false;
        } else if ch == '\\' && in_quotes {
            escaped = true;
        } else if ch == '"' {
            in_quotes = !in_quotes;
        } else if ch == '}' && !in_quotes {
            return Some(i);
        }
        i += 1;
    }
    None
}

fn push_trimmed_segment(out: &mut Vec<Vec<char>>, t: &[char], a: usize, b: usize)
    requires
        a <= b <= t@.len(),
    ensures
        char_vecs_view(final(out)@) == char_vecs_view(old(out)@) + emit(t@.subrange(a as int, b as int)),
{
    let ghost before = char_vecs_view(out@);
    let (x, y) = trim_bounds(t, a, b);
    if x < y {
        let seg = copy_range(t, x, y);
        out.push(seg);
        assert(char_vecs_view(out@) =~= before + emit(t@.subrange(a as int, b as int)));
    } else {
        assert(emit(t@.subrange(a as int, b as int)) =~= seq![]);
        assert(char_vecs_view(out@) =~= before + emit(t@.subrange(a as int, b as int)));
    }
}

fn split_metadata_segments(t: &[char]) -> (r: Vec<Vec<char>>)
    ensures
        char_vecs_view(r@) == segments(t@),
{
    let mut out: Vec<Vec<char>> = Vec::new();
    let mut start: usize = 0;
    let mut escaped = false;
    let mut in_quotes = false;
    let mut i: usize = 0;
    assert(char_vecs_view(out@) =~= seq![]);
    while i < t.len()
        invariant
            start <= i <= t@.len(),
            char_vecs_view(out@) + segments_from(t@, i as int, start as int, escaped, in_quotes)
                == segments(t@),
        decreases t.len() - i,
    {
        let ch = t[i];
        let ghost prev = char_vecs_view(out@);
        if escaped {
            escaped = false;
        } else if ch == '\\' && in_quotes {
            escaped = true;
        } else if ch == '"' {
            in_quotes = !in_quotes;
        } else if ch == ',' && !in_quotes {
            let ghost old_start = start;
            push_trimmed_segment(&mut out, t, start, i);
            start = i + 1;
            proof {
                let e = emit(t@.subrange(old_start as int, i as int));
                let rest = segments_from(t@, i + 1, i + 1, false, false);
                assert(segments_from(t@, i as int, old_start as int, false, false) == e + rest);
                assert(char_vecs_view(out@) + rest =~= prev + (e + rest));
            }
        }
        i += 1;
    }
    push_trimmed_segment(&mut out, t, start, t.len());
    out
}

fn replace_pair_exec(t: &[char], a: char, b: char, r: char) -> (out: Vec<char>)
    ensures
        out@ == replace_pair(t@, a, b, r),
{
    let mut out: Vec<char> = Vec::new();
    let mut i: usize = 0;
    let n = t.len();
    assert(t@.subrange(0, n as int) =~= t@);
    while i < n
        invariant
            i <= n,
            n == t@.len(),
            out@ + replace_pair(t@.subrange(i as int, n as int), a, b, r) == replace_pair(t@, a, b, r),
        decreases n - i,
    {
        let ghost rest = t@.subrange(i as int, n as int);
        if i + 1 < n && t[i] == a && t[i + 1] == b {
            assert(rest.subrange(2, rest.len() as int) =~= t@.subrange(i + 2, n as int));
            out.push(r);
            i += 2;
            assert(out@ + replace_pair(t@.subrange(i as int, n as int), a, b, r) =~= replace_pair(t@, a, b, r));
        } else {
            assert(rest.drop_first() =~= t@.subrange(i + 1, n as int));
            out.push(t[i]);
            i += 1;
            assert(out@ + replace_pair(t@.subrange(i as int, n as int), a, b, r) =~= replace_pair(t@, a, b, r));
        }
    }
    assert(t@.subrange(n as int, n as int) =~= Seq::<char>::empty());
    assert(out@ + Seq::<char>::empty() =~= out@);
    out
}

fn unquote_exec(v: &[char]) -> (r: Option<Vec<char>>)
    ensures
        match unquote(v@) {
            Some(x) => r matches Some(y) && y@ == x,
            None => r is None,
        },
{
    let n = v.len();
    if n >= 2 && v[0] == '"' && v[n - 1] == '"' {
        let inner = copy_range(v, 1, n - 1);
        let once = replace_pair_exec(&inner, '\\', '"', '"');
        Some(replace_pair_exec(&once, '\\', '\\', '\\'))
    } else {
        None
    }
}

fn parse_metadata_segment(seg: &[char]) -> (r: Option<(Vec<char>, Vec<char>)>)
    ensures
        match parse_segment(seg@) {
            Some((k, v)) => r matches Some((rk, rv)) && rk@ == k && rv@ == v,
            None => r is None,
        },
{
    let n = seg.len();
    let eq = match find_char_in(seg, '=', 0, n) {
        Some(eq) => eq,
        None => return None,
    };
    let (ka, kb) = trim_bounds(seg, 0, eq);
    if ka == kb {
        return None;
    }
    let key = copy_range(seg, ka, kb);
    let (va, vb) = trim_bounds(seg, eq + 1, n);
    let raw_value = copy_range(seg, va, vb);
    match unquote_exec(&raw_value) {
        Some(value) => Some((key, value)),
        None => None,
    }
}

fn parse_metadata_fields(inner: &[char], kind: KnownFields) -> (r: ParsedMetadata)
    ensures
        r@ == parse_fields(inner@, known_keys(kind)),
{
    let segs = split_metadata_segments(inner);
    let ghost sv = char_vecs_view(segs@);
    let mut m = ParsedMetadata::empty();
    let mut j: usize = 0;
    assert(sv.take(0) =~= Seq::<Seq<char>>::empty());
    while j < segs.len()
        invariant
            j <= segs@.len(),
            sv == char_vecs_view(segs@),
            sv == segments(inner@),
            m@ == apply_segments(sv.take(j as int), known_keys(kind)),
        decreases segs.len() - j,
    {
        let ghost before = sv.take(j as int);
        assert(sv.take(j + 1).drop_last() =~= before);
        assert(sv.take(j + 1).last() == segs@[j as int]@);
        match parse_metadata_segment(&segs[j]) {
            Some((k, v)) => {
                m.add(k, v, kind);
            },
            None => {},
        }
        j += 1;
    }
    assert(sv.take(segs.len() as int) =~= sv);
    m
}

pub open spec fn meta_result_view(r: Option<(ParsedMetadata, usize)>) -> Option<(MetaModel, int)> {
    match r {
        Some((m, e)) => Some((m@, e as int)),
        None => None,
    }
}

fn parse_metadata_block(s: &[char], p: usize, kind: KnownFields) -> (r: Option<(ParsedMetadata, usize)>)
    requires
        p <= s@.len(),
    ensures
        meta_result_view(r) == meta_block(s@, p as int, known_keys(kind)),
        r matches Some((_, e)) ==> p <= e <= s@.len(),
{
    if p < s.len() && s[p] == '{' {
        match find_metadata_end(s, p + 1) {
            None => None,
            Some(c) => {
                let inner = copy_range(s, p + 1, c);
                let m = parse_metadata_fields(&inner, kind);
                Some((m, c + 1))
            },
        }
    } else {
        Some((ParsedMetadata::empty(), p))
    }
}

// ---------------------------------------------------------------------------
// Positions and ignored lines
// ---------------------------------------------------------------------------

/// Index where the line holding index `k` starts.
pub open spec fn line_start(s: Seq<char>, k: int) -> int
    decreases k,
{
    if k <= 0 || k > s.len() {
        0
    } else if s[k - 1] == '\n' {
        k
    } else {
        line_start(s, k - 1)
    }
}

/// Number of line breaks before index `k`.
pub open spec fn newlines_before(s: Seq<char>, k: int) -> int
    decreases k,
{
    if k <= 0 || k > s.len() {
        0
    } else {
        newlines_before(s, k - 1) + if s[k - 1] == '\n' {
            1int
        } else {
            0int
        }
    }
}

/// Index of the line break ending the line that holds index `k`, or the
/// end of the text.
pub open spec fn line_end(s: Seq<char>, k: int) -> int {
    match find_char(s, '\n', k, s.len() as int) {
        Some(j) => j,
        None => s.len() as int,
    }
}

/// The line holding index `k` contains the pattern `m`.
pub open spec fn line_has(s: Seq<char>, k: int, m: Seq<char>) -> bool {
    find_pat(s, m, line_start(s, k), line_end(s, k)) is Some
}

/// Byte offset of index `k`.
pub open spec fn byte_offset(s: Seq<char>, k: int) -> int {
    utf8_len(s.take(k)) as int
}

/// One-based line number of index `k`.
pub open spec fn line_of(s: Seq<char>, k: int) -> int {
    newlines_before(s, k) + 1
}

/// Bytes between the start of the line and index `k`.
pub open spec fn shift_of(s: Seq<char>, k: int) -> int {
    utf8_len(s.subrange(line_start(s, k), k)) as int
}

/// Index where scanning stops: the first `#tepignoreafter`, or the end.
pub open spec fn scan_limit(s: Seq<char>) -> int {
    match find_pat(s, ignore_after_marker(), 0, s.len() as int) {
        Some(j) => j,
        None => s.len() as int,
    }
}

// ---------------------------------------------------------------------------
// Tags: the model
// ---------------------------------------------------------------------------

pub struct EntityTagModel {
    pub name: Seq<char>,
    pub metadata: MetaModel,
    pub raw: Seq<char>,
    pub start_offset: int,
    pub line: int,
    pub shift: int,
}

pub struct RelationTagModel {
    pub from: Seq<char>,
    pub to: Seq<char>,
    pub metadata: MetaModel,
    pub raw: Seq<char>,
    pub start_offset: int,
    pub line: int,
    pub shift: int,
}

pub struct AnchorTagModel {
    pub anchor_name: Seq<char>,
    pub entity_refs: Seq<Seq<char>>,
    pub metadata: MetaModel,
    pub raw: Seq<char>,
    pub start_offset: int,
    pub line: int,
    pub shift: int,
}

pub enum TagModel {
    Entity(EntityTagModel),
    Relation(RelationTagModel),
    Anchor(AnchorTagModel),
}

/// The entity declaration `#!#tep:(name){...}` at index `k`, with the index
/// right after it.
pub open spec fn entity_at(s: Seq<char>, k: int) -> Option<(EntityTagModel, int)> {
    if !matches_at(s, k, entity_open()) {
        None
    } else {
        match find_char(s, ')', k + 8, s.len() as int) {
            None => None,
            Some(close) => {
                let raw_name = s.subrange(k + 8, close);
                if !name_ok(raw_name) {
                    None
                } else {
                    match meta_block(s, close + 1, known_keys(KnownFields::RefAndDescription)) {
                        None => None,
                        Some((m, end)) => Some(
                            (
                                EntityTagModel {
                                    name: normalize(raw_name),
                                    metadata: m,
                                    raw: s.subrange(k, end),
                                    start_offset: byte_offset(s, k),
                                    line: line_of(s, k),
                                    shift: shift_of(s, k),
                                },
                                end,
                            ),
                        ),
                    }
                }
            },
        }
    }
}

/// The relation `#!#tep:(from)->(to){...}` at index `k`.
pub open spec fn relation_at(s: Seq<char>, k: int) -> Option<(RelationTagModel, int)> {
    if !matches_at(s, k, entity_open()) {
        None
    } else {
        match find_char(s, ')', k + 8, s.len() as int) {
            None => None,
            Some(c1) => {
                let from_raw = s.subrange(k + 8, c1);
                if !name_ok(from_raw) || !matches_at(s, c1 + 1, arrow_open()) {
                    None
                } else {
                    match find_char(s, ')', c1 + 4, s.len() as int) {
                        None => None,
                        Some(c2) => {
                            let to_raw = s.subrange(c1 + 4, c2);
                            if !name_ok(to_raw) {
                                None
                            } else {
                                match meta_block(s, c2 + 1, known_keys(KnownFields::DescriptionOnly)) {
                                    None => None,
                                    Some((m, end)) => Some(
                                        (
                                            RelationTagModel {
                                                from: normalize(from_raw),
                                                to: normalize(to_raw),
                                                metadata: m,
                                                raw: s.subrange(k, end),
                                                start_offset: byte_offset(s, k),
                                                line: line_of(s, k),
                                                shift: shift_of(s, k),
                                            },
                                            end,
                                        ),
                                    ),
                                }
                            }
                        },
                    }
                }
            },
        }
    }
}

/// One item of an entity reference list: blank items are skipped, an
/// invalid name fails the whole list.
pub open spec fn ref_item(s: Seq<char>, start: int, end: int, rest: Option<Seq<Seq<char>>>) -> Option<
    Seq<Seq<char>>,
> {
    let item = trim(s.subrange(start, end));
    if item.len() == 0 {
        rest
    } else if !name_ok(item) {
        None
    } else {
        match rest {
            Some(r) => Some(seq![normalize(item)] + r),
            None => None,
        }
    }
}

/// The comma-separated entity references in `s[.., hi)` from index `i` on,
/// the current item having started at `start`.
pub open spec fn refs_from(s: Seq<char>, i: int, start: int, hi: int) -> Option<Seq<Seq<char>>>
    decreases hi - i,
{
    if start < 0 || i < start || i >= hi || hi > s.len() {
        ref_item(s, start, hi, Some(seq![]))
    } else if s[i] == ',' {
        ref_item(s, start, i, refs_from(s, i + 1, i + 1, hi))
    } else {
        refs_from(s, i + 1, start, hi)
    }
}

/// The anchor `#!#tep:[name](ref, ...){...}`, or `[#!#tep:name](ref, ...){...}`,
/// at index `k`; it needs at least one entity reference.
pub open spec fn anchor_at(s: Seq<char>, k: int) -> Option<(AnchorTagModel, int)> {
    if !matches_at(s, k, anchor_open()) && !matches_at(s, k, bracket_open()) {
        None
    } else {
        match find_char(s, ']', k + 8, s.len() as int) {
            None => None,
            Some(cb) => {
                let raw_name = s.subrange(k + 8, cb);
                if !name_ok(raw_name) || !(cb + 1 < s.len() && s[cb + 1] == '(') {
                    None
                } else {
                    match find_char(s, ')', cb + 2, s.len() as int) {
                        None => None,
                        Some(rc) => match refs_from(s, cb + 2, cb + 2, rc) {
                            None => None,
                            Some(refs) => if refs.len() == 0 {
                                None
                            } else {
                                match meta_block(s, rc + 1, known_keys(KnownFields::DescriptionOnly)) {
                                    None => None,
                                    Some((m, end)) => Some(
                                        (
                                            AnchorTagModel {
                                                anchor_name: normalize(raw_name),
                                                entity_refs: refs,
                                                metadata: m,
                                                raw: s.subrange(k, end),
                                                start_offset: byte_offset(s, k),
                                                line: line_of(s, k),
                                                shift: shift_of(s, k),
                                            },
                                            end,
                                        ),
                                    ),
                                }
                            },
                        },
                    }
                }
            },
        }
    }
}

/// The tag at index `k`: none on an ignored line, else an anchor, else a
/// relation, else an entity declaration.
pub open spec fn tag_at(s: Seq<char>, k: int) -> Option<(TagModel, int)> {
    if line_has(s, k, ignore_marker()) {
        None
    } else {
        match anchor_at(s, k) {
            Some((a, e)) => Some((TagModel::Anchor(a), e)),
            None => match relation_at(s, k) {
                Some((r, e)) => Some((TagModel::Relation(r), e)),
                None => match entity_at(s, k) {
                    Some((t, e)) => Some((TagModel::Entity(t), e)),
                    None => None,
                },
            },
        }
    }
}

/// The tags found scanning from index `i` while below `lim`.
pub open spec fn scan(s: Seq<char>, i: int, lim: int) -> Seq<TagModel>
    decreases s.len() - i,
{
    if i < 0 || i >= s.len() || i >= lim {
        seq![]
    } else if tag_start(s, i) && tag_at(s, i) is Some {
        let (t, end) = tag_at(s, i)->0;
        if i < end <= s.len() {
            seq![t] + scan(s, end, lim)
        } else {
            scan(s, i + 1, lim)
        }
    } else {
        scan(s, i + 1, lim)
    }
}

/// All tags of a text, in order.
pub open spec fn spec_parse_tags(s: Seq<char>) -> Seq<TagModel> {
    scan(s, 0, scan_limit(s))
}

// ---------------------------------------------------------------------------
// Tags: executable side
// ---------------------------------------------------------------------------

#[derive(Debug, Clone, PartialEq, Eq)]
pub struct ParsedEntityTag {
    pub name: String,
    pub metadata: ParsedMetadata,
    pub raw: String,
    pub start_offset: usize,
    pub line: i64,
    pub shift: i64,
}

#[derive(Debug, Clone, PartialEq, Eq)]
pub struct ParsedRelationTag {
    pub from: String,
    pub to: String,
    pub metadata: ParsedMetadata,
    pub raw: String,
    pub start_offset: usize,
    pub line: i64,
    pub shift: i64,
}

#[derive(Debug, Clone, PartialEq, Eq)]
pub struct ParsedAnchorTag {
    pub anchor_name: String,
    pub entity_refs: Vec<String>,
    pub metadata: ParsedMetadata,
    pub raw: String,
    pub start_offset: usize,
    pub line: i64,
    pub shift: i64,
}

#[derive(Debug, Clone, PartialEq, Eq)]
pub enum ParsedTepTag {
    Entity(ParsedEntityTag),
    Relation(ParsedRelationTag),
    Anchor(ParsedAnchorTag),
}

impl View for ParsedEntityTag {
    type V = EntityTagModel;

    open spec fn view(&self) -> EntityTagModel {
        EntityTagModel {
            name: self.name@,
            metadata: self.metadata@,
            raw: self.raw@,
            start_offset: self.start_offset as int,
            line: self.line as int,
            shift: self.shift as int,
        }
    }
}

impl View for ParsedRelationTag {
    type V = RelationTagModel;

    open spec fn view(&self) -> RelationTagModel {
        RelationTagModel {
            from: self.from@,
            to: self.to@,
            metadata: self.metadata@,
            raw: self.raw@,
            start_offset: self.start_offset as int,
            line: self.line as int,
            shift: self.shift as int,
        }
    }
}

impl View for ParsedAnchorTag {
    type V = AnchorTagModel;

    open spec fn view(&self) -> AnchorTagModel {
        AnchorTagModel {
            anchor_name: self.anchor_name@,
            entity_refs: strings_view(self.entity_refs@),
            metadata: self.metadata@,
            raw: self.raw@,
            start_offset: self.start_offset as int,
            line: self.line as int,
            shift: self.shift as int,
        }
    }
}

impl View for ParsedTepTag {
    type V = TagModel;

    open spec fn view(&self) -> TagModel {
        match self {
            ParsedTepTag::Entity(t) => TagModel::Entity(t@),
            ParsedTepTag::Relation(t) => TagModel::Relation(t@),
            ParsedTepTag::Anchor(t) => TagModel::Anchor(t@),
        }
    }
}

pub open spec fn tags_view(v: Seq<ParsedTepTag>) -> Seq<TagModel> {
    Seq::new(v.len(), |i: int| v[i]@)
}

/// Texts whose byte length is below `isize::MAX`, as that of every Rust
/// string is.
pub open spec fn fits(s: Seq<char>) -> bool {
    utf8_len(s) < isize::MAX
}

proof fn lemma_line_start_le(s: Seq<char>, k: int)
    requires
        0 <= k <= s.len(),
    ensures
        0 <= line_start(s, k) <= k,
    decreases k,
{
    if k > 0 && s[k - 1] != '\n' {
        lemma_line_start_le(s, k - 1);
    }
}

proof fn lemma_line_start_bounds(s: Seq<char>, k: int)
    requires
        0 <= k <= s.len(),
    ensures
        0 <= line_start(s, k) <= k,
        line_start(s, k) == 0 || s[line_start(s, k) - 1] == '\n',
        forall|j: int| line_start(s, k) <= j < k ==> #[trigger] s[j] != '\n',
    decreases k,
{
    if k > 0 && s[k - 1] != '\n' {
        lemma_line_start_bounds(s, k - 1);
    }
}

/// The line holding index `k` runs from `line_start` to `line_end`: it
/// surrounds `k`, holds no line break, starts at the text's start or just
/// after a line break, and ends at the text's end or at a line break.
pub proof fn lemma_line_bounds(s: Seq<char>, k: int)
    requires
        0 <= k <= s.len(),
    ensures
        0 <= line_start(s, k) <= k <= line_end(s, k) <= s.len(),
        forall|j: int| line_start(s, k) <= j < line_end(s, k) ==> #[trigger] s[j] != '\n',
        line_start(s, k) == 0 || s[line_start(s, k) - 1] == '\n',
        line_end(s, k) == s.len() || s[line_end(s, k)] == '\n',
{
    lemma_line_start_bounds(s, k);
    lemma_find_char(s, '\n', k, s.len() as int);
}

proof fn lemma_newlines_le(s: Seq<char>, k: int)
    requires
        0 <= k <= s.len(),
    ensures
        0 <= newlines_before(s, k) <= k,
    decreases k,
{
    if k > 0 {
        lemma_newlines_le(s, k - 1);
    }
}

/// Byte offset, line and shift of index `k`.
fn compute_position(s: &[char], k: usize) -> (r: (usize, i64, i64))
    requires
        k <= s@.len(),
        fits(s@),
    ensures
        r.0 == byte_offset(s@, k as int),
        r.1 == line_of(s@, k as int),
        r.2 == shift_of(s@, k as int),
{
    let mut bytes: usize = 0;
    let mut newlines: usize = 0;
    let mut ls: usize = 0;
    let mut ls_bytes: usize = 0;
    let mut j: usize = 0;
    proof {
        assert(s@.take(0) =~= Seq::<char>::empty());
        lemma_utf8_len_bounds_prefix(s@, k as int);
    }
    while j < k
        invariant
            j <= k <= s@.len(),
            fits(s@),
            utf8_len(s@.take(k as int)) <= utf8_len(s@),
            bytes == utf8_len(s@.take(j as int)),
            newlines == newlines_before(s@, j as int),
            ls == line_start(s@, j as int),
            ls <= j,
            ls_bytes == utf8_len(s@.take(ls as int)),
            newlines <= j,
        decreases k - j,
    {
        proof {
            lemma_utf8_len_step(s@, j as int);
            crate::text::lemma_utf8_len_prefix_mono(s@, (j + 1) as int, k as int);
        }
        bytes = bytes + char_width_of(s[j]);
        if s[j] == '\n' {
            newlines += 1;
            ls = j + 1;
            ls_bytes = bytes;
        }
        j += 1;
    }
    proof {
        lemma_utf8_len_concat(s@.take(ls as int), s@.subrange(ls as int, k as int));
        assert(s@.take(ls as int) + s@.subrange(ls as int, k as int) =~= s@.take(k as int));
        crate::text::lemma_utf8_len_bounds(s@);
    }
    (bytes, (newlines + 1) as i64, (bytes - ls_bytes) as i64)
}

proof fn lemma_utf8_len_bounds_prefix(s: Seq<char>, k: int)
    requires
        0 <= k <= s.len(),
    ensures
        utf8_len(s.take(k)) <= utf8_len(s),
{
    crate::text::lemma_utf8_len_prefix_mono(s, k, s.len() as int);
    assert(s.take(s.len() as int) =~= s);
}

/// Index where the line holding `k` starts.
fn find_line_start(s: &[char], k: usize) -> (r: usize)
    requires
        k <= s@.len(),
    ensures
        r == line_start(s@, k as int),
{
    let mut a: usize = k;
    while a > 0 && s[a - 1] != '\n'
        invariant
            a <= k <= s@.len(),
            line_start(s@, a as int) == line_start(s@, k as int),
        decreases a,
    {
        a -= 1;
    }
    a
}

/// Whether the line holding index `k` contains `marker`.
fn line_has_exec(s: &[char], k: usize, marker: &[char]) -> (r: bool)
    requires
        k <= s@.len(),
    ensures
        r == line_has(s@, k as int, marker@),
{
    let ls = find_line_start(s, k);
    let le = match find_char_in(s, '\n', k, s.len()) {
        Some(j) => j,
        None => s.len(),
    };
    proof {
        lemma_find_char(s@, '\n', k as int, s@.len() as int);
    }
    find_pat_in(s, marker, ls, le).is_some()
}

pub open spec fn entity_result_view(r: Option<(ParsedEntityTag, usize)>) -> Option<(EntityTagModel, int)> {
    match r {
        Some((t, e)) => Some((t@, e as int)),
        None => None,
    }
}

pub open spec fn relation_result_view(r: Option<(ParsedRelationTag, usize)>) -> Option<(RelationTagModel, int)> {
    match r {
        Some((t, e)) => Some((t@, e as int)),
        None => None,
    }
}

pub open spec fn anchor_result_view(r: Option<(ParsedAnchorTag, usize)>) -> Option<(AnchorTagModel, int)> {
    match r {
        Some((t, e)) => Some((t@, e as int)),
        None => None,
    }
}

fn try_parse_entity_tag(s: &[char], k: usize) -> (r: Option<(ParsedEntityTag, usize)>)
    requires
        k <= s@.len(),
        fits(s@),
    ensures
        entity_result_view(r) == entity_at(s@, k as int),
        r matches Some((_, e)) ==> k + 8 <= e <= s@.len(),
{
    let open = entity_open_chars();
    if !matches_at_exec(s, k, &open) {
        return None;
    }
    assert(open@.len() == 8);
    let n = s.len();
    assert(k + 8 <= n);
    let b = k + 8;
    let close = match find_char_in(s, ')', b, s.len()) {
        Some(c) => c,
        None => return None,
    };
    let raw_name = copy_range(s, b, close);
    if check_name(&raw_name).is_some() {
        return None;
    }
    let name = normalize_chars(&raw_name);
    let (metadata, end) = match parse_metadata_block(s, close + 1, KnownFields::RefAndDescription) {
        Some(x) => x,
        None => return None,
    };
    let raw = copy_range(s, k, end);
    let (start_offset, line, shift) = compute_position(s, k);
    Some(
        (
            ParsedEntityTag {
                name: string_of(&name),
                metadata,
                raw: string_of(&raw),
                start_offset,
                line,
                shift,
            },
            end,
        ),
    )
}

fn try_parse_relation_tag(s: &[char], k: usize) -> (r: Option<(ParsedRelationTag, usize)>)
    requires
        k <= s@.len(),
        fits(s@),
    ensures
        relation_result_view(r) == relation_at(s@, k as int),
        r matches Some((_, e)) ==> k + 8 <= e <= s@.len(),
{
    let open = entity_open_chars();
    if !matches_at_exec(s, k, &open) {
        return None;
    }
    assert(open@.len() == 8);
    let n = s.len();
    assert(k + 8 <= n);
    let b = k + 8;
    let c1 = match find_char_in(s, ')', b, s.len()) {
        Some(c) => c,
        None => return None,
    };
    let from_raw = copy_range(s, b, c1);
    if check_name(&from_raw).is_some() {
        return None;
    }
    if !matches_at_exec(s, c1 + 1, &arrow_open_chars()) {
        return None;
    }
    let b2 = c1 + 4;
    let c2 = match find_char_in(s, ')', b2, s.len()) {
        Some(c) => c,
        None => return None,
    };
    let to_raw = copy_range(s, b2, c2);
    if check_name(&to_raw).is_some() {
        return None;
    }
    let (metadata, end) = match parse_metadata_block(s, c2 + 1, KnownFields::DescriptionOnly) {
        Some(x) => x,
        None => return None,
    };
    let raw = copy_range(s, k, end);
    let (start_offset, line, shift) = compute_position(s, k);
    Some(
        (
            ParsedRelationTag {
                from: string_of(&normalize_chars(&from_raw)),
                to: string_of(&normalize_chars(&to_raw)),
                metadata,
                raw: string_of(&raw),
                start_offset,
                line,
                shift,
            },
            end,
        ),
    )
}

pub open spec fn prepend_refs(acc: Seq<Seq<char>>, rest: Option<Seq<Seq<char>>>) -> Option<
    Seq<Seq<char>>,
> {
    match rest {
        Some(r) => Some(acc + r),
        None => None,
    }
}

/// Handles one reference item `s[start..end]`; `false` when it is invalid.
fn take_ref_item(s: &[char], start: usize, end: usize, acc: &mut Vec<String>) -> (ok: bool)
    requires
        start <= end <= s@.len(),
    ensures
        forall|rest: Option<Seq<Seq<char>>>|
            #![trigger ref_item(s@, start as int, end as int, rest)]
            prepend_refs(strings_view(old(acc)@), ref_item(s@, start as int, end as int, rest)) == if ok {
                prepend_refs(strings_view(final(acc)@), rest)
            } else {
                None::<Seq<Seq<char>>>
            },
{
    let ghost before = strings_view(acc@);
    let (a, b) = trim_bounds(s, start, end);
    if a == b {
        return true;
    }
    let item = copy_range(s, a, b);
    if check_name(&item).is_some() {
        return false;
    }
    let n = normalize_chars(&item);
    acc.push(string_of(&n));
    proof {
        assert(strings_view(acc@) =~= before.push(n@));
        assert forall|rest: Option<Seq<Seq<char>>>|
            #![trigger ref_item(s@, start as int, end as int, rest)]
            prepend_refs(before, ref_item(s@, start as int, end as int, rest)) == prepend_refs(
                strings_view(acc@),
                rest,
            ) by {
            match rest {
                Some(r) => {
                    assert(before + (seq![n@] + r) =~= before.push(n@) + r);
                },
                None => {},
            }
        }
    }
    true
}

fn parse_entity_refs(s: &[char], a: usize, hi: usize) -> (r: Option<Vec<String>>)
    requires
        a <= hi <= s@.len(),
    ensures
        match refs_from(s@, a as int, a as int, hi as int) {
            Some(refs) => r matches Some(v) && strings_view(v@) == refs,
            None => r is None,
        },
{
    let mut acc: Vec<String> = Vec::new();
    let mut start: usize = a;
    let mut i: usize = a;
    proof {
        assert(strings_view(acc@) =~= Seq::<Seq<char>>::empty());
        match refs_from(s@, a as int, a as int, hi as int) {
            Some(r) => {
                assert(Seq::<Seq<char>>::empty() + r =~= r);
            },
            None => {},
        }
    }
    while i < hi
        invariant
            a <= start <= i <= hi <= s@.len(),
            refs_from(s@, a as int, a as int, hi as int) == prepend_refs(
                strings_view(acc@),
                refs_from(s@, i as int, start as int, hi as int),
            ),
        decreases hi - i,
    {
        if s[i] == ',' {
            let ghost rest = refs_from(s@, i + 1, i + 1, hi as int);
            let ok = take_ref_item(s, start, i, &mut acc);
            if !ok {
                return None;
            }
            start = i + 1;
        }
        i += 1;
    }
    let ok = take_ref_item(s, start, hi, &mut acc);
    if !ok {
        return None;
    }
    proof {
        assert(strings_view(acc@) + Seq::<Seq<char>>::empty() =~= strings_view(acc@));
    }
    Some(acc)
}

fn try_parse_anchor_tag(s: &[char], k: usize) -> (r: Option<(ParsedAnchorTag, usize)>)
    requires
        k <= s@.len(),
        fits(s@),
    ensures
        anchor_result_view(r) == anchor_at(s@, k as int),
        r matches Some((_, e)) ==> k + 8 <= e <= s@.len(),
{
    let open = anchor_open_chars();
    let bracket = bracket_open_chars();
    if !matches_at_exec(s, k, &open) && !matches_at_exec(s, k, &bracket) {
        return None;
    }
    assert(open@.len() == 8);
    assert(bracket@.len() == 8);
    let n = s.len();
    assert(k + 8 <= n);
    let b = k + 8;
    let cb = match find_char_in(s, ']', b, s.len()) {
        Some(c) => c,
        None => return None,
    };
    let raw_name = copy_range(s, b, cb);
    if check_name(&raw_name).is_some() {
        return None;
    }
    if !(cb + 1 < s.len() && s[cb + 1] == '(') {
        return None;
    }
    let rb = cb + 2;
    let rc = match find_char_in(s, ')', rb, s.len()) {
        Some(c) => c,
        None => return None,
    };
    let entity_refs = match parse_entity_refs(s, rb, rc) {
        Some(v) => v,
        None => return None,
    };
    if entity_refs.len() == 0 {
        return None;
    }
    let (metadata, end) = match parse_metadata_block(s, rc + 1, KnownFields::DescriptionOnly) {
        Some(x) => x,
        None => return None,
    };
    let raw = copy_range(s, k, end);
    let (start_offset, line, shift) = compute_position(s, k);
    Some(
        (
            ParsedAnchorTag {
                anchor_name: string_of(&normalize_chars(&raw_name)),
                entity_refs,
                metadata,
                raw: string_of(&raw),
                start_offset,
                line,
                shift,
            },
            end,
        ),
    )
}

pub open spec fn tag_result_view(r: Option<(ParsedTepTag, usize)>) -> Option<(TagModel, int)> {
    match r {
        Some((t, e)) => Some((t@, e as int)),
        None => None,
    }
}

fn try_parse_tag(s: &[char], k: usize) -> (r: Option<(ParsedTepTag, usize)>)
    requires
        k <= s@.len(),
        fits(s@),
    ensures
        tag_result_view(r) == tag_at(s@, k as int),
        r matches Some((_, e)) ==> k + 8 <= e <= s@.len(),
{
    if line_has_exec(s, k, &ignore_marker_chars()) {
        return None;
    }
    if let Some((t, e)) = try_parse_anchor_tag(s, k) {
        return Some((ParsedTepTag::Anchor(t), e));
    }
    if let Some((t, e)) = try_parse_relation_tag(s, k) {
        return Some((ParsedTepTag::Relation(t), e));
    }
    if let Some((t, e)) = try_parse_entity_tag(s, k) {
        return Some((ParsedTepTag::Entity(t), e));
    }
    None
}

/// Index of the first `#tepignoreafter`, or the length.
fn scan_limit_exec(s: &[char]) -> (r: usize)
    ensures
        r == scan_limit(s@),
        r <= s@.len(),
{
    let m = ignore_after_marker_chars();
    proof {
        lemma_find_pat(s@, m@, 0, s@.len() as int);
    }
    match find_pat_in(s, &m, 0, s.len()) {
        Some(j) => j,
        None => s.len(),
    }
}

/// Scans a character sequence for tags.
pub fn parse_tags_chars(s: &[char]) -> (out: Vec<ParsedTepTag>)
    requires
        fits(s@),
    ensures
        tags_view(out@) == spec_parse_tags(s@),
{
    let mut out: Vec<ParsedTepTag> = Vec::new();
    let lim = scan_limit_exec(s);
    let prefix = tep_prefix_chars();
    let bracket = bracket_open_chars();
    let mut i: usize = 0;
    proof {
        assert(tags_view(out@) + scan(s@, 0, lim as int) =~= scan(s@, 0, lim as int));
    }
    while i < s.len() && i < lim
        invariant
            fits(s@),
            lim == scan_limit(s@),
            prefix@ == tep_prefix(),
            bracket@ == bracket_open(),
            tags_view(out@) + scan(s@, i as int, lim as int) == spec_parse_tags(s@),
        decreases s.len() - i,
    {
        let ghost before = tags_view(out@);
        if matches_at_exec(s, i, &prefix) || matches_at_exec(s, i, &bracket) {
            match try_parse_tag(s, i) {
                Some((t, e)) => {
                    out.push(t);
                    proof {
                        assert(tags_view(out@) =~= before.push(t@));
                        assert(before.push(t@) + scan(s@, e as int, lim as int) =~= before + (seq![t@]
                            + scan(s@, e as int, lim as int)));
                    }
                    i = e;
                    continue;
                },
                None => {},
            }
        }
        i += 1;
    }
    proof {
        assert(tags_view(out@) + Seq::<TagModel>::empty() =~= tags_view(out@));
    }
    out
}

/// Every tag of a text, in order of appearance.
pub fn parse_tags(input: &str) -> (out: Vec<ParsedTepTag>)
    requires
        fits(input@),
    ensures
        tags_view(out@) == spec_parse_tags(input@),
{
    let s = chars_of(input);
    parse_tags_chars(&s)
}

// ---------------------------------------------------------------------------
// Tags of one kind
// ---------------------------------------------------------------------------

pub open spec fn entity_tags_of(tags: Seq<TagModel>) -> Seq<EntityTagModel>
    decreases tags.len(),
{
    if tags.len() == 0 {
        seq![]
    } else {
        entity_tags_of(tags.drop_last()) + match tags.last() {
            TagModel::Entity(t) => seq![t],
            _ => seq![],
        }
    }
}

pub open spec fn relation_tags_of(tags: Seq<TagModel>) -> Seq<RelationTagModel>
    decreases tags.len(),
{
    if tags.len() == 0 {
        seq![]
    } else {
        relation_tags_of(tags.drop_last()) + match tags.last() {
            TagModel::Relation(t) => seq![t],
            _ => seq![],
        }
    }
}

pub open spec fn anchor_tags_of(tags: Seq<TagModel>) -> Seq<AnchorTagModel>
    decreases tags.len(),
{
    if tags.len() == 0 {
        seq![]
    } else {
        anchor_tags_of(tags.drop_last()) + match tags.last() {
            TagModel::Anchor(t) => seq![t],
            _ => seq![],
        }
    }
}

/// The entity declarations of a text, in order.
pub fn parse_entity_tags(input: &str) -> (out: Vec<ParsedEntityTag>)
    requires
        fits(input@),
    ensures
        Seq::new(out@.len(), |i: int| out@[i]@) == entity_tags_of(spec_parse_tags(input@)),
{
    let tags = parse_tags(input);
    let ghost tv = tags_view(tags@);
    let mut out: Vec<ParsedEntityTag> = Vec::new();
    for tag in it: tags
        invariant
            tv == spec_parse_tags(input@),
            it.seq().len() == tv.len(),
            forall|j: int| 0 <= j < it.seq().len() ==> #[trigger] it.seq()[j]@ == tv[j],
            Seq::new(out@.len(), |j: int| out@[j]@) == entity_tags_of(tv.take(it.index() as int)),
    {
        let ghost k = it.index() as int;
        proof {
            assert(tv.take(k + 1).drop_last() =~= tv.take(k));
            assert(tv.take(k + 1).last() == tag@);
        }
        match tag {
            ParsedTepTag::Entity(t) => {
                let ghost before = Seq::new(out@.len(), |j: int| out@[j]@);
                out.push(t);
                proof {
                    assert(Seq::new(out@.len(), |j: int| out@[j]@) =~= before + seq![t@]);
                }
            },
            _ => {
                proof {
                    assert(entity_tags_of(tv.take(k + 1)) =~= entity_tags_of(tv.take(k)));
                }
            },
        }
    }
    proof {
        assert(tv.take(tv.len() as int) =~= tv);
    }
    out
}

/// The relations of a text, in order.
pub fn parse_relation_tags(input: &str) -> (out: Vec<ParsedRelationTag>)
    requires
        fits(input@),
    ensures
        Seq::new(out@.len(), |i: int| out@[i]@) == relation_tags_of(spec_parse_tags(input@)),
{
    let tags = parse_tags(input);
    let ghost tv = tags_view(tags@);
    let mut out: Vec<ParsedRelationTag> = Vec::new();
    for tag in it: tags
        invariant
            tv == spec_parse_tags(input@),
            it.seq().len() == tv.len(),
            forall|j: int| 0 <= j < it.seq().len() ==> #[trigger] it.seq()[j]@ == tv[j],
            Seq::new(out@.len(), |j: int| out@[j]@) == relation_tags_of(tv.take(it.index() as int)),
    {
        let ghost k = it.index() as int;
        proof {
            assert(tv.take(k + 1).drop_last() =~= tv.take(k));
            assert(tv.take(k + 1).last() == tag@);
        }
        match tag {
            ParsedTepTag::Relation(t) => {
                let ghost before = Seq::new(out@.len(), |j: int| out@[j]@);
                out.push(t);
                proof {
                    assert(Seq::new(out@.len(), |j: int| out@[j]@) =~= before + seq![t@]);
                }
            },
            _ => {
                proof {
                    assert(relation_tags_of(tv.take(k + 1)) =~= relation_tags_of(tv.take(k)));
                }
            },
        }
    }
    proof {
        assert(tv.take(tv.len() as int) =~= tv);
    }
    out
}

/// The anchors of a text, in order.
pub fn parse_anchor_tags(input: &str) -> (out: Vec<ParsedAnchorTag>)
    requires
        fits(input@),
    ensures
        Seq::new(out@.len(), |i: int| out@[i]@) == anchor_tags_of(spec_parse_tags(input@)),
{
    let tags = parse_tags(input);
    let ghost tv = tags_view(tags@);
    let mut out: Vec<ParsedAnchorTag> = Vec::new();
    for tag in it: tags
        invariant
            tv == spec_parse_tags(input@),
            it.seq().len() == tv.len(),
            forall|j: int| 0 <= j < it.seq().len() ==> #[trigger] it.seq()[j]@ == tv[j],
            Seq::new(out@.len(), |j: int| out@[j]@) == anchor_tags_of(tv.take(it.index() as int)),
    {
        let ghost k = it.index() as int;
        proof {
            assert(tv.take(k + 1).drop_last() =~= tv.take(k));
            assert(tv.take(k + 1).last() == tag@);
        }
        match tag {
            ParsedTepTag::Anchor(t) => {
                let ghost before = Seq::new(out@.len(), |j: int| out@[j]@);
                out.push(t);
                proof {
                    assert(Seq::new(out@.len(), |j: int| out@[j]@) =~= before + seq![t@]);
                }
            },
            _ => {
                proof {
                    assert(anchor_tags_of(tv.take(k + 1)) =~= anchor_tags_of(tv.take(k)));
                }
            },
        }
    }
    proof {
        assert(tv.take(tv.len() as int) =~= tv);
    }
    out
}

/// Whether a text is short enough to be scanned: its UTF-8 encoding is
/// shorter than `isize::MAX` bytes, as any `String` is.
pub fn text_fits(input: &str) -> (r: bool)
    ensures
        r == fits(input@),
{
    let s = chars_of(input);
    let limit: usize = isize::MAX as usize;
    let mut total: usize = 0;
    let mut i: usize = 0;
    while i < s.len()
        invariant
            i <= s@.len(),
            s@ == input@,
            limit == isize::MAX,
            total == utf8_len(s@.take(i as int)),
            total < limit,
        decreases s.len() - i,
    {
        proof {
            lemma_utf8_len_step(s@, i as int);
        }
        let w = char_width_of(s[i]);
        if w >= limit - total {
            proof {
                lemma_utf8_len_prefix_ge(s@, i + 1);
            }
            return false;
        }
        total = total + w;
        i += 1;
    }
    proof {
        assert(s@.take(s@.len() as int) =~= s@);
    }
    true
}

/// A tag's byte offset, line and shift.
pub open spec fn position_of(t: TagModel) -> (int, int, int) {
    match t {
        TagModel::Entity(e) => (e.start_offset, e.line, e.shift),
        TagModel::Relation(r) => (r.start_offset, r.line, r.shift),
        TagModel::Anchor(a) => (a.start_offset, a.line, a.shift),
    }
}

/// The text a tag was read from.
pub open spec fn raw_of(t: TagModel) -> Seq<char> {
    match t {
        TagModel::Entity(e) => e.raw,
        TagModel::Relation(r) => r.raw,
        TagModel::Anchor(a) => a.raw,
    }
}

/// `t` is the tag the text holds at index `k`: `k` lies before the first
/// `#tepignoreafter`, on a line without `#tepignore`, starts `#!#tep:` (or
/// `[#!#tep:`), the tag's byte offset, line and shift are those of `k`,
/// and the text from `k` on is the tag's raw text.
pub open spec fn tag_read_at(s: Seq<char>, t: TagModel, k: int) -> bool {
    &&& 0 <= k < scan_limit(s)
    &&& tag_start(s, k)
    &&& position_of(t) == (byte_offset(s, k), line_of(s, k), shift_of(s, k))
    &&& !line_has(s, k, ignore_marker())
    &&& k + raw_of(t).len() <= s.len()
    &&& s.subrange(k, k + raw_of(t).len()) == raw_of(t)
    &&& tag_at(s, k) matches Some((t2, _)) && t2 == t
}

proof fn lemma_tag_at_raw(s: Seq<char>, k: int)
    requires
        tag_at(s, k) is Some,
    ensures
        !line_has(s, k, ignore_marker()),
        ({
            let (t, end) = tag_at(s, k)->0;
            raw_of(t) == s.subrange(k, end) && position_of(t) == (
                byte_offset(s, k),
                line_of(s, k),
                shift_of(s, k),
            )
        }),
{
}

/// The index at which each tag found scanning from `i` begins.
pub open spec fn scan_positions(s: Seq<char>, i: int, lim: int) -> Seq<int>
    decreases s.len() - i,
{
    if i < 0 || i >= s.len() || i >= lim {
        seq![]
    } else if tag_start(s, i) && tag_at(s, i) is Some {
        let (t, end) = tag_at(s, i)->0;
        if i < end <= s.len() {
            seq![i] + scan_positions(s, end, lim)
        } else {
            scan_positions(s, i + 1, lim)
        }
    } else {
        scan_positions(s, i + 1, lim)
    }
}

/// The index at which each tag of a text begins.
pub open spec fn tag_positions(s: Seq<char>) -> Seq<int> {
    scan_positions(s, 0, scan_limit(s))
}

/// Tags at `ps` are read from `s` in order, each ending no later than the
/// next begins, all at or after `lo`.
pub open spec fn reads_in_order(s: Seq<char>, ts: Seq<TagModel>, ps: Seq<int>, lo: int) -> bool {
    &&& ps.len() == ts.len()
    &&& forall|j: int| 0 <= j < ts.len() ==> lo <= #[trigger] ps[j] && tag_read_at(s, ts[j], ps[j])
    &&& forall|j: int|
        0 <= j < ts.len() - 1 ==> #[trigger] ps[j] + raw_of(ts[j]).len() <= ps[j + 1]
}

proof fn lemma_scan_reads(s: Seq<char>, i: int, lim: int)
    requires
        0 <= i,
        lim == scan_limit(s),
    ensures
        reads_in_order(s, scan(s, i, lim), scan_positions(s, i, lim), i),
    decreases s.len() - i,
{
    if i < 0 || i >= s.len() || i >= lim {
    } else if tag_start(s, i) && tag_at(s, i) is Some {
        let (t, end) = tag_at(s, i)->0;
        if i < end <= s.len() {
            lemma_scan_reads(s, end, lim);
            lemma_tag_at_raw(s, i);
            let rest = scan(s, end, lim);
            let rp = scan_positions(s, end, lim);
            let ts = scan(s, i, lim);
            let ps = scan_positions(s, i, lim);
            assert(ts == seq![t] + rest);
            assert(ps == seq![i] + rp);
            assert forall|j: int| 0 <= j < ts.len() implies i <= #[trigger] ps[j] && tag_read_at(
                s,
                ts[j],
                ps[j],
            ) by {
                if j == 0 {
                    assert(s.subrange(i, i + raw_of(t).len()) == raw_of(t));
                } else {
                    assert(ts[j] == rest[j - 1]);
                    assert(ps[j] == rp[j - 1]);
                }
            }
            assert forall|j: int| 0 <= j < ts.len() - 1 implies #[trigger] ps[j] + raw_of(ts[j]).len()
                <= ps[j + 1] by {
                if j == 0 {
                    assert(ps[1] == rp[0]);
                } else {
                    assert(ts[j] == rest[j - 1]);
                    assert(ps[j] == rp[j - 1]);
                    assert(ps[j + 1] == rp[j]);
                }
            }
        } else {
            lemma_scan_reads(s, i + 1, lim);
        }
    } else {
        lemma_scan_reads(s, i + 1, lim);
    }
}

/// Every tag the parser returns is read from the text itself, in order and
/// without overlap: each at an index before the first `#tepignoreafter`, on
/// a line that holds no `#tepignore`, where the text spells out the tag's
/// raw form; a tag ends no later than the next one begins.
pub proof fn lemma_parsed_tags_come_from_text(s: Seq<char>)
    ensures
        reads_in_order(s, spec_parse_tags(s), tag_positions(s), 0),
{
    lemma_scan_reads(s, 0, scan_limit(s));
}

/// What every parsed tag satisfies: its names are normalized names the
/// naming rules accept, and an anchor refers to at least one entity, each
/// by such a name.
pub open spec fn tag_names_valid(t: TagModel) -> bool {
    match t {
        TagModel::Entity(e) => name_ok(e.name) && normalize(e.name) == e.name,
        TagModel::Relation(r) => name_ok(r.from) && normalize(r.from) == r.from && name_ok(r.to)
            && normalize(r.to) == r.to,
        TagModel::Anchor(a) => name_ok(a.anchor_name) && normalize(a.anchor_name) == a.anchor_name
            && a.entity_refs.len() > 0 && forall|i: int|
            0 <= i < a.entity_refs.len() ==> name_ok(#[trigger] a.entity_refs[i]) && normalize(
                a.entity_refs[i],
            ) == a.entity_refs[i],
    }
}

proof fn lemma_refs_valid(s: Seq<char>, i: int, start: int, hi: int)
    ensures
        refs_from(s, i, start, hi) matches Some(refs) ==> forall|j: int|
            0 <= j < refs.len() ==> name_ok(#[trigger] refs[j]) && normalize(refs[j]) == refs[j],
    decreases hi - i,
{
    if start < 0 || i < start || i >= hi || hi > s.len() {
        lemma_ref_item_valid(s, start, hi, Some(seq![]));
    } else if s[i] == ',' {
        lemma_refs_valid(s, i + 1, i + 1, hi);
        lemma_ref_item_valid(s, start, i, refs_from(s, i + 1, i + 1, hi));
    } else {
        lemma_refs_valid(s, i + 1, start, hi);
    }
}

proof fn lemma_ref_item_valid(s: Seq<char>, start: int, end: int, rest: Option<Seq<Seq<char>>>)
    requires
        rest matches Some(r) ==> forall|j: int|
            0 <= j < r.len() ==> name_ok(#[trigger] r[j]) && normalize(r[j]) == r[j],
    ensures
        ref_item(s, start, end, rest) matches Some(refs) ==> forall|j: int|
            0 <= j < refs.len() ==> name_ok(#[trigger] refs[j]) && normalize(refs[j]) == refs[j],
{
    let item = trim(s.subrange(start, end));
    if item.len() > 0 && name_ok(item) {
        if let Some(r) = rest {
            lemma_accepted_name_shape(item);
            lemma_normalize_idempotent(item);
            let out = seq![normalize(item)] + r;
            assert forall|j: int| 0 <= j < out.len() implies name_ok(#[trigger] out[j]) && normalize(out[j])
                == out[j] by {
                if j > 0 {
                    assert(out[j] == r[j - 1]);
                }
            }
        }
    }
}

/// Every tag of a text names things by accepted, normalized names, and
/// every anchor refers to at least one entity.
pub proof fn lemma_parsed_tags_have_valid_names(s: Seq<char>)
    ensures
        forall|j: int| 0 <= j < spec_parse_tags(s).len() ==> tag_names_valid(
            #[trigger] spec_parse_tags(s)[j],
        ),
{
    lemma_parsed_tags_come_from_text(s);
    assert forall|j: int| 0 <= j < spec_parse_tags(s).len() implies tag_names_valid(
        #[trigger] spec_parse_tags(s)[j],
    ) by {
        let t = spec_parse_tags(s)[j];
        let k = tag_positions(s)[j];
        assert(tag_read_at(s, t, k));
        match t {
            TagModel::Entity(e) => {
                if anchor_at(s, k) is None && relation_at(s, k) is None {
                    let close = find_char(s, ')', k + 8, s.len() as int)->0;
                    let raw_name = s.subrange(k + 8, close);
                    lemma_accepted_name_shape(raw_name);
                    lemma_normalize_idempotent(raw_name);
                }
            },
            TagModel::Relation(r) => {
                if anchor_at(s, k) is None {
                    let c1 = find_char(s, ')', k + 8, s.len() as int)->0;
                    let c2 = find_char(s, ')', c1 + 4, s.len() as int)->0;
                    lemma_accepted_name_shape(s.subrange(k + 8, c1));
                    lemma_normalize_idempotent(s.subrange(k + 8, c1));
                    lemma_accepted_name_shape(s.subrange(c1 + 4, c2));
                    lemma_normalize_idempotent(s.subrange(c1 + 4, c2));
                }
            },
            TagModel::Anchor(a) => {
                let cb = find_char(s, ']', k + 8, s.len() as int)->0;
                let rc = find_char(s, ')', cb + 2, s.len() as int)->0;
                lemma_accepted_name_shape(s.subrange(k + 8, cb));
                lemma_normalize_idempotent(s.subrange(k + 8, cb));
                lemma_refs_valid(s, cb + 2, cb + 2, rc);
            },
        }
    }
}

/// No unknown field of the metadata is one of the `known` keys.
pub open spec fn unknowns_outside(m: MetaModel, known: Seq<Seq<char>>) -> bool {
    forall|i: int| 0 <= i < m.unknown_fields.len() ==> !known.contains(#[trigger] m.unknown_fields[i])
}

proof fn lemma_apply_segments_unknowns(segs: Seq<Seq<char>>, known: Seq<Seq<char>>)
    ensures
        unknowns_outside(apply_segments(segs, known), known),
    decreases segs.len(),
{
    if segs.len() > 0 {
        lemma_apply_segments_unknowns(segs.drop_last(), known);
        let m = apply_segments(segs.drop_last(), known);
        match parse_segment(segs.last()) {
            None => {},
            Some((k, v)) => {
                let m2 = add_entry(m, k, v, known);
                assert forall|i: int| 0 <= i < m2.unknown_fields.len() implies !known.contains(
                    #[trigger] m2.unknown_fields[i],
                ) by {
                    if i < m.unknown_fields.len() {
                        assert(m2.unknown_fields[i] == m.unknown_fields[i]);
                    }
                }
            },
        }
    }
}

pub open spec fn block_unknowns_ok(r: Option<(MetaModel, int)>, known: Seq<Seq<char>>) -> bool {
    match r {
        Some((m, _)) => unknowns_outside(m, known),
        None => true,
    }
}

proof fn lemma_meta_block_unknowns(s: Seq<char>, known: Seq<Seq<char>>)
    ensures
        forall|p: int| block_unknowns_ok(#[trigger] meta_block(s, p, known), known),
{
    assert forall|p: int| block_unknowns_ok(#[trigger] meta_block(s, p, known), known) by {
        if 0 <= p < s.len() && s[p] == '{' {
            if let Some(c) = meta_end(s, p + 1, false, false) {
                lemma_apply_segments_unknowns(segments(s.subrange(p + 1, c)), known);
            }
        }
    }
}

/// The fields a tag's metadata reports as unknown: never a key the tag
/// knows — `ref` and `description` for an entity declaration, `description`
/// for a link or an anchor.
pub open spec fn tag_unknowns_ok(t: TagModel) -> bool {
    match t {
        TagModel::Entity(e) => unknowns_outside(e.metadata, known_keys(KnownFields::RefAndDescription)),
        TagModel::Relation(r) => unknowns_outside(r.metadata, known_keys(KnownFields::DescriptionOnly)),
        TagModel::Anchor(a) => unknowns_outside(a.metadata, known_keys(KnownFields::DescriptionOnly)),
    }
}

/// A tag's metadata never reports a key it knows as unknown: in particular
/// an anchor's or a link's unknown fields never hold `description`.
pub proof fn lemma_parsed_tags_know_their_fields(s: Seq<char>)
    ensures
        forall|j: int| 0 <= j < spec_parse_tags(s).len() ==> tag_unknowns_ok(
            #[trigger] spec_parse_tags(s)[j],
        ),
        description_key() == "description"@,
        ref_key() == "ref"@,
{
    reveal_strlit("description");
    reveal_strlit("ref");
    lemma_parsed_tags_come_from_text(s);
    lemma_meta_block_unknowns(s, known_keys(KnownFields::RefAndDescription));
    lemma_meta_block_unknowns(s, known_keys(KnownFields::DescriptionOnly));
    assert forall|j: int| 0 <= j < spec_parse_tags(s).len() implies tag_unknowns_ok(
        #[trigger] spec_parse_tags(s)[j],
    ) by {
        let t = spec_parse_tags(s)[j];
        let k = tag_positions(s)[j];
        assert(tag_read_at(s, t, k));
    }
}

} // verus!
