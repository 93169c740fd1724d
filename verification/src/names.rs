//! The naming rules shared by entities and anchors: a name is trimmed and
//! ASCII-lowercased, must not be empty or purely numeric, and may only hold
//! lowercase letters, digits, dots and underscores.
use vstd::prelude::*;

use crate::text::{
    all_digits, back_ws, is_all_digits, is_digit, is_ws, lemma_back_ws_bounds, lemma_skip_ws_bounds,
    lower, lower_chars, skip_ws, trim, trim_chars,
};

verus! {

/// Normalized form of a name: trimmed, then ASCII-lowercased.
pub open spec fn normalize(s: Seq<char>) -> Seq<char> {
    lower(trim(s))
}

pub open spec fn is_name_char(c: char) -> bool {
    ('a' <= c && c <= 'z') || is_digit(c) || c == '.' || c == '_'
}

pub open spec fn all_name_chars(s: Seq<char>) -> bool {
    forall|i: int| 0 <= i < s.len() ==> is_name_char(#[trigger] s[i])
}

/// Why a normalized name is refused, checked in this order.
#[derive(Clone, Copy, Debug, PartialEq, Eq)]
pub enum NameIssue {
    Empty,
    Numeric,
    Charset,
}

pub open spec fn name_issue(n: Seq<char>) -> Option<NameIssue> {
    if n.len() == 0 {
        Some(NameIssue::Empty)
    } else if all_digits(n) {
        Some(NameIssue::Numeric)
    } else if !all_name_chars(n) {
        Some(NameIssue::Charset)
    } else {
        None
    }
}

/// A raw name is acceptable once normalized.
pub open spec fn name_ok(raw: Seq<char>) -> bool {
    name_issue(normalize(raw)) is None
}

pub fn normalize_chars(s: &[char]) -> (r: Vec<char>)
    ensures
        r@ == normalize(s@),
{
    let t = trim_chars(s);
    lower_chars(&t)
}

fn all_name_chars_exec(s: &[char]) -> (r: bool)
    ensures
        r == all_name_chars(s@),
{
    let mut i: usize = 0;
    while i < s.len()
        invariant
            i <= s.len(),
            forall|j: int| 0 <= j < i ==> is_name_char(#[trigger] s@[j]),
        decreases s.len() - i,
    {
        let c = s[i];
        if !(('a' <= c && c <= 'z') || ('0' <= c && c <= '9') || c == '.' || c == '_') {
            return false;
        }
        i += 1;
    }
    true
}

/// Checks a raw name; `None` when it is acceptable.
pub fn check_name(raw: &[char]) -> (r: Option<NameIssue>)
    ensures
        r == name_issue(normalize(raw@)),
{
    let n = normalize_chars(raw);
    if n.len() == 0 {
        Some(NameIssue::Empty)
    } else if is_all_digits(&n) {
        Some(NameIssue::Numeric)
    } else if !all_name_chars_exec(&n) {
        Some(NameIssue::Charset)
    } else {
        None
    }
}

/// Normalizing twice gives what normalizing once gives: a normalized name
/// is its own normal form.
pub proof fn lemma_normalize_idempotent(s: Seq<char>)
    ensures
        normalize(normalize(s)) == normalize(s),
{
    let t = trim(s);
    let a = skip_ws(s, 0);
    lemma_skip_ws_bounds(s, 0);
    lemma_back_ws_bounds(s, a, s.len() as int);
    let b = back_ws(s, a, s.len() as int);
    let u = lower(t);
    if u.len() > 0 {
        assert(t[0] == s[a]);
        assert(!is_ws(t[0]));
        assert(t[t.len() - 1] == s[b - 1]);
        assert(!is_ws(t[t.len() - 1]));
        assert(!is_ws(u[0]));
        assert(!is_ws(u[u.len() - 1]));
    }
    assert(skip_ws(u, 0) == 0);
    assert(back_ws(u, 0, u.len() as int) == u.len());
    assert(trim(u) =~= u);
    assert(lower(u) =~= u);
}

/// A name the rules accept is, once normalized, non-empty, not purely
/// numeric, and made of lowercase letters, digits, dots and underscores
/// only; and it is accepted again as it stands.
pub proof fn lemma_accepted_name_shape(raw: Seq<char>)
    requires
        name_ok(raw),
    ensures
        normalize(raw).len() > 0,
        !all_digits(normalize(raw)),
        all_name_chars(normalize(raw)),
        name_ok(normalize(raw)),
{
    lemma_normalize_idempotent(raw);
}

/// The naming rule in full: a raw name is accepted exactly when its
/// normalized form is non-empty, holds something other than a digit, and
/// holds only lowercase ASCII letters, ASCII digits, dots and underscores.
pub proof fn lemma_name_rule(raw: Seq<char>)
    ensures
        name_ok(raw) <==> ({
            let n = normalize(raw);
            &&& n.len() > 0
            &&& exists|i: int| 0 <= i < n.len() && !('0' <= #[trigger] n[i] && n[i] <= '9')
            &&& forall|i: int|
                0 <= i < n.len() ==> ('a' <= #[trigger] n[i] && n[i] <= 'z') || ('0' <= n[i] && n[i]
                    <= '9') || n[i] == '.' || n[i] == '_'
        }),
{
    let n = normalize(raw);
    if !all_digits(n) {
        let i = choose|i: int| 0 <= i < n.len() && !is_digit(n[i]);
        assert(!('0' <= n[i] && n[i] <= '9'));
    }
    if exists|i: int| 0 <= i < n.len() && !('0' <= #[trigger] n[i] && n[i] <= '9') {
        let i = choose|i: int| 0 <= i < n.len() && !('0' <= #[trigger] n[i] && n[i] <= '9');
        assert(!is_digit(n[i]));
    }
}

} // verus!
