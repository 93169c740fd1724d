//! The snippet of text shown around an anchor: a few lines before and after
//! the anchor's line, cut short once a byte budget is spent.
use vstd::prelude::*;

use crate::output::entity_output::{strip_cr, text_lines, lines_from};
use crate::tep_tag::char_vecs_view;
use crate::text::{char_width_of, chars_of, copy_range, string_of, utf8_len};

verus! {

pub const SNIPPET_LINES_BEFORE: usize = 3;

pub const SNIPPET_LINES_AFTER: usize = 6;

/// Bytes a line may take on average before the snippet is cut.
pub const MAX_BYTES_PER_LINE: usize = 512;

/// The byte budget of a snippet: the average line allowance over all its
/// lines.
pub const MAX_SNIPPET_BYTES: usize = 5120;

/// How many lines, from index `i` on, fit in the budget when `total` bytes
/// are already spent; each line costs its bytes and a line break.
pub open spec fn fit_count(ls: Seq<Seq<char>>, i: int, total: int) -> int
    decreases ls.len() - i,
{
    if i < 0 || i >= ls.len() {
        i
    } else {
        let t = total + utf8_len(ls[i]) + 1;
        if t > MAX_SNIPPET_BYTES {
            i
        } else {
            fit_count(ls, i + 1, t)
        }
    }
}

/// Lines joined by line breaks.
pub open spec fn join_lines(ls: Seq<Seq<char>>) -> Seq<char>
    decreases ls.len(),
{
    if ls.len() == 0 {
        seq![]
    } else if ls.len() == 1 {
        ls[0]
    } else {
        join_lines(ls.drop_last()) + seq!['\n'] + ls.last()
    }
}

/// The lines around line `line` (counted from 1): up to
/// `SNIPPET_LINES_BEFORE` before it and `SNIPPET_LINES_AFTER` after it.
pub open spec fn snippet_window(all: Seq<Seq<char>>, line: int) -> Seq<Seq<char>> {
    let first = if line >= 4 {
        line - 4
    } else {
        0
    };
    let last = if line + 6 <= all.len() {
        line + 6
    } else {
        all.len() as int
    };
    all.subrange(first, last)
}

/// The snippet of `text` around `line`: none without a line of at least 1,
/// beyond the text's last line, or when what fits the budget is empty.
pub open spec fn snippet_of(text: Seq<char>, line: Option<i64>) -> Option<Seq<char>> {
    match line {
        Some(l) => {
            let all = text_lines(text);
            if l < 1 || l > all.len() {
                None
            } else {
                let window = snippet_window(all, l as int);
                let s = join_lines(window.take(fit_count(window, 0, 0)));
                if s.len() == 0 {
                    None
                } else {
                    Some(s)
                }
            }
        },
        None => None,
    }
}

fn strip_cr_exec(s: &[char], a: usize, b: usize) -> (r: Vec<char>)
    requires
        a <= b <= s@.len(),
    ensures
        r@ == strip_cr(s@.subrange(a as int, b as int)),
{
    if b > a && s[b - 1] == '\r' {
        let r = copy_range(s, a, b - 1);
        proof {
            assert(s@.subrange(a as int, b as int).drop_last() =~= s@.subrange(a as int, b - 1));
        }
        r
    } else {
        copy_range(s, a, b)
    }
}

/// The lines of a text, as `str::lines` gives them.
pub fn split_lines(s: &[char]) -> (r: Vec<Vec<char>>)
    ensures
        char_vecs_view(r@) == text_lines(s@),
{
    let mut out: Vec<Vec<char>> = Vec::new();
    let mut start: usize = 0;
    let mut i: usize = 0;
    let n = s.len();
    proof {
        assert(char_vecs_view(out@) + lines_from(s@, 0, 0) =~= text_lines(s@));
    }
    while i < n
        invariant
            n == s@.len(),
            start <= i <= n,
            char_vecs_view(out@) + lines_from(s@, i as int, start as int) == text_lines(s@),
        decreases n - i,
    {
        if s[i] == '\n' {
            let line = strip_cr_exec(s, start, i);
            let ghost before = char_vecs_view(out@);
            out.push(line);
            proof {
                assert(char_vecs_view(out@) =~= before.push(line@));
                assert(before.push(line@) + lines_from(s@, i + 1, i + 1) =~= before + (seq![line@]
                    + lines_from(s@, i + 1, i + 1)));
            }
            start = i + 1;
        }
        i += 1;
    }
    if start < n {
        let line = copy_range(s, start, n);
        let ghost before = char_vecs_view(out@);
        out.push(line);
        proof {
            assert(char_vecs_view(out@) =~= before.push(line@));
            assert(before + seq![line@] =~= before.push(line@));
        }
    } else {
        proof {
            assert(char_vecs_view(out@) + Seq::<Seq<char>>::empty() =~= char_vecs_view(out@));
        }
    }
    out
}

/// The bytes of `cs`, or `cap` when there are more.
fn capped_utf8_len(cs: &Vec<char>, cap: usize) -> (r: usize)
    requires
        cap > 4,
    ensures
        r == if utf8_len(cs@) < cap {
            utf8_len(cs@)
        } else {
            cap as nat
        },
{
    let mut total: usize = 0;
    let mut i: usize = 0;
    while i < cs.len()
        invariant
            i <= cs@.len(),
            total == utf8_len(cs@.take(i as int)),
            total < cap,
        decreases cs.len() - i,
    {
        proof {
            crate::text::lemma_utf8_len_step(cs@, i as int);
        }
        let w = char_width_of(cs[i]);
        if w >= cap - total {
            proof {
                crate::text::lemma_utf8_len_prefix_ge(cs@, i + 1);
            }
            return cap;
        }
        total = total + w;
        i += 1;
    }
    proof {
        assert(cs@.take(cs@.len() as int) =~= cs@);
    }
    total
}

/// How many of the lines fit the budget.
fn fit_count_exec(ls: &Vec<Vec<char>>) -> (r: usize)
    ensures
        r as int == fit_count(char_vecs_view(ls@), 0, 0),
        r <= ls@.len(),
{
    let ghost v = char_vecs_view(ls@);
    let mut total: usize = 0;
    let mut i: usize = 0;
    while i < ls.len()
        invariant
            i <= ls@.len(),
            v == char_vecs_view(ls@),
            total <= MAX_SNIPPET_BYTES,
            fit_count(v, 0, 0) == fit_count(v, i as int, total as int),
        decreases ls.len() - i,
    {
        let w = capped_utf8_len(&ls[i], MAX_SNIPPET_BYTES + 1);
        if total + w + 1 > MAX_SNIPPET_BYTES {
            return i;
        }
        total = total + w + 1;
        i += 1;
    }
    i
}

fn join_lines_exec(ls: &Vec<Vec<char>>, k: usize) -> (r: Vec<char>)
    requires
        k <= ls@.len(),
    ensures
        r@ == join_lines(char_vecs_view(ls@).take(k as int)),
{
    let ghost v = char_vecs_view(ls@);
    let mut out: Vec<char> = Vec::new();
    let mut i: usize = 0;
    proof {
        assert(v.take(0) =~= Seq::<Seq<char>>::empty());
    }
    while i < k
        invariant
            i <= k <= ls@.len(),
            v == char_vecs_view(ls@),
            out@ == join_lines(v.take(i as int)),
        decreases k - i,
    {
        let ghost before = out@;
        if i > 0 {
            out.push('\n');
        }
        let line = &ls[i];
        let mut j: usize = 0;
        let ghost mid = out@;
        while j < line.len()
            invariant
                j <= line@.len(),
                out@ == mid + line@.take(j as int),
            decreases line.len() - j,
        {
            out.push(line[j]);
            proof {
                assert(line@.take(j + 1) =~= line@.take(j as int).push(line@[j as int]));
                assert(out@ =~= mid + line@.take(j + 1));
            }
            j += 1;
        }
        proof {
            assert(line@.take(line@.len() as int) =~= line@);
            assert(v.take(i + 1).drop_last() =~= v.take(i as int));
            assert(v.take(i + 1).last() == line@);
            if i == 0 {
                assert(mid =~= Seq::<char>::empty());
                assert(out@ =~= line@);
            } else {
                assert(mid =~= before + seq!['\n']);
            }
        }
        i += 1;
    }
    out
}

/// The snippet of `text` around the anchor line `line`.
pub fn snippet_from_text(text: &str, line: Option<i64>) -> (r: Option<String>)
    ensures
        match snippet_of(text@, line) {
            Some(s) => r matches Some(x) && x@ == s,
            None => r is None,
        },
{
    let l = match line {
        Some(l) => l,
        None => return None,
    };
    let s = chars_of(text);
    let all = split_lines(s.as_slice());
    let ghost av = char_vecs_view(all@);
    if l < 1 || l as i128 > all.len() as i128 {
        return None;
    }
    let lu = l as usize;
    let first: usize = if lu >= 4 { lu - 4 } else { 0 };
    let last: usize = if all.len() >= 6 && lu <= all.len() - 6 { lu + 6 } else { all.len() };
    let mut window: Vec<Vec<char>> = Vec::new();
    let mut i: usize = first;
    proof {
        assert(char_vecs_view(window@) =~= av.subrange(first as int, first as int));
    }
    while i < last
        invariant
            first <= i <= last <= all@.len(),
            av == char_vecs_view(all@),
            char_vecs_view(window@) == av.subrange(first as int, i as int),
        decreases last - i,
    {
        let ghost before = char_vecs_view(window@);
        let item = copy_range(all[i].as_slice(), 0, all[i].len());
        window.push(item);
        proof {
            assert(all@[i as int]@.subrange(0, all@[i as int]@.len() as int) =~= all@[i as int]@);
            assert(char_vecs_view(window@) =~= before.push(av[i as int]));
            assert(av.subrange(first as int, i + 1) =~= av.subrange(first as int, i as int).push(av[i as int]));
        }
        i += 1;
    }
    proof {
        assert(char_vecs_view(window@) =~= snippet_window(av, l as int));
    }
    let k = fit_count_exec(&window);
    let joined = join_lines_exec(&window, k);
    if joined.len() == 0 {
        return None;
    }
    Some(string_of(joined.as_slice()))
}

} // verus!
