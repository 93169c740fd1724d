//! ANSI colors for terminal output.
use vstd::prelude::*;
use vstd::string::StringExecFns;

verus! {

pub const ANSI_RESET: &'static str = "\x1b[0m";

pub const ANSI_CYAN: &'static str = "\x1b[36m";

pub const ANSI_GREEN: &'static str = "\x1b[32m";

pub const ANSI_YELLOW: &'static str = "\x1b[33m";

pub const ANSI_MAGENTA: &'static str = "\x1b[35m";

/// `text` between a color and the reset sequence.
pub open spec fn painted(color: Seq<char>, text: Seq<char>) -> Seq<char> {
    color + text + ANSI_RESET@
}

pub fn paint(color: &str, text: &str) -> (r: String)
    ensures
        r@ == painted(color@, text@),
{
    let mut r = String::from_str(color);
    r.append(text);
    r.append(ANSI_RESET);
    r
}

/// Whether `s[i..]` starts an ANSI color sequence `ESC [ digits/; m`, and
/// where it ends.
pub open spec fn ansi_seq_end(s: Seq<char>, i: int) -> Option<int> {
    if 0 <= i && i + 1 < s.len() && s[i] == '\x1b' && s[i + 1] == '[' {
        ansi_params_end(s, i + 2)
    } else {
        None
    }
}

pub open spec fn ansi_params_end(s: Seq<char>, j: int) -> Option<int>
    decreases s.len() - j,
{
    if j < 0 || j >= s.len() {
        None
    } else if s[j] == 'm' {
        Some(j + 1)
    } else if ('0' <= s[j] && s[j] <= '9') || s[j] == ';' {
        ansi_params_end(s, j + 1)
    } else {
        None
    }
}

/// The text without its ANSI color sequences, from index `i` on.
pub open spec fn strip_ansi_from(s: Seq<char>, i: int) -> Seq<char>
    decreases s.len() - i,
{
    if i < 0 || i >= s.len() {
        seq![]
    } else {
        match ansi_seq_end(s, i) {
            Some(e) => if i < e <= s.len() {
                strip_ansi_from(s, e)
            } else {
                seq![s[i]] + strip_ansi_from(s, i + 1)
            },
            None => seq![s[i]] + strip_ansi_from(s, i + 1),
        }
    }
}

fn ansi_end_exec(s: &[char], i: usize) -> (r: Option<usize>)
    ensures
        match ansi_seq_end(s@, i as int) {
            Some(e) => r == Some(e as usize) && i + 2 < e <= s@.len(),
            None => r is None,
        },
{
    if !(i < s.len() && s.len() - i > 1 && s[i] == '\x1b' && s[i + 1] == '[') {
        return None;
    }
    let mut j: usize = i + 2;
    proof {
        lemma_ansi_params_end_after(s@, j as int);
    }
    while j < s.len() && (('0' <= s[j] && s[j] <= '9') || s[j] == ';')
        invariant
            i + 2 <= j <= s@.len(),
            ansi_params_end(s@, j as int) == ansi_params_end(s@, (i + 2) as int),
            ansi_params_end(s@, (i + 2) as int) matches Some(e) ==> j < e,
        decreases s.len() - j,
    {
        proof {
            lemma_ansi_params_end_after(s@, (j + 1) as int);
        }
        j += 1;
    }
    proof {
        lemma_ansi_params_end_after(s@, j as int);
    }
    if j < s.len() && s[j] == 'm' {
        Some(j + 1)
    } else {
        None
    }
}

proof fn lemma_ansi_params_end_after(s: Seq<char>, j: int)
    requires
        0 <= j,
    ensures
        ansi_params_end(s, j) matches Some(e) ==> j < e <= s.len(),
    decreases s.len() - j,
{
    if j < s.len() && s[j] != 'm' && (('0' <= s[j] && s[j] <= '9') || s[j] == ';') {
        lemma_ansi_params_end_after(s, j + 1);
    }
}

/// Removes the ANSI color sequences of a rendered text, for output that is
/// not going to a terminal.
pub fn strip_ansi(text: &str) -> (r: String)
    ensures
        r@ == strip_ansi_from(text@, 0),
{
    let s = crate::text::chars_of(text);
    let mut out: Vec<char> = Vec::new();
    let mut i: usize = 0;
    proof {
        assert(out@ + strip_ansi_from(s@, 0) =~= strip_ansi_from(s@, 0));
    }
    while i < s.len()
        invariant
            i <= s@.len(),
            out@ + strip_ansi_from(s@, i as int) == strip_ansi_from(s@, 0),
        decreases s.len() - i,
    {
        let ghost before = out@;
        match ansi_end_exec(&s, i) {
            Some(e) => {
                i = e;
            },
            None => {
                out.push(s[i]);
                proof {
                    assert(before + (seq![s@[i as int]] + strip_ansi_from(s@, i + 1)) =~= out@
                        + strip_ansi_from(s@, i + 1));
                }
                i += 1;
            },
        }
    }
    proof {
        assert(out@ + Seq::<char>::empty() =~= out@);
    }
    crate::text::string_of(&out)
}

/// A color sequence `ESC [ digits m`.
pub open spec fn is_color(c: Seq<char>) -> bool {
    &&& c.len() >= 3
    &&& c[0] == '\x1b'
    &&& c[1] == '['
    &&& c[c.len() - 1] == 'm'
    &&& forall|i: int| 2 <= i < c.len() - 1 ==> '0' <= #[trigger] c[i] && c[i] <= '9'
}

proof fn lemma_color_end(s: Seq<char>, i: int, c: Seq<char>)
    requires
        0 <= i,
        is_color(c),
        i + c.len() <= s.len(),
        s.subrange(i, i + c.len()) == c,
    ensures
        ansi_seq_end(s, i) == Some(i + c.len()),
{
    assert(s[i] == c[0]);
    assert(s[i + 1] == c[1]);
    lemma_params_end(s, i + 2, i + c.len() - 1, i, c);
}

proof fn lemma_params_end(s: Seq<char>, j: int, last: int, i: int, c: Seq<char>)
    requires
        is_color(c),
        0 <= i,
        i + 2 <= j <= last,
        last == i + c.len() - 1,
        i + c.len() <= s.len(),
        s.subrange(i, i + c.len()) == c,
    ensures
        ansi_params_end(s, j) == Some(last + 1),
    decreases last - j,
{
    assert(s[j] == c[j - i]);
    if j < last {
        lemma_params_end(s, j + 1, last, i, c);
    }
}

proof fn lemma_strip_plain(s: Seq<char>, i: int, j: int)
    requires
        0 <= i <= j <= s.len(),
        forall|k: int| i <= k < j ==> s[k] != '\x1b',
    ensures
        strip_ansi_from(s, i) == s.subrange(i, j) + strip_ansi_from(s, j),
    decreases j - i,
{
    if i < j {
        lemma_strip_plain(s, i + 1, j);
        assert(s.subrange(i, j) =~= seq![s[i]] + s.subrange(i + 1, j));
    } else {
        assert(s.subrange(i, j) =~= Seq::<char>::empty());
    }
}

/// Stripping the color sequences of a painted text gives the text back,
/// for any color `ESC [ digits m` and a text without escape characters.
pub proof fn lemma_strip_undoes_paint(color: Seq<char>, text: Seq<char>)
    requires
        is_color(color),
        forall|k: int| 0 <= k < text.len() ==> text[k] != '\x1b',
    ensures
        strip_ansi_from(painted(color, text), 0) == text,
{
    reveal_strlit("\x1b[0m");
    let s = painted(color, text);
    let reset = ANSI_RESET@;
    assert(reset.len() == 4);
    assert(is_color(reset));
    let a = color.len() as int;
    let b = a + text.len();
    assert(s.subrange(0, a) =~= color);
    lemma_color_end(s, 0, color);
    assert forall|k: int| a <= k < b implies s[k] != '\x1b' by {
        assert(s[k] == text[k - a]);
    }
    lemma_strip_plain(s, a, b);
    assert(s.subrange(b, b + 4) =~= reset);
    lemma_color_end(s, b, reset);
    assert(strip_ansi_from(s, b + 4) =~= Seq::<char>::empty());
    assert(s.subrange(a, b) =~= text);
}

/// The colors used here are color sequences.
pub proof fn lemma_styles_are_colors()
    ensures
        is_color(ANSI_CYAN@),
        is_color(ANSI_GREEN@),
        is_color(ANSI_YELLOW@),
        is_color(ANSI_MAGENTA@),
        is_color(ANSI_RESET@),
{
    reveal_strlit("\x1b[36m");
    reveal_strlit("\x1b[32m");
    reveal_strlit("\x1b[33m");
    reveal_strlit("\x1b[35m");
    reveal_strlit("\x1b[0m");
}

} // verus!
