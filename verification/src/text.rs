//! Character-level text utilities shared by the parser and formatter:
//! whitespace trimming, searching, ASCII case folding, and comparison
//! against attribute-name literals.

use vstd::prelude::*;
use vstd::string::*;

verus! {

/// The characters that `str::trim` removes: the Unicode `White_Space` set.
pub open spec fn ws(c: char) -> bool {
    ||| c == ' '
    ||| c == '\t'
    ||| c == '\n'
    ||| c == '\r'
    ||| c == '\u{000B}'
    ||| c == '\u{000C}'
    ||| c == '\u{0085}'
    ||| c == '\u{00A0}'
    ||| c == '\u{1680}'
    ||| ('\u{2000}' <= c && c <= '\u{200A}')
    ||| c == '\u{2028}'
    ||| c == '\u{2029}'
    ||| c == '\u{202F}'
    ||| c == '\u{205F}'
    ||| c == '\u{3000}'
}

pub fn is_ws(c: char) -> (b: bool)
    ensures
        b == ws(c),
{
    c == ' ' || c == '\t' || c == '\n' || c == '\r' || c == '\u{000B}' || c == '\u{000C}'
        || c == '\u{0085}' || c == '\u{00A0}' || c == '\u{1680}'
        || ('\u{2000}' <= c && c <= '\u{200A}') || c == '\u{2028}' || c == '\u{2029}'
        || c == '\u{202F}' || c == '\u{205F}' || c == '\u{3000}'
}

/// ASCII case folding of a single character, as `to_ascii_lowercase` does it.
pub open spec fn lower_char(c: char) -> char {
    if 'A' <= c && c <= 'Z' {
        ((c as int) + 32) as char
    } else {
        c
    }
}

/// A sequence with every character ASCII-folded to lower case.
pub open spec fn lower_seq(s: Seq<char>) -> Seq<char> {
    Seq::new(s.len(), |i: int| lower_char(s[i]))
}

pub open spec fn drop_leading(s: Seq<char>) -> Seq<char>
    decreases s.len(),
{
    if s.len() > 0 && ws(s[0]) {
        drop_leading(s.drop_first())
    } else {
        s
    }
}

pub open spec fn drop_trailing(s: Seq<char>) -> Seq<char>
    decreases s.len(),
{
    if s.len() > 0 && ws(s.last()) {
        drop_trailing(s.drop_last())
    } else {
        s
    }
}

/// What `str::trim` leaves: the sequence without leading and trailing whitespace.
pub open spec fn trimmed(s: Seq<char>) -> Seq<char> {
    drop_trailing(drop_leading(s))
}

pub proof fn lemma_drop_leading_skip(s: Seq<char>, i: int)
    requires
        0 <= i <= s.len(),
        forall|k: int| 0 <= k < i ==> ws(s[k]),
        i == s.len() || !ws(s[i]),
    ensures
        drop_leading(s) == s.skip(i),
    decreases i,
{
    if i == 0 {
        assert(s.skip(0) =~= s);
    } else {
        assert(ws(s[0]));
        lemma_drop_leading_skip(s.drop_first(), i - 1);
        assert(s.drop_first().skip(i - 1) =~= s.skip(i));
    }
}

pub proof fn lemma_drop_trailing_take(s: Seq<char>, j: int)
    requires
        0 <= j <= s.len(),
        forall|k: int| j <= k < s.len() ==> ws(s[k]),
        j == 0 || !ws(s[j - 1]),
    ensures
        drop_trailing(s) == s.take(j),
    decreases s.len() - j,
{
    if j == s.len() {
        assert(s.take(j) =~= s);
    } else {
        assert(ws(s.last()));
        lemma_drop_trailing_take(s.drop_last(), j);
        assert(s.drop_last().take(j) =~= s.take(j));
    }
}

/// The index of the first occurrence of `c` in `s`, if any.
pub open spec fn find_idx(s: Seq<char>, c: char) -> Option<int>
    decreases s.len(),
{
    if s.len() == 0 {
        None
    } else if s[0] == c {
        Some(0)
    } else {
        match find_idx(s.drop_first(), c) {
            Some(j) => Some(j + 1),
            None => None,
        }
    }
}

pub proof fn lemma_find_idx_some(s: Seq<char>, c: char, j: int)
    requires
        0 <= j < s.len(),
        s[j] == c,
        forall|k: int| 0 <= k < j ==> s[k] != c,
    ensures
        find_idx(s, c) == Some(j),
    decreases j,
{
    if j == 0 {
    } else {
        lemma_find_idx_some(s.drop_first(), c, j - 1);
    }
}

pub proof fn lemma_find_idx_none(s: Seq<char>, c: char)
    requires
        forall|k: int| 0 <= k < s.len() ==> s[k] != c,
    ensures
        find_idx(s, c) == None::<int>,
    decreases s.len(),
{
    if s.len() > 0 {
        lemma_find_idx_none(s.drop_first(), c);
    }
}

/// First-occurrence properties of `find_idx`, for use when unfolding specs.
pub proof fn lemma_find_idx_props(s: Seq<char>, c: char)
    ensures
        match find_idx(s, c) {
            Some(j) => 0 <= j < s.len() && s[j] == c && forall|k: int| 0 <= k < j ==> s[k] != c,
            None => forall|k: int| 0 <= k < s.len() ==> s[k] != c,
        },
    decreases s.len(),
{
    if s.len() > 0 && s[0] != c {
        let t = s.drop_first();
        lemma_find_idx_props(t, c);
        match find_idx(t, c) {
            Some(j) => {
                assert forall|k: int| 0 <= k < j + 1 implies s[k] != c by {
                    if k > 0 {
                        assert(s[k] == t[k - 1]);
                    }
                }
            },
            None => {
                assert forall|k: int| 0 <= k < s.len() implies s[k] != c by {
                    if k > 0 {
                        assert(s[k] == t[k - 1]);
                    }
                }
            },
        }
    }
}

/// Trims a string slice, as `str::trim` does.
pub fn trim_str<'a>(s: &'a str) -> (r: &'a str)
    ensures
        r@ == trimmed(s@),
{
    let n = s.unicode_len();
    let mut lo: usize = 0;
    let mut stop = false;
    while !stop
        invariant
            lo <= n,
            n == s@.len(),
            forall|k: int| 0 <= k < lo ==> ws(s@[k]),
            stop ==> (lo == n || !ws(s@[lo as int])),
        decreases n - lo + (if stop { 0int } else { 1int }),
    {
        if lo < n {
            let c = s.get_char(lo);
            if is_ws(c) {
                lo = lo + 1;
            } else {
                stop = true;
            }
        } else {
            stop = true;
        }
    }
    let mut hi: usize = n;
    let mut stop2 = false;
    while !stop2
        invariant
            lo <= hi <= n,
            n == s@.len(),
            forall|k: int| hi <= k < n ==> ws(s@[k]),
            stop2 ==> (hi == lo || !ws(s@[hi - 1])),
            forall|k: int| 0 <= k < lo ==> ws(s@[k]),
            lo == n || !ws(s@[lo as int]),
        decreases hi + (if stop2 { 0int } else { 1int }),
    {
        if hi > lo {
            let c = s.get_char(hi - 1);
            if is_ws(c) {
                hi = hi - 1;
            } else {
                stop2 = true;
            }
        } else {
            stop2 = true;
        }
    }
    let r = s.substring_char(lo, hi);
    proof {
        lemma_drop_leading_skip(s@, lo as int);
        let u = s@.skip(lo as int);
        lemma_drop_trailing_take(u, hi - lo);
        assert(u.take(hi - lo) =~= s@.subrange(lo as int, hi as int));
        assert(r@ == trimmed(s@));
    }
    r
}

/// Finds the first occurrence of `c` in `s` at or after `from`.
pub fn find_from(s: &str, from: usize, c: char) -> (r: Option<usize>)
    requires
        from <= s@.len(),
    ensures
        match r {
            Some(j) => from <= j < s@.len() && s@[j as int] == c && forall|k: int|
                from <= k < j ==> s@[k] != c,
            None => forall|k: int| from <= k < s@.len() ==> s@[k] != c,
        },
{
    let n = s.unicode_len();
    let mut i: usize = from;
    while i < n
        invariant
            from <= i <= n,
            n == s@.len(),
            forall|k: int| from <= k < i ==> s@[k] != c,
        decreases n - i,
    {
        if s.get_char(i) == c {
            return Some(i);
        }
        i = i + 1;
    }
    None
}

/// Exec counterpart of `lower_char` for one character.
pub fn to_lower(c: char) -> (r: char)
    ensures
        r == lower_char(c),
{
    match c {
        'A' => 'a',
        'B' => 'b',
        'C' => 'c',
        'D' => 'd',
        'E' => 'e',
        'F' => 'f',
        'G' => 'g',
        'H' => 'h',
        'I' => 'i',
        'J' => 'j',
        'K' => 'k',
        'L' => 'l',
        'M' => 'm',
        'N' => 'n',
        'O' => 'o',
        'P' => 'p',
        'Q' => 'q',
        'R' => 'r',
        'S' => 's',
        'T' => 't',
        'U' => 'u',
        'V' => 'v',
        'W' => 'w',
        'X' => 'x',
        'Y' => 'y',
        'Z' => 'z',
        _ => c,
    }
}

/// The lower-case letter for an upper-case ASCII letter, as a one-character
/// string slice.
fn lower_letter(c: char) -> (r: &'static str)
    requires
        'A' <= c && c <= 'Z',
    ensures
        r@ == seq![lower_char(c)],
{
    match c {
        'A' => { proof { reveal_strlit("a"); } "a" },
        'B' => { proof { reveal_strlit("b"); } "b" },
        'C' => { proof { reveal_strlit("c"); } "c" },
        'D' => { proof { reveal_strlit("d"); } "d" },
        'E' => { proof { reveal_strlit("e"); } "e" },
        'F' => { proof { reveal_strlit("f"); } "f" },
        'G' => { proof { reveal_strlit("g"); } "g" },
        'H' => { proof { reveal_strlit("h"); } "h" },
        'I' => { proof { reveal_strlit("i"); } "i" },
        'J' => { proof { reveal_strlit("j"); } "j" },
        'K' => { proof { reveal_strlit("k"); } "k" },
        'L' => { proof { reveal_strlit("l"); } "l" },
        'M' => { proof { reveal_strlit("m"); } "m" },
        'N' => { proof { reveal_strlit("n"); } "n" },
        'O' => { proof { reveal_strlit("o"); } "o" },
        'P' => { proof { reveal_strlit("p"); } "p" },
        'Q' => { proof { reveal_strlit("q"); } "q" },
        'R' => { proof { reveal_strlit("r"); } "r" },
        'S' => { proof { reveal_strlit("s"); } "s" },
        'T' => { proof { reveal_strlit("t"); } "t" },
        'U' => { proof { reveal_strlit("u"); } "u" },
        'V' => { proof { reveal_strlit("v"); } "v" },
        'W' => { proof { reveal_strlit("w"); } "w" },
        'X' => { proof { reveal_strlit("x"); } "x" },
        'Y' => { proof { reveal_strlit("y"); } "y" },
        _ => { proof { reveal_strlit("z"); } "z" },
    }
}

/// Builds the ASCII-lower-cased copy of a string, as
/// `str::to_ascii_lowercase` does.
pub fn lower_string(s: &str) -> (r: String)
    ensures
        r@ == lower_seq(s@),
{
    let n = s.unicode_len();
    let mut r = String::new();
    proof {
        assert(r@ =~= lower_seq(s@).take(0));
    }
    let mut i: usize = 0;
    while i < n
        invariant
            i <= n,
            n == s@.len(),
            r@ == lower_seq(s@).take(i as int),
        decreases n - i,
    {
        let c = s.get_char(i);
        if 'A' <= c && c <= 'Z' {
            r.append(lower_letter(c));
        } else {
            let piece = s.substring_char(i, i + 1);
            proof {
                assert(piece@ =~= seq![s@[i as int]]);
            }
            r.append(piece);
        }
        proof {
            assert(r@ =~= lower_seq(s@).take(i + 1));
        }
        i = i + 1;
    }
    proof {
        assert(lower_seq(s@).take(n as int) =~= lower_seq(s@));
    }
    r
}

/// Tests whether `k`, ASCII-folded to lower case, equals `lit`.
pub fn eq_fold(k: &str, lit: &str) -> (b: bool)
    ensures
        b == (lower_seq(k@) == lit@),
{
    let nk = k.unicode_len();
    let nl = lit.unicode_len();
    if nk != nl {
        proof {
            assert(lower_seq(k@).len() != lit@.len());
        }
        return false;
    }
    let mut i: usize = 0;
    while i < nk
        invariant
            0 <= i <= nk,
            nk == k@.len(),
            nk == lit@.len(),
            forall|j: int| 0 <= j < i ==> lower_seq(k@)[j] == lit@[j],
        decreases nk - i,
    {
        let a = to_lower(k.get_char(i));
        let b = lit.get_char(i);
        if a != b {
            proof {
                assert(lower_seq(k@)[i as int] != lit@[i as int]);
            }
            return false;
        }
        i = i + 1;
    }
    proof {
        assert(lower_seq(k@) =~= lit@);
    }
    true
}

} // verus!
