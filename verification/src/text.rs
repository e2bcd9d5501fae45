//! Text primitives over `char` sequences: whitespace, prefixes, trimming,
//! splitting a command line, decimal numerals and path joining.

use vstd::prelude::*;

verus! {

/// Whether `c` has the Unicode `White_Space` property, the set of characters
/// that `char::is_whitespace` accepts.
pub open spec fn is_ws(c: char) -> bool {
    ||| ('\u{9}' <= c && c <= '\u{d}')
    ||| c == ' '
    ||| c == '\u{85}'
    ||| c == '\u{a0}'
    ||| c == '\u{1680}'
    ||| ('\u{2000}' <= c && c <= '\u{200a}')
    ||| c == '\u{2028}'
    ||| c == '\u{2029}'
    ||| c == '\u{202f}'
    ||| c == '\u{205f}'
    ||| c == '\u{3000}'
}

/// Executable whitespace test.
pub fn is_whitespace(c: char) -> (r: bool)
    ensures
        r == is_ws(c),
{
    ('\u{9}' <= c && c <= '\u{d}') || c == ' ' || c == '\u{85}' || c == '\u{a0}' || c
        == '\u{1680}' || ('\u{2000}' <= c && c <= '\u{200a}') || c == '\u{2028}' || c
        == '\u{2029}' || c == '\u{202f}' || c == '\u{205f}' || c == '\u{3000}'
}

/// `p` is a prefix of `s`.
pub open spec fn has_prefix(s: Seq<char>, p: Seq<char>) -> bool {
    p.len() <= s.len() && s.subrange(0, p.len() as int) == p
}

/// The characters of `s`, one by one.
pub fn chars_of(s: &str) -> (v: Vec<char>)
    ensures
        v@ == s@,
{
    let n = s.unicode_len();
    let mut v: Vec<char> = Vec::new();
    let mut i: usize = 0;
    while i < n
        invariant
            n == s@.len(),
            i <= n,
            v@ == s@.subrange(0, i as int),
        decreases n - i,
    {
        v.push(s.get_char(i));
        i = i + 1;
    }
    v
}

/// Whether `s` begins with `prefix`, as `str::starts_with` decides it.
pub fn starts_with(s: &str, prefix: &str) -> (r: bool)
    ensures
        r == has_prefix(s@, prefix@),
{
    let sv = chars_of(s);
    let pv = chars_of(prefix);
    if pv.len() > sv.len() {
        return false;
    }
    let mut i: usize = 0;
    while i < pv.len()
        invariant
            sv@ == s@,
            pv@ == prefix@,
            pv.len() <= sv.len(),
            i <= pv.len(),
            forall|j: int| 0 <= j < i ==> sv@[j] == pv@[j],
        decreases pv.len() - i,
    {
        if sv[i] != pv[i] {
            assert(s@.subrange(0, prefix@.len() as int)[i as int] != prefix@[i as int]);
            return false;
        }
        i = i + 1;
    }
    assert(s@.subrange(0, prefix@.len() as int) =~= prefix@);
    true
}

/// Whether the two strings hold the same characters.
pub fn str_equal(a: &str, b: &str) -> (r: bool)
    ensures
        r == (a@ == b@),
{
    let av = chars_of(a);
    let bv = chars_of(b);
    if av.len() != bv.len() {
        return false;
    }
    let mut i: usize = 0;
    while i < av.len()
        invariant
            av@ == a@,
            bv@ == b@,
            av.len() == bv.len(),
            i <= av.len(),
            forall|j: int| 0 <= j < i ==> av@[j] == bv@[j],
        decreases av.len() - i,
    {
        if av[i] != bv[i] {
            return false;
        }
        i = i + 1;
    }
    assert(a@ =~= b@);
    true
}


// ---------------------------------------------------------------------------
// Trimming
// ---------------------------------------------------------------------------

/// The first index at or after `i` that does not hold whitespace (or the end).
pub open spec fn skip_ws(s: Seq<char>, i: int) -> int
    decreases s.len() - i,
{
    if 0 <= i < s.len() && is_ws(s[i]) {
        skip_ws(s, i + 1)
    } else {
        i
    }
}

/// The end of `s.subrange(0, j)` once its trailing whitespace is cut off.
pub open spec fn cut_trailing_ws(s: Seq<char>, j: int) -> int
    decreases j,
{
    if 0 < j <= s.len() && is_ws(s[j - 1]) {
        cut_trailing_ws(s, j - 1)
    } else {
        j
    }
}

/// `s` without its leading and trailing whitespace, as `str::trim` gives it.
pub open spec fn trimmed(s: Seq<char>) -> Seq<char> {
    let a = skip_ws(s, 0);
    if a >= s.len() {
        Seq::empty()
    } else {
        s.subrange(a, cut_trailing_ws(s, s.len() as int))
    }
}

pub proof fn lemma_skip_ws_bounds(s: Seq<char>, i: int)
    requires
        0 <= i <= s.len(),
    ensures
        i <= skip_ws(s, i) <= s.len(),
        skip_ws(s, i) < s.len() ==> !is_ws(s[skip_ws(s, i)]),
        forall|k: int| i <= k < skip_ws(s, i) ==> is_ws(#[trigger] s[k]),
    decreases s.len() - i,
{
    if i < s.len() && is_ws(s[i]) {
        lemma_skip_ws_bounds(s, i + 1);
    }
}

pub proof fn lemma_cut_trailing_bounds(s: Seq<char>, j: int, a: int)
    requires
        0 <= a < j <= s.len(),
        !is_ws(s[a]),
    ensures
        a < cut_trailing_ws(s, j) <= j,
        !is_ws(s[cut_trailing_ws(s, j) - 1]),
        forall|k: int| cut_trailing_ws(s, j) <= k < j ==> is_ws(#[trigger] s[k]),
    decreases j,
{
    if is_ws(s[j - 1]) {
        lemma_cut_trailing_bounds(s, j - 1, a);
    }
}

/// What trimming keeps: `s` is the trimmed text with whitespace before and
/// after it, and the trimmed text neither begins nor ends with whitespace.
pub proof fn lemma_trimmed_shape(s: Seq<char>)
    ensures
        exists|a: int, b: int|
            #![trigger s.subrange(a, b)]
            0 <= a <= b <= s.len() && trimmed(s) == s.subrange(a, b) && (forall|k: int|
                0 <= k < a ==> is_ws(#[trigger] s[k])) && (forall|k: int|
                b <= k < s.len() ==> is_ws(#[trigger] s[k])),
        trimmed(s).len() > 0 ==> !is_ws(trimmed(s)[0]) && !is_ws(trimmed(s).last()),
{
    lemma_skip_ws_bounds(s, 0);
    let a = skip_ws(s, 0);
    if a >= s.len() {
        assert(trimmed(s) == s.subrange(0, 0));
        assert(forall|k: int| 0 <= k < s.len() ==> is_ws(#[trigger] s[k]));
    } else {
        lemma_cut_trailing_bounds(s, s.len() as int, a);
        let b = cut_trailing_ws(s, s.len() as int);
        assert(trimmed(s) == s.subrange(a, b));
    }
}

/// `s` with leading and trailing whitespace removed (`str::trim`).
pub fn trim(s: &str) -> (r: String)
    ensures
        r@ == trimmed(s@),
{
    let v = chars_of(s);
    let n = v.len();
    let mut a: usize = 0;
    while a < n && is_whitespace(v[a])
        invariant
            v@ == s@,
            n == s@.len(),
            a <= n,
            skip_ws(s@, 0) == skip_ws(s@, a as int),
        decreases n - a,
    {
        a = a + 1;
    }
    if a >= n {
        return String::new();
    }
    let mut b: usize = n;
    proof {
        lemma_skip_ws_bounds(s@, 0);
    }
    while b > a && is_whitespace(v[b - 1])
        invariant
            v@ == s@,
            n == s@.len(),
            a < n,
            a == skip_ws(s@, 0),
            !is_ws(s@[a as int]),
            a < b <= n,
            cut_trailing_ws(s@, n as int) == cut_trailing_ws(s@, b as int),
        decreases b,
    {
        b = b - 1;
    }
    s.substring_char(a, b).to_owned()
}

// ---------------------------------------------------------------------------
// Splitting a command line into pipeline stages
// ---------------------------------------------------------------------------

/// The pipeline separator, a `|` between two spaces, starts at index `i`.
pub open spec fn pipe_at(s: Seq<char>, i: int) -> bool {
    0 <= i && i + 3 <= s.len() && s[i] == ' ' && s[i + 1] == '|' && s[i + 2] == ' '
}

/// The pieces of `s.subrange(start, s.len())` when it is cut at each leftmost
/// separator, scanning for the next separator from `i`.
pub open spec fn split_pipes_from(s: Seq<char>, start: int, i: int) -> Seq<Seq<char>>
    decreases s.len() - i,
{
    if i + 3 > s.len() || i < start || start < 0 {
        seq![s.subrange(start, s.len() as int)]
    } else if pipe_at(s, i) {
        seq![s.subrange(start, i)] + split_pipes_from(s, i + 3, i + 3)
    } else {
        split_pipes_from(s, start, i + 1)
    }
}

/// The pieces of `s` between the occurrences of the separator `" | "`, taken
/// from left to right without overlap, as `str::split(" | ")` yields them.
pub open spec fn split_pipes_spec(s: Seq<char>) -> Seq<Seq<char>> {
    split_pipes_from(s, 0, 0)
}

/// Splits a command line into pipeline stages at each `" | "`.
pub fn split_pipes(s: &str) -> (r: Vec<String>)
    ensures
        r.deep_view() == split_pipes_spec(s@),
{
    let v = chars_of(s);
    let n = v.len();
    let mut out: Vec<String> = Vec::new();
    let mut start: usize = 0;
    let mut i: usize = 0;
    while n - i >= 3
        invariant
            v@ == s@,
            n == s@.len(),
            start <= i <= n,
            out.deep_view() + split_pipes_from(s@, start as int, i as int) == split_pipes_spec(
                s@,
            ),
        decreases n - i,
    {
        assert(i + 3 <= n);
        if v[i] == ' ' && v[i + 1] == '|' && v[i + 2] == ' ' {
            let piece = s.substring_char(start, i).to_owned();
            let ghost before = out.deep_view();
            out.push(piece);
            proof {
                assert(out.deep_view() =~= before + seq![s@.subrange(start as int, i as int)]);
                assert(split_pipes_from(s@, start as int, i as int) == seq![
                    s@.subrange(start as int, i as int),
                ] + split_pipes_from(s@, i + 3, i + 3));
            }
            i = i + 3;
            start = i;
        } else {
            i = i + 1;
        }
    }
    let piece = s.substring_char(start, n).to_owned();
    let ghost before = out.deep_view();
    out.push(piece);
    proof {
        assert(out.deep_view() =~= before + seq![s@.subrange(start as int, n as int)]);
    }
    out
}


/// The separator `" | "` occurs nowhere in `piece`.
pub open spec fn free_of_pipes(piece: Seq<char>) -> bool {
    forall|j: int| !pipe_at(piece, j)
}

/// The separator `" | "`.
pub open spec fn pipe_sep() -> Seq<char> {
    seq![' ', '|', ' ']
}

/// The pieces `ps` joined with the separator between each two.
pub open spec fn join_pipes(ps: Seq<Seq<char>>) -> Seq<char>
    decreases ps.len(),
{
    if ps.len() == 0 {
        Seq::empty()
    } else if ps.len() == 1 {
        ps[0]
    } else {
        ps[0] + pipe_sep() + join_pipes(ps.drop_first())
    }
}

proof fn lemma_split_pipes_from(s: Seq<char>, start: int, i: int)
    requires
        0 <= start <= i <= s.len(),
        forall|j: int| start <= j < i ==> !pipe_at(s, j),
    ensures
        split_pipes_from(s, start, i).len() >= 1,
        join_pipes(split_pipes_from(s, start, i)) == s.subrange(start, s.len() as int),
        forall|k: int|
            0 <= k < split_pipes_from(s, start, i).len() ==> free_of_pipes(
                #[trigger] split_pipes_from(s, start, i)[k],
            ),
    decreases s.len() - i,
{
    let ps = split_pipes_from(s, start, i);
    if i + 3 > s.len() {
        let piece = s.subrange(start, s.len() as int);
        assert forall|k: int| 0 <= k < ps.len() implies free_of_pipes(#[trigger] ps[k]) by {
            assert(ps[k] == piece);
            assert forall|j: int| !pipe_at(piece, j) by {
                if pipe_at(piece, j) {
                    assert(piece[j] == s[start + j]);
                    assert(piece[j + 1] == s[start + j + 1]);
                    assert(piece[j + 2] == s[start + j + 2]);
                    assert(pipe_at(s, start + j));
                }
            }
        }
    } else if pipe_at(s, i) {
        lemma_split_pipes_from(s, i + 3, i + 3);
        let rest = split_pipes_from(s, i + 3, i + 3);
        let piece = s.subrange(start, i);
        assert(ps == seq![piece] + rest);
        assert(ps.drop_first() =~= rest);
        assert(join_pipes(ps) == piece + pipe_sep() + join_pipes(rest));
        assert(piece + pipe_sep() + s.subrange(i + 3, s.len() as int) =~= s.subrange(
            start,
            s.len() as int,
        ));
        assert forall|k: int| 0 <= k < ps.len() implies free_of_pipes(#[trigger] ps[k]) by {
            if k == 0 {
                assert forall|j: int| !pipe_at(piece, j) by {
                    if pipe_at(piece, j) {
                        assert(piece[j] == s[start + j]);
                        assert(piece[j + 1] == s[start + j + 1]);
                        assert(piece[j + 2] == s[start + j + 2]);
                        assert(pipe_at(s, start + j));
                    }
                }
            } else {
                assert(ps[k] == rest[k - 1]);
            }
        }
    } else {
        lemma_split_pipes_from(s, start, i + 1);
    }
}

/// Splitting at `" | "` loses nothing and cuts at every separator: joining
/// the pieces with `" | "` gives back the line, there is at least one piece,
/// and no piece holds the separator.
pub proof fn lemma_split_pipes_join(s: Seq<char>)
    ensures
        split_pipes_spec(s).len() >= 1,
        join_pipes(split_pipes_spec(s)) == s,
        forall|k: int|
            0 <= k < split_pipes_spec(s).len() ==> free_of_pipes(#[trigger] split_pipes_spec(s)[k]),
{
    lemma_split_pipes_from(s, 0, 0);
    assert(s.subrange(0, s.len() as int) =~= s);
}

// ---------------------------------------------------------------------------
// Splitting a stage into words
// ---------------------------------------------------------------------------

/// The first index at or after `j` that holds whitespace (or the end).
pub open spec fn word_end(s: Seq<char>, j: int) -> int
    decreases s.len() - j,
{
    if 0 <= j < s.len() && !is_ws(s[j]) {
        word_end(s, j + 1)
    } else {
        j
    }
}

pub proof fn lemma_word_end_bounds(s: Seq<char>, j: int)
    requires
        0 <= j <= s.len(),
    ensures
        j <= word_end(s, j) <= s.len(),
        word_end(s, j) < s.len() ==> is_ws(s[word_end(s, j)]),
        forall|k: int| j <= k < word_end(s, j) ==> !is_ws(#[trigger] s[k]),
    decreases s.len() - j,
{
    if j < s.len() && !is_ws(s[j]) {
        lemma_word_end_bounds(s, j + 1);
    }
}

/// The maximal runs of non-whitespace characters of `s.subrange(i, s.len())`,
/// in order.
pub open spec fn words_from(s: Seq<char>, i: int) -> Seq<Seq<char>>
    decreases s.len() - i,
{
    if i < 0 || i > s.len() {
        Seq::empty()
    } else {
        let a = skip_ws(s, i);
        if a >= s.len() {
            Seq::empty()
        } else {
            let b = word_end(s, a);
            proof {
                lemma_skip_ws_bounds(s, i);
                lemma_word_end_bounds(s, a);
                assert(b > a) by {
                    assert(!is_ws(s[a]));
                }
            }
            seq![s.subrange(a, b)] + words_from(s, b)
        }
    }
}

/// The words of `s`: its maximal runs of non-whitespace characters, as
/// `str::split_whitespace` yields them.
pub open spec fn words(s: Seq<char>) -> Seq<Seq<char>> {
    words_from(s, 0)
}

/// Every word is non-empty and holds no whitespace.
pub proof fn lemma_words_shape(s: Seq<char>, i: int)
    requires
        0 <= i <= s.len(),
    ensures
        forall|k: int|
            0 <= k < words_from(s, i).len() ==> (#[trigger] words_from(s, i)[k]).len() > 0
                && forall|c: int|
                0 <= c < words_from(s, i)[k].len() ==> !is_ws(words_from(s, i)[k][c]),
    decreases s.len() - i,
{
    lemma_skip_ws_bounds(s, i);
    let a = skip_ws(s, i);
    if a < s.len() {
        lemma_word_end_bounds(s, a);
        let b = word_end(s, a);
        lemma_words_shape(s, b);
        let w = s.subrange(a, b);
        assert(words_from(s, i) == seq![w] + words_from(s, b));
        assert forall|k: int| 0 <= k < words_from(s, i).len() implies (#[trigger] words_from(
            s,
            i,
        )[k]).len() > 0 && forall|c: int|
            0 <= c < words_from(s, i)[k].len() ==> !is_ws(words_from(s, i)[k][c]) by {
            if k == 0 {
                assert(words_from(s, i)[k] == w);
                assert forall|c: int| 0 <= c < w.len() implies !is_ws(w[c]) by {
                    assert(w[c] == s[a + c]);
                }
            } else {
                assert(words_from(s, i)[k] == words_from(s, b)[k - 1]);
            }
        }
    }
}

/// Splits `s` into its words (`str::split_whitespace`).
pub fn split_words(s: &str) -> (r: Vec<String>)
    ensures
        r.deep_view() == words(s@),
{
    let v = chars_of(s);
    let n = v.len();
    let mut out: Vec<String> = Vec::new();
    let mut i: usize = 0;
    loop
        invariant
            v@ == s@,
            n == s@.len(),
            i <= n,
            out.deep_view() + words_from(s@, i as int) == words(s@),
        ensures
            out.deep_view() == words(s@),
        decreases n - i,
    {
        let mut a: usize = i;
        while a < n && is_whitespace(v[a])
            invariant
                v@ == s@,
                n == s@.len(),
                i <= a <= n,
                skip_ws(s@, i as int) == skip_ws(s@, a as int),
            decreases n - a,
        {
            a = a + 1;
        }
        if a >= n {
            assert(words_from(s@, i as int) == Seq::<Seq<char>>::empty());
            assert(out.deep_view() + Seq::<Seq<char>>::empty() =~= out.deep_view());
            return out;
        }
        let mut b: usize = a;
        while b < n && !is_whitespace(v[b])
            invariant
                v@ == s@,
                n == s@.len(),
                a <= b <= n,
                word_end(s@, a as int) == word_end(s@, b as int),
            decreases n - b,
        {
            b = b + 1;
        }
        proof {
            lemma_skip_ws_bounds(s@, i as int);
        }
        let word = s.substring_char(a, b).to_owned();
        let ghost before = out.deep_view();
        out.push(word);
        proof {
            assert(out.deep_view() =~= before + seq![s@.subrange(a as int, b as int)]);
            assert(words_from(s@, i as int) == seq![s@.subrange(a as int, b as int)]
                + words_from(s@, b as int));
            assert(before + words_from(s@, i as int) =~= out.deep_view() + words_from(
                s@,
                b as int,
            ));
        }
        i = b;
    }
}

// ---------------------------------------------------------------------------
// Decimal numerals
// ---------------------------------------------------------------------------

/// The decimal digit for `d < 10`.
pub open spec fn digit_char(d: nat) -> char {
    if d == 0 {
        '0'
    } else if d == 1 {
        '1'
    } else if d == 2 {
        '2'
    } else if d == 3 {
        '3'
    } else if d == 4 {
        '4'
    } else if d == 5 {
        '5'
    } else if d == 6 {
        '6'
    } else if d == 7 {
        '7'
    } else if d == 8 {
        '8'
    } else {
        '9'
    }
}

/// The decimal numeral of `n`, most significant digit first, without leading
/// zeros (the `Display` form of an unsigned integer).
pub open spec fn decimal_spec(n: nat) -> Seq<char>
    decreases n,
{
    if n < 10 {
        seq![digit_char(n)]
    } else {
        decimal_spec(n / 10).push(digit_char(n % 10))
    }
}

fn digit_str(d: u64) -> (r: &'static str)
    requires
        d < 10,
    ensures
        r@ == seq![digit_char(d as nat)],
{
    if d == 0 {
        proof {
            reveal_strlit("0");
        }
        "0"
    } else if d == 1 {
        proof {
            reveal_strlit("1");
        }
        "1"
    } else if d == 2 {
        proof {
            reveal_strlit("2");
        }
        "2"
    } else if d == 3 {
        proof {
            reveal_strlit("3");
        }
        "3"
    } else if d == 4 {
        proof {
            reveal_strlit("4");
        }
        "4"
    } else if d == 5 {
        proof {
            reveal_strlit("5");
        }
        "5"
    } else if d == 6 {
        proof {
            reveal_strlit("6");
        }
        "6"
    } else if d == 7 {
        proof {
            reveal_strlit("7");
        }
        "7"
    } else if d == 8 {
        proof {
            reveal_strlit("8");
        }
        "8"
    } else {
        proof {
            reveal_strlit("9");
        }
        "9"
    }
}

/// The decimal numeral of `n`.
pub fn decimal(n: u64) -> (r: String)
    ensures
        r@ == decimal_spec(n as nat),
    decreases n,
{
    if n < 10 {
        digit_str(n).to_owned()
    } else {
        let mut r = decimal(n / 10);
        r.append(digit_str(n % 10));
        r
    }
}

// ---------------------------------------------------------------------------
// Paths
// ---------------------------------------------------------------------------

/// `base` with `seg` pushed onto it, as `PathBuf::push` does on Unix: an
/// absolute `seg` replaces `base`; otherwise a `/` is put between them unless
/// `base` is empty or already ends in one.
pub open spec fn path_push_spec(base: Seq<char>, seg: Seq<char>) -> Seq<char> {
    if seg.len() > 0 && seg[0] == '/' {
        seg
    } else if base.len() == 0 || base.last() == '/' {
        base + seg
    } else {
        base + seq!['/'] + seg
    }
}

/// Pushes `seg` onto the path `base` (`PathBuf::push`).
pub fn path_push(base: &str, seg: &str) -> (r: String)
    ensures
        r@ == path_push_spec(base@, seg@),
{
    let sv = chars_of(seg);
    let bv = chars_of(base);
    if sv.len() > 0 && sv[0] == '/' {
        return seg.to_owned();
    }
    let mut r = base.to_owned();
    if bv.len() > 0 && bv[bv.len() - 1] != '/' {
        proof {
            reveal_strlit("/");
        }
        r.append("/");
    }
    r.append(seg);
    r
}

} // verus!
