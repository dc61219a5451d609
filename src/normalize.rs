//! Text normalization ahead of phonemization: whitespace collapsing, quote
//! folding, abbreviation expansion, numeric ranges and thousands separators,
//! and trimming.
//!
//! The character classes are chosen here, not taken from a regular
//! expression engine:
//! - whitespace is Unicode `White_Space`, as `\s` and `str::trim` use;
//! - a digit is an ASCII digit `0`-`9` only, so ranges in other scripts'
//!   digits (`٥-١٢`) are left as they are;
//! - a word character is `_` or what `char::is_alphanumeric` accepts
//!   (`Alphabetic` or `Numeric`), which differs from `\w` on combining marks,
//!   connector punctuation and some numerals.
//!
//! Abbreviations are expanded in one left-to-right scan, and whether one
//! starts a word is judged on the text before expansion: `Dr.Rd.` gives
//! `DoctorRoad` (one pass per abbreviation would judge `Rd.` after `Doctor`
//! and leave it). Ranges and separators are likewise judged on the text
//! before rewriting, so `1-2-3` gives `1 to 2 to 3` and `1,2,3` gives `123`;
//! this keeps normalization idempotent.
use crate::text::{chars_of, string_of};
use vstd::prelude::*;

verus! {

/// Unicode `White_Space`, the class that `char::is_whitespace` and
/// `str::trim` use.
pub open spec fn is_white(c: char) -> bool {
    let u = c as u32;
    (0x9 <= u && u <= 0xd) || u == 0x20 || u == 0x85 || u == 0xa0 || u == 0x1680 || (0x2000 <= u
        && u <= 0x200a) || u == 0x2028 || u == 0x2029 || u == 0x202f || u == 0x205f || u == 0x3000
}

/// An ASCII decimal digit `0`-`9`.
pub open spec fn is_digit(c: char) -> bool {
    '0' <= c && c <= '9'
}

/// What `char::is_alphanumeric` returns for `c`.
pub uninterp spec fn alphanumeric(c: char) -> bool;

/// An ASCII letter or digit.
pub open spec fn is_ascii_alnum(c: char) -> bool {
    ('a' <= c && c <= 'z') || ('A' <= c && c <= 'Z') || ('0' <= c && c <= '9')
}

/// A character that belongs to a word: an ASCII letter, digit or `_`, or a
/// non-ASCII character that `char::is_alphanumeric` accepts.
pub open spec fn is_word(c: char) -> bool {
    if (c as u32) < 128 {
        c == '_' || is_ascii_alnum(c)
    } else {
        alphanumeric(c)
    }
}

fn white(c: char) -> (r: bool)
    ensures
        r == is_white(c),
{
    let u = c as u32;
    (0x9 <= u && u <= 0xd) || u == 0x20 || u == 0x85 || u == 0xa0 || u == 0x1680 || (0x2000 <= u
        && u <= 0x200a) || u == 0x2028 || u == 0x2029 || u == 0x202f || u == 0x205f || u == 0x3000
}

/// Relies on `char::is_alphanumeric`: whether `c` has the Unicode
/// `Alphabetic` or `Numeric` property.
#[verifier::external_body]
fn char_is_alphanumeric(c: char) -> (r: bool)
    ensures
        r == alphanumeric(c),
{
    c.is_alphanumeric()
}

fn word(c: char) -> (r: bool)
    ensures
        r == is_word(c),
{
    if (c as u32) < 128 {
        c == '_' || ('a' <= c && c <= 'z') || ('A' <= c && c <= 'Z') || ('0' <= c && c <= '9')
    } else {
        char_is_alphanumeric(c)
    }
}

// ---------------------------------------------------------------- whitespace
/// Every run of whitespace becomes a single space.
pub open spec fn collapse_ws(s: Seq<char>) -> Seq<char>
    decreases s.len(),
{
    if s.len() == 0 {
        Seq::empty()
    } else {
        let rest = collapse_ws(s.drop_last());
        if is_white(s.last()) {
            if s.len() >= 2 && is_white(s[s.len() - 2]) {
                rest
            } else {
                rest.push(' ')
            }
        } else {
            rest.push(s.last())
        }
    }
}

fn collapse_whitespace(cs: &Vec<char>) -> (r: Vec<char>)
    ensures
        r@ == collapse_ws(cs@),
{
    let mut out: Vec<char> = Vec::new();
    let mut i: usize = 0;
    while i < cs.len()
        invariant
            i <= cs.len(),
            out@ == collapse_ws(cs@.subrange(0, i as int)),
        decreases cs.len() - i,
    {
        let ghost pre = cs@.subrange(0, i as int);
        let ghost cur = cs@.subrange(0, i + 1);
        assert(cur.drop_last() == pre);
        if white(cs[i]) {
            if i >= 1 && white(cs[i - 1]) {
                assert(cur[cur.len() - 2] == cs@[i - 1]);
            } else {
                out.push(' ');
            }
        } else {
            out.push(cs[i]);
        }
        i = i + 1;
    }
    assert(cs@.subrange(0, cs.len() as int) == cs@);
    out
}

// ---------------------------------------------------------------- quotes
/// Curly single and double quotes become their ASCII forms.
pub open spec fn fold_quote(c: char) -> char {
    if c == '\u{2018}' || c == '\u{2019}' {
        '\''
    } else if c == '\u{201C}' || c == '\u{201D}' {
        '"'
    } else {
        c
    }
}

pub open spec fn fold_quotes_spec(s: Seq<char>) -> Seq<char> {
    s.map_values(|c: char| fold_quote(c))
}

fn fold_quotes(cs: &Vec<char>) -> (r: Vec<char>)
    ensures
        r@ == fold_quotes_spec(cs@),
{
    let mut out: Vec<char> = Vec::new();
    let mut i: usize = 0;
    while i < cs.len()
        invariant
            i <= cs.len(),
            out@ == fold_quotes_spec(cs@.subrange(0, i as int)),
        decreases cs.len() - i,
    {
        let c = cs[i];
        let f = if c == '\u{2018}' || c == '\u{2019}' {
            '\''
        } else if c == '\u{201C}' || c == '\u{201D}' {
            '"'
        } else {
            c
        };
        out.push(f);
        i = i + 1;
        assert(out@ =~= fold_quotes_spec(cs@.subrange(0, i as int)));
    }
    assert(cs@.subrange(0, cs.len() as int) == cs@);
    out
}

// ---------------------------------------------------------------- abbreviations
/// Number of abbreviations that are expanded.
pub const ABBREVIATION_COUNT: usize = 9;

/// The `k`th abbreviation, with its dot.
pub open spec fn abbreviation(k: int) -> Seq<char> {
    if k == 0 {
        seq!['D', 'r', '.']
    } else if k == 1 {
        seq!['M', 'r', '.']
    } else if k == 2 {
        seq!['M', 'r', 's', '.']
    } else if k == 3 {
        seq!['M', 's', '.']
    } else if k == 4 {
        seq!['S', 't', '.']
    } else if k == 5 {
        seq!['A', 'v', 'e', '.']
    } else if k == 6 {
        seq!['R', 'd', '.']
    } else if k == 7 {
        seq!['B', 'l', 'v', 'd', '.']
    } else {
        seq!['e', 't', 'c', '.']
    }
}

/// The word that replaces the `k`th abbreviation.
pub open spec fn expansion(k: int) -> Seq<char> {
    if k == 0 {
        seq!['D', 'o', 'c', 't', 'o', 'r']
    } else if k == 1 {
        seq!['M', 'i', 's', 't', 'e', 'r']
    } else if k == 2 {
        seq!['M', 'i', 's', 's', 'u', 's']
    } else if k == 3 {
        seq!['M', 'i', 's', 's']
    } else if k == 4 {
        seq!['S', 't', 'r', 'e', 'e', 't']
    } else if k == 5 {
        seq!['A', 'v', 'e', 'n', 'u', 'e']
    } else if k == 6 {
        seq!['R', 'o', 'a', 'd']
    } else if k == 7 {
        seq!['B', 'o', 'u', 'l', 'e', 'v', 'a', 'r', 'd']
    } else {
        seq!['e', 't', 'c', 'e', 't', 'e', 'r', 'a']
    }
}

fn abbreviation_chars(k: usize) -> (r: Vec<char>)
    requires
        k < ABBREVIATION_COUNT,
    ensures
        r@ == abbreviation(k as int),
{
    let v = if k == 0 {
        vec!['D', 'r', '.']
    } else if k == 1 {
        vec!['M', 'r', '.']
    } else if k == 2 {
        vec!['M', 'r', 's', '.']
    } else if k == 3 {
        vec!['M', 's', '.']
    } else if k == 4 {
        vec!['S', 't', '.']
    } else if k == 5 {
        vec!['A', 'v', 'e', '.']
    } else if k == 6 {
        vec!['R', 'd', '.']
    } else if k == 7 {
        vec!['B', 'l', 'v', 'd', '.']
    } else {
        vec!['e', 't', 'c', '.']
    };
    assert(v@ =~= abbreviation(k as int));
    v
}

fn expansion_chars(k: usize) -> (r: Vec<char>)
    requires
        k < ABBREVIATION_COUNT,
    ensures
        r@ == expansion(k as int),
{
    let v = if k == 0 {
        vec!['D', 'o', 'c', 't', 'o', 'r']
    } else if k == 1 {
        vec!['M', 'i', 's', 't', 'e', 'r']
    } else if k == 2 {
        vec!['M', 'i', 's', 's', 'u', 's']
    } else if k == 3 {
        vec!['M', 'i', 's', 's']
    } else if k == 4 {
        vec!['S', 't', 'r', 'e', 'e', 't']
    } else if k == 5 {
        vec!['A', 'v', 'e', 'n', 'u', 'e']
    } else if k == 6 {
        vec!['R', 'o', 'a', 'd']
    } else if k == 7 {
        vec!['B', 'o', 'u', 'l', 'e', 'v', 'a', 'r', 'd']
    } else {
        vec!['e', 't', 'c', 'e', 't', 'e', 'r', 'a']
    };
    assert(v@ =~= expansion(k as int));
    v
}

/// `p` occurs in `s` at position `i`.
pub open spec fn occurs_at(s: Seq<char>, i: int, p: Seq<char>) -> bool {
    0 <= i && i + p.len() <= s.len() && s.subrange(i, i + p.len()) == p
}

/// A word starts at position `i` of `s`: `s[i]` is not preceded by a word
/// character.
pub open spec fn word_start(s: Seq<char>, i: int) -> bool {
    i == 0 || !is_word(s[i - 1])
}

/// The first abbreviation, at or after table entry `k`, that occurs at `i`.
pub open spec fn abbreviation_at_from(s: Seq<char>, i: int, k: int) -> Option<int>
    decreases ABBREVIATION_COUNT - k,
{
    if k >= ABBREVIATION_COUNT || k < 0 {
        None
    } else if occurs_at(s, i, abbreviation(k)) {
        Some(k)
    } else {
        abbreviation_at_from(s, i, k + 1)
    }
}

/// The abbreviation that is expanded at position `i` of `s`, if any: one that
/// occurs there at the start of a word.
pub open spec fn abbreviation_at(s: Seq<char>, i: int) -> Option<int> {
    if word_start(s, i) {
        abbreviation_at_from(s, i, 0)
    } else {
        None
    }
}

/// Expansion of the abbreviations of `s` from position `i` on, scanning left
/// to right; the text of an expanded abbreviation is not scanned again.
pub open spec fn expand_from(s: Seq<char>, i: int) -> Seq<char>
    decreases s.len() - i,
{
    if i < 0 || i >= s.len() {
        Seq::empty()
    } else {
        match abbreviation_at(s, i) {
            Some(k) => {
                let next = i + abbreviation(k).len();
                if i < next && next <= s.len() {
                    expansion(k) + expand_from(s, next)
                } else {
                    seq![s[i]] + expand_from(s, i + 1)
                }
            },
            None => seq![s[i]] + expand_from(s, i + 1),
        }
    }
}

pub open spec fn expand_spec(s: Seq<char>) -> Seq<char> {
    expand_from(s, 0)
}

proof fn lemma_abbreviation_len(k: int)
    ensures
        abbreviation(k).len() >= 3,
{
}

pub(crate) proof fn lemma_abbreviation_at_from(s: Seq<char>, i: int, k: int)
    ensures
        match abbreviation_at_from(s, i, k) {
            Some(j) => 0 <= j < ABBREVIATION_COUNT && occurs_at(s, i, abbreviation(j)),
            None => true,
        },
    decreases ABBREVIATION_COUNT - k,
{
    if 0 <= k < ABBREVIATION_COUNT && !occurs_at(s, i, abbreviation(k)) {
        lemma_abbreviation_at_from(s, i, k + 1);
    }
}

fn occurs(cs: &Vec<char>, i: usize, p: &Vec<char>) -> (r: bool)
    ensures
        r == occurs_at(cs@, i as int, p@),
{
    if p.len() > cs.len() || i > cs.len() - p.len() {
        return false;
    }
    let mut j: usize = 0;
    while j < p.len()
        invariant
            j <= p.len(),
            i + p.len() <= cs.len(),
            forall|m: int| 0 <= m < j ==> cs@[i + m] == p@[m],
        decreases p.len() - j,
    {
        if cs[i + j] != p[j] {
            assert(cs@.subrange(i as int, i + p.len())[j as int] != p@[j as int]);
            return false;
        }
        j = j + 1;
    }
    assert(cs@.subrange(i as int, i + p.len()) =~= p@);
    true
}

fn find_abbreviation(cs: &Vec<char>, i: usize) -> (r: Option<usize>)
    requires
        i < cs.len(),
    ensures
        match r {
            Some(k) => abbreviation_at(cs@, i as int) == Some(k as int),
            None => abbreviation_at(cs@, i as int) is None,
        },
{
    if i > 0 && word(cs[i - 1]) {
        return None;
    }
    let mut k: usize = 0;
    while k < ABBREVIATION_COUNT
        invariant
            k <= ABBREVIATION_COUNT,
            i < cs.len(),
            word_start(cs@, i as int),
            abbreviation_at_from(cs@, i as int, k as int) == abbreviation_at(cs@, i as int),
        decreases ABBREVIATION_COUNT - k,
    {
        let p = abbreviation_chars(k);
        if occurs(cs, i, &p) {
            return Some(k);
        }
        k = k + 1;
    }
    None
}

fn expand_abbreviations(cs: &Vec<char>) -> (r: Vec<char>)
    ensures
        r@ == expand_spec(cs@),
{
    let mut out: Vec<char> = Vec::new();
    let mut i: usize = 0;
    while i < cs.len()
        invariant
            i <= cs.len(),
            out@ + expand_from(cs@, i as int) == expand_spec(cs@),
        decreases cs.len() - i,
    {
        match find_abbreviation(cs, i) {
            Some(k) => {
                proof {
                    lemma_abbreviation_at_from(cs@, i as int, 0);
                    lemma_abbreviation_len(k as int);
                }
                let e = expansion_chars(k);
                let n = abbreviation_chars(k).len();
                let ghost before = out@;
                let mut j: usize = 0;
                while j < e.len()
                    invariant
                        j <= e.len(),
                        out@ == before + e@.subrange(0, j as int),
                    decreases e.len() - j,
                {
                    out.push(e[j]);
                    j = j + 1;
                }
                assert(e@.subrange(0, e.len() as int) == e@);
                assert(before + (e@ + expand_from(cs@, i + n)) == (before + e@) + expand_from(
                    cs@,
                    i + n,
                ));
                i = i + n;
            },
            None => {
                let ghost before = out@;
                out.push(cs[i]);
                assert(before + (seq![cs@[i as int]] + expand_from(cs@, i + 1)) == out@
                    + expand_from(cs@, i + 1));
                i = i + 1;
            },
        }
    }
    assert(out@ + expand_from(cs@, i as int) == out@);
    out
}

// ---------------------------------------------------------------- digits
/// Position `i` of `s` holds `sep` between two digits.
pub open spec fn between_digits(s: Seq<char>, i: int, sep: char) -> bool {
    0 < i && i + 1 < s.len() && s[i] == sep && is_digit(s[i - 1]) && is_digit(s[i + 1])
}

/// What position `i` of `s` becomes: a dash between digits becomes ` to `, a
/// comma between digits is dropped, anything else stays.
pub open spec fn digit_emit(s: Seq<char>, i: int) -> Seq<char> {
    if between_digits(s, i, '-') {
        seq![' ', 't', 'o', ' ']
    } else if between_digits(s, i, ',') {
        Seq::empty()
    } else {
        seq![s[i]]
    }
}

/// `s` from position `i` on, with numeric ranges spelled out and thousands
/// separators dropped; both are judged on `s` itself.
pub open spec fn digits_from(s: Seq<char>, i: int) -> Seq<char>
    decreases s.len() - i,
{
    if i < 0 || i >= s.len() {
        Seq::empty()
    } else {
        digit_emit(s, i) + digits_from(s, i + 1)
    }
}

pub open spec fn digits_spec(s: Seq<char>) -> Seq<char> {
    digits_from(s, 0)
}

fn digit(c: char) -> (r: bool)
    ensures
        r == is_digit(c),
{
    '0' <= c && c <= '9'
}

fn rewrite_digit_separators(cs: &Vec<char>) -> (r: Vec<char>)
    ensures
        r@ == digits_spec(cs@),
{
    let mut out: Vec<char> = Vec::new();
    let mut i: usize = 0;
    while i < cs.len()
        invariant
            i <= cs.len(),
            out@ + digits_from(cs@, i as int) == digits_spec(cs@),
        decreases cs.len() - i,
    {
        let ghost before = out@;
        let ghost tail = digits_from(cs@, i + 1);
        let between = i > 0 && i + 1 < cs.len() && digit(cs[i - 1]) && digit(cs[i + 1]);
        if between && cs[i] == '-' {
            out.push(' ');
            out.push('t');
            out.push('o');
            out.push(' ');
            assert(out@ == before + seq![' ', 't', 'o', ' ']);
        } else if between && cs[i] == ',' {
        } else {
            out.push(cs[i]);
        }
        assert(before + (digit_emit(cs@, i as int) + tail) == out@ + tail);
        i = i + 1;
    }
    assert(out@ + digits_from(cs@, i as int) == out@);
    out
}

// ---------------------------------------------------------------- trimming
pub open spec fn trim_start_spec(s: Seq<char>) -> Seq<char>
    decreases s.len(),
{
    if s.len() > 0 && is_white(s[0]) {
        trim_start_spec(s.subrange(1, s.len() as int))
    } else {
        s
    }
}

pub open spec fn trim_end_spec(s: Seq<char>) -> Seq<char>
    decreases s.len(),
{
    if s.len() > 0 && is_white(s.last()) {
        trim_end_spec(s.drop_last())
    } else {
        s
    }
}

/// Leading and trailing whitespace removed.
pub open spec fn trim_spec(s: Seq<char>) -> Seq<char> {
    trim_end_spec(trim_start_spec(s))
}

fn trim(cs: &Vec<char>) -> (r: Vec<char>)
    ensures
        r@ == trim_spec(cs@),
{
    let mut a: usize = 0;
    assert(cs@.subrange(0, cs.len() as int) == cs@);
    while a < cs.len() && white(cs[a])
        invariant
            a <= cs.len(),
            trim_start_spec(cs@.subrange(a as int, cs.len() as int)) == trim_start_spec(cs@),
        decreases cs.len() - a,
    {
        assert(cs@.subrange(a as int, cs.len() as int).subrange(1, cs.len() - a) == cs@.subrange(
            a + 1,
            cs.len() as int,
        ));
        a = a + 1;
    }
    assert(trim_start_spec(cs@) == cs@.subrange(a as int, cs.len() as int)) by {
        assert(cs@.subrange(0, cs.len() as int) == cs@);
    }
    let mut b: usize = cs.len();
    while b > a && white(cs[b - 1])
        invariant
            a <= b <= cs.len(),
            trim_end_spec(cs@.subrange(a as int, b as int)) == trim_spec(cs@),
        decreases b,
    {
        assert(cs@.subrange(a as int, b as int).drop_last() == cs@.subrange(a as int, b - 1));
        b = b - 1;
    }
    let mut out: Vec<char> = Vec::new();
    let mut i: usize = a;
    while i < b
        invariant
            a <= i <= b,
            b <= cs.len(),
            out@ == cs@.subrange(a as int, i as int),
        decreases b - i,
    {
        out.push(cs[i]);
        i = i + 1;
    }
    out
}

// ---------------------------------------------------------------- pipeline
/// The normal form of `s`: whitespace runs collapsed, quotes folded,
/// abbreviations expanded, numeric ranges spelled out and thousands
/// separators dropped, then trimmed.
pub open spec fn normalized(s: Seq<char>) -> Seq<char> {
    trim_spec(digits_spec(expand_spec(fold_quotes_spec(collapse_ws(s)))))
}

/// Normalizes text ahead of phonemization.
pub fn normalize_text(text: &str) -> (r: String)
    ensures
        r@ == normalized(text@),
        text@.len() == 0 ==> r@.len() == 0,
{
    let cs = chars_of(text);
    let a = collapse_whitespace(&cs);
    let b = fold_quotes(&a);
    let c = expand_abbreviations(&b);
    let d = rewrite_digit_separators(&c);
    let f = trim(&d);
    proof {
        if text@.len() == 0 {
            assert(collapse_ws(text@) =~= Seq::<char>::empty());
            assert(fold_quotes_spec(Seq::<char>::empty()) =~= Seq::<char>::empty());
        }
    }
    string_of(&f)
}

} // verus!
