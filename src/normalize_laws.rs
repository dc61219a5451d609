//! Normalization is idempotent: the normal form of a normal form is itself.
//!
//! The proof names the properties that every normal form has (whitespace
//! collapsed, no curly quotes, no expandable abbreviation, no separator
//! between digits, trimmed), shows that each pass of the pipeline establishes
//! its own and keeps those of the passes before it, and that every pass is
//! the identity on a text that has them all.
use crate::normalize::{
    abbreviation, abbreviation_at, abbreviation_at_from, between_digits, collapse_ws,
    digit_emit, digits_from, digits_spec, expand_from, expand_spec, expansion, fold_quote,
    fold_quotes_spec, is_digit, is_white, is_word, normalized, occurs_at, trim_end_spec,
    trim_spec, trim_start_spec, word_start,
};
use vstd::prelude::*;

verus! {

/// A curly single or double quote.
pub open spec fn is_curly(c: char) -> bool {
    c == '\u{2018}' || c == '\u{2019}' || c == '\u{201C}' || c == '\u{201D}'
}

/// Every whitespace character of `u` is a space, and follows no whitespace.
pub open spec fn ws_normal(u: Seq<char>) -> bool {
    forall|i: int|
        0 <= i < u.len() && #[trigger] is_white(u[i]) ==> u[i] == ' ' && (i == 0 || !is_white(
            u[i - 1],
        ))
}

/// `u` holds no curly quote.
pub open spec fn no_curly(u: Seq<char>) -> bool {
    forall|i: int| 0 <= i < u.len() ==> !is_curly(#[trigger] u[i])
}

/// No abbreviation of `u` would be expanded.
pub open spec fn no_abbr(u: Seq<char>) -> bool {
    forall|i: int| 0 <= i < u.len() ==> #[trigger] abbreviation_at(u, i) is None
}

/// No dash or comma of `u` stands between two digits.
pub open spec fn no_digit_seps(u: Seq<char>) -> bool {
    forall|i: int| 0 <= i < u.len() ==> #[trigger] digit_emit(u, i) == seq![u[i]]
}

/// `u` neither starts nor ends with whitespace.
pub open spec fn trimmed(u: Seq<char>) -> bool {
    u.len() == 0 || (!is_white(u[0]) && !is_white(u.last()))
}

/// `u` has every property of a normal form.
pub open spec fn is_normal(u: Seq<char>) -> bool {
    &&& ws_normal(u)
    &&& no_curly(u)
    &&& no_abbr(u)
    &&& no_digit_seps(u)
    &&& trimmed(u)
}

// ------------------------------------------------------------ identities
proof fn lemma_collapse_id(u: Seq<char>)
    requires
        ws_normal(u),
    ensures
        collapse_ws(u) == u,
    decreases u.len(),
{
    if u.len() > 0 {
        let p = u.drop_last();
        assert forall|i: int| 0 <= i < p.len() && #[trigger] is_white(p[i]) implies p[i] == ' '
            && (i == 0 || !is_white(p[i - 1])) by {
            assert(p[i] == u[i]);
            assert(is_white(u[i]));
            if i > 0 {
                assert(p[i - 1] == u[i - 1]);
            }
        }
        lemma_collapse_id(p);
        if is_white(u.last()) {
            assert(is_white(u[u.len() - 1]));
        }
        assert(u == p.push(u.last()));
    }
}

proof fn lemma_fold_id(u: Seq<char>)
    requires
        no_curly(u),
    ensures
        fold_quotes_spec(u) == u,
{
    assert forall|i: int| 0 <= i < u.len() implies fold_quotes_spec(u)[i] == u[i] by {
        assert(!is_curly(u[i]));
    }
    assert(fold_quotes_spec(u) =~= u);
}

proof fn lemma_expand_id(u: Seq<char>, i: int)
    requires
        no_abbr(u),
        0 <= i <= u.len(),
    ensures
        expand_from(u, i) == u.subrange(i, u.len() as int),
    decreases u.len() - i,
{
    if i < u.len() {
        assert(abbreviation_at(u, i) is None);
        lemma_expand_id(u, i + 1);
        assert(u.subrange(i, u.len() as int) =~= seq![u[i]] + u.subrange(i + 1, u.len() as int));
    } else {
        assert(u.subrange(i, u.len() as int) =~= Seq::<char>::empty());
    }
}

proof fn lemma_digits_id(u: Seq<char>, i: int)
    requires
        no_digit_seps(u),
        0 <= i <= u.len(),
    ensures
        digits_from(u, i) == u.subrange(i, u.len() as int),
    decreases u.len() - i,
{
    if i < u.len() {
        assert(digit_emit(u, i) == seq![u[i]]);
        lemma_digits_id(u, i + 1);
        assert(u.subrange(i, u.len() as int) =~= seq![u[i]] + u.subrange(i + 1, u.len() as int));
    } else {
        assert(u.subrange(i, u.len() as int) =~= Seq::<char>::empty());
    }
}

proof fn lemma_trim_id(u: Seq<char>)
    requires
        trimmed(u),
    ensures
        trim_spec(u) == u,
{
    if u.len() > 0 {
        assert(trim_start_spec(u) == u);
        assert(trim_end_spec(u) == u);
    }
}

/// A text with every property of a normal form is its own normal form.
pub proof fn lemma_normal_is_fixed(u: Seq<char>)
    requires
        is_normal(u),
    ensures
        normalized(u) == u,
{
    lemma_collapse_id(u);
    lemma_fold_id(u);
    lemma_expand_id(u, 0);
    assert(u.subrange(0, u.len() as int) == u);
    lemma_digits_id(u, 0);
    lemma_trim_id(u);
}

// ------------------------------------------------------------ whitespace
proof fn lemma_collapse_normal(s: Seq<char>)
    ensures
        ws_normal(collapse_ws(s)),
        s.len() > 0 ==> collapse_ws(s).len() > 0 && (is_white(collapse_ws(s).last())
            <==> is_white(s.last())),
    decreases s.len(),
{
    if s.len() > 0 {
        let p = s.drop_last();
        lemma_collapse_normal(p);
        let r = collapse_ws(p);
        let c = collapse_ws(s);
        if p.len() > 0 {
            assert(p.last() == s[s.len() - 2]);
        }
        if is_white(s.last()) {
            if s.len() >= 2 && is_white(s[s.len() - 2]) {
                assert(c == r);
            } else {
                assert(c == r.push(' '));
                assert forall|i: int| 0 <= i < c.len() && #[trigger] is_white(c[i]) implies c[i]
                    == ' ' && (i == 0 || !is_white(c[i - 1])) by {
                    if i < r.len() {
                        assert(c[i] == r[i]);
                        assert(is_white(r[i]));
                        if i > 0 {
                            assert(c[i - 1] == r[i - 1]);
                        }
                    } else if i > 0 {
                        assert(c[i - 1] == r.last());
                    }
                }
            }
        } else {
            assert(c == r.push(s.last()));
            assert forall|i: int| 0 <= i < c.len() && #[trigger] is_white(c[i]) implies c[i] == ' '
                && (i == 0 || !is_white(c[i - 1])) by {
                if i < r.len() {
                    assert(c[i] == r[i]);
                    assert(is_white(r[i]));
                    if i > 0 {
                        assert(c[i - 1] == r[i - 1]);
                    }
                }
            }
        }
    }
}

proof fn lemma_fold_normal(a: Seq<char>)
    requires
        ws_normal(a),
    ensures
        ws_normal(fold_quotes_spec(a)),
        no_curly(fold_quotes_spec(a)),
{
    let b = fold_quotes_spec(a);
    assert forall|i: int| 0 <= i < b.len() && #[trigger] is_white(b[i]) implies b[i] == ' ' && (i
        == 0 || !is_white(b[i - 1])) by {
        assert(b[i] == fold_quote(a[i]));
        assert(is_white(a[i]));
        if i > 0 {
            assert(b[i - 1] == fold_quote(a[i - 1]));
        }
    }
    assert forall|i: int| 0 <= i < b.len() implies !is_curly(#[trigger] b[i]) by {
        assert(b[i] == fold_quote(a[i]));
    }
}

// ------------------------------------------------------------ shared facts
/// An ASCII letter.
spec fn is_letter(c: char) -> bool {
    ('a' <= c && c <= 'z') || ('A' <= c && c <= 'Z')
}

proof fn lemma_letter(c: char)
    requires
        is_letter(c),
    ensures
        is_word(c),
        !is_white(c),
        !is_curly(c),
        !is_digit(c),
        c != '.',
        c != ' ',
        c != '-',
        c != ',',
{
}

proof fn lemma_expansion_shape(k: int)
    requires
        0 <= k < 9,
    ensures
        expansion(k).len() >= 4,
        forall|m: int| 0 <= m < expansion(k).len() ==> is_letter(#[trigger] expansion(k)[m]),
{
}

proof fn lemma_abbreviation_shape(k: int)
    requires
        0 <= k < 9,
    ensures
        3 <= abbreviation(k).len() <= 5,
        abbreviation(k).last() == '.',
        forall|m: int| 0 <= m < abbreviation(k).len() - 1 ==> is_letter(#[trigger] abbreviation(k)[m]),
        abbreviation(k)[0] != 't' && abbreviation(k)[0] != 'o',
{
}

proof fn lemma_ws_concat(x: Seq<char>, y: Seq<char>)
    requires
        ws_normal(x),
        ws_normal(y),
        x.len() > 0 && y.len() > 0 && is_white(y[0]) ==> !is_white(x.last()),
    ensures
        ws_normal(x + y),
{
    let z = x + y;
    assert forall|i: int| 0 <= i < z.len() && #[trigger] is_white(z[i]) implies z[i] == ' ' && (i
        == 0 || !is_white(z[i - 1])) by {
        if i < x.len() {
            assert(z[i] == x[i]);
            assert(is_white(x[i]));
            if i > 0 {
                assert(z[i - 1] == x[i - 1]);
            }
        } else {
            assert(z[i] == y[i - x.len()]);
            assert(is_white(y[i - x.len()]));
            if i > x.len() {
                assert(z[i - 1] == y[i - x.len() - 1]);
            } else if i > 0 {
                assert(z[i - 1] == x.last());
            }
        }
    }
}

proof fn lemma_curly_concat(x: Seq<char>, y: Seq<char>)
    requires
        no_curly(x),
        no_curly(y),
    ensures
        no_curly(x + y),
{
    let z = x + y;
    assert forall|i: int| 0 <= i < z.len() implies !is_curly(#[trigger] z[i]) by {
        if i < x.len() {
            assert(z[i] == x[i]);
        } else {
            assert(z[i] == y[i - x.len()]);
        }
    }
}

proof fn lemma_none_from(s: Seq<char>, i: int, k0: int)
    requires
        0 <= k0 <= 9,
    ensures
        abbreviation_at_from(s, i, k0) is None <==> forall|k: int|
            k0 <= k < 9 ==> !occurs_at(s, i, #[trigger] abbreviation(k)),
    decreases 9 - k0,
{
    if k0 < 9 {
        lemma_none_from(s, i, k0 + 1);
    }
}

proof fn lemma_shift(x: Seq<char>, y: Seq<char>, p: int, k0: int)
    requires
        0 <= p < y.len(),
        0 <= k0 <= 9,
    ensures
        abbreviation_at_from(x + y, x.len() + p, k0) == abbreviation_at_from(y, p, k0),
    decreases 9 - k0,
{
    if k0 < 9 {
        let z = x + y;
        let a = abbreviation(k0);
        if p + a.len() <= y.len() {
            assert(z.subrange(x.len() + p, x.len() + p + a.len()) =~= y.subrange(p, p + a.len()));
        }
        lemma_shift(x, y, p, k0 + 1);
    }
}

// ------------------------------------------------------------ abbreviations
proof fn lemma_expand_step(b: Seq<char>, j: int)
    requires
        0 <= j < b.len(),
    ensures
        match abbreviation_at(b, j) {
            Some(k) => 0 <= k < 9 && occurs_at(b, j, abbreviation(k)) && word_start(b, j)
                && expand_from(b, j) == expansion(k) + expand_from(b, j + abbreviation(k).len()),
            None => expand_from(b, j) == seq![b[j]] + expand_from(b, j + 1),
        },
{
    if let Some(k) = abbreviation_at(b, j) {
        crate::normalize::lemma_abbreviation_at_from(b, j, 0);
        lemma_abbreviation_shape(k);
    }
}

proof fn lemma_expand_local(b: Seq<char>, j: int)
    requires
        ws_normal(b),
        no_curly(b),
        0 <= j,
    ensures
        ws_normal(expand_from(b, j)),
        no_curly(expand_from(b, j)),
        expand_from(b, j).len() > 0 ==> j < b.len() && (expand_from(b, j)[0] == b[j] || is_letter(
            expand_from(b, j)[0],
        )),
    decreases b.len() - j,
{
    if j < b.len() {
        lemma_expand_step(b, j);
        match abbreviation_at(b, j) {
            Some(k) => {
                lemma_abbreviation_shape(k);
                lemma_expansion_shape(k);
                let next = j + abbreviation(k).len();
                lemma_expand_local(b, next);
                let e = expansion(k);
                assert forall|i: int| 0 <= i < e.len() && #[trigger] is_white(e[i]) implies e[i]
                    == ' ' && (i == 0 || !is_white(e[i - 1])) by {
                    lemma_letter(e[i]);
                }
                assert forall|i: int| 0 <= i < e.len() implies !is_curly(#[trigger] e[i]) by {
                    lemma_letter(e[i]);
                }
                lemma_letter(e.last());
                lemma_ws_concat(e, expand_from(b, next));
                lemma_curly_concat(e, expand_from(b, next));
                lemma_letter(e[0]);
            },
            None => {
                lemma_expand_local(b, j + 1);
                let o2 = expand_from(b, j + 1);
                let x = seq![b[j]];
                assert(is_white(b[j]) ==> b[j] == ' ');
                assert(!is_curly(b[j]));
                if o2.len() > 0 && is_white(o2[0]) {
                    if is_letter(o2[0]) {
                        lemma_letter(o2[0]);
                    }
                    assert(is_white(b[j + 1]));
                }
                lemma_ws_concat(x, o2);
                lemma_curly_concat(x, o2);
            },
        }
    }
}

proof fn lemma_expansion_holds_no_abbreviation(k: int, k2: int, rest: Seq<char>)
    requires
        0 <= k < 9,
        0 <= k2 < 9,
    ensures
        !occurs_at(expansion(k) + rest, 0, abbreviation(k2)),
{
    let e = expansion(k);
    let a = abbreviation(k2);
    let z = e + rest;
    lemma_expansion_shape(k);
    lemma_abbreviation_shape(k2);
    if occurs_at(z, 0, a) {
        if a.len() <= e.len() {
            assert(z.subrange(0, a.len() as int)[a.len() - 1] == e[a.len() - 1]);
            lemma_letter(e[a.len() - 1]);
        } else {
            assert(z.subrange(0, a.len() as int)[0] == e[0]);
        }
    }
}

proof fn lemma_expand_copies(b: Seq<char>, q: int, a: Seq<char>, t: int, m: int)
    requires
        0 < q,
        q - 1 < b.len(),
        is_word(b[q - 1]),
        0 <= t,
        0 <= m,
        t + m <= a.len(),
        expand_from(b, q).len() >= m,
        expand_from(b, q).subrange(0, m) == a.subrange(t, t + m),
        forall|x: int| t <= x < t + m - 1 ==> is_letter(#[trigger] a[x]),
    ensures
        q + m <= b.len(),
        b.subrange(q, q + m) == a.subrange(t, t + m),
    decreases m,
{
    if m > 0 {
        let o = expand_from(b, q);
        assert(q < b.len());
        assert(!word_start(b, q));
        lemma_expand_step(b, q);
        assert(o == seq![b[q]] + expand_from(b, q + 1));
        assert(o.subrange(0, m)[0] == a.subrange(t, t + m)[0]);
        assert(b[q] == a[t]);
        if m > 1 {
            lemma_letter(a[t]);
            let o2 = expand_from(b, q + 1);
            assert(o2.subrange(0, m - 1) =~= o.subrange(1, m));
            assert(o.subrange(1, m) =~= o.subrange(0, m).subrange(1, m));
            assert(a.subrange(t + 1, t + m) =~= a.subrange(t, t + m).subrange(1, m));
            assert(o2.subrange(0, m - 1) == a.subrange(t + 1, t + m));
            lemma_expand_copies(b, q + 1, a, t + 1, m - 1);
        }
        assert forall|i: int| 0 <= i < m implies #[trigger] b.subrange(q, q + m)[i] == a.subrange(
            t,
            t + m,
        )[i] by {
            if i > 0 {
                assert(b.subrange(q + 1, q + m)[i - 1] == a.subrange(t + 1, t + m)[i - 1]);
            }
        }
        assert(b.subrange(q, q + m) =~= a.subrange(t, t + m));
    }
}

/// From position `j` on, the expansion of `b` holds no abbreviation that
/// would be expanded, taking `b[j - 1]` as the character before it.
spec fn abbr_free_from(b: Seq<char>, j: int) -> bool {
    forall|p: int|
        0 <= p < expand_from(b, j).len() && (if p == 0 {
            word_start(b, j)
        } else {
            !is_word(expand_from(b, j)[p - 1])
        }) ==> #[trigger] abbreviation_at_from(expand_from(b, j), p, 0) is None
}

proof fn lemma_expand_abbr(b: Seq<char>, j: int)
    requires
        0 <= j,
    ensures
        abbr_free_from(b, j),
    decreases b.len() - j,
{
    if j < b.len() {
        let o = expand_from(b, j);
        lemma_expand_step(b, j);
        match abbreviation_at(b, j) {
            Some(k) => {
                lemma_abbreviation_shape(k);
                lemma_expansion_shape(k);
                let next = j + abbreviation(k).len();
                lemma_expand_abbr(b, next);
                let e = expansion(k);
                let o2 = expand_from(b, next);
                assert forall|p: int|
                    0 <= p < o.len() && (if p == 0 {
                        word_start(b, j)
                    } else {
                        !is_word(o[p - 1])
                    }) implies #[trigger] abbreviation_at_from(o, p, 0) is None by {
                    if p == 0 {
                        lemma_none_from(o, 0, 0);
                        assert forall|k2: int| 0 <= k2 < 9 implies !occurs_at(
                            o,
                            0,
                            #[trigger] abbreviation(k2),
                        ) by {
                            lemma_expansion_holds_no_abbreviation(k, k2, o2);
                        }
                    } else if p <= e.len() {
                        assert(o[p - 1] == e[p - 1]);
                        lemma_letter(e[p - 1]);
                    } else {
                        let p2 = p - e.len();
                        assert(o[p - 1] == o2[p2 - 1]);
                        lemma_shift(e, o2, p2, 0);
                    }
                }
            },
            None => {
                lemma_expand_abbr(b, j + 1);
                let x = seq![b[j]];
                let o2 = expand_from(b, j + 1);
                assert forall|p: int|
                    0 <= p < o.len() && (if p == 0 {
                        word_start(b, j)
                    } else {
                        !is_word(o[p - 1])
                    }) implies #[trigger] abbreviation_at_from(o, p, 0) is None by {
                    if p == 0 {
                        lemma_none_from(o, 0, 0);
                        lemma_none_from(b, j, 0);
                        assert forall|k2: int| 0 <= k2 < 9 implies !occurs_at(
                            o,
                            0,
                            #[trigger] abbreviation(k2),
                        ) by {
                            let a = abbreviation(k2);
                            lemma_abbreviation_shape(k2);
                            if occurs_at(o, 0, a) {
                                assert(o.subrange(0, a.len() as int)[0] == a[0]);
                                assert(b[j] == a[0]);
                                lemma_letter(a[0]);
                                assert(o2.subrange(0, a.len() - 1) =~= o.subrange(
                                    1,
                                    a.len() as int,
                                ));
                                assert(a.subrange(1, a.len() as int) =~= o.subrange(
                                    1,
                                    a.len() as int,
                                ));
                                assert(o.subrange(1, a.len() as int) =~= o.subrange(
                                    0,
                                    a.len() as int,
                                ).subrange(1, a.len() as int));
                                assert(o2.subrange(0, a.len() - 1) == a.subrange(
                                    1,
                                    a.len() as int,
                                ));
                                lemma_expand_copies(b, j + 1, a, 1, a.len() - 1);
                                assert forall|i: int| 0 <= i < a.len() implies #[trigger] b.subrange(
                                    j,
                                    j + a.len(),
                                )[i] == a[i] by {
                                    if i > 0 {
                                        assert(b.subrange(j + 1, j + a.len())[i - 1] == a.subrange(
                                            1,
                                            a.len() as int,
                                        )[i - 1]);
                                    }
                                }
                                assert(b.subrange(j, j + a.len()) =~= a);
                                assert(occurs_at(b, j, a));
                            }
                        }
                    } else {
                        let p2 = p - 1;
                        if p2 == 0 {
                            assert(o[0] == b[j]);
                        } else {
                            assert(o[p - 1] == o2[p2 - 1]);
                        }
                        lemma_shift(x, o2, p2, 0);
                    }
                }
            },
        }
    }
}

proof fn lemma_expand_normal(b: Seq<char>)
    requires
        ws_normal(b),
        no_curly(b),
    ensures
        ws_normal(expand_spec(b)),
        no_curly(expand_spec(b)),
        no_abbr(expand_spec(b)),
{
    lemma_expand_local(b, 0);
    lemma_expand_abbr(b, 0);
    let o = expand_spec(b);
    assert forall|i: int| 0 <= i < o.len() implies #[trigger] abbreviation_at(o, i) is None by {
        if i > 0 && !is_word(o[i - 1]) {
            assert(abbreviation_at_from(o, i, 0) is None);
        } else if i == 0 {
            assert(word_start(b, 0));
            assert(abbreviation_at_from(o, 0, 0) is None);
        }
    }
}

// ------------------------------------------------------------ digit separators
proof fn lemma_digits_first(c: Seq<char>, q: int)
    requires
        0 <= q,
    ensures
        digits_from(c, q).len() > 0 ==> q < c.len() && ((digit_emit(c, q) == seq![c[q]]
            && digits_from(c, q)[0] == c[q]) || (between_digits(c, q, '-') && digits_from(c, q)[0]
            == ' ') || (between_digits(c, q, ',') && digits_from(c, q)[0] == c[q + 1] && is_digit(
            digits_from(c, q)[0],
        ))),
{
    if q < c.len() {
        let o = digits_from(c, q);
        assert(o == digit_emit(c, q) + digits_from(c, q + 1));
        if between_digits(c, q, ',') && !between_digits(c, q, '-') {
            assert(digit_emit(c, q + 1) == seq![c[q + 1]]);
            assert(digits_from(c, q + 1) == digit_emit(c, q + 1) + digits_from(c, q + 2));
            assert(o == digits_from(c, q + 1));
        }
    }
}

proof fn lemma_digits_local(c: Seq<char>, i: int)
    requires
        ws_normal(c),
        no_curly(c),
        0 <= i,
    ensures
        ws_normal(digits_from(c, i)),
        no_curly(digits_from(c, i)),
    decreases c.len() - i,
{
    if i < c.len() {
        lemma_digits_local(c, i + 1);
        lemma_digits_first(c, i + 1);
        let e = digit_emit(c, i);
        let o2 = digits_from(c, i + 1);
        assert(digits_from(c, i) == e + o2);
        if between_digits(c, i, '-') {
            assert(e == seq![' ', 't', 'o', ' ']);
            assert(ws_normal(e));
            assert(no_curly(e));
            assert(digit_emit(c, i + 1) == seq![c[i + 1]]);
        } else if between_digits(c, i, ',') {
            assert(e =~= Seq::<char>::empty());
            assert(ws_normal(e));
            assert(no_curly(e));
        } else {
            assert(is_white(c[i]) ==> c[i] == ' ');
            assert(!is_curly(c[i]));
            assert(ws_normal(e));
            assert(no_curly(e));
            if o2.len() > 0 && is_white(o2[0]) && is_white(c[i]) {
                assert(is_white(c[i + 1]));
            }
        }
        lemma_ws_concat(e, o2);
        lemma_curly_concat(e, o2);
    }
}

/// A dash or a comma.
spec fn is_sep(ch: char) -> bool {
    ch == '-' || ch == ','
}

/// From position `i` on, the rewritten text has no dash or comma between
/// digits, taking `c[i - 1]` as the character before it.
spec fn seps_free_from(c: Seq<char>, i: int) -> bool {
    forall|p: int|
        0 <= p && p + 1 < digits_from(c, i).len() && is_sep(#[trigger] digits_from(c, i)[p])
            && is_digit(digits_from(c, i)[p + 1]) ==> !(if p == 0 {
            i > 0 && i - 1 < c.len() && is_digit(c[i - 1])
        } else {
            is_digit(digits_from(c, i)[p - 1])
        })
}

proof fn lemma_digits_seps(c: Seq<char>, i: int)
    requires
        0 <= i,
    ensures
        seps_free_from(c, i),
    decreases c.len() - i,
{
    if i < c.len() {
        lemma_digits_seps(c, i + 1);
        lemma_digits_first(c, i + 1);
        let e = digit_emit(c, i);
        let o2 = digits_from(c, i + 1);
        let o = digits_from(c, i);
        assert(o == e + o2);
        assert forall|p: int|
            0 <= p && p + 1 < o.len() && is_sep(#[trigger] o[p]) && is_digit(o[p + 1]) implies !(
        if p == 0 {
            i > 0 && i - 1 < c.len() && is_digit(c[i - 1])
        } else {
            is_digit(o[p - 1])
        }) by {
            if between_digits(c, i, '-') {
                if p < 4 {
                    assert(o[p] == e[p]);
                } else if p == 4 {
                    assert(o[p - 1] == ' ');
                } else {
                    assert(o[p] == o2[p - 4]);
                    assert(o[p + 1] == o2[p - 3]);
                    assert(o[p - 1] == o2[p - 5]);
                }
            } else if between_digits(c, i, ',') {
                assert(o == o2);
                if p == 0 {
                    assert(digit_emit(c, i + 1) == seq![c[i + 1]]);
                }
            } else {
                if p == 0 {
                    assert(o[0] == c[i]);
                    assert(o[1] == o2[0]);
                } else {
                    assert(o[p] == o2[p - 1]);
                    assert(o[p + 1] == o2[p]);
                    if p > 1 {
                        assert(o[p - 1] == o2[p - 2]);
                    } else {
                        assert(o[0] == c[i]);
                    }
                }
            }
        }
    }
}

proof fn lemma_digits_copies(c: Seq<char>, q: int, a: Seq<char>, t: int, m: int)
    requires
        0 <= q <= c.len(),
        0 <= t,
        0 <= m,
        t + m <= a.len(),
        digits_from(c, q).len() >= m,
        digits_from(c, q).subrange(0, m) == a.subrange(t, t + m),
        forall|x: int| t <= x < t + m ==> is_letter(#[trigger] a[x]) || a[x] == '.',
    ensures
        q + m <= c.len(),
        c.subrange(q, q + m) == a.subrange(t, t + m),
    decreases m,
{
    if m > 0 {
        let o = digits_from(c, q);
        lemma_digits_first(c, q);
        assert(o.subrange(0, m)[0] == a.subrange(t, t + m)[0]);
        assert(o[0] == a[t]);
        if is_letter(a[t]) {
            lemma_letter(a[t]);
        }
        assert(digit_emit(c, q) == seq![c[q]]);
        assert(c[q] == a[t]);
        let o2 = digits_from(c, q + 1);
        assert(o == seq![c[q]] + o2);
        if m > 1 {
            assert(o2.subrange(0, m - 1) =~= o.subrange(1, m));
            assert(o.subrange(1, m) =~= o.subrange(0, m).subrange(1, m));
            assert(a.subrange(t + 1, t + m) =~= a.subrange(t, t + m).subrange(1, m));
            assert(o2.subrange(0, m - 1) == a.subrange(t + 1, t + m));
            lemma_digits_copies(c, q + 1, a, t + 1, m - 1);
        }
        assert forall|x: int| 0 <= x < m implies #[trigger] c.subrange(q, q + m)[x] == a.subrange(
            t,
            t + m,
        )[x] by {
            if x > 0 {
                assert(c.subrange(q + 1, q + m)[x - 1] == a.subrange(t + 1, t + m)[x - 1]);
            }
        }
        assert(c.subrange(q, q + m) =~= a.subrange(t, t + m));
    }
}

/// From position `i` on, the rewritten text holds no abbreviation that would
/// be expanded, taking `c[i - 1]` as the character before it.
spec fn abbr_free_digits(c: Seq<char>, i: int) -> bool {
    forall|p: int|
        0 <= p < digits_from(c, i).len() && (if p == 0 {
            word_start(c, i)
        } else {
            !is_word(digits_from(c, i)[p - 1])
        }) ==> #[trigger] abbreviation_at_from(digits_from(c, i), p, 0) is None
}

proof fn lemma_digits_abbr(c: Seq<char>, i: int)
    requires
        no_abbr(c),
        0 <= i,
    ensures
        abbr_free_digits(c, i),
    decreases c.len() - i,
{
    if i < c.len() {
        lemma_digits_abbr(c, i + 1);
        let e = digit_emit(c, i);
        let o2 = digits_from(c, i + 1);
        let o = digits_from(c, i);
        assert(o == e + o2);
        assert forall|p: int|
            0 <= p < o.len() && (if p == 0 {
                word_start(c, i)
            } else {
                !is_word(o[p - 1])
            }) implies #[trigger] abbreviation_at_from(o, p, 0) is None by {
            lemma_none_from(o, p, 0);
            if between_digits(c, i, '-') {
                if p < 4 {
                    assert(o[p] == e[p]);
                    assert forall|k2: int| 0 <= k2 < 9 implies !occurs_at(
                        o,
                        p,
                        #[trigger] abbreviation(k2),
                    ) by {
                        let a = abbreviation(k2);
                        lemma_abbreviation_shape(k2);
                        lemma_letter(a[0]);
                        if occurs_at(o, p, a) {
                            assert(o.subrange(p, p + a.len())[0] == o[p]);
                        }
                    }
                } else {
                    let p2 = p - 4;
                    if p2 > 0 {
                        assert(o[p - 1] == o2[p2 - 1]);
                    }
                    lemma_shift(e, o2, p2, 0);
                }
            } else if between_digits(c, i, ',') {
                assert(o == o2);
                if p > 0 {
                    assert(o[p - 1] == o2[p - 1]);
                }
            } else {
                if p == 0 {
                    assert(abbreviation_at(c, i) is None);
                    lemma_none_from(c, i, 0);
                    assert forall|k2: int| 0 <= k2 < 9 implies !occurs_at(
                        o,
                        0,
                        #[trigger] abbreviation(k2),
                    ) by {
                        let a = abbreviation(k2);
                        lemma_abbreviation_shape(k2);
                        if occurs_at(o, 0, a) {
                            assert forall|x: int| 0 <= x < a.len() implies is_letter(
                                #[trigger] a[x],
                            ) || a[x] == '.' by {
                                if x < a.len() - 1 {
                                    assert(is_letter(a[x]));
                                }
                            }
                            assert(o.subrange(0, a.len() as int) =~= a.subrange(0, a.len() as int));
                            lemma_digits_copies(c, i, a, 0, a.len() as int);
                            assert(c.subrange(i, i + a.len()) =~= a);
                            assert(occurs_at(c, i, a));
                        }
                    }
                } else {
                    let p2 = p - 1;
                    if p2 == 0 {
                        assert(o[0] == c[i]);
                    } else {
                        assert(o[p - 1] == o2[p2 - 1]);
                    }
                    lemma_shift(e, o2, p2, 0);
                }
            }
        }
    }
}

proof fn lemma_digits_normal(c: Seq<char>)
    requires
        ws_normal(c),
        no_curly(c),
        no_abbr(c),
    ensures
        ws_normal(digits_spec(c)),
        no_curly(digits_spec(c)),
        no_abbr(digits_spec(c)),
        no_digit_seps(digits_spec(c)),
{
    lemma_digits_local(c, 0);
    lemma_digits_seps(c, 0);
    lemma_digits_abbr(c, 0);
    let o = digits_spec(c);
    assert forall|i: int| 0 <= i < o.len() implies #[trigger] abbreviation_at(o, i) is None by {
        if i > 0 && !is_word(o[i - 1]) {
            assert(abbreviation_at_from(o, i, 0) is None);
        } else if i == 0 {
            assert(word_start(c, 0));
            assert(abbreviation_at_from(o, 0, 0) is None);
        }
    }
    assert forall|i: int| 0 <= i < o.len() implies #[trigger] digit_emit(o, i) == seq![o[i]] by {
        if between_digits(o, i, '-') || between_digits(o, i, ',') {
            assert(is_sep(o[i]));
        }
    }
}

// ------------------------------------------------------------ trimming
/// Whitespace characters that trimming removes from the front of `e`.
spec fn trim_lead(e: Seq<char>) -> int {
    if e.len() > 0 && is_white(e[0]) {
        1
    } else {
        0
    }
}

/// Whitespace characters that trimming removes from the back of `e`.
spec fn trim_trail(e: Seq<char>) -> int {
    let f = e.subrange(trim_lead(e), e.len() as int);
    if f.len() > 0 && is_white(f.last()) {
        1
    } else {
        0
    }
}

proof fn lemma_trim_shape(e: Seq<char>)
    requires
        ws_normal(e),
    ensures
        ({
            let a = trim_lead(e);
            let b = trim_trail(e);
            &&& a <= e.len() - b
            &&& a == 1 ==> is_white(e[0])
            &&& b == 1 ==> is_white(e[e.len() - 1])
            &&& trim_spec(e) == e.subrange(a, e.len() - b)
            &&& e.len() - b > a ==> !is_white(e[a]) && !is_white(e[e.len() - b - 1])
        }),
{
    let n = e.len() as int;
    let a = trim_lead(e);
    let f = e.subrange(a, n);
    if a == 1 {
        if n > 1 {
            assert(is_white(e[1]) ==> !is_white(e[0]));
            assert(f.subrange(1, f.len() as int) == e.subrange(2, n));
        }
        assert(trim_start_spec(e.subrange(1, n)) == f);
        assert(trim_start_spec(e) == f);
    } else {
        assert(e.subrange(0, n) == e);
        assert(trim_start_spec(e) == f);
    }
    let b = trim_trail(e);
    let g = f.subrange(0, f.len() - b);
    if b == 1 {
        if f.len() > 1 {
            assert(f[f.len() - 2] == e[n - 2]);
            assert(f.last() == e[n - 1]);
            assert(is_white(e[n - 1]) ==> !is_white(e[n - 2]));
            assert(g.drop_last() == f.subrange(0, f.len() - 2));
        }
        assert(f.drop_last() == g);
        assert(trim_end_spec(g) == g);
        assert(trim_end_spec(f) == g);
    } else {
        assert(f.subrange(0, f.len() as int) == f);
        assert(trim_end_spec(f) == g);
    }
    assert(g == e.subrange(a, n - b));
    if n - b > a {
        assert(g[0] == e[a]);
        assert(g.last() == e[n - b - 1]);
        if a == 1 {
            assert(is_white(e[1]) ==> !is_white(e[0]));
        }
        if b == 1 && f.len() > 0 {
            assert(f.last() == e[n - 1]);
            assert(is_white(e[n - 1]) ==> !is_white(e[n - 2]));
        }
        if b == 0 && f.len() > 0 {
            assert(f.last() == e[n - 1]);
        }
    }
    if b == 1 {
        assert(f.last() == e[n - 1]);
    }
}

proof fn lemma_trim_normal(e: Seq<char>)
    requires
        ws_normal(e),
        no_curly(e),
        no_abbr(e),
        no_digit_seps(e),
    ensures
        is_normal(trim_spec(e)),
{
    lemma_trim_shape(e);
    let a = trim_lead(e);
    let b = trim_trail(e);
    let u = trim_spec(e);
    assert forall|i: int| 0 <= i < u.len() && #[trigger] is_white(u[i]) implies u[i] == ' ' && (i
        == 0 || !is_white(u[i - 1])) by {
        assert(u[i] == e[a + i]);
        assert(is_white(e[a + i]));
        if i > 0 {
            assert(u[i - 1] == e[a + i - 1]);
        }
    }
    assert forall|i: int| 0 <= i < u.len() implies !is_curly(#[trigger] u[i]) by {
        assert(u[i] == e[a + i]);
    }
    assert forall|i: int| 0 <= i < u.len() implies #[trigger] digit_emit(u, i) == seq![u[i]] by {
        assert(u[i] == e[a + i]);
        assert(digit_emit(e, a + i) == seq![e[a + i]]);
        if i > 0 && i + 1 < u.len() {
            assert(u[i - 1] == e[a + i - 1]);
            assert(u[i + 1] == e[a + i + 1]);
        }
    }
    assert forall|i: int| 0 <= i < u.len() implies #[trigger] abbreviation_at(u, i) is None by {
        assert(abbreviation_at(e, a + i) is None);
        if word_start(u, i) {
            if i > 0 {
                assert(u[i - 1] == e[a + i - 1]);
            } else if a == 1 {
                assert(e[0] == ' ');
            }
            assert(word_start(e, a + i));
            lemma_none_from(e, a + i, 0);
            lemma_none_from(u, i, 0);
            assert forall|k: int| 0 <= k < 9 implies !occurs_at(u, i, #[trigger] abbreviation(k)) by {
                let p = abbreviation(k);
                if occurs_at(u, i, p) {
                    assert(e.subrange(a + i, a + i + p.len()) =~= u.subrange(i, i + p.len()));
                    assert(occurs_at(e, a + i, p));
                }
            }
        }
    }
}

/// Normalizing a normal form changes nothing: for every text `t`,
/// `normalize(normalize(t)) == normalize(t)`.
pub proof fn lemma_normalize_idempotent(t: Seq<char>)
    ensures
        normalized(normalized(t)) == normalized(t),
{
    let a = collapse_ws(t);
    lemma_collapse_normal(t);
    let b = fold_quotes_spec(a);
    lemma_fold_normal(a);
    let c = expand_spec(b);
    lemma_expand_normal(b);
    let d = digits_spec(c);
    lemma_digits_normal(c);
    lemma_trim_normal(d);
    lemma_normal_is_fixed(trim_spec(d));
}

} // verus!
