use vstd::prelude::*;

use crate::token::TokenModel;
use crate::model::{
    is_ws, is_letter, is_digit, is_ident_cont, is_suffix_cont, ident_end, suffix_end, digits_end,
    qual_end, groups_end, num_end, op2_token, op1_token, op_len, token_starts, err_end, word_token,
    step_len, step_out, StepOut, lex_all, lemma_digits_end_bounds, lemma_step_len_bounds,
};

verus! {

// ---------------------------------------------------------------------------
// Agreement: two inputs that spell the same w characters from two positions,
// where either both inputs end right after the window or the window ends in
// whitespace. No scan that starts inside the window looks past it.
// ---------------------------------------------------------------------------

pub open spec fn agree(s1: Seq<char>, i1: int, s2: Seq<char>, i2: int, w: int) -> bool {
    &&& 0 <= i1 && i1 + w <= s1.len()
    &&& 0 <= i2 && i2 + w <= s2.len()
    &&& 0 <= w
    &&& (forall|k: int| 0 <= k < w ==> #[trigger] s1[i1 + k] == s2[i2 + k])
    &&& ((i1 + w == s1.len() && i2 + w == s2.len()) || (w >= 1 && is_ws(s1[i1 + w - 1])))
}

proof fn lemma_agree_shift(s1: Seq<char>, i1: int, s2: Seq<char>, i2: int, w: int, d: int)
    requires
        agree(s1, i1, s2, i2, w),
        0 <= d <= w,
        w >= 1 && is_ws(s1[i1 + w - 1]) && d == w ==> false,
    ensures
        agree(s1, i1 + d, s2, i2 + d, w - d),
{
    assert forall|k: int| 0 <= k < w - d implies #[trigger] s1[(i1 + d) + k] == s2[(i2 + d) + k] by {
        assert(s1[i1 + (d + k)] == s2[i2 + (d + k)]);
    }
    if !(i1 + w == s1.len() && i2 + w == s2.len()) {
        assert(w >= 1 && is_ws(s1[i1 + w - 1]));
        assert(d < w);
        assert(w - d >= 1 && is_ws(s1[(i1 + d) + (w - d) - 1]));
    }
}

// ---------------------------------------------------------------------------
// The character runs agree
// ---------------------------------------------------------------------------

proof fn lemma_ident_end_agree(s1: Seq<char>, i1: int, s2: Seq<char>, i2: int, w: int)
    requires
        agree(s1, i1, s2, i2, w),
    ensures
        ident_end(s1, i1) - i1 == ident_end(s2, i2) - i2,
        i1 <= ident_end(s1, i1) <= i1 + w,
        w >= 1 && is_ws(s1[i1 + w - 1]) ==> ident_end(s1, i1) <= i1 + w - 1,
    decreases w,
{
    if w == 0 {
        assert(i1 == s1.len() && i2 == s2.len());
    } else {
        assert(s1[i1 + 0] == s2[i2 + 0]);
        if is_ident_cont(s1[i1]) {
            assert(!is_ws(s1[i1]));
            lemma_agree_shift(s1, i1, s2, i2, w, 1);
            lemma_ident_end_agree(s1, i1 + 1, s2, i2 + 1, w - 1);
        }
    }
}

proof fn lemma_suffix_end_agree(s1: Seq<char>, i1: int, s2: Seq<char>, i2: int, w: int)
    requires
        agree(s1, i1, s2, i2, w),
    ensures
        suffix_end(s1, i1) - i1 == suffix_end(s2, i2) - i2,
        i1 <= suffix_end(s1, i1) <= i1 + w,
        w >= 1 && is_ws(s1[i1 + w - 1]) ==> suffix_end(s1, i1) <= i1 + w - 1,
    decreases w,
{
    if w == 0 {
        assert(i1 == s1.len() && i2 == s2.len());
    } else {
        assert(s1[i1 + 0] == s2[i2 + 0]);
        if is_suffix_cont(s1[i1]) {
            assert(!is_ws(s1[i1]));
            lemma_agree_shift(s1, i1, s2, i2, w, 1);
            lemma_suffix_end_agree(s1, i1 + 1, s2, i2 + 1, w - 1);
        }
    }
}

proof fn lemma_digits_end_agree(s1: Seq<char>, i1: int, s2: Seq<char>, i2: int, w: int)
    requires
        agree(s1, i1, s2, i2, w),
    ensures
        digits_end(s1, i1) - i1 == digits_end(s2, i2) - i2,
        i1 <= digits_end(s1, i1) <= i1 + w,
        w >= 1 && is_ws(s1[i1 + w - 1]) ==> digits_end(s1, i1) <= i1 + w - 1,
    decreases w,
{
    if w == 0 {
        assert(i1 == s1.len() && i2 == s2.len());
    } else {
        assert(s1[i1 + 0] == s2[i2 + 0]);
        if is_digit(s1[i1]) {
            assert(!is_ws(s1[i1]));
            lemma_agree_shift(s1, i1, s2, i2, w, 1);
            lemma_digits_end_agree(s1, i1 + 1, s2, i2 + 1, w - 1);
        }
    }
}

// ---------------------------------------------------------------------------
// Operators, qualified suffixes, numbers and error runs agree
// ---------------------------------------------------------------------------

proof fn lemma_op_agree(s1: Seq<char>, i1: int, s2: Seq<char>, i2: int, w: int)
    requires
        agree(s1, i1, s2, i2, w),
        w >= 1,
    ensures
        op_len(s1, i1) == op_len(s2, i2),
        op_len(s1, i1) == 2 ==> op2_token(s1[i1], s1[i1 + 1]) == op2_token(s2[i2], s2[i2 + 1]),
        token_starts(s1, i1) == token_starts(s2, i2),
{
    assert(s1[i1 + 0] == s2[i2 + 0]);
    if w >= 2 {
        assert(s1[i1 + 1] == s2[i2 + 1]);
    } else {
        // w == 1: either both inputs end after this character, or it is the
        // whitespace closing the window; either way no two-character operator
        // can match on either side.
        if i1 + 1 == s1.len() && i2 + 1 == s2.len() {
        } else {
            assert(is_ws(s1[i1]));
            assert(op1_token(s1[i1]) is None);
            if i1 + 1 < s1.len() {
                assert(op2_token(s1[i1], s1[i1 + 1]) is None);
            }
            if i2 + 1 < s2.len() {
                assert(op2_token(s2[i2], s2[i2 + 1]) is None);
            }
        }
    }
}

proof fn lemma_qual_end_agree(s1: Seq<char>, i1: int, s2: Seq<char>, i2: int, w: int)
    requires
        agree(s1, i1, s2, i2, w),
    ensures
        qual_end(s1, i1) - i1 == qual_end(s2, i2) - i2,
        i1 <= qual_end(s1, i1) <= i1 + w,
        w >= 1 && is_ws(s1[i1 + w - 1]) ==> qual_end(s1, i1) <= i1 + w - 1,
    decreases w,
{
    if w == 0 {
        assert(i1 == s1.len() && i2 == s2.len());
    } else {
        assert(s1[i1 + 0] == s2[i2 + 0]);
        if w >= 2 {
            assert(s1[i1 + 1] == s2[i2 + 1]);
        }
        let go1 = i1 + 1 < s1.len() && s1[i1] == '.' && is_letter(s1[i1 + 1]);
        let go2 = i2 + 1 < s2.len() && s2[i2] == '.' && is_letter(s2[i2 + 1]);
        if w == 1 {
            // the single window character is either the final character of
            // both inputs or whitespace; in neither case is it a dot opening
            // a suffix on exactly one side
            if i1 + 1 == s1.len() && i2 + 1 == s2.len() {
                assert(!go1 && !go2);
            } else {
                assert(is_ws(s1[i1]));
                assert(s1[i1] != '.');
                assert(!go1 && !go2);
            }
        }
        if go1 {
            assert(go2);
            assert(w >= 2);
            assert(!is_ws(s1[i1 + 1]));
            assert(w >= 3 || !(w >= 1 && is_ws(s1[i1 + w - 1])));
            lemma_agree_shift(s1, i1, s2, i2, w, 2);
            lemma_suffix_end_agree(s1, i1 + 2, s2, i2 + 2, w - 2);
            let e1 = suffix_end(s1, i1 + 2);
            let e2 = suffix_end(s2, i2 + 2);
            assert(e1 - i1 == e2 - i2);
            lemma_agree_shift(s1, i1, s2, i2, w, e1 - i1);
            lemma_qual_end_agree(s1, e1, s2, e2, w - (e1 - i1));
        } else {
            assert(!go2);
        }
    }
}

proof fn lemma_groups_end_agree(s1: Seq<char>, i1: int, s2: Seq<char>, i2: int, w: int)
    requires
        agree(s1, i1, s2, i2, w),
    ensures
        groups_end(s1, i1) - i1 == groups_end(s2, i2) - i2,
        i1 <= groups_end(s1, i1) <= i1 + w,
        w >= 1 && is_ws(s1[i1 + w - 1]) ==> groups_end(s1, i1) <= i1 + w - 1,
    decreases w,
{
    if w == 0 {
        assert(i1 == s1.len() && i2 == s2.len());
    } else {
        assert(s1[i1 + 0] == s2[i2 + 0]);
        if w >= 2 {
            assert(s1[i1 + 1] == s2[i2 + 1]);
        }
        let go1 = i1 + 1 < s1.len() && s1[i1] == '_' && is_digit(s1[i1 + 1]);
        let go2 = i2 + 1 < s2.len() && s2[i2] == '_' && is_digit(s2[i2 + 1]);
        if w == 1 {
            if i1 + 1 == s1.len() && i2 + 1 == s2.len() {
                assert(!go1 && !go2);
            } else {
                assert(is_ws(s1[i1]));
                assert(s1[i1] != '_');
                assert(!go1 && !go2);
            }
        }
        if go1 {
            assert(go2);
            assert(w >= 2);
            assert(!is_ws(s1[i1]));
            lemma_agree_shift(s1, i1, s2, i2, w, 1);
            lemma_digits_end_agree(s1, i1 + 1, s2, i2 + 1, w - 1);
            let e1 = digits_end(s1, i1 + 1);
            let e2 = digits_end(s2, i2 + 1);
            assert(e1 - i1 == e2 - i2);
            assert(digits_end(s1, i1 + 1) == digits_end(s1, i1 + 2));
            lemma_digits_end_bounds(s1, i1 + 2);
            assert(e1 >= i1 + 2);
            lemma_agree_shift(s1, i1, s2, i2, w, e1 - i1);
            lemma_groups_end_agree(s1, e1, s2, e2, w - (e1 - i1));
        } else {
            assert(!go2);
        }
    }
}

proof fn lemma_num_end_agree(s1: Seq<char>, i1: int, s2: Seq<char>, i2: int, w: int)
    requires
        agree(s1, i1, s2, i2, w),
    ensures
        num_end(s1, i1) - i1 == num_end(s2, i2) - i2,
        i1 <= num_end(s1, i1) <= i1 + w,
        w >= 1 && is_ws(s1[i1 + w - 1]) ==> num_end(s1, i1) <= i1 + w - 1,
{
    lemma_digits_end_agree(s1, i1, s2, i2, w);
    let d1 = digits_end(s1, i1);
    let d2 = digits_end(s2, i2);
    lemma_agree_shift(s1, i1, s2, i2, w, d1 - i1);
    lemma_groups_end_agree(s1, d1, s2, d2, w - (d1 - i1));
    let j1 = groups_end(s1, d1);
    let j2 = groups_end(s2, d2);
    assert(j1 - i1 == j2 - i2);
    if j1 - i1 < w {
        assert(s1[i1 + (j1 - i1)] == s2[i2 + (j1 - i1)]);
        assert(s1[j1] == s2[j2]);
    }
    let go1 = j1 + 1 < s1.len() && 0 <= j1 && s1[j1] == '.' && is_digit(s1[j1 + 1]);
    let go2 = j2 + 1 < s2.len() && 0 <= j2 && s2[j2] == '.' && is_digit(s2[j2 + 1]);
    if j1 - i1 == w {
        // the window is exhausted, so both inputs end here
        assert(i1 + w == s1.len() && i2 + w == s2.len());
        assert(!go1 && !go2);
    } else if j1 - i1 == w - 1 && w >= 1 && is_ws(s1[i1 + w - 1]) {
        // j1 sits on the closing whitespace, which is not a dot
        assert(s1[j1] != '.');
        assert(!go1 && !go2);
    } else if j1 - i1 == w - 1 {
        assert(i1 + w == s1.len() && i2 + w == s2.len());
        assert(!go1 && !go2);
    } else {
        assert(j1 - i1 + 1 < w);
        assert(s1[i1 + (j1 - i1 + 1)] == s2[i2 + (j1 - i1 + 1)]);
        assert(s1[j1 + 1] == s2[j2 + 1]);
        assert(go1 == go2);
        if go1 {
            assert(!is_ws(s1[j1]) && !is_ws(s1[j1 + 1]));
            lemma_agree_shift(s1, i1, s2, i2, w, j1 + 1 - i1);
            lemma_digits_end_agree(s1, j1 + 1, s2, j2 + 1, w - (j1 + 1 - i1));
            let f1 = digits_end(s1, j1 + 1);
            let f2 = digits_end(s2, j2 + 1);
            lemma_agree_shift(s1, i1, s2, i2, w, f1 - i1);
            lemma_groups_end_agree(s1, f1, s2, f2, w - (f1 - i1));
        }
    }
}

proof fn lemma_err_end_agree(s1: Seq<char>, i1: int, s2: Seq<char>, i2: int, w: int)
    requires
        agree(s1, i1, s2, i2, w),
    ensures
        err_end(s1, i1) - i1 == err_end(s2, i2) - i2,
        i1 <= err_end(s1, i1) <= i1 + w,
        w >= 1 && is_ws(s1[i1 + w - 1]) ==> err_end(s1, i1) <= i1 + w - 1,
    decreases w,
{
    if w == 0 {
        assert(i1 == s1.len() && i2 == s2.len());
    } else {
        lemma_op_agree(s1, i1, s2, i2, w);
        assert(s1[i1 + 0] == s2[i2 + 0]);
        if !token_starts(s1, i1) {
            assert(!is_ws(s1[i1]));
            lemma_agree_shift(s1, i1, s2, i2, w, 1);
            lemma_err_end_agree(s1, i1 + 1, s2, i2 + 1, w - 1);
        }
    }
}

// ---------------------------------------------------------------------------
// Whole steps agree
// ---------------------------------------------------------------------------

proof fn lemma_slice_agree(s1: Seq<char>, i1: int, s2: Seq<char>, i2: int, w: int, l: int)
    requires
        agree(s1, i1, s2, i2, w),
        0 <= l <= w,
    ensures
        s1.subrange(i1, i1 + l) == s2.subrange(i2, i2 + l),
{
    assert forall|k: int| 0 <= k < l implies #[trigger] s1.subrange(i1, i1 + l)[k] == s2.subrange(
        i2,
        i2 + l,
    )[k] by {
        assert(s1[i1 + k] == s2[i2 + k]);
    }
    assert(s1.subrange(i1, i1 + l) =~= s2.subrange(i2, i2 + l));
}

proof fn lemma_step_agree(s1: Seq<char>, i1: int, s2: Seq<char>, i2: int, w: int)
    requires
        agree(s1, i1, s2, i2, w),
        w >= 1,
    ensures
        step_len(s1, i1) == step_len(s2, i2),
        1 <= step_len(s1, i1) <= w,
        is_ws(s1[i1 + w - 1]) && !is_ws(s1[i1]) ==> step_len(s1, i1) <= w - 1,
        step_out(s1, i1) == step_out(s2, i2),
{
    assert(s1[i1 + 0] == s2[i2 + 0]);
    lemma_op_agree(s1, i1, s2, i2, w);
    lemma_step_len_bounds(s1, i1);
    lemma_step_len_bounds(s2, i2);
    if is_ws(s1[i1]) {
    } else if is_letter(s1[i1]) {
        lemma_agree_shift(s1, i1, s2, i2, w, 1);
        lemma_ident_end_agree(s1, i1 + 1, s2, i2 + 1, w - 1);
        let b1 = ident_end(s1, i1 + 1);
        let b2 = ident_end(s2, i2 + 1);
        lemma_agree_shift(s1, i1, s2, i2, w, b1 - i1);
        lemma_qual_end_agree(s1, b1, s2, b2, w - (b1 - i1));
        let e1 = qual_end(s1, b1);
        let e2 = qual_end(s2, b2);
        assert(e1 - i1 == e2 - i2);
        lemma_slice_agree(s1, i1, s2, i2, w, e1 - i1);
        assert(s1.subrange(i1, e1) == s2.subrange(i2, e2));
        assert(word_token(s1, i1) == word_token(s2, i2));
    } else if is_digit(s1[i1]) {
        lemma_num_end_agree(s1, i1, s2, i2, w);
        let e1 = num_end(s1, i1);
        lemma_slice_agree(s1, i1, s2, i2, w, e1 - i1);
        assert(s1.subrange(i1, e1) == s2.subrange(i2, i2 + (e1 - i1)));
    } else if op_len(s1, i1) == 2 {
        // a two-character operator never ends at the closing whitespace
        if w >= 2 && is_ws(s1[i1 + w - 1]) && w == 2 {
            assert(is_ws(s1[i1 + 1]));
            assert(op2_token(s1[i1], s1[i1 + 1]) is None);
        }
    } else if op_len(s1, i1) == 1 {
    } else {
        lemma_err_end_agree(s1, i1, s2, i2, w);
        let e1 = err_end(s1, i1);
        lemma_slice_agree(s1, i1, s2, i2, w, e1 - i1);
        assert(s1.subrange(i1, e1) == s2.subrange(i2, i2 + (e1 - i1)));
    }
}

// ---------------------------------------------------------------------------
// Lexing agrees on equal suffixes, and splits at whitespace
// ---------------------------------------------------------------------------

proof fn lemma_lex_suffix_agree(s1: Seq<char>, i1: int, s2: Seq<char>, i2: int)
    requires
        0 <= i1 <= s1.len(),
        0 <= i2 <= s2.len(),
        s1.len() - i1 == s2.len() - i2,
        forall|k: int| 0 <= k < s1.len() - i1 ==> #[trigger] s1[i1 + k] == s2[i2 + k],
    ensures
        lex_all(s1, i1).toks == lex_all(s2, i2).toks,
        lex_all(s1, i1).errs == lex_all(s2, i2).errs,
    decreases s1.len() - i1,
{
    let w = s1.len() - i1;
    if w > 0 {
        assert(agree(s1, i1, s2, i2, w));
        lemma_step_agree(s1, i1, s2, i2, w);
        let n = step_len(s1, i1);
        assert forall|k: int| 0 <= k < s1.len() - (i1 + n) implies #[trigger] s1[(i1 + n) + k]
            == s2[(i2 + n) + k] by {
            assert(s1[i1 + (n + k)] == s2[i2 + (n + k)]);
        }
        lemma_lex_suffix_agree(s1, i1 + n, s2, i2 + n);
    }
}

proof fn lemma_lex_split(s1: Seq<char>, i1: int, s2: Seq<char>, i2: int, w: int)
    requires
        0 <= i1,
        i1 + w <= s1.len(),
        0 <= i2,
        i2 + w == s2.len(),
        1 <= w,
        forall|k: int| 0 <= k < w ==> #[trigger] s1[i1 + k] == s2[i2 + k],
        is_ws(s1[i1 + w - 1]),
    ensures
        lex_all(s1, i1).toks == lex_all(s2, i2).toks + lex_all(s1, i1 + w).toks,
        lex_all(s1, i1).errs == lex_all(s2, i2).errs + lex_all(s1, i1 + w).errs,
    decreases w,
{
    assert(agree(s1, i1, s2, i2, w));
    lemma_step_agree(s1, i1, s2, i2, w);
    let n = step_len(s1, i1);
    if n == w {
        // only a whitespace step can reach the closing whitespace itself
        assert(is_ws(s1[i1]));
        assert(n == 1);
        assert(step_len(s2, i2) == 1);
        assert(step_out(s2, i2) is Skip);
        assert(lex_all(s2, i2 + 1).toks =~= Seq::<TokenModel>::empty());
        assert(lex_all(s2, i2 + 1).errs =~= Seq::<Seq<char>>::empty());
        assert(lex_all(s2, i2).toks =~= Seq::<TokenModel>::empty());
        assert(lex_all(s2, i2).errs =~= Seq::<Seq<char>>::empty());
        assert(lex_all(s1, i1).toks =~= lex_all(s2, i2).toks + lex_all(s1, i1 + w).toks);
        assert(lex_all(s1, i1).errs =~= lex_all(s2, i2).errs + lex_all(s1, i1 + w).errs);
    } else {
        assert forall|k: int| 0 <= k < w - n implies #[trigger] s1[(i1 + n) + k] == s2[(i2 + n)
            + k] by {
            assert(s1[i1 + (n + k)] == s2[i2 + (n + k)]);
        }
        assert(is_ws(s1[(i1 + n) + (w - n) - 1]));
        lemma_lex_split(s1, i1 + n, s2, i2 + n, w - n);
        match step_out(s1, i1) {
            StepOut::Skip => {},
            StepOut::Emit(t) => {
                assert(seq![t] + (lex_all(s2, i2 + n).toks + lex_all(s1, i1 + w).toks) =~= (seq![t]
                    + lex_all(s2, i2 + n).toks) + lex_all(s1, i1 + w).toks);
            },
            StepOut::Report(r) => {
                assert(seq![r] + (lex_all(s2, i2 + n).errs + lex_all(s1, i1 + w).errs) =~= (seq![r]
                    + lex_all(s2, i2 + n).errs) + lex_all(s1, i1 + w).errs);
            },
        }
    }
}

// ---------------------------------------------------------------------------
// Error locality
// ---------------------------------------------------------------------------

/// A character at which no token can ever start, whatever follows it: not
/// whitespace, not a letter or digit, not a single-character token, and not
/// `!` (which opens a token exactly when `=` follows).
pub open spec fn unmatched_char(c: char) -> bool {
    &&& !is_ws(c)
    &&& !is_letter(c)
    &&& !is_digit(c)
    &&& op1_token(c) is None
    &&& c != '!'
}

proof fn lemma_unmatched_not_start(s: Seq<char>, p: int)
    requires
        0 <= p < s.len(),
        unmatched_char(s[p]),
    ensures
        !token_starts(s, p),
{
    if p + 1 < s.len() {
        assert(op2_token(s[p], s[p + 1]) is None);
    }
}

proof fn lemma_err_run(s: Seq<char>, i: int, j: int)
    requires
        0 <= i <= j <= s.len(),
        forall|k: int| i <= k < j ==> !(#[trigger] token_starts(s, k)),
        j == s.len() || token_starts(s, j),
    ensures
        err_end(s, i) == j,
    decreases j - i,
{
    if i < j {
        assert(!token_starts(s, i));
        lemma_err_run(s, i + 1, j);
    }
}

/// Error locality: an unmatched span in the middle of an otherwise untouched
/// input, set off by whitespace, corrupts nothing. The tokens are exactly
/// those of the input with the span removed; the span itself is reported as
/// exactly one additional error, in order between the errors of the part
/// before it and the part after it.
pub proof fn lemma_error_locality(u: Seq<char>, e: Seq<char>, v: Seq<char>)
    requires
        u.len() == 0 || is_ws(u.last()),
        e.len() >= 1,
        forall|k: int| 0 <= k < e.len() ==> unmatched_char(#[trigger] e[k]),
        v.len() == 0 || is_ws(v[0]),
    ensures
        lex_all(u + e + v, 0).toks == lex_all(u + v, 0).toks,
        lex_all(u + e + v, 0).errs == lex_all(u, 0).errs + seq![e] + lex_all(v, 0).errs,
        lex_all(u + v, 0).toks == lex_all(u, 0).toks + lex_all(v, 0).toks,
        lex_all(u + v, 0).errs == lex_all(u, 0).errs + lex_all(v, 0).errs,
{
    let s1 = u + e + v;
    let s2 = u + v;
    let m = u.len() as int;
    let el = e.len() as int;
    assert(s1.len() == m + el + v.len());
    assert(s2.len() == m + v.len());

    // the span is one error step of s1
    assert forall|p: int| m <= p < m + el implies !(#[trigger] token_starts(s1, p)) by {
        assert(s1[p] == e[p - m]);
        assert(unmatched_char(e[p - m]));
        lemma_unmatched_not_start(s1, p);
    }
    if v.len() > 0 {
        assert(s1[m + el] == v[0]);
        assert(is_ws(s1[m + el]));
        assert(token_starts(s1, m + el));
    }
    lemma_err_run(s1, m, m + el);
    assert(err_end(s1, m) == m + el);
    assert(s1[m] == e[0]);
    assert(!token_starts(s1, m));
    assert(op_len(s1, m) == 0);
    assert(step_len(s1, m) == el);
    assert(s1.subrange(m, m + el) =~= e);
    assert(step_out(s1, m) == StepOut::Report(e));
    lemma_step_len_bounds(s1, m);
    assert(lex_all(s1, m).toks == lex_all(s1, m + el).toks);
    assert(lex_all(s1, m).errs == seq![e] + lex_all(s1, m + el).errs);

    // past the span, s1 continues exactly as v; s2 continues as v from m
    assert forall|k: int| 0 <= k < s1.len() - (m + el) implies #[trigger] s1[(m + el) + k] == v[k
        + 0] by {
        assert(s1[(m + el) + k] == v[k]);
    }
    lemma_lex_suffix_agree(s1, m + el, v, 0);
    assert forall|k: int| 0 <= k < s2.len() - m implies #[trigger] s2[m + k] == v[k + 0] by {
        assert(s2[m + k] == v[k]);
    }
    lemma_lex_suffix_agree(s2, m, v, 0);

    if m == 0 {
        assert(lex_all(u, 0).toks =~= Seq::<TokenModel>::empty());
        assert(lex_all(u, 0).errs =~= Seq::<Seq<char>>::empty());
        assert(s2 =~= v);
        assert(lex_all(s1, 0).toks =~= lex_all(s2, 0).toks);
        assert(lex_all(s1, 0).errs =~= lex_all(u, 0).errs + seq![e] + lex_all(v, 0).errs);
        assert(lex_all(s2, 0).toks =~= lex_all(u, 0).toks + lex_all(v, 0).toks);
        assert(lex_all(s2, 0).errs =~= lex_all(u, 0).errs + lex_all(v, 0).errs);
    } else {
        assert(is_ws(u[m - 1]));
        assert forall|k: int| 0 <= k < m implies #[trigger] s1[0 + k] == u[0 + k] by {
            assert(s1[k] == u[k]);
        }
        assert(is_ws(s1[0 + m - 1]));
        lemma_lex_split(s1, 0, u, 0, m);
        assert forall|k: int| 0 <= k < m implies #[trigger] s2[0 + k] == u[0 + k] by {
            assert(s2[k] == u[k]);
        }
        assert(is_ws(s2[0 + m - 1]));
        lemma_lex_split(s2, 0, u, 0, m);
        assert(lex_all(s1, 0).toks =~= lex_all(s2, 0).toks);
        assert(lex_all(s1, 0).errs =~= lex_all(u, 0).errs + seq![e] + lex_all(v, 0).errs);
        assert(lex_all(s2, 0).toks =~= lex_all(u, 0).toks + lex_all(v, 0).toks);
        assert(lex_all(s2, 0).errs =~= lex_all(u, 0).errs + lex_all(v, 0).errs);
    }
}

} // verus!
