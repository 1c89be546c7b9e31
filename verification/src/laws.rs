use vstd::prelude::*;

use crate::model::{
    is_ws, is_letter, is_digit, is_ident_cont, ident_end, qual_end, op2_token, op1_token, op_len,
    keyword_token, word_token, step_len, step_out, step_slice, StepOut, lex_all, consumed_all,
    consumed_matched, rendered, lemma_ident_end_bounds, lemma_step_len_bounds,
};
use crate::token::{TokenModel, tok_slice};

verus! {

// ---------------------------------------------------------------------------
// Whitespace-only inputs
// ---------------------------------------------------------------------------

proof fn lemma_whitespace_only_from(s: Seq<char>, i: int)
    requires
        0 <= i <= s.len(),
        forall|k: int| i <= k < s.len() ==> is_ws(#[trigger] s[k]),
    ensures
        lex_all(s, i).toks.len() == 0,
        lex_all(s, i).errs.len() == 0,
    decreases s.len() - i,
{
    if i < s.len() {
        assert(is_ws(s[i]));
        lemma_whitespace_only_from(s, i + 1);
    }
}

/// An input consisting solely of whitespace lexes to no tokens and no errors.
pub proof fn lemma_whitespace_only(s: Seq<char>)
    requires
        forall|k: int| 0 <= k < s.len() ==> is_ws(#[trigger] s[k]),
    ensures
        lex_all(s, 0).toks.len() == 0,
        lex_all(s, 0).errs.len() == 0,
{
    lemma_whitespace_only_from(s, 0);
}

// ---------------------------------------------------------------------------
// The error sentinel is never emitted
// ---------------------------------------------------------------------------

/// No step ever emits the `Error` sentinel: emitted tokens are real lexemes,
/// and unmatched slices are reported on the error side only.
pub proof fn lemma_no_error_sentinel(s: Seq<char>, i: int)
    requires
        0 <= i <= s.len(),
    ensures
        forall|k: int|
            0 <= k < lex_all(s, i).toks.len() ==> !(#[trigger] lex_all(s, i).toks[k] is Error),
    decreases s.len() - i,
{
    if i < s.len() {
        lemma_step_len_bounds(s, i);
        lemma_no_error_sentinel(s, i + step_len(s, i));
        match step_out(s, i) {
            StepOut::Emit(t) => {
                assert(!(t is Error));
            },
            _ => {},
        }
    }
}

// ---------------------------------------------------------------------------
// Round trip
// ---------------------------------------------------------------------------

/// The consumed slices of all steps, in order, reassemble the input exactly:
/// accepted lexemes, skipped whitespace and unmatched slices partition it.
pub proof fn lemma_input_reassembly(s: Seq<char>, i: int)
    requires
        0 <= i <= s.len(),
    ensures
        consumed_all(s, i) == s.subrange(i, s.len() as int),
    decreases s.len() - i,
{
    if i < s.len() {
        lemma_step_len_bounds(s, i);
        lemma_input_reassembly(s, i + step_len(s, i));
        assert(consumed_all(s, i) =~= s.subrange(i, s.len() as int));
    } else {
        assert(consumed_all(s, i) =~= s.subrange(i, s.len() as int));
    }
}

proof fn lemma_keyword_slice(w: Seq<char>, t: TokenModel)
    requires
        keyword_token(w) == Some(t),
    ensures
        tok_slice(t) =~= w,
{
}

proof fn lemma_tok_slice_step(s: Seq<char>, i: int, t: TokenModel)
    requires
        0 <= i < s.len(),
        step_out(s, i) == StepOut::Emit(t),
    ensures
        tok_slice(t) == step_slice(s, i),
{
    lemma_step_len_bounds(s, i);
    if is_letter(s[i]) {
        let b = ident_end(s, i + 1);
        let e = qual_end(s, b);
        let w = s.subrange(i, e);
        assert(step_len(s, i) == e - i);
        if e > b {
            assert(tok_slice(t) == w);
        } else {
            match keyword_token(w) {
                Some(k) => {
                    lemma_keyword_slice(w, k);
                },
                None => {
                    assert(tok_slice(t) == w);
                },
            }
        }
        assert(tok_slice(t) =~= step_slice(s, i));
    } else if is_digit(s[i]) {
        assert(tok_slice(t) =~= step_slice(s, i));
    } else if op_len(s, i) == 2 {
        assert(Some(t) == op2_token(s[i], s[i + 1]));
        assert(tok_slice(t) =~= step_slice(s, i));
    } else {
        assert(op_len(s, i) == 1);
        assert(Some(t) == op1_token(s[i]));
        assert(tok_slice(t) =~= step_slice(s, i));
    }
}

/// Round trip: re-rendering the emitted tokens from their own spellings and
/// payloads, with the skipped whitespace put back in place, yields exactly
/// the input with the unmatched spans removed. In particular every token
/// carries its matched slice, and the stream preserves source order.
pub proof fn lemma_round_trip(s: Seq<char>, i: int)
    requires
        0 <= i <= s.len(),
    ensures
        rendered(s, i) == consumed_matched(s, i),
    decreases s.len() - i,
{
    if i < s.len() {
        lemma_step_len_bounds(s, i);
        lemma_round_trip(s, i + step_len(s, i));
        match step_out(s, i) {
            StepOut::Emit(t) => {
                lemma_tok_slice_step(s, i, t);
            },
            _ => {},
        }
    }
}

// ---------------------------------------------------------------------------
// Single-word inputs: keyword priority and identifier closure
// ---------------------------------------------------------------------------

proof fn lemma_ident_end_all(s: Seq<char>, i: int)
    requires
        0 <= i <= s.len(),
        forall|k: int| i <= k < s.len() ==> is_ident_cont(#[trigger] s[k]),
    ensures
        ident_end(s, i) == s.len(),
    decreases s.len() - i,
{
    if i < s.len() {
        assert(is_ident_cont(s[i]));
        lemma_ident_end_all(s, i + 1);
    }
}

/// An input that is one whole identifier-shaped lexeme lexes to exactly one
/// token: the keyword it spells, if any, else an unqualified identifier
/// carrying the input itself.
pub proof fn lemma_single_word(s: Seq<char>)
    requires
        s.len() >= 1,
        is_letter(s[0]),
        forall|k: int| 1 <= k < s.len() ==> is_ident_cont(#[trigger] s[k]),
    ensures
        lex_all(s, 0).toks =~= seq![
            match keyword_token(s) {
                Some(t) => t,
                None => TokenModel::UnqualifiedIdent(s),
            },
        ],
        lex_all(s, 0).errs.len() == 0,
{
    lemma_ident_end_all(s, 1);
    let b = ident_end(s, 1);
    assert(b == s.len());
    assert(qual_end(s, b) == b);
    assert(step_len(s, 0) == s.len());
    assert(s.subrange(0, s.len() as int) =~= s);
    assert(lex_all(s, s.len() as int).toks =~= Seq::<TokenModel>::empty());
    assert(step_out(s, 0) == StepOut::Emit(word_token(s, 0)));
    assert(lex_all(s, 0).toks =~= seq![word_token(s, 0)]);
}

proof fn lemma_keyword_shape(s: Seq<char>, t: TokenModel)
    requires
        keyword_token(s) == Some(t),
    ensures
        s.len() >= 1,
        is_letter(s[0]),
        forall|k: int| 1 <= k < s.len() ==> is_ident_cont(#[trigger] s[k]),
{
    assert forall|k: int| 1 <= k < s.len() implies is_ident_cont(#[trigger] s[k]) by {
        assert(is_letter(s[k]));
    }
}

/// Keyword priority: a keyword spelling, alone, lexes to exactly the
/// singleton sequence of that keyword token, never to an identifier.
pub proof fn lemma_keyword_priority(s: Seq<char>, t: TokenModel)
    requires
        keyword_token(s) == Some(t),
    ensures
        lex_all(s, 0).toks =~= seq![t],
        lex_all(s, 0).errs.len() == 0,
{
    lemma_keyword_shape(s, t);
    lemma_single_word(s);
}

/// Identifier closure: an identifier-shaped lexeme that spells no keyword
/// and contains no dot lexes to exactly one unqualified identifier carrying
/// the lexeme itself.
pub proof fn lemma_identifier_closure(s: Seq<char>)
    requires
        s.len() >= 1,
        is_letter(s[0]),
        forall|k: int| 1 <= k < s.len() ==> is_ident_cont(#[trigger] s[k]),
        keyword_token(s) is None,
    ensures
        lex_all(s, 0).toks =~= seq![TokenModel::UnqualifiedIdent(s)],
        lex_all(s, 0).errs.len() == 0,
{
    lemma_single_word(s);
}

// ---------------------------------------------------------------------------
// Qualified identifier precedence
// ---------------------------------------------------------------------------

/// An input that is one whole qualified-identifier lexeme: a letter-led base
/// run and at least one dotted suffix, reaching the end of the input.
pub open spec fn qualified_shaped(s: Seq<char>) -> bool {
    &&& s.len() >= 1
    &&& is_letter(s[0])
    &&& ident_end(s, 1) < s.len()
    &&& qual_end(s, ident_end(s, 1)) == s.len()
}

/// Qualified-identifier precedence: such an input lexes to exactly one
/// qualified identifier carrying the whole dotted lexeme, never to an
/// identifier-dot-identifier sequence.
pub proof fn lemma_qualified_precedence(s: Seq<char>)
    requires
        qualified_shaped(s),
    ensures
        lex_all(s, 0).toks =~= seq![TokenModel::Ident(s)],
        lex_all(s, 0).errs.len() == 0,
{
    lemma_ident_end_bounds(s, 1);
    let b = ident_end(s, 1);
    assert(qual_end(s, b) == s.len());
    assert(step_len(s, 0) == s.len());
    assert(s.subrange(0, s.len() as int) =~= s);
    assert(word_token(s, 0) == TokenModel::Ident(s));
    assert(lex_all(s, s.len() as int).toks =~= Seq::<TokenModel>::empty());
    assert(step_out(s, 0) == StepOut::Emit(word_token(s, 0)));
    assert(lex_all(s, 0).toks =~= seq![word_token(s, 0)]);
}

} // verus!
