use vstd::prelude::*;

use crate::token::TokenModel;
use crate::token::tok_slice;

verus! {

// ---------------------------------------------------------------------------
// Character classes
// ---------------------------------------------------------------------------

/// Whitespace: space, horizontal tab, newline, carriage return, form feed.
pub open spec fn is_ws(c: char) -> bool {
    c == ' ' || c == '\t' || c == '\n' || c == '\r' || c == '\x0C'
}

pub open spec fn is_letter(c: char) -> bool {
    ('a' as u32 <= c as u32 && c as u32 <= 'z' as u32) || ('A' as u32 <= c as u32 && c as u32
        <= 'Z' as u32)
}

pub open spec fn is_digit(c: char) -> bool {
    '0' as u32 <= c as u32 && c as u32 <= '9' as u32
}

/// A character that may continue an unqualified identifier.
pub open spec fn is_ident_cont(c: char) -> bool {
    is_letter(c) || is_digit(c) || c == '_'
}

/// A character that may continue a dotted suffix of a qualified identifier
/// (no underscore there).
pub open spec fn is_suffix_cont(c: char) -> bool {
    is_letter(c) || is_digit(c)
}

// ---------------------------------------------------------------------------
// Scans: each returns the end (exclusive) of a maximal run starting at i
// ---------------------------------------------------------------------------

/// End of the maximal run of identifier-continuation characters from i.
pub open spec fn ident_end(s: Seq<char>, i: int) -> int
    decreases s.len() - i,
{
    if 0 <= i && i < s.len() && is_ident_cont(s[i]) {
        ident_end(s, i + 1)
    } else {
        i
    }
}

/// End of the maximal run of suffix-continuation characters from i.
pub open spec fn suffix_end(s: Seq<char>, i: int) -> int
    decreases s.len() - i,
{
    if 0 <= i && i < s.len() && is_suffix_cont(s[i]) {
        suffix_end(s, i + 1)
    } else {
        i
    }
}

/// End of the maximal run of decimal digits from i.
pub open spec fn digits_end(s: Seq<char>, i: int) -> int
    decreases s.len() - i,
{
    if 0 <= i && i < s.len() && is_digit(s[i]) {
        digits_end(s, i + 1)
    } else {
        i
    }
}

pub broadcast proof fn lemma_ident_end_bounds(s: Seq<char>, i: int)
    requires
        0 <= i <= s.len(),
    ensures
        i <= #[trigger] ident_end(s, i) <= s.len(),
    decreases s.len() - i,
{
    if i < s.len() && is_ident_cont(s[i]) {
        lemma_ident_end_bounds(s, i + 1);
    }
}

pub broadcast proof fn lemma_suffix_end_bounds(s: Seq<char>, i: int)
    requires
        0 <= i <= s.len(),
    ensures
        i <= #[trigger] suffix_end(s, i) <= s.len(),
    decreases s.len() - i,
{
    if i < s.len() && is_suffix_cont(s[i]) {
        lemma_suffix_end_bounds(s, i + 1);
    }
}

pub broadcast proof fn lemma_digits_end_bounds(s: Seq<char>, i: int)
    requires
        0 <= i <= s.len(),
    ensures
        i <= #[trigger] digits_end(s, i) <= s.len(),
    decreases s.len() - i,
{
    if i < s.len() && is_digit(s[i]) {
        lemma_digits_end_bounds(s, i + 1);
    }
}

/// End of the maximal chain of dotted suffixes (`.` letter suffix-cont*)
/// starting at i. Returns i itself when no full suffix follows.
pub open spec fn qual_end(s: Seq<char>, i: int) -> int
    decreases s.len() - i,
    via qual_end_decreases
{
    if 0 <= i && i + 1 < s.len() && s[i] == '.' && is_letter(s[i + 1]) {
        qual_end(s, suffix_end(s, i + 2))
    } else {
        i
    }
}

#[via_fn]
proof fn qual_end_decreases(s: Seq<char>, i: int) {
    if 0 <= i && i + 1 < s.len() && s[i] == '.' && is_letter(s[i + 1]) {
        lemma_suffix_end_bounds(s, i + 2);
    }
}

pub broadcast proof fn lemma_qual_end_bounds(s: Seq<char>, i: int)
    requires
        0 <= i <= s.len(),
    ensures
        i <= #[trigger] qual_end(s, i) <= s.len(),
    decreases s.len() - i,
{
    if 0 <= i && i + 1 < s.len() && s[i] == '.' && is_letter(s[i + 1]) {
        lemma_suffix_end_bounds(s, i + 2);
        lemma_qual_end_bounds(s, suffix_end(s, i + 2));
    }
}

/// End of the maximal chain of underscore-grouped digit runs (`_` digit+)
/// starting at i. Returns i itself when no full group follows.
pub open spec fn groups_end(s: Seq<char>, i: int) -> int
    decreases s.len() - i,
    via groups_end_decreases
{
    if 0 <= i && i + 1 < s.len() && s[i] == '_' && is_digit(s[i + 1]) {
        groups_end(s, digits_end(s, i + 1))
    } else {
        i
    }
}

#[via_fn]
proof fn groups_end_decreases(s: Seq<char>, i: int) {
    if 0 <= i && i + 1 < s.len() && s[i] == '_' && is_digit(s[i + 1]) {
        lemma_digits_end_bounds(s, i + 2);
        assert(digits_end(s, i + 1) == digits_end(s, i + 2));
    }
}

pub broadcast proof fn lemma_groups_end_bounds(s: Seq<char>, i: int)
    requires
        0 <= i <= s.len(),
    ensures
        i <= #[trigger] groups_end(s, i) <= s.len(),
    decreases s.len() - i,
{
    if 0 <= i && i + 1 < s.len() && s[i] == '_' && is_digit(s[i + 1]) {
        lemma_digits_end_bounds(s, i + 2);
        assert(digits_end(s, i + 1) == digits_end(s, i + 2));
        lemma_groups_end_bounds(s, digits_end(s, i + 1));
    }
}

/// End of a number lexeme starting at i: digits with optional underscore
/// groups, optionally a fractional part (`.` digit+ with the same grouping).
pub open spec fn num_end(s: Seq<char>, i: int) -> int {
    let j = groups_end(s, digits_end(s, i));
    if j + 1 < s.len() && 0 <= j && s[j] == '.' && is_digit(s[j + 1]) {
        groups_end(s, digits_end(s, j + 1))
    } else {
        j
    }
}

pub broadcast proof fn lemma_num_end_bounds(s: Seq<char>, i: int)
    requires
        0 <= i <= s.len(),
    ensures
        i <= #[trigger] num_end(s, i) <= s.len(),
{
    lemma_digits_end_bounds(s, i);
    lemma_groups_end_bounds(s, digits_end(s, i));
    let j = groups_end(s, digits_end(s, i));
    if j + 1 < s.len() && 0 <= j && s[j] == '.' && is_digit(s[j + 1]) {
        lemma_digits_end_bounds(s, j + 1);
        lemma_groups_end_bounds(s, digits_end(s, j + 1));
    }
}

// ---------------------------------------------------------------------------
// Operators and punctuation
// ---------------------------------------------------------------------------

/// The two-character operators. Maximal munch: these win over their prefixes.
pub open spec fn op2_token(a: char, b: char) -> Option<TokenModel> {
    if a == '-' && b == '>' {
        Some(TokenModel::Arrow)
    } else if a == '=' && b == '=' {
        Some(TokenModel::Equals)
    } else if a == '!' && b == '=' {
        Some(TokenModel::NotEquals)
    } else if a == '<' && b == '=' {
        Some(TokenModel::LessEquals)
    } else if a == '>' && b == '=' {
        Some(TokenModel::GreaterEquals)
    } else if a == '+' && b == '=' {
        Some(TokenModel::PlusAssign)
    } else if a == '-' && b == '=' {
        Some(TokenModel::MinusAssign)
    } else if a == '*' && b == '=' {
        Some(TokenModel::MultiplyAssign)
    } else if a == '/' && b == '=' {
        Some(TokenModel::DivideAssign)
    } else if a == '%' && b == '=' {
        Some(TokenModel::ModuloAssign)
    } else if a == '+' && b == '+' {
        Some(TokenModel::Increment)
    } else if a == '-' && b == '-' {
        Some(TokenModel::Decrement)
    } else {
        None
    }
}

/// The single-character tokens. `!` is absent: alone it matches nothing.
pub open spec fn op1_token(a: char) -> Option<TokenModel> {
    if a == '_' {
        Some(TokenModel::Underscore)
    } else if a == ';' {
        Some(TokenModel::Semicolon)
    } else if a == '.' {
        Some(TokenModel::Dot)
    } else if a == ':' {
        Some(TokenModel::Colon)
    } else if a == '(' {
        Some(TokenModel::LParen)
    } else if a == ')' {
        Some(TokenModel::RParen)
    } else if a == '[' {
        Some(TokenModel::LSquare)
    } else if a == ']' {
        Some(TokenModel::RSquare)
    } else if a == '{' {
        Some(TokenModel::LCurly)
    } else if a == '}' {
        Some(TokenModel::RCurly)
    } else if a == '+' {
        Some(TokenModel::Plus)
    } else if a == '-' {
        Some(TokenModel::Minus)
    } else if a == '*' {
        Some(TokenModel::Star)
    } else if a == '/' {
        Some(TokenModel::Divide)
    } else if a == '%' {
        Some(TokenModel::Modulo)
    } else if a == '=' {
        Some(TokenModel::Assign)
    } else if a == '<' {
        Some(TokenModel::LAngle)
    } else if a == '>' {
        Some(TokenModel::RAngle)
    } else {
        None
    }
}

/// Length of the operator or punctuation token matching at i (0 if none).
pub open spec fn op_len(s: Seq<char>, i: int) -> int {
    if 0 <= i && i + 1 < s.len() && op2_token(s[i], s[i + 1]) is Some {
        2
    } else if 0 <= i && i < s.len() && op1_token(s[i]) is Some {
        1
    } else {
        0
    }
}

// ---------------------------------------------------------------------------
// Keywords
// ---------------------------------------------------------------------------

/// The fixed keyword spellings; `Some` exactly when w is one of them.
pub open spec fn keyword_token(w: Seq<char>) -> Option<TokenModel> {
    if w.len() == 2 {
        if w[0] == 'i' && w[1] == 'f' {
            Some(TokenModel::KwIf)
        } else if w[0] == 'i' && w[1] == 'n' {
            Some(TokenModel::KwIn)
        } else if w[0] == 'i' && w[1] == 's' {
            Some(TokenModel::KwIs)
        } else if w[0] == 'o' && w[1] == 'r' {
            Some(TokenModel::KwOr)
        } else {
            None
        }
    } else if w.len() == 3 {
        if w[0] == 'f' && w[1] == 'o' && w[2] == 'r' {
            Some(TokenModel::KwFor)
        } else if w[0] == 'm' && w[1] == 'u' && w[2] == 't' {
            Some(TokenModel::KwMut)
        } else if w[0] == 'a' && w[1] == 'n' && w[2] == 'd' {
            Some(TokenModel::KwAnd)
        } else if w[0] == 'n' && w[1] == 'o' && w[2] == 't' {
            Some(TokenModel::KwNot)
        } else {
            None
        }
    } else if w.len() == 4 {
        if w[0] == 'e' && w[1] == 'l' && w[2] == 'i' && w[3] == 'f' {
            Some(TokenModel::KwElif)
        } else if w[0] == 'e' && w[1] == 'l' && w[2] == 's' && w[3] == 'e' {
            Some(TokenModel::KwElse)
        } else if w[0] == 't' && w[1] == 'y' && w[2] == 'p' && w[3] == 'e' {
            Some(TokenModel::KwType)
        } else {
            None
        }
    } else if w.len() == 5 {
        if w[0] == 'w' && w[1] == 'h' && w[2] == 'i' && w[3] == 'l' && w[4] == 'e' {
            Some(TokenModel::KwWhile)
        } else if w[0] == 'b' && w[1] == 'r' && w[2] == 'e' && w[3] == 'a' && w[4] == 'k' {
            Some(TokenModel::KwBreak)
        } else if w[0] == 'c' && w[1] == 'l' && w[2] == 'a' && w[3] == 's' && w[4] == 's' {
            Some(TokenModel::KwClass)
        } else if w[0] == 'i' && w[1] == 's' && w[2] == 'n' && w[3] == 'o' && w[4] == 't' {
            Some(TokenModel::KwIsNot)
        } else if w[0] == 'c' && w[1] == 'l' && w[2] == 'o' && w[3] == 'n' && w[4] == 'e' {
            Some(TokenModel::KwClone)
        } else {
            None
        }
    } else if w.len() == 6 {
        if w[0] == 'm' && w[1] == 'o' && w[2] == 'd' && w[3] == 'u' && w[4] == 'l' && w[5] == 'e' {
            Some(TokenModel::KwModule)
        } else if w[0] == 'i' && w[1] == 'm' && w[2] == 'p' && w[3] == 'o' && w[4] == 'r' && w[5]
            == 't' {
            Some(TokenModel::KwImport)
        } else if w[0] == 'r' && w[1] == 'e' && w[2] == 't' && w[3] == 'u' && w[4] == 'r' && w[5]
            == 'n' {
            Some(TokenModel::KwReturn)
        } else if w[0] == 's' && w[1] == 't' && w[2] == 'r' && w[3] == 'u' && w[4] == 'c' && w[5]
            == 't' {
            Some(TokenModel::KwStruct)
        } else {
            None
        }
    } else if w.len() == 8 {
        if w[0] == 'c' && w[1] == 'o' && w[2] == 'n' && w[3] == 't' && w[4] == 'i' && w[5] == 'n'
            && w[6] == 'u' && w[7] == 'e' {
            Some(TokenModel::KwContinue)
        } else if w[0] == 'o' && w[1] == 'v' && w[2] == 'e' && w[3] == 'r' && w[4] == 'r' && w[5]
            == 'i' && w[6] == 'd' && w[7] == 'e' {
            Some(TokenModel::KwOverride)
        } else {
            None
        }
    } else {
        None
    }
}

// ---------------------------------------------------------------------------
// One lexing step
// ---------------------------------------------------------------------------

/// Does some token pattern (or whitespace) match at position i?
pub open spec fn token_starts(s: Seq<char>, i: int) -> bool
    recommends
        0 <= i < s.len(),
{
    is_ws(s[i]) || is_letter(s[i]) || is_digit(s[i]) || op_len(s, i) > 0
}

/// End of the maximal run of positions at which nothing matches.
pub open spec fn err_end(s: Seq<char>, i: int) -> int
    decreases s.len() - i,
{
    if 0 <= i && i < s.len() && !token_starts(s, i) {
        err_end(s, i + 1)
    } else {
        i
    }
}

pub broadcast proof fn lemma_err_end_bounds(s: Seq<char>, i: int)
    requires
        0 <= i <= s.len(),
    ensures
        i <= #[trigger] err_end(s, i) <= s.len(),
    decreases s.len() - i,
{
    if i < s.len() && !token_starts(s, i) {
        lemma_err_end_bounds(s, i + 1);
    }
}

/// End of the maximal identifier-shaped lexeme at i (the base run plus any
/// dotted suffixes); i itself holds a letter.
pub open spec fn word_end(s: Seq<char>, i: int) -> int {
    qual_end(s, ident_end(s, i + 1))
}

/// The token for the maximal identifier-shaped lexeme at i: dotted lexemes
/// become qualified identifiers; otherwise a keyword spelling wins over a
/// plain identifier.
pub open spec fn word_token(s: Seq<char>, i: int) -> TokenModel {
    let b = ident_end(s, i + 1);
    let e = qual_end(s, b);
    let w = s.subrange(i, e);
    if e > b {
        TokenModel::Ident(w)
    } else {
        match keyword_token(w) {
            Some(t) => t,
            None => TokenModel::UnqualifiedIdent(w),
        }
    }
}

/// How many characters the step at position i consumes.
pub open spec fn step_len(s: Seq<char>, i: int) -> int
    recommends
        0 <= i < s.len(),
{
    if is_ws(s[i]) {
        1
    } else if is_letter(s[i]) {
        word_end(s, i) - i
    } else if is_digit(s[i]) {
        num_end(s, i) - i
    } else if op_len(s, i) > 0 {
        op_len(s, i)
    } else {
        err_end(s, i) - i
    }
}

/// What the step at position i produces.
pub enum StepOut {
    Skip,
    Emit(TokenModel),
    Report(Seq<char>),
}

pub open spec fn step_out(s: Seq<char>, i: int) -> StepOut
    recommends
        0 <= i < s.len(),
{
    if is_ws(s[i]) {
        StepOut::Skip
    } else if is_letter(s[i]) {
        StepOut::Emit(word_token(s, i))
    } else if is_digit(s[i]) {
        StepOut::Emit(TokenModel::Number(s.subrange(i, num_end(s, i))))
    } else if op_len(s, i) == 2 {
        StepOut::Emit(
            match op2_token(s[i], s[i + 1]) {
                Some(t) => t,
                None => TokenModel::Error,
            },
        )
    } else if op_len(s, i) == 1 {
        StepOut::Emit(
            match op1_token(s[i]) {
                Some(t) => t,
                None => TokenModel::Error,
            },
        )
    } else {
        StepOut::Report(s.subrange(i, err_end(s, i)))
    }
}

pub broadcast proof fn lemma_step_len_bounds(s: Seq<char>, i: int)
    requires
        0 <= i < s.len(),
    ensures
        1 <= #[trigger] step_len(s, i),
        i + step_len(s, i) <= s.len(),
{
    if is_ws(s[i]) {
    } else if is_letter(s[i]) {
        lemma_ident_end_bounds(s, i + 1);
        lemma_qual_end_bounds(s, ident_end(s, i + 1));
    } else if is_digit(s[i]) {
        assert(digits_end(s, i) == digits_end(s, i + 1));
        lemma_digits_end_bounds(s, i + 1);
        lemma_groups_end_bounds(s, digits_end(s, i));
        let j = groups_end(s, digits_end(s, i));
        if j + 1 < s.len() && s[j] == '.' && is_digit(s[j + 1]) {
            lemma_digits_end_bounds(s, j + 1);
            lemma_groups_end_bounds(s, digits_end(s, j + 1));
        }
    } else if op_len(s, i) > 0 {
    } else {
        assert(!token_starts(s, i));
        assert(err_end(s, i) == err_end(s, i + 1));
        lemma_err_end_bounds(s, i + 1);
    }
}

// ---------------------------------------------------------------------------
// The full lexing relation
// ---------------------------------------------------------------------------

/// What lexing an input yields from position i on: the accepted tokens and
/// the unmatched slices, each in source order.
pub struct LexOut {
    pub toks: Seq<TokenModel>,
    pub errs: Seq<Seq<char>>,
}

pub open spec fn lex_all(s: Seq<char>, i: int) -> LexOut
    decreases s.len() - i,
    via lex_all_decreases
{
    if 0 <= i && i < s.len() {
        let rest = lex_all(s, i + step_len(s, i));
        match step_out(s, i) {
            StepOut::Skip => rest,
            StepOut::Emit(t) => LexOut { toks: seq![t] + rest.toks, errs: rest.errs },
            StepOut::Report(e) => LexOut { toks: rest.toks, errs: seq![e] + rest.errs },
        }
    } else {
        LexOut { toks: Seq::empty(), errs: Seq::empty() }
    }
}

#[via_fn]
proof fn lex_all_decreases(s: Seq<char>, i: int) {
    if 0 <= i && i < s.len() {
        lemma_step_len_bounds(s, i);
    }
}

/// The error message the lexer renders for an unmatched slice.
pub open spec fn err_msg(slice: Seq<char>) -> Seq<char> {
    "Error: \""@ + slice + "\""@
}

// ---------------------------------------------------------------------------
// Reassembly views of the same step sequence (for the round-trip law)
// ---------------------------------------------------------------------------

/// The slice the step at i consumes.
pub open spec fn step_slice(s: Seq<char>, i: int) -> Seq<char>
    recommends
        0 <= i < s.len(),
{
    s.subrange(i, i + step_len(s, i))
}

/// Concatenation of every consumed slice from i on.
pub open spec fn consumed_all(s: Seq<char>, i: int) -> Seq<char>
    decreases s.len() - i,
    via consumed_all_decreases
{
    if 0 <= i && i < s.len() {
        step_slice(s, i) + consumed_all(s, i + step_len(s, i))
    } else {
        Seq::empty()
    }
}

#[via_fn]
proof fn consumed_all_decreases(s: Seq<char>, i: int) {
    if 0 <= i && i < s.len() {
        lemma_step_len_bounds(s, i);
    }
}

/// Concatenation of the consumed slices of the matched steps only: the input
/// with unmatched spans removed.
pub open spec fn consumed_matched(s: Seq<char>, i: int) -> Seq<char>
    decreases s.len() - i,
    via consumed_matched_decreases
{
    if 0 <= i && i < s.len() {
        let rest = consumed_matched(s, i + step_len(s, i));
        match step_out(s, i) {
            StepOut::Report(e) => rest,
            _ => step_slice(s, i) + rest,
        }
    } else {
        Seq::empty()
    }
}

#[via_fn]
proof fn consumed_matched_decreases(s: Seq<char>, i: int) {
    if 0 <= i && i < s.len() {
        lemma_step_len_bounds(s, i);
    }
}

/// What the emitted tokens themselves spell, with the skipped whitespace put
/// back in between: rebuilt from the outputs, not from the input.
pub open spec fn rendered(s: Seq<char>, i: int) -> Seq<char>
    decreases s.len() - i,
    via rendered_decreases
{
    if 0 <= i && i < s.len() {
        let rest = rendered(s, i + step_len(s, i));
        match step_out(s, i) {
            StepOut::Skip => step_slice(s, i) + rest,
            StepOut::Emit(t) => tok_slice(t) + rest,
            StepOut::Report(e) => rest,
        }
    } else {
        Seq::empty()
    }
}

#[via_fn]
proof fn rendered_decreases(s: Seq<char>, i: int) {
    if 0 <= i && i < s.len() {
        lemma_step_len_bounds(s, i);
    }
}

} // verus!
