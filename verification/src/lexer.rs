use vstd::prelude::*;
use vstd::string::StrSliceExecFns;
use vstd::string::StringExecFns;

use crate::model::{
    is_ws, is_letter, is_digit, is_ident_cont, is_suffix_cont, ident_end, suffix_end, digits_end,
    qual_end, groups_end, num_end, op2_token, op1_token, op_len, keyword_token, token_starts,
    err_end, word_token, step_len, step_out, StepOut, lex_all, err_msg, lemma_digits_end_bounds,
    lemma_err_end_bounds, lemma_step_len_bounds,
};
use crate::token::{Token, TokenModel};

verus! {

// ---------------------------------------------------------------------------
// Character class tests
// ---------------------------------------------------------------------------

fn ws_char(c: char) -> (b: bool)
    ensures
        b == is_ws(c),
{
    c == ' ' || c == '\t' || c == '\n' || c == '\r' || c == '\x0C'
}

fn letter_char(c: char) -> (b: bool)
    ensures
        b == is_letter(c),
{
    let u = c as u32;
    ('a' as u32 <= u && u <= 'z' as u32) || ('A' as u32 <= u && u <= 'Z' as u32)
}

fn digit_char(c: char) -> (b: bool)
    ensures
        b == is_digit(c),
{
    let u = c as u32;
    '0' as u32 <= u && u <= '9' as u32
}

fn ident_cont_char(c: char) -> (b: bool)
    ensures
        b == is_ident_cont(c),
{
    letter_char(c) || digit_char(c) || c == '_'
}

fn suffix_cont_char(c: char) -> (b: bool)
    ensures
        b == is_suffix_cont(c),
{
    letter_char(c) || digit_char(c)
}

// ---------------------------------------------------------------------------
// Scans
// ---------------------------------------------------------------------------

fn scan_ident_end(s: &str, i: usize, n: usize) -> (j: usize)
    requires
        n == s@.len(),
        i <= n,
    ensures
        j == ident_end(s@, i as int),
        i <= j <= n,
    decreases n - i,
{
    if i < n {
        let c = s.get_char(i);
        if ident_cont_char(c) {
            return scan_ident_end(s, i + 1, n);
        }
    }
    i
}

fn scan_suffix_end(s: &str, i: usize, n: usize) -> (j: usize)
    requires
        n == s@.len(),
        i <= n,
    ensures
        j == suffix_end(s@, i as int),
        i <= j <= n,
    decreases n - i,
{
    if i < n {
        let c = s.get_char(i);
        if suffix_cont_char(c) {
            return scan_suffix_end(s, i + 1, n);
        }
    }
    i
}

fn scan_digits_end(s: &str, i: usize, n: usize) -> (j: usize)
    requires
        n == s@.len(),
        i <= n,
    ensures
        j == digits_end(s@, i as int),
        i <= j <= n,
    decreases n - i,
{
    if i < n {
        let c = s.get_char(i);
        if digit_char(c) {
            return scan_digits_end(s, i + 1, n);
        }
    }
    i
}

fn scan_qual_end(s: &str, i: usize, n: usize) -> (j: usize)
    requires
        n == s@.len(),
        i <= n,
    ensures
        j == qual_end(s@, i as int),
        i <= j <= n,
    decreases n - i,
{
    if i < n && i + 1 < n {
        let c = s.get_char(i);
        if c == '.' {
            let d = s.get_char(i + 1);
            if letter_char(d) {
                let k = scan_suffix_end(s, i + 2, n);
                return scan_qual_end(s, k, n);
            }
        }
    }
    i
}

fn scan_groups_end(s: &str, i: usize, n: usize) -> (j: usize)
    requires
        n == s@.len(),
        i <= n,
    ensures
        j == groups_end(s@, i as int),
        i <= j <= n,
    decreases n - i,
{
    if i < n && i + 1 < n {
        let c = s.get_char(i);
        if c == '_' {
            let d = s.get_char(i + 1);
            if digit_char(d) {
                let k = scan_digits_end(s, i + 1, n);
                proof {
                    assert(digits_end(s@, i as int + 1) == digits_end(s@, i as int + 2));
                    lemma_digits_end_bounds(s@, i as int + 2);
                }
                return scan_groups_end(s, k, n);
            }
        }
    }
    i
}

fn scan_num_end(s: &str, i: usize, n: usize) -> (j: usize)
    requires
        n == s@.len(),
        i <= n,
    ensures
        j == num_end(s@, i as int),
        i <= j <= n,
{
    let d = scan_digits_end(s, i, n);
    let j = scan_groups_end(s, d, n);
    if j < n && j + 1 < n {
        let c = s.get_char(j);
        if c == '.' {
            let e = s.get_char(j + 1);
            if digit_char(e) {
                let f = scan_digits_end(s, j + 1, n);
                return scan_groups_end(s, f, n);
            }
        }
    }
    j
}

fn op2_chars(a: char, b: char) -> (r: bool)
    ensures
        r == (op2_token(a, b) is Some),
{
    (a == '-' && b == '>') || (a == '=' && b == '=') || (a == '!' && b == '=') || (a == '<' && b
        == '=') || (a == '>' && b == '=') || (a == '+' && b == '=') || (a == '-' && b == '=') || (a
        == '*' && b == '=') || (a == '/' && b == '=') || (a == '%' && b == '=') || (a == '+' && b
        == '+') || (a == '-' && b == '-')
}

fn op1_char(a: char) -> (r: bool)
    ensures
        r == (op1_token(a) is Some),
{
    a == '_' || a == ';' || a == '.' || a == ':' || a == '(' || a == ')' || a == '[' || a == ']'
        || a == '{' || a == '}' || a == '+' || a == '-' || a == '*' || a == '/' || a == '%' || a
        == '=' || a == '<' || a == '>'
}

fn op_len_at(s: &str, i: usize, n: usize) -> (l: usize)
    requires
        n == s@.len(),
        i < n,
    ensures
        l == op_len(s@, i as int),
{
    let a = s.get_char(i);
    if i + 1 < n {
        let b = s.get_char(i + 1);
        if op2_chars(a, b) {
            return 2;
        }
    }
    if op1_char(a) {
        1
    } else {
        0
    }
}

fn scan_err_end(s: &str, i: usize, n: usize) -> (j: usize)
    requires
        n == s@.len(),
        i <= n,
    ensures
        j == err_end(s@, i as int),
        i <= j <= n,
    decreases n - i,
{
    if i < n {
        let c = s.get_char(i);
        let starts = if ws_char(c) || letter_char(c) || digit_char(c) {
            true
        } else {
            op_len_at(s, i, n) > 0
        };
        if !starts {
            return scan_err_end(s, i + 1, n);
        }
    }
    i
}

// ---------------------------------------------------------------------------
// Token construction
// ---------------------------------------------------------------------------

fn make_op2(a: char, b: char) -> (t: Token)
    requires
        op2_token(a, b) is Some,
    ensures
        Some(t@) == op2_token(a, b),
{
    if a == '-' && b == '>' {
        Token::Arrow
    } else if a == '=' && b == '=' {
        Token::Equals
    } else if a == '!' && b == '=' {
        Token::NotEquals
    } else if a == '<' && b == '=' {
        Token::LessEquals
    } else if a == '>' && b == '=' {
        Token::GreaterEquals
    } else if a == '+' && b == '=' {
        Token::PlusAssign
    } else if a == '-' && b == '=' {
        Token::MinusAssign
    } else if a == '*' && b == '=' {
        Token::MultiplyAssign
    } else if a == '/' && b == '=' {
        Token::DivideAssign
    } else if a == '%' && b == '=' {
        Token::ModuloAssign
    } else if a == '+' && b == '+' {
        Token::Increment
    } else {
        Token::Decrement
    }
}

fn make_op1(a: char) -> (t: Token)
    requires
        op1_token(a) is Some,
    ensures
        Some(t@) == op1_token(a),
{
    if a == '_' {
        Token::Underscore
    } else if a == ';' {
        Token::Semicolon
    } else if a == '.' {
        Token::Dot
    } else if a == ':' {
        Token::Colon
    } else if a == '(' {
        Token::LParen
    } else if a == ')' {
        Token::RParen
    } else if a == '[' {
        Token::LSquare
    } else if a == ']' {
        Token::RSquare
    } else if a == '{' {
        Token::LCurly
    } else if a == '}' {
        Token::RCurly
    } else if a == '+' {
        Token::Plus
    } else if a == '-' {
        Token::Minus
    } else if a == '*' {
        Token::Star
    } else if a == '/' {
        Token::Divide
    } else if a == '%' {
        Token::Modulo
    } else if a == '=' {
        Token::Assign
    } else if a == '<' {
        Token::LAngle
    } else {
        Token::RAngle
    }
}

/// Classify an undotted identifier-shaped lexeme: a keyword spelling becomes
/// its keyword token, anything else an unqualified identifier.
fn classify_word(w: &str, len: usize) -> (t: Token)
    requires
        len == w@.len(),
    ensures
        t@ == (match keyword_token(w@) {
            Some(k) => k,
            None => TokenModel::UnqualifiedIdent(w@),
        }),
{
    if len == 2 {
        let c0 = w.get_char(0);
        let c1 = w.get_char(1);
        if c0 == 'i' && c1 == 'f' {
            return Token::KwIf;
        }
        if c0 == 'i' && c1 == 'n' {
            return Token::KwIn;
        }
        if c0 == 'i' && c1 == 's' {
            return Token::KwIs;
        }
        if c0 == 'o' && c1 == 'r' {
            return Token::KwOr;
        }
    } else if len == 3 {
        let c0 = w.get_char(0);
        let c1 = w.get_char(1);
        let c2 = w.get_char(2);
        if c0 == 'f' && c1 == 'o' && c2 == 'r' {
            return Token::KwFor;
        }
        if c0 == 'm' && c1 == 'u' && c2 == 't' {
            return Token::KwMut;
        }
        if c0 == 'a' && c1 == 'n' && c2 == 'd' {
            return Token::KwAnd;
        }
        if c0 == 'n' && c1 == 'o' && c2 == 't' {
            return Token::KwNot;
        }
    } else if len == 4 {
        let c0 = w.get_char(0);
        let c1 = w.get_char(1);
        let c2 = w.get_char(2);
        let c3 = w.get_char(3);
        if c0 == 'e' && c1 == 'l' && c2 == 'i' && c3 == 'f' {
            return Token::KwElif;
        }
        if c0 == 'e' && c1 == 'l' && c2 == 's' && c3 == 'e' {
            return Token::KwElse;
        }
        if c0 == 't' && c1 == 'y' && c2 == 'p' && c3 == 'e' {
            return Token::KwType;
        }
    } else if len == 5 {
        let c0 = w.get_char(0);
        let c1 = w.get_char(1);
        let c2 = w.get_char(2);
        let c3 = w.get_char(3);
        let c4 = w.get_char(4);
        if c0 == 'w' && c1 == 'h' && c2 == 'i' && c3 == 'l' && c4 == 'e' {
            return Token::KwWhile;
        }
        if c0 == 'b' && c1 == 'r' && c2 == 'e' && c3 == 'a' && c4 == 'k' {
            return Token::KwBreak;
        }
        if c0 == 'c' && c1 == 'l' && c2 == 'a' && c3 == 's' && c4 == 's' {
            return Token::KwClass;
        }
        if c0 == 'i' && c1 == 's' && c2 == 'n' && c3 == 'o' && c4 == 't' {
            return Token::KwIsNot;
        }
        if c0 == 'c' && c1 == 'l' && c2 == 'o' && c3 == 'n' && c4 == 'e' {
            return Token::KwClone;
        }
    } else if len == 6 {
        let c0 = w.get_char(0);
        let c1 = w.get_char(1);
        let c2 = w.get_char(2);
        let c3 = w.get_char(3);
        let c4 = w.get_char(4);
        let c5 = w.get_char(5);
        if c0 == 'm' && c1 == 'o' && c2 == 'd' && c3 == 'u' && c4 == 'l' && c5 == 'e' {
            return Token::KwModule;
        }
        if c0 == 'i' && c1 == 'm' && c2 == 'p' && c3 == 'o' && c4 == 'r' && c5 == 't' {
            return Token::KwImport;
        }
        if c0 == 'r' && c1 == 'e' && c2 == 't' && c3 == 'u' && c4 == 'r' && c5 == 'n' {
            return Token::KwReturn;
        }
        if c0 == 's' && c1 == 't' && c2 == 'r' && c3 == 'u' && c4 == 'c' && c5 == 't' {
            return Token::KwStruct;
        }
    } else if len == 8 {
        let c0 = w.get_char(0);
        let c1 = w.get_char(1);
        let c2 = w.get_char(2);
        let c3 = w.get_char(3);
        let c4 = w.get_char(4);
        let c5 = w.get_char(5);
        let c6 = w.get_char(6);
        let c7 = w.get_char(7);
        if c0 == 'c' && c1 == 'o' && c2 == 'n' && c3 == 't' && c4 == 'i' && c5 == 'n' && c6 == 'u'
            && c7 == 'e' {
            return Token::KwContinue;
        }
        if c0 == 'o' && c1 == 'v' && c2 == 'e' && c3 == 'r' && c4 == 'r' && c5 == 'i' && c6 == 'd'
            && c7 == 'e' {
            return Token::KwOverride;
        }
    }
    Token::UnqualifiedIdent(String::from_str(w))
}

// ---------------------------------------------------------------------------
// Step decomposition lemmas
// ---------------------------------------------------------------------------

proof fn lemma_step_skip(s: Seq<char>, i: int)
    requires
        0 <= i < s.len(),
        step_out(s, i) is Skip,
    ensures
        lex_all(s, i) == lex_all(s, i + step_len(s, i)),
{
    lemma_step_len_bounds(s, i);
    assert(lex_all(s, i) == lex_all(s, i + step_len(s, i)));
}

proof fn lemma_step_emit(s: Seq<char>, i: int, t: TokenModel)
    requires
        0 <= i < s.len(),
        step_out(s, i) == StepOut::Emit(t),
    ensures
        lex_all(s, i).toks == seq![t] + lex_all(s, i + step_len(s, i)).toks,
        lex_all(s, i).errs == lex_all(s, i + step_len(s, i)).errs,
{
    lemma_step_len_bounds(s, i);
}

proof fn lemma_step_report(s: Seq<char>, i: int, e: Seq<char>)
    requires
        0 <= i < s.len(),
        step_out(s, i) == StepOut::Report(e),
    ensures
        lex_all(s, i).toks == lex_all(s, i + step_len(s, i)).toks,
        lex_all(s, i).errs == seq![e] + lex_all(s, i + step_len(s, i)).errs,
{
    lemma_step_len_bounds(s, i);
}

// ---------------------------------------------------------------------------
// The lexer
// ---------------------------------------------------------------------------

/// Tokenize a source text.
///
/// On success, the tokens are exactly those the lexing relation `lex_all`
/// assigns to the text, in source order. When any slice of the input matches
/// no pattern, the result is instead the full list of rendered error
/// messages, one per unmatched slice, again in source order.
pub fn lex(text: &String) -> (r: Result<Vec<Token>, Vec<String>>)
    ensures
        (match r {
            Ok(toks) => {
                &&& lex_all(text@, 0).errs.len() == 0
                &&& toks@.len() == lex_all(text@, 0).toks.len()
                &&& forall|k: int|
                    0 <= k < toks@.len() ==> #[trigger] toks@[k]@ == lex_all(text@, 0).toks[k]
            },
            Err(errs) => {
                &&& lex_all(text@, 0).errs.len() > 0
                &&& errs@.len() == lex_all(text@, 0).errs.len()
                &&& forall|k: int|
                    0 <= k < errs@.len() ==> #[trigger] errs@[k]@ == err_msg(
                        lex_all(text@, 0).errs[k],
                    )
            },
        }),
{
    let s: &str = text.as_str();
    let n: usize = s.unicode_len();
    let mut toks: Vec<Token> = Vec::new();
    let mut errs: Vec<String> = Vec::new();
    let ghost mut done_toks: Seq<TokenModel> = Seq::empty();
    let ghost mut done_errs: Seq<Seq<char>> = Seq::empty();
    let mut i: usize = 0;
    proof {
        assert(lex_all(s@, 0).toks =~= done_toks + lex_all(s@, 0).toks);
        assert(lex_all(s@, 0).errs =~= done_errs + lex_all(s@, 0).errs);
    }
    while i < n
        invariant
            n == s@.len(),
            s@ == text@,
            i <= n,
            lex_all(s@, 0).toks == done_toks + lex_all(s@, i as int).toks,
            lex_all(s@, 0).errs == done_errs + lex_all(s@, i as int).errs,
            toks@.len() == done_toks.len(),
            forall|k: int| 0 <= k < done_toks.len() ==> #[trigger] toks@[k]@ == done_toks[k],
            errs@.len() == done_errs.len(),
            forall|k: int|
                0 <= k < done_errs.len() ==> #[trigger] errs@[k]@ == err_msg(done_errs[k]),
        decreases n - i,
    {
        let ghost gi = i as int;
        let c = s.get_char(i);
        if ws_char(c) {
            proof {
                lemma_step_skip(s@, gi);
                assert(lex_all(s@, gi) == lex_all(s@, gi + 1));
            }
            i = i + 1;
        } else if letter_char(c) {
            let b = scan_ident_end(s, i + 1, n);
            let e = scan_qual_end(s, b, n);
            let w: &str = s.substring_char(i, e);
            let t: Token = if e > b {
                Token::Ident(String::from_str(w))
            } else {
                classify_word(w, e - i)
            };
            proof {
                assert(w@ == s@.subrange(gi, e as int));
                assert(t@ == word_token(s@, gi));
                assert(step_out(s@, gi) == StepOut::Emit(word_token(s@, gi)));
                assert(step_len(s@, gi) == e - gi);
                lemma_step_emit(s@, gi, t@);
                assert(done_toks + lex_all(s@, gi).toks =~= done_toks.push(t@) + lex_all(
                    s@,
                    e as int,
                ).toks);
                done_toks = done_toks.push(t@);
            }
            toks.push(t);
            i = e;
        } else if digit_char(c) {
            let e = scan_num_end(s, i, n);
            let w: &str = s.substring_char(i, e);
            let t = Token::Number(String::from_str(w));
            proof {
                assert(t@ == TokenModel::Number(s@.subrange(gi, e as int)));
                assert(step_out(s@, gi) == StepOut::Emit(t@));
                assert(step_len(s@, gi) == e - gi);
                lemma_step_emit(s@, gi, t@);
                assert(done_toks + lex_all(s@, gi).toks =~= done_toks.push(t@) + lex_all(
                    s@,
                    e as int,
                ).toks);
                done_toks = done_toks.push(t@);
            }
            toks.push(t);
            i = e;
        } else {
            let l = op_len_at(s, i, n);
            if l == 2 {
                let b2 = s.get_char(i + 1);
                let t = make_op2(c, b2);
                proof {
                    assert(step_out(s@, gi) == StepOut::Emit(t@));
                    assert(step_len(s@, gi) == 2);
                    lemma_step_emit(s@, gi, t@);
                    assert(done_toks + lex_all(s@, gi).toks =~= done_toks.push(t@) + lex_all(
                        s@,
                        gi + 2,
                    ).toks);
                    done_toks = done_toks.push(t@);
                }
                toks.push(t);
                i = i + 2;
            } else if l == 1 {
                let t = make_op1(c);
                proof {
                    assert(step_out(s@, gi) == StepOut::Emit(t@));
                    assert(step_len(s@, gi) == 1);
                    lemma_step_emit(s@, gi, t@);
                    assert(done_toks + lex_all(s@, gi).toks =~= done_toks.push(t@) + lex_all(
                        s@,
                        gi + 1,
                    ).toks);
                    done_toks = done_toks.push(t@);
                }
                toks.push(t);
                i = i + 1;
            } else {
                let e = scan_err_end(s, i, n);
                proof {
                    assert(!token_starts(s@, gi));
                    assert(err_end(s@, gi) == err_end(s@, gi + 1));
                    lemma_err_end_bounds(s@, gi + 1);
                }
                let w: &str = s.substring_char(i, e);
                let mut msg = String::from_str("Error: \"");
                msg.append(w);
                msg.append("\"");
                proof {
                    let ghost slice = s@.subrange(gi, e as int);
                    assert(msg@ == err_msg(slice));
                    assert(step_out(s@, gi) == StepOut::Report(slice));
                    assert(step_len(s@, gi) == e - gi);
                    lemma_step_report(s@, gi, slice);
                    assert(done_errs + lex_all(s@, gi).errs =~= done_errs.push(slice) + lex_all(
                        s@,
                        e as int,
                    ).errs);
                    done_errs = done_errs.push(slice);
                }
                errs.push(msg);
                i = e;
            }
        }
    }
    proof {
        assert(lex_all(s@, i as int).toks =~= Seq::<TokenModel>::empty());
        assert(lex_all(s@, i as int).errs =~= Seq::<Seq<char>>::empty());
        assert(lex_all(s@, 0).toks =~= done_toks);
        assert(lex_all(s@, 0).errs =~= done_errs);
    }
    if errs.len() == 0 {
        Ok(toks)
    } else {
        Err(errs)
    }
}

} // verus!
