use vstd::prelude::*;

verus! {

/// A classified lexeme of the source language.
///
/// The identifier variants and `Number` carry the matched source slice
/// verbatim; in particular `Number` keeps the digit text (including any
/// grouping underscores) so that a caller chooses its own numeric
/// representation. `Error` is an internal sentinel that flags an unmatched
/// slice; it never appears in an accepted token stream.
#[derive(Debug, PartialEq, Eq)]
pub enum Token {
    UnqualifiedIdent(String),
    Ident(String),
    Number(String),
    KwModule,
    KwImport,
    KwIf,
    KwElif,
    KwElse,
    KwFor,
    KwIn,
    KwWhile,
    KwBreak,
    KwContinue,
    KwReturn,
    KwClass,
    KwStruct,
    KwOverride,
    KwMut,
    KwType,
    Underscore,
    Semicolon,
    Dot,
    Arrow,
    Plus,
    Minus,
    Star,
    Divide,
    Modulo,
    Assign,
    Equals,
    NotEquals,
    LAngle,
    RAngle,
    LessEquals,
    GreaterEquals,
    Colon,
    LParen,
    RParen,
    LSquare,
    RSquare,
    LCurly,
    RCurly,
    PlusAssign,
    MinusAssign,
    MultiplyAssign,
    DivideAssign,
    ModuloAssign,
    Increment,
    Decrement,
    KwAnd,
    KwOr,
    KwIs,
    KwIsNot,
    KwNot,
    KwClone,
    Error,
}

/// The mathematical image of a `Token`: string payloads become character
/// sequences. All contracts and lemmas speak of this type.
pub enum TokenModel {
    UnqualifiedIdent(Seq<char>),
    Ident(Seq<char>),
    Number(Seq<char>),
    KwModule,
    KwImport,
    KwIf,
    KwElif,
    KwElse,
    KwFor,
    KwIn,
    KwWhile,
    KwBreak,
    KwContinue,
    KwReturn,
    KwClass,
    KwStruct,
    KwOverride,
    KwMut,
    KwType,
    Underscore,
    Semicolon,
    Dot,
    Arrow,
    Plus,
    Minus,
    Star,
    Divide,
    Modulo,
    Assign,
    Equals,
    NotEquals,
    LAngle,
    RAngle,
    LessEquals,
    GreaterEquals,
    Colon,
    LParen,
    RParen,
    LSquare,
    RSquare,
    LCurly,
    RCurly,
    PlusAssign,
    MinusAssign,
    MultiplyAssign,
    DivideAssign,
    ModuloAssign,
    Increment,
    Decrement,
    KwAnd,
    KwOr,
    KwIs,
    KwIsNot,
    KwNot,
    KwClone,
    Error,
}

impl View for Token {
    type V = TokenModel;

    open spec fn view(&self) -> TokenModel {
        match self {
            Token::UnqualifiedIdent(s) => TokenModel::UnqualifiedIdent(s@),
            Token::Ident(s) => TokenModel::Ident(s@),
            Token::Number(s) => TokenModel::Number(s@),
            Token::KwModule => TokenModel::KwModule,
            Token::KwImport => TokenModel::KwImport,
            Token::KwIf => TokenModel::KwIf,
            Token::KwElif => TokenModel::KwElif,
            Token::KwElse => TokenModel::KwElse,
            Token::KwFor => TokenModel::KwFor,
            Token::KwIn => TokenModel::KwIn,
            Token::KwWhile => TokenModel::KwWhile,
            Token::KwBreak => TokenModel::KwBreak,
            Token::KwContinue => TokenModel::KwContinue,
            Token::KwReturn => TokenModel::KwReturn,
            Token::KwClass => TokenModel::KwClass,
            Token::KwStruct => TokenModel::KwStruct,
            Token::KwOverride => TokenModel::KwOverride,
            Token::KwMut => TokenModel::KwMut,
            Token::KwType => TokenModel::KwType,
            Token::Underscore => TokenModel::Underscore,
            Token::Semicolon => TokenModel::Semicolon,
            Token::Dot => TokenModel::Dot,
            Token::Arrow => TokenModel::Arrow,
            Token::Plus => TokenModel::Plus,
            Token::Minus => TokenModel::Minus,
            Token::Star => TokenModel::Star,
            Token::Divide => TokenModel::Divide,
            Token::Modulo => TokenModel::Modulo,
            Token::Assign => TokenModel::Assign,
            Token::Equals => TokenModel::Equals,
            Token::NotEquals => TokenModel::NotEquals,
            Token::LAngle => TokenModel::LAngle,
            Token::RAngle => TokenModel::RAngle,
            Token::LessEquals => TokenModel::LessEquals,
            Token::GreaterEquals => TokenModel::GreaterEquals,
            Token::Colon => TokenModel::Colon,
            Token::LParen => TokenModel::LParen,
            Token::RParen => TokenModel::RParen,
            Token::LSquare => TokenModel::LSquare,
            Token::RSquare => TokenModel::RSquare,
            Token::LCurly => TokenModel::LCurly,
            Token::RCurly => TokenModel::RCurly,
            Token::PlusAssign => TokenModel::PlusAssign,
            Token::MinusAssign => TokenModel::MinusAssign,
            Token::MultiplyAssign => TokenModel::MultiplyAssign,
            Token::DivideAssign => TokenModel::DivideAssign,
            Token::ModuloAssign => TokenModel::ModuloAssign,
            Token::Increment => TokenModel::Increment,
            Token::Decrement => TokenModel::Decrement,
            Token::KwAnd => TokenModel::KwAnd,
            Token::KwOr => TokenModel::KwOr,
            Token::KwIs => TokenModel::KwIs,
            Token::KwIsNot => TokenModel::KwIsNot,
            Token::KwNot => TokenModel::KwNot,
            Token::KwClone => TokenModel::KwClone,
            Token::Error => TokenModel::Error,
        }
    }
}

/// The source spelling a token stands for: the payload for the carrying
/// variants, the fixed spelling for keywords and operators.
pub open spec fn tok_slice(t: TokenModel) -> Seq<char> {
    match t {
        TokenModel::UnqualifiedIdent(s) => s,
        TokenModel::Ident(s) => s,
        TokenModel::Number(s) => s,
        TokenModel::KwModule => seq!['m', 'o', 'd', 'u', 'l', 'e'],
        TokenModel::KwImport => seq!['i', 'm', 'p', 'o', 'r', 't'],
        TokenModel::KwIf => seq!['i', 'f'],
        TokenModel::KwElif => seq!['e', 'l', 'i', 'f'],
        TokenModel::KwElse => seq!['e', 'l', 's', 'e'],
        TokenModel::KwFor => seq!['f', 'o', 'r'],
        TokenModel::KwIn => seq!['i', 'n'],
        TokenModel::KwWhile => seq!['w', 'h', 'i', 'l', 'e'],
        TokenModel::KwBreak => seq!['b', 'r', 'e', 'a', 'k'],
        TokenModel::KwContinue => seq!['c', 'o', 'n', 't', 'i', 'n', 'u', 'e'],
        TokenModel::KwReturn => seq!['r', 'e', 't', 'u', 'r', 'n'],
        TokenModel::KwClass => seq!['c', 'l', 'a', 's', 's'],
        TokenModel::KwStruct => seq!['s', 't', 'r', 'u', 'c', 't'],
        TokenModel::KwOverride => seq!['o', 'v', 'e', 'r', 'r', 'i', 'd', 'e'],
        TokenModel::KwMut => seq!['m', 'u', 't'],
        TokenModel::KwType => seq!['t', 'y', 'p', 'e'],
        TokenModel::Underscore => seq!['_'],
        TokenModel::Semicolon => seq![';'],
        TokenModel::Dot => seq!['.'],
        TokenModel::Arrow => seq!['-', '>'],
        TokenModel::Plus => seq!['+'],
        TokenModel::Minus => seq!['-'],
        TokenModel::Star => seq!['*'],
        TokenModel::Divide => seq!['/'],
        TokenModel::Modulo => seq!['%'],
        TokenModel::Assign => seq!['='],
        TokenModel::Equals => seq!['=', '='],
        TokenModel::NotEquals => seq!['!', '='],
        TokenModel::LAngle => seq!['<'],
        TokenModel::RAngle => seq!['>'],
        TokenModel::LessEquals => seq!['<', '='],
        TokenModel::GreaterEquals => seq!['>', '='],
        TokenModel::Colon => seq![':'],
        TokenModel::LParen => seq!['('],
        TokenModel::RParen => seq![')'],
        TokenModel::LSquare => seq!['['],
        TokenModel::RSquare => seq![']'],
        TokenModel::LCurly => seq!['{'],
        TokenModel::RCurly => seq!['}'],
        TokenModel::PlusAssign => seq!['+', '='],
        TokenModel::MinusAssign => seq!['-', '='],
        TokenModel::MultiplyAssign => seq!['*', '='],
        TokenModel::DivideAssign => seq!['/', '='],
        TokenModel::ModuloAssign => seq!['%', '='],
        TokenModel::Increment => seq!['+', '+'],
        TokenModel::Decrement => seq!['-', '-'],
        TokenModel::KwAnd => seq!['a', 'n', 'd'],
        TokenModel::KwOr => seq!['o', 'r'],
        TokenModel::KwIs => seq!['i', 's'],
        TokenModel::KwIsNot => seq!['i', 's', 'n', 'o', 't'],
        TokenModel::KwNot => seq!['n', 'o', 't'],
        TokenModel::KwClone => seq!['c', 'l', 'o', 'n', 'e'],
        TokenModel::Error => Seq::empty(),
    }
}

} // verus!
