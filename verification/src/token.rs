use vstd::prelude::*;

verus! {

/// A literal value as written in source text.
///
/// A floating-point literal keeps the decimal text it was written with
/// (digits, one or more dots, digits); turning that text into a binary
/// float is left to the host, since this library computes on integers only.
#[derive(Debug)]
pub enum Literal {
    Nil,
    Bool(bool),
    Int(i64),
    Float(String),
    String(String),
}

impl Literal {
    /// A copy of this literal, equal to it.
    pub fn duplicate(&self) -> (r: Literal)
        ensures
            r == *self,
    {
        match self {
            Literal::Nil => Literal::Nil,
            Literal::Bool(b) => Literal::Bool(*b),
            Literal::Int(i) => Literal::Int(*i),
            Literal::Float(s) => Literal::Float(s.clone()),
            Literal::String(s) => Literal::String(s.clone()),
        }
    }
}

/// The mathematical value of a literal.
pub enum LiteralView {
    Nil,
    Bool(bool),
    Int(i64),
    Float(Seq<char>),
    String(Seq<char>),
}

impl View for Literal {
    type V = LiteralView;

    open spec fn view(&self) -> LiteralView {
        match self {
            Literal::Nil => LiteralView::Nil,
            Literal::Bool(b) => LiteralView::Bool(*b),
            Literal::Int(i) => LiteralView::Int(*i),
            Literal::Float(s) => LiteralView::Float(s@),
            Literal::String(s) => LiteralView::String(s@),
        }
    }
}

/// The mathematical value of a token.
pub enum TokenView {
    Whitespace,
    Assign,
    Arrow,
    Dot,
    Comma,
    Colon,
    Semicolon,
    OpenParen,
    CloseParen,
    OpenBrace,
    CloseBrace,
    OpenBracket,
    CloseBracket,
    Equal,
    NotEqual,
    Less,
    LessEqual,
    Greater,
    GreaterEqual,
    And,
    Or,
    Not,
    BitAnd,
    BitOr,
    BitXor,
    BitNot,
    ShiftLeft,
    ShiftRight,
    Plus,
    Minus,
    Star,
    Slash,
    Percent,
    Ident(Seq<char>),
    Literal(LiteralView),
    Let,
    Fn,
    Struct,
    Return,
    SelfArg,
    If,
    While,
    Else,
    Break,
    Continue,
    Path,
    NewLine,
    Unknown,
    Eof,
}

impl View for Token {
    type V = TokenView;

    open spec fn view(&self) -> TokenView {
        match self {
            Token::Whitespace => TokenView::Whitespace,
            Token::Assign => TokenView::Assign,
            Token::Arrow => TokenView::Arrow,
            Token::Dot => TokenView::Dot,
            Token::Comma => TokenView::Comma,
            Token::Colon => TokenView::Colon,
            Token::Semicolon => TokenView::Semicolon,
            Token::OpenParen => TokenView::OpenParen,
            Token::CloseParen => TokenView::CloseParen,
            Token::OpenBrace => TokenView::OpenBrace,
            Token::CloseBrace => TokenView::CloseBrace,
            Token::OpenBracket => TokenView::OpenBracket,
            Token::CloseBracket => TokenView::CloseBracket,
            Token::Equal => TokenView::Equal,
            Token::NotEqual => TokenView::NotEqual,
            Token::Less => TokenView::Less,
            Token::LessEqual => TokenView::LessEqual,
            Token::Greater => TokenView::Greater,
            Token::GreaterEqual => TokenView::GreaterEqual,
            Token::And => TokenView::And,
            Token::Or => TokenView::Or,
            Token::Not => TokenView::Not,
            Token::BitAnd => TokenView::BitAnd,
            Token::BitOr => TokenView::BitOr,
            Token::BitXor => TokenView::BitXor,
            Token::BitNot => TokenView::BitNot,
            Token::ShiftLeft => TokenView::ShiftLeft,
            Token::ShiftRight => TokenView::ShiftRight,
            Token::Plus => TokenView::Plus,
            Token::Minus => TokenView::Minus,
            Token::Star => TokenView::Star,
            Token::Slash => TokenView::Slash,
            Token::Percent => TokenView::Percent,
            Token::Ident(s) => TokenView::Ident(s@),
            Token::Literal(l) => TokenView::Literal(l@),
            Token::Let => TokenView::Let,
            Token::Fn => TokenView::Fn,
            Token::Struct => TokenView::Struct,
            Token::Return => TokenView::Return,
            Token::SelfArg => TokenView::SelfArg,
            Token::If => TokenView::If,
            Token::While => TokenView::While,
            Token::Else => TokenView::Else,
            Token::Break => TokenView::Break,
            Token::Continue => TokenView::Continue,
            Token::Path => TokenView::Path,
            Token::NewLine => TokenView::NewLine,
            Token::Unknown => TokenView::Unknown,
            Token::Eof => TokenView::Eof,
        }
    }
}

impl TokenView {
    /// The kind of a token value.
    pub open spec fn kind(self) -> TokenKind {
        match self {
            TokenView::Whitespace => TokenKind::Whitespace,
            TokenView::Assign => TokenKind::Assign,
            TokenView::Arrow => TokenKind::Arrow,
            TokenView::Dot => TokenKind::Dot,
            TokenView::Comma => TokenKind::Comma,
            TokenView::Colon => TokenKind::Colon,
            TokenView::Semicolon => TokenKind::Semicolon,
            TokenView::OpenParen => TokenKind::OpenParen,
            TokenView::CloseParen => TokenKind::CloseParen,
            TokenView::OpenBrace => TokenKind::OpenBrace,
            TokenView::CloseBrace => TokenKind::CloseBrace,
            TokenView::OpenBracket => TokenKind::OpenBracket,
            TokenView::CloseBracket => TokenKind::CloseBracket,
            TokenView::Equal => TokenKind::Equal,
            TokenView::NotEqual => TokenKind::NotEqual,
            TokenView::Less => TokenKind::Less,
            TokenView::LessEqual => TokenKind::LessEqual,
            TokenView::Greater => TokenKind::Greater,
            TokenView::GreaterEqual => TokenKind::GreaterEqual,
            TokenView::And => TokenKind::And,
            TokenView::Or => TokenKind::Or,
            TokenView::Not => TokenKind::Not,
            TokenView::BitAnd => TokenKind::BitAnd,
            TokenView::BitOr => TokenKind::BitOr,
            TokenView::BitXor => TokenKind::BitXor,
            TokenView::BitNot => TokenKind::BitNot,
            TokenView::ShiftLeft => TokenKind::ShiftLeft,
            TokenView::ShiftRight => TokenKind::ShiftRight,
            TokenView::Plus => TokenKind::Plus,
            TokenView::Minus => TokenKind::Minus,
            TokenView::Star => TokenKind::Star,
            TokenView::Slash => TokenKind::Slash,
            TokenView::Percent => TokenKind::Percent,
            TokenView::Ident(_) => TokenKind::Ident,
            TokenView::Literal(_) => TokenKind::Literal,
            TokenView::Let => TokenKind::Let,
            TokenView::Fn => TokenKind::Fn,
            TokenView::Struct => TokenKind::Struct,
            TokenView::Return => TokenKind::Return,
            TokenView::SelfArg => TokenKind::SelfArg,
            TokenView::If => TokenKind::If,
            TokenView::While => TokenKind::While,
            TokenView::Else => TokenKind::Else,
            TokenView::Break => TokenKind::Break,
            TokenView::Continue => TokenKind::Continue,
            TokenView::Path => TokenKind::Path,
            TokenView::NewLine => TokenKind::NewLine,
            TokenView::Unknown => TokenKind::Unknown,
            TokenView::Eof => TokenKind::Eof,
        }
    }
}

/// A lexical token.
#[derive(Debug)]
pub enum Token {
    Whitespace,
    /// `=`
    Assign,
    /// `->`
    Arrow,
    /// `.`
    Dot,
    /// `,`
    Comma,
    /// `:`
    Colon,
    /// `;`
    Semicolon,
    /// `(`
    OpenParen,
    /// `)`
    CloseParen,
    /// `{`
    OpenBrace,
    /// `}`
    CloseBrace,
    /// `[`
    OpenBracket,
    /// `]`
    CloseBracket,
    /// `==`
    Equal,
    /// `!=`
    NotEqual,
    /// `<`
    Less,
    /// `<=`
    LessEqual,
    /// `>`
    Greater,
    /// `>=`
    GreaterEqual,
    /// `&&`
    And,
    /// `||`
    Or,
    /// `!`
    Not,
    /// `&`
    BitAnd,
    /// `|`
    BitOr,
    /// `^`
    BitXor,
    /// `~`
    BitNot,
    /// `<<`
    ShiftLeft,
    /// `>>`
    ShiftRight,
    /// `+`
    Plus,
    /// `-`
    Minus,
    /// `*`
    Star,
    /// `/`
    Slash,
    /// `%`
    Percent,
    Ident(String),
    Literal(Literal),
    Let,
    Fn,
    Struct,
    Return,
    SelfArg,
    If,
    While,
    Else,
    Break,
    Continue,
    /// `::`
    Path,
    NewLine,
    Unknown,
    Eof,
}

/// The kind of a token, without its payload.
#[derive(PartialEq, Eq, Structural, Debug, Clone, Copy)]
pub enum TokenKind {
    Whitespace,
    /// `=`
    Assign,
    /// `->`
    Arrow,
    /// `.`
    Dot,
    /// `,`
    Comma,
    /// `:`
    Colon,
    /// `;`
    Semicolon,
    /// `(`
    OpenParen,
    /// `)`
    CloseParen,
    /// `{`
    OpenBrace,
    /// `}`
    CloseBrace,
    /// `[`
    OpenBracket,
    /// `]`
    CloseBracket,
    /// `==`
    Equal,
    /// `!=`
    NotEqual,
    /// `<`
    Less,
    /// `<=`
    LessEqual,
    /// `>`
    Greater,
    /// `>=`
    GreaterEqual,
    /// `&&`
    And,
    /// `||`
    Or,
    /// `!`
    Not,
    /// `&`
    BitAnd,
    /// `|`
    BitOr,
    /// `^`
    BitXor,
    /// `~`
    BitNot,
    /// `<<`
    ShiftLeft,
    /// `>>`
    ShiftRight,
    /// `+`
    Plus,
    /// `-`
    Minus,
    /// `*`
    Star,
    /// `/`
    Slash,
    /// `%`
    Percent,
    Ident,
    Literal,
    Let,
    Fn,
    Struct,
    Return,
    SelfArg,
    If,
    While,
    Else,
    Break,
    Continue,
    /// `::`
    Path,
    NewLine,
    Unknown,
    Eof,
}

impl Token {
    /// The kind of this token.
    pub fn kind(&self) -> (k: TokenKind)
        ensures
            k == self@.kind(),
    {
        match self {
            Token::Whitespace => TokenKind::Whitespace,
            Token::Assign => TokenKind::Assign,
            Token::Arrow => TokenKind::Arrow,
            Token::Dot => TokenKind::Dot,
            Token::Comma => TokenKind::Comma,
            Token::Colon => TokenKind::Colon,
            Token::Semicolon => TokenKind::Semicolon,
            Token::OpenParen => TokenKind::OpenParen,
            Token::CloseParen => TokenKind::CloseParen,
            Token::OpenBrace => TokenKind::OpenBrace,
            Token::CloseBrace => TokenKind::CloseBrace,
            Token::OpenBracket => TokenKind::OpenBracket,
            Token::CloseBracket => TokenKind::CloseBracket,
            Token::Equal => TokenKind::Equal,
            Token::NotEqual => TokenKind::NotEqual,
            Token::Less => TokenKind::Less,
            Token::LessEqual => TokenKind::LessEqual,
            Token::Greater => TokenKind::Greater,
            Token::GreaterEqual => TokenKind::GreaterEqual,
            Token::And => TokenKind::And,
            Token::Or => TokenKind::Or,
            Token::Not => TokenKind::Not,
            Token::BitAnd => TokenKind::BitAnd,
            Token::BitOr => TokenKind::BitOr,
            Token::BitXor => TokenKind::BitXor,
            Token::BitNot => TokenKind::BitNot,
            Token::ShiftLeft => TokenKind::ShiftLeft,
            Token::ShiftRight => TokenKind::ShiftRight,
            Token::Plus => TokenKind::Plus,
            Token::Minus => TokenKind::Minus,
            Token::Star => TokenKind::Star,
            Token::Slash => TokenKind::Slash,
            Token::Percent => TokenKind::Percent,
            Token::Ident(_) => TokenKind::Ident,
            Token::Literal(_) => TokenKind::Literal,
            Token::Let => TokenKind::Let,
            Token::Fn => TokenKind::Fn,
            Token::Struct => TokenKind::Struct,
            Token::Return => TokenKind::Return,
            Token::SelfArg => TokenKind::SelfArg,
            Token::If => TokenKind::If,
            Token::While => TokenKind::While,
            Token::Else => TokenKind::Else,
            Token::Break => TokenKind::Break,
            Token::Continue => TokenKind::Continue,
            Token::Path => TokenKind::Path,
            Token::NewLine => TokenKind::NewLine,
            Token::Unknown => TokenKind::Unknown,
            Token::Eof => TokenKind::Eof,
        }
    }

    /// A copy of this token, equal to it.
    pub fn duplicate(&self) -> (r: Token)
        ensures
            r == *self,
    {
        match self {
            Token::Ident(s) => Token::Ident(s.clone()),
            Token::Literal(l) => Token::Literal(l.duplicate()),
            Token::Whitespace => Token::Whitespace,
            Token::Assign => Token::Assign,
            Token::Arrow => Token::Arrow,
            Token::Dot => Token::Dot,
            Token::Comma => Token::Comma,
            Token::Colon => Token::Colon,
            Token::Semicolon => Token::Semicolon,
            Token::OpenParen => Token::OpenParen,
            Token::CloseParen => Token::CloseParen,
            Token::OpenBrace => Token::OpenBrace,
            Token::CloseBrace => Token::CloseBrace,
            Token::OpenBracket => Token::OpenBracket,
            Token::CloseBracket => Token::CloseBracket,
            Token::Equal => Token::Equal,
            Token::NotEqual => Token::NotEqual,
            Token::Less => Token::Less,
            Token::LessEqual => Token::LessEqual,
            Token::Greater => Token::Greater,
            Token::GreaterEqual => Token::GreaterEqual,
            Token::And => Token::And,
            Token::Or => Token::Or,
            Token::Not => Token::Not,
            Token::BitAnd => Token::BitAnd,
            Token::BitOr => Token::BitOr,
            Token::BitXor => Token::BitXor,
            Token::BitNot => Token::BitNot,
            Token::ShiftLeft => Token::ShiftLeft,
            Token::ShiftRight => Token::ShiftRight,
            Token::Plus => Token::Plus,
            Token::Minus => Token::Minus,
            Token::Star => Token::Star,
            Token::Slash => Token::Slash,
            Token::Percent => Token::Percent,
            Token::Let => Token::Let,
            Token::Fn => Token::Fn,
            Token::Struct => Token::Struct,
            Token::Return => Token::Return,
            Token::SelfArg => Token::SelfArg,
            Token::If => Token::If,
            Token::While => Token::While,
            Token::Else => Token::Else,
            Token::Break => Token::Break,
            Token::Continue => Token::Continue,
            Token::Path => Token::Path,
            Token::NewLine => Token::NewLine,
            Token::Unknown => Token::Unknown,
            Token::Eof => Token::Eof,
        }
    }
}

/// The text by which a token kind is shown in messages.
pub open spec fn kind_text(k: TokenKind) -> Seq<char> {
    match k {
        TokenKind::Whitespace => "whitespace"@,
        TokenKind::Assign => "="@,
        TokenKind::Arrow => "->"@,
        TokenKind::Dot => "."@,
        TokenKind::Comma => ","@,
        TokenKind::Colon => ":"@,
        TokenKind::Semicolon => ";"@,
        TokenKind::OpenParen => "("@,
        TokenKind::CloseParen => ")"@,
        TokenKind::OpenBrace => "{"@,
        TokenKind::CloseBrace => "}"@,
        TokenKind::OpenBracket => "["@,
        TokenKind::CloseBracket => "]"@,
        TokenKind::Equal => "=="@,
        TokenKind::NotEqual => "!="@,
        TokenKind::Less => "<"@,
        TokenKind::LessEqual => "<="@,
        TokenKind::Greater => ">"@,
        TokenKind::GreaterEqual => ">="@,
        TokenKind::And => "&&"@,
        TokenKind::Or => "||"@,
        TokenKind::Not => "!"@,
        TokenKind::BitAnd => "&"@,
        TokenKind::BitOr => "|"@,
        TokenKind::BitXor => "^"@,
        TokenKind::BitNot => "~"@,
        TokenKind::ShiftLeft => "<<"@,
        TokenKind::ShiftRight => ">>"@,
        TokenKind::Plus => "+"@,
        TokenKind::Minus => "-"@,
        TokenKind::Star => "*"@,
        TokenKind::Slash => "/"@,
        TokenKind::Percent => "%"@,
        TokenKind::Ident => "ident"@,
        TokenKind::Literal => "literal"@,
        TokenKind::Let => "let"@,
        TokenKind::Fn => "fn"@,
        TokenKind::Struct => "struct"@,
        TokenKind::Return => "return"@,
        TokenKind::SelfArg => "self"@,
        TokenKind::If => "if"@,
        TokenKind::While => "while"@,
        TokenKind::Else => "else"@,
        TokenKind::Break => "break"@,
        TokenKind::Continue => "continue"@,
        TokenKind::Path => "::"@,
        TokenKind::NewLine => "\\n"@,
        TokenKind::Unknown => "unknown"@,
        TokenKind::Eof => "eof"@,
    }
}

impl TokenKind {
    /// The text by which this kind is shown in messages.
    pub fn text(&self) -> (s: &'static str)
        ensures
            s@ == kind_text(*self),
    {
        match self {
            TokenKind::Whitespace => "whitespace",
            TokenKind::Assign => "=",
            TokenKind::Arrow => "->",
            TokenKind::Dot => ".",
            TokenKind::Comma => ",",
            TokenKind::Colon => ":",
            TokenKind::Semicolon => ";",
            TokenKind::OpenParen => "(",
            TokenKind::CloseParen => ")",
            TokenKind::OpenBrace => "{",
            TokenKind::CloseBrace => "}",
            TokenKind::OpenBracket => "[",
            TokenKind::CloseBracket => "]",
            TokenKind::Equal => "==",
            TokenKind::NotEqual => "!=",
            TokenKind::Less => "<",
            TokenKind::LessEqual => "<=",
            TokenKind::Greater => ">",
            TokenKind::GreaterEqual => ">=",
            TokenKind::And => "&&",
            TokenKind::Or => "||",
            TokenKind::Not => "!",
            TokenKind::BitAnd => "&",
            TokenKind::BitOr => "|",
            TokenKind::BitXor => "^",
            TokenKind::BitNot => "~",
            TokenKind::ShiftLeft => "<<",
            TokenKind::ShiftRight => ">>",
            TokenKind::Plus => "+",
            TokenKind::Minus => "-",
            TokenKind::Star => "*",
            TokenKind::Slash => "/",
            TokenKind::Percent => "%",
            TokenKind::Ident => "ident",
            TokenKind::Literal => "literal",
            TokenKind::Let => "let",
            TokenKind::Fn => "fn",
            TokenKind::Struct => "struct",
            TokenKind::Return => "return",
            TokenKind::SelfArg => "self",
            TokenKind::If => "if",
            TokenKind::While => "while",
            TokenKind::Else => "else",
            TokenKind::Break => "break",
            TokenKind::Continue => "continue",
            TokenKind::Path => "::",
            TokenKind::NewLine => "\\n",
            TokenKind::Unknown => "unknown",
            TokenKind::Eof => "eof",
        }
    }
}

} // verus!
