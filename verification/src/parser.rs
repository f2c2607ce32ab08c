use crate::ast::{
    Arg, AssignStmt, BinaryOp, Block, BlockStmt, Expr, Field, FieldAssign, FunctionDef, IfStmt,
    LetStmt, PathSegment, Program, ReturnStmt, Statement, StructDef, Type, UnaryOp, WhileStmt,
};
use crate::grammar::{
    Failure, block_at, block_body_at, body_loop, call_args_at, call_loop, factor_at, field_at, fn_at, function_at,
    lemma_skip_blank, level_at, level_loop, members_loop, params_loop, postfix_loop, primary_at, primary_base,
    program_at, program_loop, segment_at, segments_at, segments_loop, self_path, stmt_at, struct_at,
    struct_fields_loop, type_args_at, type_args_loop, type_at,
};
use crate::lex::Pos;
use crate::syntax::{
    args_view, block_view, expr_view, exprs_view, field_assigns_view, field_view, fields_view, function_view,
    functions_view, program_view, segment_view, segments_view, statements_view, stmt_view, stmts_view,
    struct_view, type_view, types_view, BindingView, BlockView, ExprView, FieldAssignView, FunctionView,
    SegmentView, StatementView, StmtView, StructView, TypeView,
};
use crate::token::{Token, TokenKind};
use vstd::prelude::*;

verus! {

/// Why a token list is not a program.
#[derive(Debug)]
pub enum ParseError {
    /// A token other than one of the expected kinds was found.
    Unexpected { expected: Vec<TokenKind>, found: Token, pos: Pos },
    /// `self` is not the first parameter.
    SelfArgNotFirst { pos: Pos },
    /// `self` is a parameter of a function outside a struct.
    SelfArgInFunction { pos: Pos },
}

/// The result of a parse.
pub type ParseResult<T> = Result<T, ParseError>;

/// The kind of a parse error.
pub open spec fn failure_of(e: ParseError) -> Failure {
    match e {
        ParseError::Unexpected { .. } => Failure::Unexpected,
        ParseError::SelfArgNotFirst { .. } => Failure::SelfArgNotFirst,
        ParseError::SelfArgInFunction { .. } => Failure::SelfArgInFunction,
    }
}

/// A parse error is an unexpected token; where `f` names the kinds
/// expected at a position, the error names them, the token found there and
/// its position.
pub open spec fn unexpected_as(e: ParseError, f: Option<(Seq<TokenKind>, int)>, t: Seq<(Token, Pos)>) -> bool {
    &&& e is Unexpected
    &&& f matches Some((kinds, at)) ==> (e matches ParseError::Unexpected { expected, found, pos } && expected@
        == kinds && found == token_at(t, at) && (0 <= at < t.len() ==> pos == t[at].1))
}

/// A parse error of tokens `t` is the failure `f`: where the failure names
/// the kinds expected at a position, the error names them, the token found
/// there and its position; otherwise the error is of the failure's kind.
pub open spec fn fails_as(e: ParseError, f: Failure, t: Seq<(Token, Pos)>) -> bool {
    match f {
        Failure::Expected { kinds, at } => e matches ParseError::Unexpected { expected, found, pos } && expected@
            == kinds && found == token_at(t, at) && (0 <= at < t.len() ==> pos == t[at].1),
        _ => failure_of(e) == f,
    }
}

/// A function parsed inside a struct: a method when `self` is its first
/// parameter.
pub enum RawFunction {
    Function(FunctionDef),
    Method(FunctionDef),
}

/// Where the parameter list of a function stands: at its start, after a
/// comma, or after a parameter.
#[derive(Clone, Copy, PartialEq, Eq, Structural, Debug)]
pub enum ParseArgState {
    Start,
    Comma,
    Arg,
}

impl ParseArgState {
    /// `self` may come only first.
    pub fn can_be_self(&self) -> (b: bool)
        ensures
            b == (*self == ParseArgState::Start),
    {
        matches!(self, ParseArgState::Start)
    }

    /// `)` may come at the start or after a parameter.
    pub fn can_be_close(&self) -> (b: bool)
        ensures
            b == (*self != ParseArgState::Comma),
    {
        match self {
            ParseArgState::Start | ParseArgState::Arg => true,
            ParseArgState::Comma => false,
        }
    }

    /// A parameter may come at the start or after a comma.
    pub fn can_be_arg(&self) -> (b: bool)
        ensures
            b == (*self != ParseArgState::Arg),
    {
        match self {
            ParseArgState::Start | ParseArgState::Comma => true,
            ParseArgState::Arg => false,
        }
    }

    /// A comma may come at the start or after a parameter.
    pub fn can_be_comma(&self) -> (b: bool)
        ensures
            b == (*self != ParseArgState::Comma),
    {
        match self {
            ParseArgState::Start | ParseArgState::Arg => true,
            ParseArgState::Comma => false,
        }
    }

    /// The kinds of token that may come next.
    pub fn expect(&self) -> (v: Vec<TokenKind>)
        ensures
            v@ == (match *self {
                ParseArgState::Start => seq![TokenKind::SelfArg, TokenKind::CloseParen, TokenKind::Ident],
                ParseArgState::Comma => seq![TokenKind::Ident],
                ParseArgState::Arg => seq![TokenKind::Comma, TokenKind::CloseParen],
            }),
    {
        match self {
            ParseArgState::Start => vec![TokenKind::SelfArg, TokenKind::CloseParen, TokenKind::Ident],
            ParseArgState::Comma => vec![TokenKind::Ident],
            ParseArgState::Arg => vec![TokenKind::Comma, TokenKind::CloseParen],
        }
    }

    /// The state after a parameter or a comma: after a comma comes a
    /// parameter, after anything else a comma.
    pub fn next_state(&mut self)
        ensures
            *final(self) == (match *old(self) {
                ParseArgState::Arg => ParseArgState::Comma,
                _ => ParseArgState::Arg,
            }),
    {
        match self {
            ParseArgState::Start => *self = ParseArgState::Arg,
            ParseArgState::Comma => *self = ParseArgState::Arg,
            ParseArgState::Arg => *self = ParseArgState::Comma,
        }
    }
}

/// The token at position `i`, or the end of input past the last one.
pub open spec fn token_at(t: Seq<(Token, Pos)>, i: int) -> Token {
    if 0 <= i < t.len() {
        t[i].0
    } else {
        Token::Eof
    }
}

/// Whether a token is skipped as a line break or white space.
pub open spec fn is_blank(t: Token) -> bool {
    t is Whitespace || t is NewLine
}

/// The first position from `i` on that holds no blank token.
pub open spec fn skip_blank(t: Seq<(Token, Pos)>, i: int) -> int
    decreases t.len() - i,
{
    if 0 <= i < t.len() && is_blank(t[i].0) {
        skip_blank(t, i + 1)
    } else {
        i
    }
}

/// A recursive-descent parser over a list of tokens with their positions,
/// which ends with the end-of-input token.
pub struct Parser<'a> {
    input: &'a [(Token, Pos)],
    idx: usize,
    eof_pos: Pos,
}

impl<'a> Parser<'a> {
    /// The tokens.
    pub closed spec fn tokens(&self) -> Seq<(Token, Pos)> {
        self.input@
    }

    /// The position of the next token.
    pub closed spec fn at(&self) -> int {
        self.idx as int
    }

    /// Where the input ends.
    pub closed spec fn eof(&self) -> Pos {
        self.eof_pos
    }

    /// The number of tokens not read yet.
    pub open spec fn remaining(&self) -> nat {
        (self.tokens().len() - self.at()) as nat
    }

    /// The next token, or the end of input.
    pub open spec fn next(&self) -> Token {
        token_at(self.tokens(), self.at())
    }

    /// The position after taking the next token; it stays at the end of
    /// input.
    pub open spec fn step(&self) -> int {
        if self.at() < self.tokens().len() {
            self.at() + 1
        } else {
            self.at()
        }
    }

    /// The position is within the tokens.
    pub closed spec fn wf(&self) -> bool {
        self.idx <= self.input@.len()
    }

    /// The parser moved on over the same tokens.
    pub open spec fn moved_on(&self, before: &Parser<'a>) -> bool {
        &&& self.wf()
        &&& self.tokens() == before.tokens()
        &&& self.eof() == before.eof()
        &&& self.at() >= before.at()
    }

    /// A parser at the first token; the end of input is where the last
    /// token stands (the start, for no tokens).
    pub fn new(input: &'a [(Token, Pos)]) -> (p: Parser<'a>)
        requires
            input@.len() > 0 ==> input@.last().0 is Eof,
        ensures
            p.wf(),
            p.tokens() == input@,
            p.at() == 0,
            input@.len() > 0 ==> p.eof() == input@.last().1,
            input@.len() == 0 ==> p.eof() == (Pos { line: 0, offset: 0 }),
    {
        let n = input.len();
        let eof_pos = if n > 0 {
            input[n - 1].1
        } else {
            Pos { line: 0, offset: 0 }
        };
        Parser { input, idx: 0, eof_pos }
    }

    /// Takes the next token with its position; at the end of input, the
    /// end-of-input token where the input ends.
    pub fn bump(&mut self) -> (r: (&'a Token, Pos))
        requires
            old(self).wf(),
        ensures
            final(self).wf(),
            final(self).tokens() == old(self).tokens(),
            final(self).eof() == old(self).eof(),
            *r.0 == old(self).next(),
            old(self).at() < old(self).tokens().len() ==> r.1 == old(self).tokens()[old(self).at()].1
                && final(self).at() == old(self).at() + 1,
            old(self).at() >= old(self).tokens().len() ==> r.1 == old(self).eof() && final(self).at()
                == old(self).at(),
    {
        if self.idx < self.input.len() {
            let i = self.idx;
            self.idx = self.idx + 1;
            (&self.input[i].0, self.input[i].1)
        } else {
            (&Token::Eof, self.eof_pos)
        }
    }

    /// The next token.
    pub fn first(&self) -> (t: &'a Token)
        requires
            self.wf(),
        ensures
            *t == self.next(),
    {
        if self.idx < self.input.len() {
            &self.input[self.idx].0
        } else {
            &Token::Eof
        }
    }

    /// The token after the next one.
    pub fn second(&self) -> (t: &'a Token)
        requires
            self.wf(),
        ensures
            *t == token_at(self.tokens(), self.at() + 1),
    {
        if self.idx < self.input.len() && self.idx + 1 < self.input.len() {
            &self.input[self.idx + 1].0
        } else {
            &Token::Eof
        }
    }

    /// The next token with its position.
    pub fn first_full(&self) -> (r: (&'a Token, Pos))
        requires
            self.wf(),
        ensures
            *r.0 == self.next(),
            self.at() < self.tokens().len() ==> r.1 == self.tokens()[self.at()].1,
            self.at() >= self.tokens().len() ==> r.1 == self.eof(),
    {
        if self.idx < self.input.len() {
            (&self.input[self.idx].0, self.input[self.idx].1)
        } else {
            (&Token::Eof, self.eof_pos)
        }
    }

    /// The error for input that ended where one of `kinds` was expected.
    pub fn unexpected_eof(&self, kinds: Vec<TokenKind>) -> (e: ParseError)
        ensures
            e == (ParseError::Unexpected { expected: kinds, found: Token::Eof, pos: self.eof() }),
    {
        ParseError::Unexpected { expected: kinds, found: Token::Eof, pos: self.eof_pos }
    }

    /// Takes the next token where it is of a kind; otherwise an error that
    /// names the kind and the token found, and nothing is taken.
    pub fn expect(&mut self, kind: TokenKind) -> (r: Result<(), ParseError>)
        requires
            old(self).wf(),
        ensures
            final(self).moved_on(old(self)),
            old(self).next()@.kind() == kind ==> r is Ok && final(self).at() == old(self).step(),
            old(self).next()@.kind() != kind ==> final(self).at() == old(self).at() && match r {
                Err(ParseError::Unexpected { expected, found, pos }) => expected@ == seq![kind]
                    && found == old(self).next() && (old(self).at() < old(self).tokens().len() ==> pos
                    == old(self).tokens()[old(self).at()].1),
                _ => false,
            },
    {
        let (token, pos) = self.first_full();
        if token.kind() == kind {
            self.bump();
            Ok(())
        } else {
            Err(ParseError::Unexpected { expected: vec![kind], found: token.duplicate(), pos })
        }
    }

    /// Whether the next token is of a kind (false at the end of input).
    pub fn first_check(&self, kind: TokenKind) -> (b: bool)
        requires
            self.wf(),
        ensures
            b == (self.at() < self.tokens().len() && self.next()@.kind() == kind),
    {
        if self.idx < self.input.len() {
            self.input[self.idx].0.kind() == kind
        } else {
            false
        }
    }

    /// Skips white space and line breaks.
    pub fn skip_newline(&mut self)
        requires
            old(self).wf(),
        ensures
            final(self).moved_on(old(self)),
            final(self).at() == skip_blank(old(self).tokens(), old(self).at()),
    {
        while self.idx < self.input.len() && (matches!(self.input[self.idx].0, Token::Whitespace)
            || matches!(self.input[self.idx].0, Token::NewLine))
            invariant
                self.moved_on(old(self)),
                skip_blank(self.tokens(), self.at()) == skip_blank(old(self).tokens(), old(self).at()),
            decreases self.remaining(),
        {
            self.idx = self.idx + 1;
        }
    }

    /// Takes an identifier and gives back its name; any other token is an
    /// error (and is taken too).
    pub fn expect_ident(&mut self) -> (r: Result<String, ParseError>)
        requires
            old(self).wf(),
        ensures
            final(self).moved_on(old(self)),
            match old(self).next() {
                Token::Ident(name) => r == Ok::<String, ParseError>(name) && final(self).at()
                    == old(self).at() + 1,
                _ => r matches Err(ParseError::Unexpected { expected, found, pos }) && expected@ == seq![
                    TokenKind::Ident,
                ] && found == old(self).next() && (old(self).at() < old(self).tokens().len() ==> pos
                    == old(self).tokens()[old(self).at()].1),
            },
    {
        let (token, pos) = self.bump();
        match token {
            Token::Ident(name) => Ok(name.clone()),
            _ => Err(ParseError::Unexpected { expected: vec![TokenKind::Ident], found: token.duplicate(), pos }),
        }
    }

    /// Takes a binary operator and gives back the operation; any other token
    /// is an error (and is taken too).
    pub fn parse_binary_op(&mut self) -> (r: ParseResult<BinaryOp>)
        requires
            old(self).wf(),
        ensures
            final(self).moved_on(old(self)),
            r == (match binary_op_of(old(self).next()) {
                Some(op) => Ok::<BinaryOp, ParseError>(op),
                None => r,
            }),
            binary_op_of(old(self).next()) is None ==> r matches Err(ParseError::Unexpected { .. }),
            r is Ok ==> final(self).at() == old(self).at() + 1,
    {
        let (token, pos) = self.bump();
        match token {
            Token::Equal => Ok(BinaryOp::Equal),
            Token::NotEqual => Ok(BinaryOp::NotEqual),
            Token::Less => Ok(BinaryOp::Less),
            Token::LessEqual => Ok(BinaryOp::LessEqual),
            Token::Greater => Ok(BinaryOp::Greater),
            Token::GreaterEqual => Ok(BinaryOp::GreaterEqual),
            Token::BitAnd => Ok(BinaryOp::BitAnd),
            Token::BitOr => Ok(BinaryOp::BitOr),
            Token::BitXor => Ok(BinaryOp::BitXor),
            Token::ShiftLeft => Ok(BinaryOp::ShiftLeft),
            Token::ShiftRight => Ok(BinaryOp::ShiftRight),
            Token::Plus => Ok(BinaryOp::Add),
            Token::Minus => Ok(BinaryOp::Subtract),
            Token::Star => Ok(BinaryOp::Multiply),
            Token::Slash => Ok(BinaryOp::Divide),
            Token::Percent => Ok(BinaryOp::Modulo),
            Token::And => Ok(BinaryOp::And),
            Token::Or => Ok(BinaryOp::Or),
            _ => Err(ParseError::Unexpected { expected: Vec::new(), found: token.duplicate(), pos }),
        }
    }

    /// Parses a program: struct and function definitions up to the end of
    /// input.
    pub fn parse_program(&mut self) -> (r: ParseResult<Program>)
        requires
            old(self).wf(),
        ensures
            final(self).moved_on(old(self)),
            r is Ok ==> final(self).next() is Eof,
            match program_at(old(self).tokens(), old(self).at()) {
                Ok((v, j)) => r is Ok && program_view(r->Ok_0) == v && final(self).at() == j,
                Err(f) => r matches Err(e) && fails_as(e, f, old(self).tokens()),
            },
        decreases old(self).remaining(), 40nat,
    {
        let ghost t = self.tokens();
        let ghost j0 = self.at();
        let mut program = Program { statements: Vec::new() };
        assert(statements_view(program.statements@) =~= Seq::<StatementView>::empty());
        loop
            invariant_except_break
                program_at(t, j0) == program_loop(t, self.at(), statements_view(program.statements@)),
            invariant
                self.moved_on(old(self)),
                t == self.tokens(),
                j0 == old(self).at(),
            ensures
                self.moved_on(old(self)),
                self.next() is Eof,
                program_at(t, j0) == Ok::<(Seq<StatementView>, int), Failure>((statements_view(program.statements@), self.at())),
            decreases self.remaining(),
        {
            let ghost head = self.at();
            proof {
                lemma_skip_blank(t, head);
            }
            self.skip_newline();
            let (first, pos) = self.first_full();
            match first {
                Token::Struct => {
                    let node = self.parse_struct()?;
                    let ghost before = program.statements@;
                    program.statements.push(Statement::StructDef(node));
                    assert(statements_view(program.statements@) =~= statements_view(before).push(
                        StatementView::StructDef(struct_view(node)),
                    ));
                },
                Token::Fn => {
                    let function = self.parse_fn()?;
                    let ghost before = program.statements@;
                    program.statements.push(Statement::FunctionDef(function));
                    assert(statements_view(program.statements@) =~= statements_view(before).push(
                        StatementView::FunctionDef(function_view(function)),
                    ));
                },
                Token::Eof => {
                    break ;
                },
                token => {
                    return Err(
                        ParseError::Unexpected {
                            expected: vec![TokenKind::Struct, TokenKind::Fn],
                            found: token.duplicate(),
                            pos,
                        },
                    );
                },
            }
        }
        Ok(program)
    }

    /// Parses a struct: its fields, functions and methods.
    pub fn parse_struct(&mut self) -> (r: ParseResult<StructDef>)
        requires
            old(self).wf(),
        ensures
            final(self).moved_on(old(self)),
            r is Ok ==> final(self).at() > old(self).at() && final(self).tokens()[final(self).at() - 1].0 is CloseBrace,
            match struct_at(old(self).tokens(), old(self).at()) {
                Ok((v, j)) => r is Ok && struct_view(r->Ok_0) == v && final(self).at() == j,
                Err(f) => r matches Err(e) && fails_as(e, f, old(self).tokens()),
            },
        decreases old(self).remaining(), 39nat,
    {
        let ghost t = self.tokens();
        let mut fields: Vec<Field> = Vec::new();
        let mut methods: Vec<FunctionDef> = Vec::new();
        let mut functions: Vec<FunctionDef> = Vec::new();
        proof {
            lemma_skip_blank(t, self.at());
        }
        self.skip_newline();
        self.expect(TokenKind::Struct)?;
        proof {
            lemma_skip_blank(t, self.at());
        }
        self.skip_newline();
        let name = self.expect_ident()?;
        proof {
            lemma_skip_blank(t, self.at());
        }
        self.skip_newline();
        self.expect(TokenKind::OpenBrace)?;
        let ghost start = self.at();
        let ghost name_v = name@;
        let ghost init = StructView {
            name: name_v,
            fields: Seq::empty(),
            functions: Seq::empty(),
            methods: Seq::empty(),
        };
        assert(fields_view(fields@) =~= Seq::<BindingView>::empty());
        assert(functions_view(functions@) =~= Seq::<FunctionView>::empty());
        assert(functions_view(methods@) =~= Seq::<FunctionView>::empty());
        assert(struct_at(t, old(self).at()) == members_loop(t, start, init));
        loop
            invariant_except_break
                struct_at(t, old(self).at()) == members_loop(
                    t,
                    self.at(),
                    StructView {
                        name: name_v,
                        fields: fields_view(fields@),
                        functions: functions_view(functions@),
                        methods: functions_view(methods@),
                    },
                ),
            invariant
                self.moved_on(old(self)),
                t == self.tokens(),
                self.at() >= start > old(self).at(),
            ensures
                self.moved_on(old(self)),
                self.at() > old(self).at(),
                self.tokens()[self.at() - 1].0 is CloseBrace,
                struct_at(t, old(self).at()) == Ok::<(StructView, int), Failure>(
                    (
                        StructView {
                            name: name_v,
                            fields: fields_view(fields@),
                            functions: functions_view(functions@),
                            methods: functions_view(methods@),
                        },
                        self.at(),
                    ),
                ),
            decreases self.remaining(),
        {
            let ghost head = self.at();
            proof {
                lemma_skip_blank(t, head);
            }
            self.skip_newline();
            let (first, pos) = self.first_full();
            match first {
                Token::Fn => match self.parse_fn_and_method(true)? {
                    RawFunction::Function(function) => {
                        let ghost before = functions@;
                        functions.push(function);
                        assert(functions_view(functions@) =~= functions_view(before).push(
                            function_view(function),
                        ));
                    },
                    RawFunction::Method(method) => {
                        let ghost before = methods@;
                        methods.push(method);
                        assert(functions_view(methods@) =~= functions_view(before).push(
                            function_view(method),
                        ));
                    },
                },
                Token::Ident(_) => {
                    let field = self.parse_field()?;
                    let ghost before = fields@;
                    fields.push(field);
                    assert(fields_view(fields@) =~= fields_view(before).push(field_view(field)));
                },
                Token::CloseBrace => {
                    self.bump();
                    break ;
                },
                token => {
                    return Err(
                        ParseError::Unexpected {
                            expected: vec![TokenKind::Fn, TokenKind::Ident, TokenKind::CloseBrace],
                            found: token.duplicate(),
                            pos,
                        },
                    );
                },
            }
        }
        Ok(StructDef { name, fields, functions, methods })
    }

    /// Parses a type: a path.
    pub fn parse_ty(&mut self) -> (r: ParseResult<Type>)
        requires
            old(self).wf(),
        ensures
            final(self).moved_on(old(self)),
            r is Ok ==> final(self).at() > old(self).at() && r->Ok_0.segments@.len() >= 1,
            match type_at(old(self).tokens(), old(self).at()) {
                Some((v, j)) => r is Ok && type_view(r->Ok_0) == v && final(self).at() == j,
                None => r matches Err(ParseError::Unexpected { .. }),
            },
        decreases old(self).remaining(), 9nat,
    {
        let segments = self.parse_path_segments()?;
        Ok(Type { segments })
    }

    /// Parses a path: segments joined by `::`, where `::<..>` gives the
    /// type arguments of the segment before it.
    pub fn parse_path_segments(&mut self) -> (r: ParseResult<Vec<PathSegment>>)
        requires
            old(self).wf(),
        ensures
            final(self).moved_on(old(self)),
            r is Ok ==> final(self).at() > old(self).at() && r->Ok_0@.len() >= 1,
            match segments_at(old(self).tokens(), old(self).at()) {
                Some((v, j)) => r is Ok && segments_view(r->Ok_0@) == v && final(self).at() == j,
                None => r matches Err(ParseError::Unexpected { .. }),
            },
        decreases old(self).remaining(), 8nat,
    {
        let ghost t = self.tokens();
        proof {
            lemma_skip_blank(t, self.at());
        }
        self.skip_newline();
        let mut segments: Vec<PathSegment> = Vec::new();
        let segment = self.parse_path_segment()?;
        segments.push(segment);
        assert(segments_view(segments@) =~= seq![segment_view(segment)]);
        let ghost start = self.at();
        loop
            invariant
                self.moved_on(old(self)),
                t == self.tokens(),
                self.at() >= start > old(self).at(),
                segments@.len() >= 1,
                segments_at(t, old(self).at()) == segments_loop(t, self.at(), segments_view(segments@)),
            ensures
                self.moved_on(old(self)),
                self.at() > old(self).at(),
                segments@.len() >= 1,
                segments_at(t, old(self).at()) == Some((segments_view(segments@), self.at())),
            decreases self.remaining(),
        {
            let ghost head = self.at();
            proof {
                lemma_skip_blank(t, head);
            }
            self.skip_newline();
            if !self.first_check(TokenKind::Path) {
                break ;
            }
            self.bump();
            proof {
                lemma_skip_blank(t, self.at());
            }
            self.skip_newline();
            if self.first_check(TokenKind::Less) {
                let args = self.parse_type_args()?;
                let n = segments.len();
                let ghost before = segments@;
                let mut last = segments.remove(n - 1);
                last.args = args;
                segments.push(last);
                assert(segments_view(segments@) =~= segments_view(before).update(
                    n - 1,
                    SegmentView { ident: segments_view(before).last().ident, args: types_view(args@) },
                ));
            } else {
                let ghost before = segments@;
                let segment = self.parse_path_segment()?;
                segments.push(segment);
                assert(segments_view(segments@) =~= segments_view(before).push(segment_view(segment)));
            }
        }
        Ok(segments)
    }

    /// Parses a path segment: a name with its type arguments, if any.
    pub fn parse_path_segment(&mut self) -> (r: ParseResult<PathSegment>)
        requires
            old(self).wf(),
        ensures
            final(self).moved_on(old(self)),
            r is Ok ==> final(self).at() > old(self).at(),
            match segment_at(old(self).tokens(), old(self).at()) {
                Some((v, j)) => r is Ok && segment_view(r->Ok_0) == v && final(self).at() == j,
                None => r matches Err(ParseError::Unexpected { .. }),
            },
        decreases old(self).remaining(), 7nat,
    {
        proof {
            lemma_skip_blank(self.tokens(), self.at());
        }
        self.skip_newline();
        let ident = self.expect_ident()?;
        proof {
            lemma_skip_blank(self.tokens(), self.at());
        }
        self.skip_newline();
        let args = if self.first_check(TokenKind::Less) {
            self.parse_type_args()?
        } else {
            Vec::new()
        };
        assert(args@.len() == 0 ==> types_view(args@) =~= Seq::<TypeView>::empty());
        Ok(PathSegment { ident, args })
    }

    /// Parses type arguments: types between `<` and `>`, each maybe followed
    /// by a comma.
    pub fn parse_type_args(&mut self) -> (r: ParseResult<Vec<Type>>)
        requires
            old(self).wf(),
        ensures
            final(self).moved_on(old(self)),
            r is Ok ==> final(self).at() > old(self).at() && final(self).tokens()[final(self).at() - 1].0 is Greater,
            match type_args_at(old(self).tokens(), old(self).at()) {
                Some((v, j)) => r is Ok && types_view(r->Ok_0@) == v && final(self).at() == j,
                None => r matches Err(ParseError::Unexpected { .. }),
            },
        decreases old(self).remaining(), 6nat,
    {
        let ghost t = self.tokens();
        proof {
            lemma_skip_blank(t, self.at());
        }
        self.skip_newline();
        self.expect(TokenKind::Less)?;
        let ghost start = self.at();
        let mut args: Vec<Type> = Vec::new();
        assert(types_view(args@) =~= Seq::<TypeView>::empty());
        loop
            invariant_except_break
                type_args_at(t, old(self).at()) == type_args_loop(t, self.at(), types_view(args@)),
            invariant
                self.moved_on(old(self)),
                t == self.tokens(),
                self.at() >= start > old(self).at(),
            ensures
                self.moved_on(old(self)),
                self.at() > old(self).at(),
                self.tokens()[self.at() - 1].0 is Greater,
                type_args_at(t, old(self).at()) == Some((types_view(args@), self.at())),
            decreases self.remaining(),
        {
            let ghost head = self.at();
            proof {
                lemma_skip_blank(t, head);
            }
            self.skip_newline();
            if self.first_check(TokenKind::Greater) {
                self.bump();
                break ;
            }
            let arg = self.parse_ty()?;
            let ghost before = args@;
            args.push(arg);
            assert(types_view(args@) =~= types_view(before).push(type_view(arg)));
            proof {
                lemma_skip_blank(t, self.at());
            }
            self.skip_newline();
            if self.first_check(TokenKind::Comma) {
                self.bump();
            }
        }
        Ok(args)
    }

    /// The error for the next token where one of `kinds` was expected.
    fn unexpected(&self, kinds: Vec<TokenKind>) -> (e: ParseError)
        requires
            self.wf(),
        ensures
            match e {
                ParseError::Unexpected { expected, found, .. } => expected == kinds && found == self.next(),
                _ => false,
            },
    {
        let (token, pos) = self.first_full();
        ParseError::Unexpected { expected: kinds, found: token.duplicate(), pos }
    }

    /// Parses a function outside a struct.
    pub fn parse_fn(&mut self) -> (r: ParseResult<FunctionDef>)
        requires
            old(self).wf(),
        ensures
            final(self).moved_on(old(self)),
            r is Ok ==> final(self).at() > old(self).at() && final(self).tokens()[final(self).at() - 1].0 is CloseBrace,
            match fn_at(old(self).tokens(), old(self).at()) {
                Ok((v, j)) => r is Ok && function_view(r->Ok_0) == v && final(self).at() == j,
                Err(f) => r matches Err(e) && fails_as(e, f, old(self).tokens()),
            },
        decreases old(self).remaining(), 38nat,
    {
        match self.parse_fn_and_method(false)? {
            RawFunction::Function(function) => Ok(function),
            RawFunction::Method(_) => Err(self.unexpected(Vec::new())),
        }
    }

    /// Parses a function: `fn name(params) -> type { body }`; a method when
    /// `self` is its first parameter, which `method_ok` allows.
    pub fn parse_fn_and_method(&mut self, method_ok: bool) -> (r: ParseResult<RawFunction>)
        requires
            old(self).wf(),
        ensures
            final(self).moved_on(old(self)),
            r is Ok ==> final(self).at() > old(self).at() && final(self).tokens()[final(self).at() - 1].0 is CloseBrace,
            r matches Ok(RawFunction::Method(_)) ==> method_ok,
            match function_at(old(self).tokens(), old(self).at(), method_ok) {
                Ok((v, is_method, j)) => final(self).at() == j && match r {
                    Ok(RawFunction::Method(f)) => is_method && function_view(f) == v,
                    Ok(RawFunction::Function(f)) => !is_method && function_view(f) == v,
                    Err(_) => false,
                },
                Err(f) => r matches Err(e) && fails_as(e, f, old(self).tokens()),
            },
        decreases old(self).remaining(), 37nat,
    {
        let ghost t = self.tokens();
        proof {
            reveal(function_at);
        }
        proof {
            lemma_skip_blank(t, self.at());
        }
        self.skip_newline();
        self.expect(TokenKind::Fn)?;
        proof {
            lemma_skip_blank(t, self.at());
        }
        self.skip_newline();
        let name = self.expect_ident()?;
        let mut return_type: Option<Type> = None;
        proof {
            lemma_skip_blank(t, self.at());
        }
        self.skip_newline();
        self.expect(TokenKind::OpenParen)?;
        let (args, is_method) = self.parse_params(method_ok)?;
        proof {
            lemma_skip_blank(t, self.at());
        }
        self.skip_newline();
        let (first, pos) = self.first_full();
        let body = match first {
            Token::Arrow => {
                self.bump();
                proof {
                    lemma_skip_blank(t, self.at());
                }
                self.skip_newline();
                let ty = self.parse_ty()?;
                return_type = Some(ty);
                proof {
                    lemma_skip_blank(t, self.at());
                }
                self.skip_newline();
                self.parse_block()?
            },
            Token::OpenBrace => self.parse_block()?,
            token => {
                return Err(
                    ParseError::Unexpected {
                        expected: vec![TokenKind::Arrow, TokenKind::OpenBrace],
                        found: token.duplicate(),
                        pos,
                    },
                );
            },
        };
        let def = FunctionDef { name, args, return_type, body };
        if is_method {
            Ok(RawFunction::Method(def))
        } else {
            Ok(RawFunction::Function(def))
        }
    }

    /// Parses the parameters of a function after its `(`, up to and with the
    /// `)`: names with their types, separated by commas, where `self` may
    /// come first when `method_ok`; gives back the parameters and whether
    /// `self` was among them.
    fn parse_params(&mut self, method_ok: bool) -> (r: ParseResult<(Vec<Arg>, bool)>)
        requires
            old(self).wf(),
        ensures
            final(self).moved_on(old(self)),
            r is Ok ==> final(self).at() > old(self).at(),
            r matches Ok((_, true)) ==> method_ok,
            match params_loop(old(self).tokens(), old(self).at(), ParseArgState::Start, false, method_ok, Seq::empty()) {
                Ok((v, is_method, j)) => r is Ok && args_view(r->Ok_0.0@) == v && r->Ok_0.1 == is_method
                    && final(self).at() == j,
                Err(f) => r matches Err(e) && fails_as(e, f, old(self).tokens()),
            },
        decreases old(self).remaining(), 36nat,
    {
        let ghost t = self.tokens();
        let ghost j0 = self.at();
        let mut args: Vec<Arg> = Vec::new();
        let mut is_method = false;
        let mut state = ParseArgState::Start;
        assert(args_view(args@) =~= Seq::<BindingView>::empty());
        loop
            invariant_except_break
                params_loop(t, j0, ParseArgState::Start, false, method_ok, Seq::empty()) == params_loop(
                    t,
                    self.at(),
                    state,
                    is_method,
                    method_ok,
                    args_view(args@),
                ),
            invariant
                self.moved_on(old(self)),
                t == self.tokens(),
                j0 == old(self).at(),
                is_method ==> method_ok,
            ensures
                self.moved_on(old(self)),
                self.at() > old(self).at(),
                is_method ==> method_ok,
                params_loop(t, j0, ParseArgState::Start, false, method_ok, Seq::empty()) matches Ok(res) && res == (
                    args_view(args@),
                    is_method,
                    self.at(),
                ),
            decreases self.remaining(),
        {
            let ghost head = self.at();
            proof {
                lemma_skip_blank(t, head);
            }
            self.skip_newline();
            let (first, pos) = self.first_full();
            match first {
                Token::SelfArg => {
                    if !state.can_be_arg() {
                        return Err(
                            ParseError::Unexpected { expected: state.expect(), found: Token::SelfArg, pos },
                        );
                    }
                    if !state.can_be_self() {
                        return Err(ParseError::SelfArgNotFirst { pos });
                    }
                    if !method_ok {
                        return Err(ParseError::SelfArgInFunction { pos });
                    }
                    self.bump();
                    is_method = true;
                    state.next_state();
                },
                Token::Ident(arg_name) => {
                    let arg_name = arg_name.clone();
                    if !state.can_be_arg() {
                        return Err(
                            ParseError::Unexpected {
                                expected: state.expect(),
                                found: Token::Ident(arg_name),
                                pos,
                            },
                        );
                    }
                    self.bump();
                    proof {
                        lemma_skip_blank(t, self.at());
                    }
                    self.skip_newline();
                    self.expect(TokenKind::Colon)?;
                    proof {
                        lemma_skip_blank(t, self.at());
                    }
                    self.skip_newline();
                    let type_ = self.parse_ty()?;
                    let ghost before = args@;
                    let ghost name = arg_name@;
                    args.push(Arg { name: arg_name, type_ });
                    assert(args_view(args@) =~= args_view(before).push(
                        BindingView { name, type_: type_view(type_) },
                    ));
                    state.next_state();
                },
                Token::CloseParen => {
                    if !state.can_be_close() {
                        return Err(
                            ParseError::Unexpected { expected: state.expect(), found: Token::CloseParen, pos },
                        );
                    }
                    self.bump();
                    break ;
                },
                Token::Comma => {
                    if !state.can_be_comma() {
                        return Err(
                            ParseError::Unexpected { expected: state.expect(), found: Token::Comma, pos },
                        );
                    }
                    self.bump();
                    state.next_state();
                },
                token => {
                    return Err(
                        ParseError::Unexpected { expected: state.expect(), found: token.duplicate(), pos },
                    );
                },
            }
        }
        Ok((args, is_method))
    }

    /// Parses a field of a struct: `name: type`, maybe followed by a comma.
    pub fn parse_field(&mut self) -> (r: ParseResult<Field>)
        requires
            old(self).wf(),
        ensures
            final(self).moved_on(old(self)),
            r is Ok ==> final(self).at() > old(self).at(),
            match field_at(old(self).tokens(), old(self).at()) {
                Some((v, j)) => r is Ok && field_view(r->Ok_0) == v && final(self).at() == j,
                None => r matches Err(ParseError::Unexpected { .. }),
            },
        decreases old(self).remaining(), 36nat,
    {
        let ghost t = self.tokens();
        proof {
            reveal(field_at);
            lemma_skip_blank(t, self.at());
        }
        self.skip_newline();
        let name = self.expect_ident()?;
        proof {
            lemma_skip_blank(t, self.at());
        }
        self.skip_newline();
        self.expect(TokenKind::Colon)?;
        proof {
            lemma_skip_blank(t, self.at());
        }
        self.skip_newline();
        let type_ = self.parse_ty()?;
        proof {
            lemma_skip_blank(t, self.at());
        }
        self.skip_newline();
        if self.first_check(TokenKind::Comma) {
            self.bump();
        }
        Ok(Field { name, type_ })
    }

    /// Parses a block: statements between `{` and `}`.
    pub fn parse_block(&mut self) -> (r: ParseResult<Block>)
        requires
            old(self).wf(),
        ensures
            final(self).moved_on(old(self)),
            r is Ok ==> final(self).at() > old(self).at() && final(self).tokens()[final(self).at() - 1].0 is CloseBrace,
            match block_at(old(self).tokens(), old(self).at()) {
                Ok((v, j)) => r is Ok && block_view(r->Ok_0) == v && final(self).at() == j,
                Err(f) => r matches Err(e) && fails_as(e, f, old(self).tokens()),
            },
        decreases old(self).remaining(), 35nat,
    {
        proof {
            lemma_skip_blank(self.tokens(), self.at());
        }
        self.skip_newline();
        self.expect(TokenKind::OpenBrace)?;
        self.parse_block_body()
    }

    /// Parses the statements of a block after its `{`, up to and with its
    /// `}`; a `;` alone is skipped.
    fn parse_block_body(&mut self) -> (r: ParseResult<Block>)
        requires
            old(self).wf(),
        ensures
            final(self).moved_on(old(self)),
            r is Ok ==> final(self).at() > old(self).at() && final(self).tokens()[final(self).at() - 1].0 is CloseBrace,
            match block_body_at(old(self).tokens(), old(self).at()) {
                Ok((v, j)) => r is Ok && block_view(r->Ok_0) == v && final(self).at() == j,
                Err(f) => r matches Err(e) && fails_as(e, f, old(self).tokens()),
            },
        decreases old(self).remaining(), 34nat,
    {
        let ghost t = self.tokens();
        let ghost j0 = self.at();
        let mut stmts: Vec<BlockStmt> = Vec::new();
        assert(stmts_view(stmts@) =~= Seq::<StmtView>::empty());
        loop
            invariant_except_break
                body_loop(t, j0, Seq::empty()) == body_loop(t, self.at(), stmts_view(stmts@)),
            invariant
                self.moved_on(old(self)),
                t == self.tokens(),
                j0 == old(self).at(),
            ensures
                self.moved_on(old(self)),
                self.at() > old(self).at(),
                self.tokens()[self.at() - 1].0 is CloseBrace,
                body_loop(t, j0, Seq::empty()) == Ok::<(BlockView, int), Failure>(
                    (BlockView { statements: stmts_view(stmts@) }, self.at()),
                ),
            decreases self.remaining(),
        {
            let ghost head = self.at();
            proof {
                lemma_skip_blank(t, head);
            }
            self.skip_newline();
            if self.first_check(TokenKind::CloseBrace) {
                self.bump();
                break ;
            }
            if self.first_check(TokenKind::Semicolon) {
                self.bump();
                continue ;
            }
            let stmt = self.parse_stmt()?;
            let ghost before = stmts@;
            stmts.push(stmt);
            assert(stmts_view(stmts@) =~= stmts_view(before).push(stmt_view(stmt)));
        }
        Ok(Block { statements: stmts })
    }

    /// Parses the statement that starts at the next token: `let`, `return`,
    /// a nested block, `if`, `while`, `break`, `continue`, or an expression
    /// or assignment ended by `;`.
    #[verifier::spinoff_prover]
    #[verifier::rlimit(100)]
    fn parse_stmt(&mut self) -> (r: ParseResult<BlockStmt>)
        requires
            old(self).wf(),
        ensures
            final(self).moved_on(old(self)),
            r is Ok ==> final(self).at() > old(self).at(),
            match stmt_at(old(self).tokens(), old(self).at()) {
                Ok((v, j)) => r is Ok && stmt_view(r->Ok_0) == v && final(self).at() == j,
                Err(f) => r matches Err(e) && fails_as(e, f, old(self).tokens()),
            },
        decreases old(self).remaining(), 33nat,
    {
        let ghost t = self.tokens();
        proof {
            lemma_skip_blank(t, self.at() + 1);
        }
        let first = self.first();
        match first {
            Token::Let => {
                self.bump();
                self.skip_newline();
                let name = self.expect_ident()?;
                proof {
                    lemma_skip_blank(t, self.at());
                }
                self.skip_newline();
                self.expect(TokenKind::Assign)?;
                proof {
                    lemma_skip_blank(t, self.at());
                }
                self.skip_newline();
                let expr = self.parse_add_sub_expr(true)?;
                Ok(BlockStmt::Let(LetStmt { var_name: name, expr }))
            },
            Token::Return => {
                self.bump();
                self.skip_newline();
                let expr = if self.first_check(TokenKind::Semicolon) {
                    self.bump();
                    None
                } else {
                    let expr = self.parse_add_sub_expr(true)?;
                    Some(expr)
                };
                Ok(BlockStmt::Return(ReturnStmt { expr }))
            },
            Token::OpenBrace => {
                self.bump();
                let block = self.parse_block_body()?;
                Ok(BlockStmt::Block(Box::new(block)))
            },
            Token::If => {
                self.bump();
                self.skip_newline();
                let condition = self.parse_expr(false)?;
                proof {
                    lemma_skip_blank(t, self.at());
                }
                self.skip_newline();
                let then_branch = self.parse_block()?;
                proof {
                    lemma_skip_blank(t, self.at());
                }
                self.skip_newline();
                proof {
                    lemma_skip_blank(t, self.at() + 1);
                }
                let else_branch = if self.first_check(TokenKind::Else) {
                    self.bump();
                    self.skip_newline();
                    Some(Box::new(self.parse_block()?))
                } else {
                    None
                };
                Ok(
                    BlockStmt::If(
                        IfStmt {
                            condition: Box::new(condition),
                            then_branch: Box::new(then_branch),
                            else_branch,
                        },
                    ),
                )
            },
            Token::While => {
                self.bump();
                self.skip_newline();
                let condition = self.parse_expr(false)?;
                proof {
                    lemma_skip_blank(t, self.at());
                }
                self.skip_newline();
                let block = self.parse_block()?;
                Ok(BlockStmt::While(WhileStmt { condition: Box::new(condition), block: Box::new(block) }))
            },
            Token::Break => {
                self.bump();
                self.skip_newline();
                self.expect(TokenKind::Semicolon)?;
                Ok(BlockStmt::Break)
            },
            Token::Continue => {
                self.bump();
                self.skip_newline();
                self.expect(TokenKind::Semicolon)?;
                Ok(BlockStmt::Continue)
            },
            _ => {
                let expr = self.parse_expr(true)?;
                proof {
                    lemma_skip_blank(t, self.at());
                }
                self.skip_newline();
                let stmt = if self.first_check(TokenKind::Assign) {
                    self.bump();
                    proof {
                        lemma_skip_blank(t, self.at());
                    }
                    self.skip_newline();
                    let value = self.parse_expr(true)?;
                    BlockStmt::Assign(AssignStmt { expr: value, target: expr })
                } else {
                    BlockStmt::Expr(expr)
                };
                self.expect(TokenKind::Semicolon)?;
                Ok(stmt)
            },
        }
    }

    /// Parses an expression; a struct literal is allowed only where
    /// `allow_struct`.
    pub fn parse_expr(&mut self, allow_struct: bool) -> (r: ParseResult<Expr>)
        requires
            old(self).wf(),
        ensures
            final(self).moved_on(old(self)),
            r is Ok ==> final(self).at() > old(self).at(),
            match level_at(old(self).tokens(), old(self).at(), 0, allow_struct) {
                Some((v, j)) => r is Ok && expr_view(r->Ok_0) == v && final(self).at() == j,
                None => r matches Err(ParseError::Unexpected { .. }),
            },
        decreases old(self).remaining(), 31nat,
    {
        self.parse_or_expr(allow_struct)
    }

    /// Parses `||` chains.
    pub fn parse_or_expr(&mut self, allow_struct: bool) -> (r: ParseResult<Expr>)
        requires
            old(self).wf(),
        ensures
            final(self).moved_on(old(self)),
            r is Ok ==> final(self).at() > old(self).at(),
            match level_at(old(self).tokens(), old(self).at(), 0, allow_struct) {
                Some((v, j)) => r is Ok && expr_view(r->Ok_0) == v && final(self).at() == j,
                None => r matches Err(ParseError::Unexpected { .. }),
            },
        decreases old(self).remaining(), 30nat,
    {
        self.parse_level(0, allow_struct)
    }

    /// Parses `&&` chains.
    pub fn parse_and_expr(&mut self, allow_struct: bool) -> (r: ParseResult<Expr>)
        requires
            old(self).wf(),
        ensures
            final(self).moved_on(old(self)),
            r is Ok ==> final(self).at() > old(self).at(),
            match level_at(old(self).tokens(), old(self).at(), 1, allow_struct) {
                Some((v, j)) => r is Ok && expr_view(r->Ok_0) == v && final(self).at() == j,
                None => r matches Err(ParseError::Unexpected { .. }),
            },
        decreases old(self).remaining(), 30nat,
    {
        self.parse_level(1, allow_struct)
    }

    /// Parses comparison chains.
    pub fn parse_relation_expr(&mut self, allow_struct: bool) -> (r: ParseResult<Expr>)
        requires
            old(self).wf(),
        ensures
            final(self).moved_on(old(self)),
            r is Ok ==> final(self).at() > old(self).at(),
            match level_at(old(self).tokens(), old(self).at(), 2, allow_struct) {
                Some((v, j)) => r is Ok && expr_view(r->Ok_0) == v && final(self).at() == j,
                None => r matches Err(ParseError::Unexpected { .. }),
            },
        decreases old(self).remaining(), 30nat,
    {
        self.parse_level(2, allow_struct)
    }

    /// Parses `|` chains.
    pub fn parse_bit_or_expr(&mut self, allow_struct: bool) -> (r: ParseResult<Expr>)
        requires
            old(self).wf(),
        ensures
            final(self).moved_on(old(self)),
            r is Ok ==> final(self).at() > old(self).at(),
            match level_at(old(self).tokens(), old(self).at(), 3, allow_struct) {
                Some((v, j)) => r is Ok && expr_view(r->Ok_0) == v && final(self).at() == j,
                None => r matches Err(ParseError::Unexpected { .. }),
            },
        decreases old(self).remaining(), 30nat,
    {
        self.parse_level(3, allow_struct)
    }

    /// Parses `^` chains.
    pub fn parse_bit_xor_expr(&mut self, allow_struct: bool) -> (r: ParseResult<Expr>)
        requires
            old(self).wf(),
        ensures
            final(self).moved_on(old(self)),
            r is Ok ==> final(self).at() > old(self).at(),
            match level_at(old(self).tokens(), old(self).at(), 4, allow_struct) {
                Some((v, j)) => r is Ok && expr_view(r->Ok_0) == v && final(self).at() == j,
                None => r matches Err(ParseError::Unexpected { .. }),
            },
        decreases old(self).remaining(), 30nat,
    {
        self.parse_level(4, allow_struct)
    }

    /// Parses `&` chains.
    pub fn parse_bit_and_expr(&mut self, allow_struct: bool) -> (r: ParseResult<Expr>)
        requires
            old(self).wf(),
        ensures
            final(self).moved_on(old(self)),
            r is Ok ==> final(self).at() > old(self).at(),
            match level_at(old(self).tokens(), old(self).at(), 5, allow_struct) {
                Some((v, j)) => r is Ok && expr_view(r->Ok_0) == v && final(self).at() == j,
                None => r matches Err(ParseError::Unexpected { .. }),
            },
        decreases old(self).remaining(), 30nat,
    {
        self.parse_level(5, allow_struct)
    }

    /// Parses shift chains.
    pub fn parse_shift_expr(&mut self, allow_struct: bool) -> (r: ParseResult<Expr>)
        requires
            old(self).wf(),
        ensures
            final(self).moved_on(old(self)),
            r is Ok ==> final(self).at() > old(self).at(),
            match level_at(old(self).tokens(), old(self).at(), 6, allow_struct) {
                Some((v, j)) => r is Ok && expr_view(r->Ok_0) == v && final(self).at() == j,
                None => r matches Err(ParseError::Unexpected { .. }),
            },
        decreases old(self).remaining(), 30nat,
    {
        self.parse_level(6, allow_struct)
    }

    /// Parses `+` and `-` chains.
    pub fn parse_add_sub_expr(&mut self, allow_struct: bool) -> (r: ParseResult<Expr>)
        requires
            old(self).wf(),
        ensures
            final(self).moved_on(old(self)),
            r is Ok ==> final(self).at() > old(self).at(),
            match level_at(old(self).tokens(), old(self).at(), 7, allow_struct) {
                Some((v, j)) => r is Ok && expr_view(r->Ok_0) == v && final(self).at() == j,
                None => r matches Err(ParseError::Unexpected { .. }),
            },
        decreases old(self).remaining(), 30nat,
    {
        self.parse_level(7, allow_struct)
    }

    /// Parses `*`, `/` and `%` chains.
    pub fn parse_mul_div_mod_expr(&mut self, allow_struct: bool) -> (r: ParseResult<Expr>)
        requires
            old(self).wf(),
        ensures
            final(self).moved_on(old(self)),
            r is Ok ==> final(self).at() > old(self).at(),
            match level_at(old(self).tokens(), old(self).at(), 8, allow_struct) {
                Some((v, j)) => r is Ok && expr_view(r->Ok_0) == v && final(self).at() == j,
                None => r matches Err(ParseError::Unexpected { .. }),
            },
        decreases old(self).remaining(), 30nat,
    {
        self.parse_level(8, allow_struct)
    }

    /// Parses a left-associative chain of the operators of a precedence
    /// level (`level_has_spec` lists them, loosest first), whose operands are
    /// of the next level, or factors after the last.
    fn parse_level(&mut self, level: u8, allow_struct: bool) -> (r: ParseResult<Expr>)
        requires
            old(self).wf(),
            level <= 8,
        ensures
            final(self).moved_on(old(self)),
            r is Ok ==> final(self).at() > old(self).at(),
            match level_at(old(self).tokens(), old(self).at(), level as int, allow_struct) {
                Some((v, j)) => r is Ok && expr_view(r->Ok_0) == v && final(self).at() == j,
                None => r matches Err(ParseError::Unexpected { .. }),
            },
        decreases old(self).remaining(), (20 - level) as nat,
    {
        let ghost t = self.tokens();
        proof {
            lemma_skip_blank(t, self.at());
        }
        self.skip_newline();
        let mut curr = if level == 8 {
            self.parse_factor(allow_struct)?
        } else {
            self.parse_level(level + 1, allow_struct)?
        };
        let ghost start = self.at();
        loop
            invariant_except_break
                level_at(t, old(self).at(), level as int, allow_struct) == level_loop(
                    t,
                    self.at(),
                    level as int,
                    allow_struct,
                    expr_view(curr),
                ),
            invariant
                self.moved_on(old(self)),
                t == self.tokens(),
                self.at() >= start > old(self).at(),
                level <= 8,
            ensures
                self.moved_on(old(self)),
                self.at() > old(self).at(),
                level_at(t, old(self).at(), level as int, allow_struct) == Some((expr_view(curr), self.at())),
            decreases self.remaining(),
        {
            let ghost head = self.at();
            proof {
                lemma_skip_blank(t, head);
            }
            self.skip_newline();
            if !level_has(level, self.first()) {
                break ;
            }
            let op = self.parse_binary_op()?;
            proof {
                lemma_skip_blank(t, self.at());
            }
            self.skip_newline();
            let right = if level == 8 {
                self.parse_factor(allow_struct)?
            } else {
                self.parse_level(level + 1, allow_struct)?
            };
            curr = Expr::Binary { left: Box::new(curr), op, right: Box::new(right) };
        }
        Ok(curr)
    }

    /// Parses a factor: a primary expression, maybe after one of the prefix
    /// operators `!`, `~`, `+` and `-`.
    pub fn parse_factor(&mut self, allow_struct: bool) -> (r: ParseResult<Expr>)
        requires
            old(self).wf(),
        ensures
            final(self).moved_on(old(self)),
            r is Ok ==> final(self).at() > old(self).at(),
            match factor_at(old(self).tokens(), old(self).at(), allow_struct) {
                Some((v, j)) => r is Ok && expr_view(r->Ok_0) == v && final(self).at() == j,
                None => r matches Err(ParseError::Unexpected { .. }),
            },
        decreases old(self).remaining(), 11nat,
    {
        proof {
            lemma_skip_blank(self.tokens(), self.at());
        }
        self.skip_newline();
        let op = match self.first() {
            Token::Not => Some(UnaryOp::Not),
            Token::BitNot => Some(UnaryOp::BitNot),
            Token::Plus => Some(UnaryOp::Plus),
            Token::Minus => Some(UnaryOp::Minus),
            _ => None,
        };
        match op {
            Some(op) => {
                self.bump();
                let expr = self.parse_primary(allow_struct)?;
                Ok(Expr::Unary { op, expr: Box::new(expr) })
            },
            None => self.parse_primary(allow_struct),
        }
    }

    /// Parses a primary expression: a parenthesised expression, a path or
    /// struct literal, a literal or `self`, followed by any number of field
    /// accesses and calls.
    pub fn parse_primary(&mut self, allow_struct: bool) -> (r: ParseResult<Expr>)
        requires
            old(self).wf(),
        ensures
            final(self).moved_on(old(self)),
            r is Ok ==> final(self).at() > old(self).at(),
            match primary_at(old(self).tokens(), old(self).at(), allow_struct) {
                Ok((v, j)) => r is Ok && expr_view(r->Ok_0) == v && final(self).at() == j,
                Err(f) => r matches Err(e) && unexpected_as(e, f, old(self).tokens()),
            },
        decreases old(self).remaining(), 10nat,
    {
        let ghost t = self.tokens();
        let ghost i0 = self.at();
        proof {
            lemma_skip_blank(t, i0);
        }
        self.skip_newline();
        let (first, pos) = self.first_full();
        let mut expr = match first {
            Token::OpenParen => {
                self.bump();
                let expr = self.parse_or_expr(true)?;
                proof {
                    lemma_skip_blank(t, self.at());
                }
                self.skip_newline();
                self.expect(TokenKind::CloseParen)?;
                assert(primary_base(t, i0, allow_struct) == Ok::<(ExprView, int), Option<(Seq<TokenKind>, int)>>((expr_view(expr), self.at())));
                expr
            },
            Token::Ident(_) => {
                let segments = self.parse_path_segments()?;
                proof {
                    lemma_skip_blank(t, self.at());
                }
                self.skip_newline();
                if allow_struct && self.first_check(TokenKind::OpenBrace) {
                    self.bump();
                    proof {
                        lemma_skip_blank(t, self.at());
                    }
                    self.skip_newline();
                    let ghost r0 = self.at();
                    assert(struct_fields_loop(t, r0, Seq::empty()) is None ==> primary_at(t, i0, allow_struct) == Err::<(ExprView, int), Option<(Seq<TokenKind>, int)>>(None));
                    let fields = self.parse_struct_fields()?;
                    let e = Expr::Struct { struct_ty: Type { segments }, fields };
                    assert(primary_base(t, i0, allow_struct) == Ok::<(ExprView, int), Option<(Seq<TokenKind>, int)>>((expr_view(e), self.at())));
                    e
                } else {
                    let e = Expr::Path { segments };
                    assert(primary_base(t, i0, allow_struct) == Ok::<(ExprView, int), Option<(Seq<TokenKind>, int)>>((expr_view(e), self.at())));
                    e
                }
            },
            Token::Literal(literal) => {
                let literal = literal.duplicate();
                self.bump();
                assert(primary_base(t, i0, allow_struct) == Ok::<(ExprView, int), Option<(Seq<TokenKind>, int)>>(
                    (expr_view(Expr::Literal(literal)), self.at()),
                ));
                Expr::Literal(literal)
            },
            Token::SelfArg => {
                self.bump();
                let mut segments: Vec<PathSegment> = Vec::new();
                let receiver = PathSegment { ident: self_name(), args: Vec::new() };
                assert(types_view(receiver.args@) =~= Seq::<TypeView>::empty());
                segments.push(receiver);
                assert(segments_view(segments@) =~= self_path());
                let e = Expr::Path { segments };
                assert(primary_base(t, i0, allow_struct) == Ok::<(ExprView, int), Option<(Seq<TokenKind>, int)>>((expr_view(e), self.at())));
                e
            },
            token => {
                return Err(ParseError::Unexpected { expected: Vec::new(), found: token.duplicate(), pos });
            },
        };
        let ghost start = self.at();
        loop
            invariant_except_break
                primary_at(t, i0, allow_struct) == match postfix_loop(t, self.at(), expr_view(expr)) {
                    Some(r) => Ok::<(ExprView, int), Option<(Seq<TokenKind>, int)>>(r),
                    None => Err(None),
                },
            invariant
                self.moved_on(old(self)),
                t == self.tokens(),
                i0 == old(self).at(),
                self.at() >= start > old(self).at(),
            ensures
                self.moved_on(old(self)),
                self.at() > old(self).at(),
                primary_at(t, i0, allow_struct) == Ok::<(ExprView, int), Option<(Seq<TokenKind>, int)>>(
                    (expr_view(expr), self.at()),
                ),
            decreases self.remaining(),
        {
            let ghost head = self.at();
            proof {
                lemma_skip_blank(t, head);
            }
            self.skip_newline();
            let first = self.first();
            match first {
                Token::Dot => {
                    self.bump();
                    proof {
                        lemma_skip_blank(t, self.at());
                    }
                    self.skip_newline();
                    let member = self.expect_ident()?;
                    expr = Expr::Member { target: Box::new(expr), member };
                },
                Token::OpenParen => {
                    let args = self.parse_fn_call_args()?;
                    expr = Expr::Call { func: Box::new(expr), args };
                },
                _ => break ,
            }
        }
        Ok(expr)
    }

    /// Parses the fields of a struct literal after its `{`: each
    /// `name: expr`, maybe followed by a comma, up to and with the `}`.
    fn parse_struct_fields(&mut self) -> (r: ParseResult<Vec<FieldAssign>>)
        requires
            old(self).wf(),
        ensures
            final(self).moved_on(old(self)),
            r is Ok ==> final(self).at() > old(self).at(),
            match struct_fields_loop(old(self).tokens(), old(self).at(), Seq::empty()) {
                Some((v, j)) => r is Ok && field_assigns_view(r->Ok_0@) == v && final(self).at() == j,
                None => r matches Err(ParseError::Unexpected { .. }),
            },
        decreases old(self).remaining(), 12nat,
    {
        let ghost t = self.tokens();
        let ghost r0 = self.at();
        let mut fields: Vec<FieldAssign> = Vec::new();
        assert(field_assigns_view(fields@) =~= Seq::<FieldAssignView>::empty());
        loop
            invariant_except_break
                struct_fields_loop(t, r0, Seq::empty()) == struct_fields_loop(
                    t,
                    self.at(),
                    field_assigns_view(fields@),
                ),
            invariant
                self.moved_on(old(self)),
                t == self.tokens(),
                r0 == old(self).at(),
            ensures
                self.moved_on(old(self)),
                self.at() > r0,
                struct_fields_loop(t, r0, Seq::empty()) == Some((field_assigns_view(fields@), self.at())),
            decreases self.remaining(),
        {
            let ghost head = self.at();
            proof {
                lemma_skip_blank(t, head);
            }
            self.skip_newline();
            if self.first_check(TokenKind::CloseBrace) {
                self.bump();
                break ;
            }
            let field = self.expect_ident()?;
            proof {
                lemma_skip_blank(t, self.at());
            }
            self.skip_newline();
            self.expect(TokenKind::Colon)?;
            proof {
                lemma_skip_blank(t, self.at());
            }
            self.skip_newline();
            let expr = self.parse_expr(true)?;
            let ghost before = fields@;
            let ghost name = field@;
            fields.push(FieldAssign { name: field, expr });
            assert(field_assigns_view(fields@) =~= field_assigns_view(before).push(
                FieldAssignView { name, expr: expr_view(expr) },
            ));
            proof {
                lemma_skip_blank(t, self.at());
            }
            self.skip_newline();
            if self.first_check(TokenKind::Comma) {
                self.bump();
            }
        }
        Ok(fields)
    }

    /// Parses the arguments of a call: expressions between `(` and `)`,
    /// separated by commas.
    pub fn parse_fn_call_args(&mut self) -> (r: ParseResult<Vec<Expr>>)
        requires
            old(self).wf(),
        ensures
            final(self).moved_on(old(self)),
            r is Ok ==> final(self).at() > old(self).at() && final(self).tokens()[final(self).at() - 1].0 is CloseParen,
            match call_args_at(old(self).tokens(), old(self).at()) {
                Ok((v, j)) => r is Ok && exprs_view(r->Ok_0@) == v && final(self).at() == j,
                Err(f) => r matches Err(e) && unexpected_as(e, f, old(self).tokens()),
            },
        decreases old(self).remaining(), 9nat,
    {
        let ghost t = self.tokens();
        proof {
            lemma_skip_blank(t, self.at());
        }
        self.skip_newline();
        self.expect(TokenKind::OpenParen)?;
        let ghost start = self.at();
        let mut comma_ok = false;
        let mut paren_ok = true;
        let mut args: Vec<Expr> = Vec::new();
        assert(exprs_view(args@) =~= Seq::<ExprView>::empty());
        loop
            invariant_except_break
                call_args_at(t, old(self).at()) == call_loop(t, self.at(), comma_ok, paren_ok, exprs_view(args@)),
            invariant
                self.moved_on(old(self)),
                t == self.tokens(),
                self.at() >= start > old(self).at(),
            ensures
                self.moved_on(old(self)),
                self.at() > old(self).at(),
                self.tokens()[self.at() - 1].0 is CloseParen,
                call_args_at(t, old(self).at()) == Ok::<(Seq<ExprView>, int), Option<(Seq<TokenKind>, int)>>(
                    (exprs_view(args@), self.at()),
                ),
            decreases self.remaining(),
        {
            let ghost head = self.at();
            proof {
                lemma_skip_blank(t, head);
            }
            self.skip_newline();
            let (first, pos) = self.first_full();
            match first {
                Token::Comma => {
                    if !comma_ok {
                        return Err(ParseError::Unexpected { expected: Vec::new(), found: Token::Comma, pos });
                    }
                    self.bump();
                    comma_ok = false;
                    paren_ok = false;
                },
                Token::CloseParen => {
                    if !paren_ok {
                        return Err(
                            ParseError::Unexpected { expected: Vec::new(), found: Token::CloseParen, pos },
                        );
                    }
                    self.bump();
                    break ;
                },
                _ => {
                    let e = self.parse_expr(true)?;
                    let ghost before = args@;
                    args.push(e);
                    assert(exprs_view(args@) =~= exprs_view(before).push(expr_view(e)));
                    comma_ok = true;
                    paren_ok = true;
                },
            }
        }
        Ok(args)
    }

}

/// Whether a token is an operator of a precedence level: `||`, `&&`,
/// comparisons, `|`, `^`, `&`, shifts, `+`/`-`, then `*`/`/`/`%`.
pub open spec fn level_has_spec(level: u8, t: Token) -> bool {
    match t {
        Token::Or => level == 0,
        Token::And => level == 1,
        Token::Equal | Token::NotEqual | Token::Greater | Token::GreaterEqual | Token::Less
        | Token::LessEqual => level == 2,
        Token::BitOr => level == 3,
        Token::BitXor => level == 4,
        Token::BitAnd => level == 5,
        Token::ShiftLeft | Token::ShiftRight => level == 6,
        Token::Plus | Token::Minus => level == 7,
        Token::Star | Token::Slash | Token::Percent => level == 8,
        _ => false,
    }
}

/// Whether a token is an operator of a precedence level.
fn level_has(level: u8, t: &Token) -> (b: bool)
    ensures
        b == level_has_spec(level, *t),
{
    match t {
        Token::Or => level == 0,
        Token::And => level == 1,
        Token::Equal | Token::NotEqual | Token::Greater | Token::GreaterEqual | Token::Less
        | Token::LessEqual => level == 2,
        Token::BitOr => level == 3,
        Token::BitXor => level == 4,
        Token::BitAnd => level == 5,
        Token::ShiftLeft | Token::ShiftRight => level == 6,
        Token::Plus | Token::Minus => level == 7,
        Token::Star | Token::Slash | Token::Percent => level == 8,
        _ => false,
    }
}

/// The name of the receiver parameter.
fn self_name() -> (s: String)
    ensures
        s@ == seq!['s', 'e', 'l', 'f'],
{
    let s = crate::text::owned("self");
    proof {
        reveal_strlit("self");
    }
    s
}

/// The binary operation a token stands for.
pub open spec fn binary_op_of(t: Token) -> Option<BinaryOp> {
    match t {
        Token::Equal => Some(BinaryOp::Equal),
        Token::NotEqual => Some(BinaryOp::NotEqual),
        Token::Less => Some(BinaryOp::Less),
        Token::LessEqual => Some(BinaryOp::LessEqual),
        Token::Greater => Some(BinaryOp::Greater),
        Token::GreaterEqual => Some(BinaryOp::GreaterEqual),
        Token::BitAnd => Some(BinaryOp::BitAnd),
        Token::BitOr => Some(BinaryOp::BitOr),
        Token::BitXor => Some(BinaryOp::BitXor),
        Token::ShiftLeft => Some(BinaryOp::ShiftLeft),
        Token::ShiftRight => Some(BinaryOp::ShiftRight),
        Token::Plus => Some(BinaryOp::Add),
        Token::Minus => Some(BinaryOp::Subtract),
        Token::Star => Some(BinaryOp::Multiply),
        Token::Slash => Some(BinaryOp::Divide),
        Token::Percent => Some(BinaryOp::Modulo),
        Token::And => Some(BinaryOp::And),
        Token::Or => Some(BinaryOp::Or),
        _ => None,
    }
}

} // verus!
