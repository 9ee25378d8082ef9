//! The parser: statements by recursive descent, expressions by precedence climbing.

use vstd::prelude::*;

use crate::ast::{
    Ast, BinaryOperator, Block, Expr, ExprData, ExprRef, FunctionDeclKind, FunctionParameter,
    FunctionPrototype, Generics, IntegerWidth, Mutability, Name, Stmt, StmtData, StmtRef, Type,
    TypeData, TypeRef, Visibility,
};
use crate::diagnostics::{Diagnostic, Severity};
use crate::parse_context::{byte_slice, kind_text, kinds_text, push_kind_text, ParseContext};
use crate::span::{covering, Span, Spanned};
use crate::text::{decimal, digit_char, str_eq, string_of, utf8_len};
use crate::token::{Keyword, Literal, Operator, Separator, Token, TokenKind};
use crate::token_stream::TokenStream;

verus! {

/// How tightly an operator binds, loosest first.
#[derive(Debug, Clone, Copy, PartialEq, Eq, Structural)]
pub enum Precedence {
    /// Binds loosest of all: a whole expression.
    Lowest,
    Assignment,
    Or,
    And,
    Equality,
    Comparison,
    Term,
    Factor,
    Unary,
    Call,
    Index,
    MemberAccess,
    Primary,
}

impl Precedence {
    /// The position of the level in the order above.
    pub open spec fn spec_rank(self) -> int {
        match self {
            Precedence::Lowest => 0,
            Precedence::Assignment => 1,
            Precedence::Or => 2,
            Precedence::And => 3,
            Precedence::Equality => 4,
            Precedence::Comparison => 5,
            Precedence::Term => 6,
            Precedence::Factor => 7,
            Precedence::Unary => 8,
            Precedence::Call => 9,
            Precedence::Index => 10,
            Precedence::MemberAccess => 11,
            Precedence::Primary => 12,
        }
    }

    pub fn rank(&self) -> (r: u8)
        ensures
            r == self.spec_rank(),
    {
        match self {
            Precedence::Lowest => 0,
            Precedence::Assignment => 1,
            Precedence::Or => 2,
            Precedence::And => 3,
            Precedence::Equality => 4,
            Precedence::Comparison => 5,
            Precedence::Term => 6,
            Precedence::Factor => 7,
            Precedence::Unary => 8,
            Precedence::Call => 9,
            Precedence::Index => 10,
            Precedence::MemberAccess => 11,
            Precedence::Primary => 12,
        }
    }
}

#[derive(Debug, Clone, Copy, PartialEq, Eq, Structural)]
pub enum Associativity {
    Left,
    Right,
}

/// How an expression starts with a token.
#[derive(Debug, Clone, Copy, PartialEq, Eq, Structural)]
pub enum PrefixRule {
    Primary,
}

/// How a token continues an expression.
#[derive(Debug, Clone, Copy, PartialEq, Eq, Structural)]
pub enum InfixRule {
    Term,
    Pipe,
}

/// The parse rule of a token: its precedence and associativity as an operator, and how
/// it starts or continues an expression.
pub type Rule = (Precedence, Associativity, Option<PrefixRule>, Option<InfixRule>);

/// The rule table: `+` and `-` are left-associative terms, `|>` a factor, and integer
/// literals, identifiers and string literals primary expressions.
pub open spec fn rule_of(tok: TokenKind) -> Option<Rule> {
    match tok {
        TokenKind::Operator(Operator::Add) => Some(
            (Precedence::Term, Associativity::Left, None, Some(InfixRule::Term)),
        ),
        TokenKind::Operator(Operator::Minus) => Some(
            (Precedence::Term, Associativity::Left, None, Some(InfixRule::Term)),
        ),
        TokenKind::Operator(Operator::Pipe) => Some(
            (Precedence::Factor, Associativity::Left, None, Some(InfixRule::Pipe)),
        ),
        TokenKind::Literal(Literal::Integer) => Some(
            (Precedence::Primary, Associativity::Left, Some(PrefixRule::Primary), None),
        ),
        TokenKind::Identifier => Some(
            (Precedence::Primary, Associativity::Left, Some(PrefixRule::Primary), None),
        ),
        TokenKind::Literal(Literal::String) => Some(
            (Precedence::Primary, Associativity::Left, Some(PrefixRule::Primary), None),
        ),
        _ => None,
    }
}

pub fn get_rule(tok: TokenKind) -> (r: Option<Rule>)
    ensures
        r == rule_of(tok),
{
    match tok {
        TokenKind::Operator(Operator::Add) => Some(
            (Precedence::Term, Associativity::Left, None, Some(InfixRule::Term)),
        ),
        TokenKind::Operator(Operator::Minus) => Some(
            (Precedence::Term, Associativity::Left, None, Some(InfixRule::Term)),
        ),
        TokenKind::Operator(Operator::Pipe) => Some(
            (Precedence::Factor, Associativity::Left, None, Some(InfixRule::Pipe)),
        ),
        TokenKind::Literal(Literal::Integer) => Some(
            (Precedence::Primary, Associativity::Left, Some(PrefixRule::Primary), None),
        ),
        TokenKind::Identifier => Some(
            (Precedence::Primary, Associativity::Left, Some(PrefixRule::Primary), None),
        ),
        TokenKind::Literal(Literal::String) => Some(
            (Precedence::Primary, Associativity::Left, Some(PrefixRule::Primary), None),
        ),
        _ => None,
    }
}

/// Where a type hint is written.
#[derive(Debug, Clone, Copy, PartialEq, Eq, Structural)]
pub enum TypeContext {
    Parameter,
    Return,
    Variable,
}

/// The value of the decimal digits `s`.
pub open spec fn decimal_value(s: Seq<char>) -> int
    decreases s.len(),
{
    if s.len() == 0 {
        0
    } else {
        decimal_value(s.drop_last()) * 10 + (s.last() as int - '0' as int)
    }
}

pub open spec fn all_digits(s: Seq<char>) -> bool {
    forall|i: int| 0 <= i < s.len() ==> '0' <= #[trigger] s[i] <= '9'
}

/// The value of an integer literal written `s`, when it is a non-empty run of decimal
/// digits whose value fits in an `i64`.
pub open spec fn integer_literal_value(s: Seq<char>) -> Option<i64> {
    if s.len() > 0 && all_digits(s) && decimal_value(s) <= i64::MAX {
        Some(decimal_value(s) as i64)
    } else {
        None
    }
}

proof fn lemma_decimal_value_nonneg(s: Seq<char>)
    requires
        all_digits(s),
    ensures
        decimal_value(s) >= 0,
        s.len() > 0 ==> decimal_value(s) >= decimal_value(s.drop_last()) * 10,
    decreases s.len(),
{
    if s.len() > 0 {
        assert(all_digits(s.drop_last()));
        lemma_decimal_value_nonneg(s.drop_last());
        assert('0' <= s[s.len() - 1] <= '9');
    }
}

proof fn lemma_decimal_value_mono(s: Seq<char>, i: int)
    requires
        all_digits(s),
        0 <= i <= s.len(),
    ensures
        decimal_value(s.take(i)) <= decimal_value(s),
    decreases s.len() - i,
{
    if i < s.len() {
        lemma_decimal_value_mono(s, i + 1);
        assert(s.take(i + 1).drop_last() =~= s.take(i));
        assert(all_digits(s.take(i + 1)));
        lemma_decimal_value_nonneg(s.take(i + 1));
        lemma_decimal_value_nonneg(s.take(i));
    } else {
        assert(s.take(i) =~= s);
    }
}

/// The value of the integer literal `s`, as [`integer_literal_value`] gives it.
pub fn parse_integer_literal(s: &String) -> (r: Option<i64>)
    ensures
        r == integer_literal_value(s@),
{
    let chars = crate::text::str_chars(s.as_str());
    let ghost t = chars@;
    if chars.len() == 0 {
        return None;
    }
    let mut acc: i64 = 0;
    let mut i: usize = 0;
    while i < chars.len()
        invariant
            t == chars@,
            t == s@,
            i <= t.len(),
            all_digits(t.take(i as int)),
            acc == decimal_value(t.take(i as int)),
            acc >= 0,
        decreases t.len() - i,
    {
        let c = chars[i];
        if !('0' <= c && c <= '9') {
            proof {
                assert(!all_digits(t));
            }
            return None;
        }
        let d: i64 = (c as u32 - '0' as u32) as i64;
        assert(t.take(i + 1).drop_last() =~= t.take(i as int));
        proof {
            assert(all_digits(t.take(i + 1)));
        }
        if acc > 922337203685477580 || (acc == 922337203685477580 && d > 7) {
            proof {
                lemma_decimal_value_nonneg(t.take(i as int));
                if all_digits(t) {
                    lemma_decimal_value_mono(t, i + 1);
                }
            }
            return None;
        }
        acc = acc * 10 + d;
        i = i + 1;
    }
    assert(t.take(t.len() as int) =~= t);
    Some(acc)
}

/// The diagnostic for syntax the parser does not handle yet.
fn unsupported(span: Span, what: &str) -> (d: Diagnostic)
    ensures
        d@ == crate::diagnostics::new_diagnostic_view(
            Severity::Error,
            "unsupported syntax"@,
            span,
            what@,
        ),
{
    crate::diagnostics::error_at("unsupported syntax", span, string_of(what))
}

/// Parses a source file.
pub struct Parser {
    ts: TokenStream,
    source: Vec<char>,
}

impl Parser {
    pub closed spec fn spec_tokens(&self) -> Seq<Token> {
        self.ts.tokens@
    }

    pub closed spec fn spec_cursor(&self) -> nat {
        self.ts.cursor as nat
    }

    /// The text the tokens were read from.
    pub closed spec fn spec_text(&self) -> Seq<char> {
        self.source@
    }

    pub closed spec fn wf(&self) -> bool {
        &&& self.ts.wf()
        &&& self.ts.from_source(self.ts.tokens@[0].span.source_id)
        &&& utf8_len(self.source@) <= usize::MAX
    }

    /// A parser over the tokens `ts` of the text `source`.
    pub fn new(source: &str, ts: TokenStream) -> (r: Self)
        requires
            ts.wf(),
            ts.from_source(ts.tokens@[0].span.source_id),
            utf8_len(source@) <= usize::MAX,
        ensures
            r.wf(),
            r.spec_tokens() == ts.tokens@,
            r.spec_cursor() == ts.cursor,
            r.spec_text() == source@,
    {
        Parser { ts, source: crate::text::str_chars(source) }
    }

    /// The next token.
    pub fn next(&mut self) -> (r: Token)
        requires
            old(self).wf(),
        ensures
            final(self).wf(),
            r == old(self).spec_tokens()[old(self).spec_cursor() as int],
    {
        assert(self.ts.tokens@.len() == self.ts.tokens.len());
        self.ts.next()
    }

    /// Parses statements up to the end of file.  After a statement that fails to parse,
    /// tokens are skipped up to the next `fn`, `pub`, `module`, `use` or `extern` (and at
    /// least one token is skipped).  The statements, or every diagnostic when there is
    /// any.
    pub fn parse(&mut self) -> (r: Result<Ast, Vec<Diagnostic>>)
        requires
            old(self).wf(),
        ensures
            final(self).wf(),
            final(self).spec_tokens() == old(self).spec_tokens(),
            final(self).spec_tokens()[final(self).spec_cursor() as int].kind == TokenKind::EndOfFile,
            match r {
                Ok(ast) => splits_into(old(self).spec_tokens(), old(self).spec_cursor() as int, ast@),
                Err(d) => d@.len() > 0 && forall|i: int|
                    0 <= i < d@.len() ==> (#[trigger] d@[i])@.severity == Severity::Error,
            },
            empty_functions_from(old(self).spec_tokens(), old(self).spec_cursor() as int) ==> (r matches Ok(
                ast,
            ) && forall|i: int| 0 <= i < ast@.len() ==> is_empty_function(*#[trigger] ast@[i])),
            empty_functions_from(old(self).spec_tokens(), old(self).spec_cursor() as int) ==> (r matches Ok(
                ast,
            ) && ast@.len() == count_empty_functions(old(self).spec_tokens(), old(self).spec_cursor() as int)
                && forall|i: int|
                0 <= i < ast@.len() ==> (#[trigger] ast@[i]).data->FunctionDefinition_0.name.value@
                    == empty_fn_name(
                    old(self).spec_tokens(),
                    old(self).spec_text(),
                    old(self).spec_cursor() as int,
                    i,
                )),
            hinted_functions_from(old(self).spec_tokens(), old(self).spec_cursor() as int) ==> (r matches Ok(
                ast,
            ) && ast@.len() == count_hinted(old(self).spec_tokens(), old(self).spec_cursor() as int)
                && forall|i: int|
                0 <= i < ast@.len() ==> hinted_function_from(
                    *#[trigger] ast@[i],
                    old(self).spec_tokens(),
                    old(self).spec_text(),
                    fn_pos(old(self).spec_tokens(), old(self).spec_cursor() as int, i as nat) + 1,
                    fn_arity(
                        old(self).spec_tokens(),
                        fn_pos(old(self).spec_tokens(), old(self).spec_cursor() as int, i as nat),
                    ),
                )),
            old(self).spec_tokens()[old(self).spec_cursor() as int].kind is Separator || old(
                self,
            ).spec_tokens()[old(self).spec_cursor() as int].kind is Operator ==> r is Err,
            old(self).spec_tokens()[old(self).spec_cursor() as int].kind == TokenKind::EndOfFile ==> (r
                matches Ok(ast) && ast@.len() == 0),
    {
        let mut ts = TokenStream { tokens: Vec::new(), cursor: 0 };
        std::mem::swap(&mut ts, &mut self.ts);
        let mut source: Vec<char> = Vec::new();
        std::mem::swap(&mut source, &mut self.source);
        let mut ctx = ParseContext::new(ts, source);
        let ghost start = ctx;
        proof {
            ctx.lemma_follows_refl();
        }
        let mut ast: Ast = Vec::new();
        let ghost mut b: Seq<int> = seq![start.cursor() as int];
        let ghost shaped = empty_functions_from(start.tokens(), start.cursor() as int);
        let ghost hinted = hinted_functions_from(start.tokens(), start.cursor() as int);
        while !ctx.is_done()
            invariant
                ctx.follows(&start),
                start.diags().len() == 0,
                hinted == hinted_functions_from(start.tokens(), start.cursor() as int),
                hinted ==> {
                    &&& hinted_functions_from(start.tokens(), ctx.cursor() as int)
                    &&& ctx.diags().len() == 0
                    &&& ctx.cursor() == fn_pos(start.tokens(), start.cursor() as int, ast@.len())
                    &&& count_hinted(start.tokens(), start.cursor() as int) == ast@.len() + count_hinted(
                        start.tokens(),
                        ctx.cursor() as int,
                    )
                    &&& forall|i: int|
                        0 <= i < ast@.len() ==> hinted_function_from(
                            *#[trigger] ast@[i],
                            start.tokens(),
                            start.text(),
                            fn_pos(start.tokens(), start.cursor() as int, i as nat) + 1,
                            fn_arity(start.tokens(), fn_pos(start.tokens(), start.cursor() as int, i as nat)),
                        )
                },
                shaped == empty_functions_from(start.tokens(), start.cursor() as int),
                (start.spec_current().kind is Separator || start.spec_current().kind is Operator)
                    ==> (ctx.diags().len() > 0 || ctx == start),
                start.spec_current().kind == TokenKind::EndOfFile ==> ctx == start && ast@.len() == 0,
                shaped ==> {
                    &&& empty_functions_from(start.tokens(), ctx.cursor() as int)
                    &&& ctx.diags().len() == 0
                    &&& forall|i: int| 0 <= i < ast@.len() ==> is_empty_function(*#[trigger] ast@[i])
                    &&& ctx.cursor() == start.cursor() + 6 * ast@.len()
                    &&& count_empty_functions(start.tokens(), start.cursor() as int) == ast@.len()
                        + count_empty_functions(start.tokens(), ctx.cursor() as int)
                    &&& forall|i: int|
                        0 <= i < ast@.len() ==> (#[trigger] ast@[i]).data->FunctionDefinition_0.name.value@
                            == empty_fn_name(start.tokens(), start.text(), start.cursor() as int, i)
                },
                ctx.diags().len() == 0 ==> statement_bounds(
                    start.tokens(),
                    ast@,
                    b,
                    start.cursor() as int,
                    ctx.cursor() as int,
                ),
            decreases ctx.remaining(),
        {
            let ghost before = ctx;
            let start_cursor = ctx.position();
            match parse_statement(&mut ctx) {
                Some(stmt) => {
                    let ghost prev_ast = ast@;
                    ast.push(stmt);
                    proof {
                        if hinted {
                            let toks = start.tokens();
                            let c0 = start.cursor() as int;
                            let p = before.cursor() as int;
                            let k = prev_ast.len();
                            lemma_fn_pos_next(toks, c0, k);
                            assert(hinted_fn_at(toks, p));
                            let n = fn_arity(toks, p);
                            if n != 0 {
                                assert(hinted_function_rest_at(toks, p + 1, n));
                            }
                            assert(hinted_function_from(*stmt, toks, start.text(), p + 1, n));
                            assert(ctx.cursor() == p + fn_len(toks, p));
                            assert(count_hinted(toks, p) == 1 + count_hinted(toks, p + fn_len(toks, p)));
                            assert forall|i: int| 0 <= i < ast@.len() implies hinted_function_from(
                                *#[trigger] ast@[i],
                                toks,
                                start.text(),
                                fn_pos(toks, c0, i as nat) + 1,
                                fn_arity(toks, fn_pos(toks, c0, i as nat)),
                            ) by {
                                if i < k {
                                    assert(ast@[i] == prev_ast[i]);
                                } else {
                                    assert(ast@[i] == stmt);
                                    assert(i as nat == k);
                                }
                            }
                        }
                        let ghost prev_b = b;
                        b = b.push(ctx.cursor() as int);
                        if ctx.diags().len() == 0 {
                            assert(before.diags().len() == 0);
                            assert(b.drop_last() == prev_b);
                            assert forall|i: int| 0 <= i < ast@.len() implies #[trigger] run_fits(
                                start.tokens(),
                                ast@,
                                b,
                                i,
                            ) by {
                                if i < prev_ast.len() {
                                    assert(run_fits(start.tokens(), prev_ast, prev_b, i));
                                    assert(ast@[i] == prev_ast[i]);
                                    assert(b[i] == prev_b[i]);
                                    assert(b[i + 1] == prev_b[i + 1]);
                                } else {
                                    assert(prev_b.last() == before.cursor());
                                    assert(ast@[i] == stmt);
                                    assert(start.tokens()[b[i]] == before.spec_current());
                                }
                            }
                            assert(b[0] == prev_b[0]);
                            assert(statement_bounds(
                                start.tokens(),
                                ast@,
                                b,
                                start.cursor() as int,
                                ctx.cursor() as int,
                            ));
                        }
                    }
                },
                None => {
                    let ghost failed = ctx;
                    let _ = ctx.skip_to(
                        false,
                        &[
                            TokenKind::Keyword(Keyword::Fn),
                            TokenKind::Keyword(Keyword::Pub),
                            TokenKind::Keyword(Keyword::Module),
                            TokenKind::Keyword(Keyword::Use),
                            TokenKind::Keyword(Keyword::Extern),
                        ],
                    );
                    proof {
                        ctx.lemma_follows_trans(&failed, &before);
                    }
                    if ctx.position() == start_cursor && !ctx.is_done() {
                        let ghost here = ctx;
                        ctx.next();
                        proof {
                            ctx.lemma_follows_trans(&here, &before);
                        }
                    }
                    assert(ctx.diags().len() > 0);
                },
            }
            proof {
                ctx.lemma_follows_trans(&before, &start);
            }
        }
        let count = ctx.diagnostic_count();
        let (ts, source, diagnostics) = ctx.into_parts();
        self.ts = ts;
        self.source = source;
        proof {
            assert(ctx.diags().subrange(0, 0) =~= Seq::<Diagnostic>::empty());
        }
        if count != 0 {
            Err(diagnostics)
        } else {
            proof {
                assert(start.tokens() == old(self).spec_tokens());
                assert(start.cursor() == old(self).spec_cursor());
                assert(statement_bounds(
                    old(self).spec_tokens(),
                    ast@,
                    b,
                    old(self).spec_cursor() as int,
                    old(self).spec_tokens().len() - 1,
                ));
                assert(splits_into(old(self).spec_tokens(), old(self).spec_cursor() as int, ast@));
            }
            Ok(ast)
        }
    }
}


/// What a statement that starts at a token of kind `k` is: a function definition at
/// `fn`, a return at `return`, a variable declaration at `let`, an expression at a name
/// or an integer.
pub open spec fn starts_like(k: TokenKind, s: Stmt) -> bool {
    &&& k == TokenKind::Keyword(Keyword::Fn) ==> s.data is FunctionDefinition
    &&& k == TokenKind::Keyword(Keyword::Return) ==> s.data is Return
    &&& k == TokenKind::Keyword(Keyword::Let) ==> s.data is VariableDecl
    &&& k == TokenKind::Identifier || k == TokenKind::Literal(Literal::Integer) ==> s.data is Expr
}

/// `b` splits the tokens from position `from` to `to` into consecutive nonempty runs,
/// one for each statement of `ast` in order, each starting at a token that fits its
/// statement.
pub open spec fn statement_bounds(
    tokens: Seq<Token>,
    ast: Seq<StmtRef>,
    b: Seq<int>,
    from: int,
    to: int,
) -> bool {
    &&& b.len() == ast.len() + 1
    &&& b[0] == from
    &&& b.last() == to
    &&& forall|i: int| 0 <= i < ast.len() ==> #[trigger] run_fits(tokens, ast, b, i)
}

/// The tokens from position `from` up to the end of file split into consecutive
/// nonempty runs, one for each statement of `ast` in order, each starting at a token
/// that fits its statement.
pub open spec fn splits_into(tokens: Seq<Token>, from: int, ast: Seq<StmtRef>) -> bool {
    exists|b: Seq<int>| #[trigger] statement_bounds(tokens, ast, b, from, tokens.len() - 1)
}

/// The `i`th run of `b` is nonempty and starts at a token that fits statement `i`.
pub open spec fn run_fits(tokens: Seq<Token>, ast: Seq<StmtRef>, b: Seq<int>, i: int) -> bool {
    b[i] < b[i + 1] && starts_like(tokens[b[i]].kind, *ast[i])
}

/// `s` defines a function of kind `kind` with the given visibility and mutability, and
/// a body; its name is the text at the name's span.
pub open spec fn defines_function(
    s: Stmt,
    kind: FunctionDeclKind,
    visibility: Visibility,
    mutability: Mutability,
    text: Seq<char>,
) -> bool {
    s.data matches StmtData::FunctionDefinition(f) && f.kind == kind && f.visibility == visibility
        && f.mutability == mutability && f.body is Some && f.name.value@ == byte_slice(
        text,
        f.name.span.start as int,
        f.name.span.end as int,
    )
}

/// From position `i` on, `toks` spell a parameter `name: type` with a name as its type,
/// followed by a token that is no `=`.
pub open spec fn hinted_param_at(toks: Seq<Token>, i: int) -> bool {
    &&& 0 <= i && i + 3 < toks.len()
    &&& toks[i].kind == TokenKind::Identifier
    &&& toks[i + 1].kind == TokenKind::Separator(Separator::Colon)
    &&& toks[i + 2].kind == TokenKind::Identifier
    &&& toks[i + 3].kind != TokenKind::Operator(Operator::Assign)
}

/// `p` is the parameter spelt from position `i` of `toks`: its name is the name there,
/// its type hint the type named two tokens later, and it has no default value.
pub open spec fn param_from(p: FunctionParameter, toks: Seq<Token>, text: Seq<char>, i: int) -> bool {
    &&& !p.takes_ownership
    &&& p.name.span == toks[i].span
    &&& p.name.value@ == byte_slice(text, toks[i].span.start as int, toks[i].span.end as int)
    &&& p.type_hint matches Some(t)
    &&& t.mutability == Mutability::Immutable
    &&& names_type(t.data, text, toks[i + 2].span)
    &&& p.default_value is None
}

/// From position `c` on, `toks` spell `(`, then `n` (at least one) parameters
/// `name: type` separated by `,`, then `)`.
pub open spec fn hinted_params_at(toks: Seq<Token>, c: int, n: int) -> bool {
    &&& n >= 1 && 0 <= c && c + 4 * n < toks.len()
    &&& toks[c].kind == TokenKind::Separator(Separator::OpenParen)
    &&& forall|i: int| c < i < c + 4 * n && (i - c) % 4 == 1 ==> #[trigger] hinted_param_at(toks, i)
    &&& forall|i: int|
        c < i < c + 4 * n && (i - c) % 4 == 0 ==> (#[trigger] toks[i]).kind == TokenKind::Separator(
            Separator::Comma,
        )
    &&& toks[c + 4 * n].kind == TokenKind::Separator(Separator::CloseParen)
}

/// From position `c` on, `toks` spell a name, then `n` parameters `name: type` in
/// brackets, then `{` and `}`: what follows `fn` in a function with such parameters,
/// no return type and an empty body.
pub open spec fn hinted_function_rest_at(toks: Seq<Token>, c: int, n: int) -> bool {
    &&& 0 <= c && c + 4 * n + 3 < toks.len()
    &&& toks[c].kind == TokenKind::Identifier
    &&& hinted_params_at(toks, c + 1, n)
    &&& toks[c + 4 * n + 2].kind == TokenKind::Separator(Separator::OpenBrace)
    &&& toks[c + 4 * n + 3].kind == TokenKind::Separator(Separator::CloseBrace)
}

/// `s` is the function spelt as `hinted_function_rest_at` says from position `c` of
/// `toks`: named at the name there, with those `n` parameters, no return type and an
/// empty body.
pub open spec fn hinted_function_from(s: Stmt, toks: Seq<Token>, text: Seq<char>, c: int, n: int) -> bool {
    &&& s.data matches StmtData::FunctionDefinition(f)
    &&& f.name.span == toks[c].span
    &&& f.name.value@ == byte_slice(text, toks[c].span.start as int, toks[c].span.end as int)
    &&& f.prototype.parameters@.len() == n
    &&& f.prototype.return_type is None
    &&& forall|j: int|
        0 <= j < n ==> param_from(#[trigger] f.prototype.parameters@[j], toks, text, c + 2 + 4 * j)
    &&& f.body matches Some(b)
    &&& b.data matches ExprData::Block(blk)
    &&& blk.stmts@.len() == 0
}

/// How many parameters `name: type`, separated by `,`, follow one another from
/// position `i` of `toks` up to the `)` behind the type of one.
pub open spec fn params_len(toks: Seq<Token>, i: int) -> int
    decreases toks.len() - i,
{
    if !(0 <= i && i + 3 < toks.len()) || toks[i + 3].kind == TokenKind::Separator(Separator::CloseParen) {
        1
    } else {
        1 + params_len(toks, i + 4)
    }
}

/// The number of parameters of the function whose `fn` stands at position `p`.
pub open spec fn fn_arity(toks: Seq<Token>, p: int) -> int {
    if p + 3 < toks.len() && toks[p + 3].kind == TokenKind::Separator(Separator::CloseParen) {
        0
    } else {
        params_len(toks, p + 3)
    }
}

/// The number of tokens of the function whose `fn` stands at position `p`, when it
/// has parameters `name: type` only, no return type and an empty body.
pub open spec fn fn_len(toks: Seq<Token>, p: int) -> int {
    if fn_arity(toks, p) == 0 { 6 } else { 4 * fn_arity(toks, p) + 5 }
}

/// At position `p`, `toks` spell `fn`, a name, parameters `name: type` in brackets,
/// and `{` and `}`.
pub open spec fn hinted_fn_at(toks: Seq<Token>, p: int) -> bool {
    &&& 0 <= p < toks.len()
    &&& toks[p].kind == TokenKind::Keyword(Keyword::Fn)
    &&& if fn_arity(toks, p) == 0 {
        empty_function_rest_at(toks, p + 1)
    } else {
        hinted_function_rest_at(toks, p + 1, fn_arity(toks, p))
    }
}

/// From position `c` on, `toks` spell functions as `hinted_fn_at` says one after
/// another, up to the end of file.
pub open spec fn hinted_functions_from(toks: Seq<Token>, c: int) -> bool
    decreases toks.len() - c,
{
    if !(0 <= c < toks.len()) {
        false
    } else if toks[c].kind == TokenKind::EndOfFile {
        true
    } else {
        &&& hinted_fn_at(toks, c)
        &&& fn_len(toks, c) > 0
        &&& hinted_functions_from(toks, c + fn_len(toks, c))
    }
}

/// How many functions `hinted_functions_from` finds from position `c`.
pub open spec fn count_hinted(toks: Seq<Token>, c: int) -> nat
    decreases toks.len() - c,
{
    if !(0 <= c < toks.len()) || toks[c].kind == TokenKind::EndOfFile || fn_len(toks, c) <= 0 || c
        + fn_len(toks, c) > toks.len() {
        0
    } else {
        1 + count_hinted(toks, c + fn_len(toks, c))
    }
}

/// Where the `i`th of the functions that follow one another from position `c` starts.
pub open spec fn fn_pos(toks: Seq<Token>, c: int, i: nat) -> int
    decreases i,
{
    if i == 0 { c } else { fn_pos(toks, c + fn_len(toks, c), (i - 1) as nat) }
}

proof fn lemma_fn_pos_next(toks: Seq<Token>, c: int, i: nat)
    ensures
        fn_pos(toks, c, i + 1) == fn_pos(toks, c, i) + fn_len(toks, fn_pos(toks, c, i)),
    decreases i,
{
    let c1 = c + fn_len(toks, c);
    assert(fn_pos(toks, c, i + 1) == fn_pos(toks, c1, i));
    if i > 0 {
        lemma_fn_pos_next(toks, c1, (i - 1) as nat);
        assert(fn_pos(toks, c, i) == fn_pos(toks, c1, (i - 1) as nat));
        assert((i - 1) as nat + 1 == i);
    }
}

/// From position `c` on, `toks` spell a name, `(`, `)`, `{` and `}`: what follows `fn`
/// in a function with no parameters, no return type and an empty body.
pub open spec fn empty_function_rest_at(toks: Seq<Token>, c: int) -> bool {
    &&& 0 <= c && c + 4 < toks.len()
    &&& toks[c].kind == TokenKind::Identifier
    &&& toks[c + 1].kind == TokenKind::Separator(Separator::OpenParen)
    &&& toks[c + 2].kind == TokenKind::Separator(Separator::CloseParen)
    &&& toks[c + 3].kind == TokenKind::Separator(Separator::OpenBrace)
    &&& toks[c + 4].kind == TokenKind::Separator(Separator::CloseBrace)
}

/// From position `c` on, `toks` spell functions `fn name() {}` one after another, up
/// to the end of file.
pub open spec fn empty_functions_from(toks: Seq<Token>, c: int) -> bool
    decreases toks.len() - c,
{
    if !(0 <= c < toks.len()) {
        false
    } else if toks[c].kind == TokenKind::EndOfFile {
        true
    } else {
        &&& toks[c].kind == TokenKind::Keyword(Keyword::Fn)
        &&& empty_function_rest_at(toks, c + 1)
        &&& empty_functions_from(toks, c + 6)
    }
}

/// How many functions `fn name() {}` follow one another from position `c` of `toks`
/// up to the end of file.
pub open spec fn count_empty_functions(toks: Seq<Token>, c: int) -> nat
    decreases toks.len() - c,
{
    if !(0 <= c < toks.len()) || toks[c].kind == TokenKind::EndOfFile {
        0
    } else if c + 6 > toks.len() {
        1
    } else {
        1 + count_empty_functions(toks, c + 6)
    }
}

/// The name of the `i`th of the functions `fn name() {}` that follow one another from
/// position `c` of `toks`: the text of its name token.
pub open spec fn empty_fn_name(toks: Seq<Token>, text: Seq<char>, c: int, i: int) -> Seq<char> {
    let t = toks[c + 6 * i + 1];
    byte_slice(text, t.span.start as int, t.span.end as int)
}

/// `s` defines a function with no parameters, no return type and a body without
/// statements.
pub open spec fn is_empty_function(s: Stmt) -> bool {
    &&& s.data matches StmtData::FunctionDefinition(f)
    &&& f.prototype.parameters@.len() == 0
    &&& f.prototype.return_type is None
    &&& f.body matches Some(b)
    &&& b.data matches ExprData::Block(blk)
    &&& blk.stmts@.len() == 0
}

/// `s` declares a variable with the given mutability, whose name is the text at the
/// name's span.
pub open spec fn declares_variable(s: Stmt, mutability: Mutability, text: Seq<char>) -> bool {
    s.data matches StmtData::VariableDecl(v) && v.mutability == mutability && v.name.value@
        == byte_slice(text, v.name.span.start as int, v.name.span.end as int)
}

/// The scalar type named `name`, if it names one.
pub open spec fn scalar_type_named(name: Seq<char>) -> Option<TypeData> {
    if name == "u8"@ {
        Some(TypeData::UnsignedInteger(IntegerWidth::Int8))
    } else if name == "u16"@ {
        Some(TypeData::UnsignedInteger(IntegerWidth::Int16))
    } else if name == "u32"@ {
        Some(TypeData::UnsignedInteger(IntegerWidth::Int32))
    } else if name == "u64"@ {
        Some(TypeData::UnsignedInteger(IntegerWidth::Int64))
    } else if name == "i8"@ {
        Some(TypeData::SignedInteger(IntegerWidth::Int8))
    } else if name == "i16"@ {
        Some(TypeData::SignedInteger(IntegerWidth::Int16))
    } else if name == "i32"@ {
        Some(TypeData::SignedInteger(IntegerWidth::Int32))
    } else if name == "i64"@ {
        Some(TypeData::SignedInteger(IntegerWidth::Int64))
    } else if name == "char"@ {
        Some(TypeData::Char)
    } else if name == "bool"@ {
        Some(TypeData::Bool)
    } else if name == "string"@ {
        Some(TypeData::String)
    } else if name == "void"@ {
        Some(TypeData::Void)
    } else {
        None
    }
}

/// The scalar type named `name`, if it names one.
fn scalar_type_from_name(name: &String) -> (r: Option<TypeData>)
    ensures
        r == scalar_type_named(name@),
{
    let n = name.as_str();
    if str_eq(n, "u8") {
        Some(TypeData::UnsignedInteger(IntegerWidth::Int8))
    } else if str_eq(n, "u16") {
        Some(TypeData::UnsignedInteger(IntegerWidth::Int16))
    } else if str_eq(n, "u32") {
        Some(TypeData::UnsignedInteger(IntegerWidth::Int32))
    } else if str_eq(n, "u64") {
        Some(TypeData::UnsignedInteger(IntegerWidth::Int64))
    } else if str_eq(n, "i8") {
        Some(TypeData::SignedInteger(IntegerWidth::Int8))
    } else if str_eq(n, "i16") {
        Some(TypeData::SignedInteger(IntegerWidth::Int16))
    } else if str_eq(n, "i32") {
        Some(TypeData::SignedInteger(IntegerWidth::Int32))
    } else if str_eq(n, "i64") {
        Some(TypeData::SignedInteger(IntegerWidth::Int64))
    } else if str_eq(n, "char") {
        Some(TypeData::Char)
    } else if str_eq(n, "bool") {
        Some(TypeData::Bool)
    } else if str_eq(n, "string") {
        Some(TypeData::String)
    } else if str_eq(n, "void") {
        Some(TypeData::Void)
    } else {
        None
    }
}

/// Parses one statement: a function definition, a return, a variable declaration or
/// an expression, after its optional visibility and mutability.  A statement that
/// parses consumes at least one token.
pub fn parse_statement(ctx: &mut ParseContext) -> (r: Option<StmtRef>)
    requires
        old(ctx).wf(),
    ensures
        final(ctx).follows(old(ctx)),
        r is None ==> final(ctx).diags().len() > old(ctx).diags().len(),
        r is Some ==> final(ctx).cursor() > old(ctx).cursor(),
        old(ctx).spec_current().kind == TokenKind::Keyword(Keyword::Fn) ==> (r matches Some(s)
            ==> s.data is FunctionDefinition),
        old(ctx).spec_current().kind == TokenKind::Keyword(Keyword::Return) ==> (r matches Some(s)
            ==> s.data is Return),
        old(ctx).spec_current().kind == TokenKind::Keyword(Keyword::Let) ==> (r matches Some(s)
            ==> s.data is VariableDecl),
        old(ctx).spec_current().kind == TokenKind::Identifier || old(ctx).spec_current().kind
            == TokenKind::Literal(Literal::Integer) ==> (r matches Some(s) ==> s.data is Expr),
        old(ctx).spec_current().kind == TokenKind::Keyword(Keyword::Fn) && empty_function_rest_at(
            old(ctx).tokens(),
            old(ctx).cursor() + 1int,
        ) ==> {
            &&& r matches Some(s) && is_empty_function(*s)
            &&& r matches Some(s) && (s.data matches StmtData::FunctionDefinition(f) && f.name.span
                == old(ctx).tokens()[old(ctx).cursor() + 1int].span && f.name.value@ == byte_slice(
                old(ctx).text(),
                f.name.span.start as int,
                f.name.span.end as int,
            ))
            &&& final(ctx).cursor() == old(ctx).cursor() + 6
            &&& final(ctx).diags() == old(ctx).diags()
        },
        old(ctx).spec_current().kind == TokenKind::Keyword(Keyword::Fn) ==> forall|n: int| #[trigger]
            hinted_function_rest_at(old(ctx).tokens(), old(ctx).cursor() + 1int, n) ==> {
                &&& r matches Some(s) && hinted_function_from(*s, old(ctx).tokens(), old(ctx).text(), old(ctx).cursor() + 1int, n)
                &&& final(ctx).cursor() == old(ctx).cursor() + 4 * n + 5
                &&& final(ctx).diags() == old(ctx).diags()
            },
        old(ctx).spec_current().kind is Separator || old(ctx).spec_current().kind is Operator ==> r is None,
    decreases old(ctx).remaining(), 1int,
{
    let (visibility, mutability) = ctx.collect_specifiers();
    let ghost mid = *ctx;
    let r = match ctx.current_kind() {
        TokenKind::Keyword(Keyword::Fn) => parse_function(
            ctx,
            FunctionDeclKind::Free,
            visibility,
            mutability,
        ),
        TokenKind::Keyword(Keyword::Return) => parse_return(ctx),
        TokenKind::Keyword(Keyword::Let) => parse_vardecl(ctx, visibility, mutability),
        _ => {
            match parse_expression(ctx, Precedence::Lowest) {
                Some(expr) => {
                    let span = expr.span;
                    Some(Stmt::new_expr(span, expr))
                },
                None => None,
            }
        },
    };
    proof {
        ctx.lemma_follows_trans(&mid, old(ctx));
    }
    r
}

/// Parses a name; when the current token is no identifier, reports it with `err` as
/// the label.
pub fn parse_name_(ctx: &mut ParseContext, err: String) -> (r: Option<Name>)
    requires
        old(ctx).wf(),
    ensures
        final(ctx).follows(old(ctx)),
        if old(ctx).spec_current().kind == TokenKind::Identifier {
            &&& r matches Some(n)
            &&& n.span == old(ctx).spec_current().span
            &&& n.value@ == byte_slice(
                old(ctx).text(),
                n.span.start as int,
                n.span.end as int,
            )
            &&& final(ctx).cursor() == old(ctx).cursor() + 1
            &&& final(ctx).diags() == old(ctx).diags()
        } else {
            &&& r is None
            &&& final(ctx).cursor() == old(ctx).cursor()
            &&& final(ctx).diags().len() == old(ctx).diags().len() + 1
            &&& final(ctx).diags().last()@ == crate::diagnostics::new_diagnostic_view(
                Severity::Error,
                "missing name"@,
                old(ctx).spec_current().span,
                err@,
            )
        },
{
    match ctx.try_eat_many(&[TokenKind::Identifier]) {
        Some(tok) => {
            let value = ctx.slice(tok.span);
            Some(Name { span: tok.span, value })
        },
        None => {
            let span = ctx.current().span;
            ctx.emit(Diagnostic::new(Severity::Error, string_of("missing name"), span, err));
            None
        },
    }
}

/// Parses a name that must follow a token of kind `after`.
pub fn parse_name(ctx: &mut ParseContext, after: TokenKind) -> (r: Option<Name>)
    requires
        old(ctx).wf(),
    ensures
        final(ctx).follows(old(ctx)),
        if old(ctx).spec_current().kind == TokenKind::Identifier {
            &&& r matches Some(n)
            &&& n.span == old(ctx).spec_current().span
            &&& n.value@ == byte_slice(
                old(ctx).text(),
                n.span.start as int,
                n.span.end as int,
            )
            &&& final(ctx).cursor() == old(ctx).cursor() + 1
            &&& final(ctx).diags() == old(ctx).diags()
        } else {
            &&& r is None
            &&& final(ctx).diags().len() == old(ctx).diags().len() + 1
            &&& final(ctx).diags().last()@ == crate::diagnostics::new_diagnostic_view(
                Severity::Error,
                "missing name"@,
                old(ctx).spec_current().span,
                "expected name after "@ + kind_text(after),
            )
        },
{
    let mut err = string_of("expected name after ");
    push_kind_text(&mut err, after);
    parse_name_(ctx, err)
}

/// Parses one parameter: an optional `move`, a name, an optional `: type` and an
/// optional `= default`.  A parameter that parses consumes at least its name.
fn parse_parameter(ctx: &mut ParseContext) -> (r: Option<FunctionParameter>)
    requires
        old(ctx).wf(),
    ensures
        final(ctx).follows(old(ctx)),
        r is None ==> final(ctx).diags().len() > old(ctx).diags().len(),
        r is Some ==> final(ctx).cursor() > old(ctx).cursor(),
        hinted_param_at(old(ctx).tokens(), old(ctx).cursor() as int) ==> {
            &&& r matches Some(p) && param_from(p, old(ctx).tokens(), old(ctx).text(), old(ctx).cursor() as int)
            &&& final(ctx).cursor() == old(ctx).cursor() + 3
            &&& final(ctx).diags() == old(ctx).diags()
        },
{
    let takes_ownership = ctx.try_eat(TokenKind::Keyword(Keyword::Move));
    let ghost s1 = *ctx;
    let name = match parse_name_(ctx, string_of("expected parameter name")) {
        Some(n) => n,
        None => {
            proof {
                ctx.lemma_follows_trans(&s1, old(ctx));
            }
            return None;
        },
    };
    proof {
        ctx.lemma_follows_trans(&s1, old(ctx));
    }
    let ghost s2 = *ctx;
    let has_hint = ctx.try_eat(TokenKind::Separator(Separator::Colon));
    proof {
        ctx.lemma_follows_trans(&s2, old(ctx));
    }
    let ghost s3 = *ctx;
    let type_hint = if has_hint {
        match parse_type_hint(ctx, TypeContext::Parameter) {
            Some(t) => Some(t),
            None => {
                proof {
                    ctx.lemma_follows_trans(&s3, old(ctx));
                }
                return None;
            },
        }
    } else {
        None
    };
    proof {
        ctx.lemma_follows_trans(&s3, old(ctx));
    }
    let ghost s4 = *ctx;
    let has_default = ctx.try_eat(TokenKind::Operator(Operator::Assign));
    proof {
        ctx.lemma_follows_trans(&s4, old(ctx));
    }
    let ghost s5 = *ctx;
    let default_value = if has_default {
        match parse_expression(ctx, Precedence::Lowest) {
            Some(e) => Some(e),
            None => {
                proof {
                    ctx.lemma_follows_trans(&s5, old(ctx));
                }
                return None;
            },
        }
    } else {
        None
    };
    proof {
        ctx.lemma_follows_trans(&s5, old(ctx));
    }
    Some(FunctionParameter { name, type_hint, default_value, takes_ownership })
}

/// Parses `(`, parameters separated by `,`, `)`, and an optional `-> type`.
pub fn parse_function_sig(ctx: &mut ParseContext) -> (r: Option<FunctionPrototype>)
    requires
        old(ctx).wf(),
    ensures
        final(ctx).follows(old(ctx)),
        r is None ==> final(ctx).diags().len() > old(ctx).diags().len(),
        forall|n: int|
            #[trigger] hinted_params_at(old(ctx).tokens(), old(ctx).cursor() as int, n) && old(
                ctx,
            ).tokens()[old(ctx).cursor() + 4 * n + 1].kind != TokenKind::Separator(Separator::Arrow)
                ==> {
                &&& r matches Some(p) && p.parameters@.len() == n && p.return_type is None && (forall|j: int|
                    0 <= j < n ==> param_from(
                        #[trigger] p.parameters@[j],
                        old(ctx).tokens(),
                        old(ctx).text(),
                        old(ctx).cursor() + 1 + 4 * j,
                    ))
                &&& final(ctx).cursor() == old(ctx).cursor() + 4 * n + 1
                &&& final(ctx).diags() == old(ctx).diags()
            },
        old(ctx).spec_current().kind != TokenKind::Separator(Separator::OpenParen) ==> {
            &&& r is None
            &&& final(ctx).cursor() == old(ctx).cursor()
            &&& final(ctx).diags().len() == old(ctx).diags().len() + 1
            &&& final(ctx).diags().last()@ == crate::diagnostics::new_diagnostic_view(
                Severity::Error,
                "unexpected token"@,
                old(ctx).spec_current().span,
                kinds_text(seq![TokenKind::Separator(Separator::OpenParen)]),
            )
        },
        r is Some ==> final(ctx).cursor() > old(ctx).cursor(),
        r matches Some(p) && p.return_type is None ==> final(ctx).spec_previous().kind
            == TokenKind::Separator(Separator::CloseParen) && final(ctx).spec_current().kind
            != TokenKind::Separator(Separator::Arrow),
        old(ctx).spec_current().kind == TokenKind::Separator(Separator::OpenParen) && old(
            ctx,
        ).tokens()[old(ctx).cursor() + 1int].kind == TokenKind::Separator(Separator::CloseParen)
            ==> ({
            let after = old(ctx).tokens()[old(ctx).cursor() + 2int];
            &&& after.kind != TokenKind::Separator(Separator::Arrow) ==> {
                &&& r matches Some(p) && p.parameters@.len() == 0 && p.return_type is None
                &&& final(ctx).cursor() == old(ctx).cursor() + 2
                &&& final(ctx).diags() == old(ctx).diags()
            }
            &&& after.kind == TokenKind::Separator(Separator::Arrow) && old(ctx).tokens()[old(
                ctx,
            ).cursor() + 3int].kind == TokenKind::Identifier ==> {
                &&& r matches Some(p) && p.parameters@.len() == 0 && (p.return_type matches Some(t)
                    && names_type(t.data, old(ctx).text(), old(ctx).tokens()[old(ctx).cursor() + 3int].span))
                &&& final(ctx).cursor() == old(ctx).cursor() + 4
                &&& final(ctx).diags() == old(ctx).diags()
            }
        }),
{
    let ghost c0 = old(ctx).cursor() as int;
    let ghost toks = old(ctx).tokens();
    let ghost n: int = choose|n: int| #[trigger] hinted_params_at(toks, c0, n);
    let ghost shaped = exists|n: int| #[trigger] hinted_params_at(toks, c0, n);
    let ghost mut k: int = 0;
    let mut parameters: Vec<FunctionParameter> = Vec::new();
    let open = ctx.eat(&[TokenKind::Separator(Separator::OpenParen)]);
    proof {
        assert(seq![TokenKind::Separator(Separator::OpenParen)][0] == TokenKind::Separator(
            Separator::OpenParen,
        ));
        assert(seq![TokenKind::Separator(Separator::OpenParen)].contains(old(ctx).spec_current().kind)
            ==> old(ctx).spec_current().kind == TokenKind::Separator(Separator::OpenParen));
    }
    if open.is_none() {
        return None;
    }
    let ghost opened = *ctx;
    let ghost empty = old(ctx).tokens()[old(ctx).cursor() + 1int].kind == TokenKind::Separator(
        Separator::CloseParen,
    );
    proof {
        assert(seq![TokenKind::Separator(Separator::OpenParen)].contains(old(ctx).spec_current().kind));
        assert(opened.cursor() == old(ctx).cursor() + 1);
    }
    let mut more = true;
    while more && !ctx.is_sp(Separator::CloseParen)
        invariant
            ctx.follows(old(ctx)),
            old(ctx).spec_current().kind == TokenKind::Separator(Separator::OpenParen),
            ctx.cursor() > old(ctx).cursor(),
            opened.cursor() == old(ctx).cursor() + 1,
            opened.tokens() == old(ctx).tokens(),
            empty == (old(ctx).tokens()[old(ctx).cursor() + 1int].kind == TokenKind::Separator(
                Separator::CloseParen,
            )),
            empty ==> *ctx == opened && parameters@.len() == 0,
            c0 == old(ctx).cursor(),
            toks == old(ctx).tokens(),
            shaped == exists|m: int| #[trigger] hinted_params_at(toks, c0, m),
            shaped ==> {
                &&& hinted_params_at(toks, c0, n)
                &&& parameters@.len() == k
                &&& 0 <= k <= n
                &&& ctx.diags() == old(ctx).diags()
                &&& more ==> k < n && ctx.cursor() == c0 + 1 + 4 * k
                &&& !more ==> k == n && ctx.cursor() == c0 + 4 * n
                &&& forall|j: int|
                    0 <= j < k ==> param_from(#[trigger] parameters@[j], toks, old(ctx).text(), c0 + 1 + 4 * j)
            },
        decreases ctx.remaining(),
    {
        let ghost before = *ctx;
        proof {
            if shaped {
                let i = c0 + 1 + 4 * k;
                assert((i - c0) % 4 == 1);
                assert(hinted_param_at(toks, i));
                assert(before.cursor() == i);
            }
        }
        let param = match parse_parameter(ctx) {
            Some(p) => p,
            None => {
                proof {
                    ctx.lemma_follows_trans(&before, old(ctx));
                }
                return None;
            },
        };
        parameters.push(param);
        proof {
            ctx.lemma_follows_trans(&before, old(ctx));
        }
        let ghost after = *ctx;
        proof {
            if shaped {
                let i = c0 + 4 + 4 * k;
                if k + 1 < n {
                    assert((i - c0) % 4 == 0);
                    assert(toks[i].kind == TokenKind::Separator(Separator::Comma));
                } else {
                    assert(i == c0 + 4 * n);
                }
                assert(after.spec_current() == toks[i]);
            }
        }
        more = ctx.try_eat(TokenKind::Separator(Separator::Comma));
        proof {
            ctx.lemma_follows_trans(&after, old(ctx));
            if shaped {
                k = k + 1;
            }
        }
    }
    let ghost before = *ctx;
    proof {
        if empty {
            assert(before.spec_current() == old(ctx).tokens()[old(ctx).cursor() + 1int]);
            assert(seq![TokenKind::Separator(Separator::CloseParen)][0] == before.spec_current().kind);
            assert(seq![TokenKind::Separator(Separator::CloseParen)].contains(before.spec_current().kind));
        }
    }
    let close = ctx.eat(&[TokenKind::Separator(Separator::CloseParen)]);
    proof {
        ctx.lemma_follows_trans(&before, old(ctx));
        assert(seq![TokenKind::Separator(Separator::CloseParen)].contains(before.spec_current().kind)
            ==> before.spec_current().kind == TokenKind::Separator(Separator::CloseParen));
    }
    if close.is_none() {
        return None;
    }
    let ghost before2 = *ctx;
    proof {
        if shaped {
            if more {
                let i = c0 + 1 + 4 * k;
                assert((i - c0) % 4 == 1);
                assert(hinted_param_at(toks, i));
                assert(before.spec_current() == toks[i]);
            }
            assert(before.cursor() == c0 + 4 * n);
            assert(before2.cursor() == c0 + 4 * n + 1);
            assert(before2.spec_current() == toks[c0 + 4 * n + 1]);
            assert forall|m: int| #[trigger] hinted_params_at(toks, c0, m) implies m == n by {
                if m < n {
                    assert((c0 + 4 * m - c0) % 4 == 0);
                    assert(toks[c0 + 4 * m].kind == TokenKind::Separator(Separator::Comma));
                } else if m > n {
                    assert((c0 + 4 * n - c0) % 4 == 0);
                    assert(toks[c0 + 4 * n].kind == TokenKind::Separator(Separator::Comma));
                }
            }
        }
    }
    let has_return = ctx.try_eat(TokenKind::Separator(Separator::Arrow));
    proof {
        ctx.lemma_follows_trans(&before2, old(ctx));
    }
    let ghost before3 = *ctx;
    proof {
        if empty {
            assert(before2.cursor() == old(ctx).cursor() + 2);
            assert(before2.spec_current() == old(ctx).tokens()[old(ctx).cursor() + 2int]);
            if has_return {
                assert(before3.cursor() == old(ctx).cursor() + 3);
                assert(before3.spec_current() == old(ctx).tokens()[old(ctx).cursor() + 3int]);
            }
        }
    }
    let return_type = if has_return {
        match parse_type_hint(ctx, TypeContext::Return) {
            Some(t) => Some(t),
            None => {
                proof {
                    ctx.lemma_follows_trans(&before3, old(ctx));
                }
                return None;
            },
        }
    } else {
        None
    };
    proof {
        ctx.lemma_follows_trans(&before3, old(ctx));
    }
    Some(FunctionPrototype::new(parameters, return_type))
}

/// Generic parameters are not supported: a `[` after the function name is reported.
pub fn parse_generics(ctx: &mut ParseContext) -> (r: Option<Generics>)
    requires
        old(ctx).wf(),
    ensures
        final(ctx).follows(old(ctx)),
        r is None ==> final(ctx).diags().len() > old(ctx).diags().len(),
        old(ctx).spec_current().kind != TokenKind::Separator(Separator::OpenBracket) ==> (r
            matches Some(g) && g.0@.len() == 0 && *final(ctx) == *old(ctx)),
        old(ctx).spec_current().kind == TokenKind::Separator(Separator::OpenBracket) ==> r is None,
{
    let generics = Generics::new();
    if ctx.try_eat(TokenKind::Separator(Separator::OpenBracket)) {
        let ghost before = *ctx;
        let span = ctx.previous().span;
        ctx.emit(unsupported(span, "generic parameters are not supported"));
        proof {
            ctx.lemma_follows_trans(&before, old(ctx));
        }
        return None;
    }
    Some(generics)
}

/// Parses `fn name(parameters) -> type { body }`.  A missing body is reported and
/// skipped to the next `{`, and a `mut` in front of a function is reported.
pub fn parse_function(
    ctx: &mut ParseContext,
    kind: FunctionDeclKind,
    visibility: Spanned<Visibility>,
    mutability: Spanned<Mutability>,
) -> (r: Option<StmtRef>)
    requires
        old(ctx).wf(),
    ensures
        final(ctx).follows(old(ctx)),
        r is None ==> final(ctx).diags().len() > old(ctx).diags().len(),
        r is Some ==> final(ctx).cursor() > old(ctx).cursor(),
        r matches Some(s) ==> defines_function(*s, kind, visibility.spec_item(), mutability.spec_item(), final(ctx).text()),
        old(ctx).spec_current().kind == TokenKind::Keyword(Keyword::Fn) && empty_function_rest_at(
            old(ctx).tokens(),
            old(ctx).cursor() + 1int,
        ) ==> {
            &&& r matches Some(s) && is_empty_function(*s) && (s.data matches StmtData::FunctionDefinition(f)
                && f.name.span == old(ctx).tokens()[old(ctx).cursor() + 1int].span)
            &&& r matches Some(s) && s.span == covering(old(ctx).spec_current().span, old(ctx).tokens()[old(ctx).cursor() + 5int].span)
            &&& final(ctx).cursor() == old(ctx).cursor() + 6
            &&& mutability.spec_item() != Mutability::Mutable ==> final(ctx).diags() == old(ctx).diags()
        },
        old(ctx).spec_current().kind == TokenKind::Keyword(Keyword::Fn) ==> forall|n: int| #[trigger]
            hinted_function_rest_at(old(ctx).tokens(), old(ctx).cursor() + 1int, n) ==> {
                &&& r matches Some(s) && hinted_function_from(*s, old(ctx).tokens(), old(ctx).text(), old(ctx).cursor() + 1int, n)
                &&& r matches Some(s) && s.span == covering(old(ctx).spec_current().span, old(ctx).tokens()[old(ctx).cursor() + 4 * n + 4].span)
                &&& final(ctx).cursor() == old(ctx).cursor() + 4 * n + 5
                &&& mutability.spec_item() != Mutability::Mutable ==> final(ctx).diags() == old(ctx).diags()
            },
    decreases old(ctx).remaining(), 0int,
{
    let fn_kw = match ctx.eat(&[TokenKind::Keyword(Keyword::Fn)]) {
        Some(t) => t,
        None => {
            return None;
        },
    };
    proof {
        assert(seq![TokenKind::Keyword(Keyword::Fn)][0] == TokenKind::Keyword(Keyword::Fn));
        old(ctx).lemma_spans();
    }
    let ghost after_fn = *ctx;
    let result = parse_function_rest(ctx, kind, fn_kw, visibility, mutability);
    proof {
        ctx.lemma_follows_trans(&after_fn, old(ctx));
    }
    result
}

/// The part of a function definition after `fn`.
fn parse_function_rest(
    ctx: &mut ParseContext,
    kind: FunctionDeclKind,
    fn_kw: Token,
    visibility: Spanned<Visibility>,
    mutability: Spanned<Mutability>,
) -> (r: Option<StmtRef>)
    requires
        old(ctx).wf(),
        fn_kw.span.source_id == old(ctx).spec_source_id(),
    ensures
        final(ctx).follows(old(ctx)),
        r is None ==> final(ctx).diags().len() > old(ctx).diags().len(),
        r matches Some(s) ==> defines_function(*s, kind, visibility.spec_item(), mutability.spec_item(), final(ctx).text()),
        empty_function_rest_at(old(ctx).tokens(), old(ctx).cursor() as int) ==> {
            &&& r matches Some(s) && is_empty_function(*s) && (s.data matches StmtData::FunctionDefinition(f)
                && f.name.span == old(ctx).spec_current().span)
            &&& r matches Some(s) && s.span == covering(fn_kw.span, old(ctx).tokens()[old(ctx).cursor() + 4int].span)
            &&& final(ctx).cursor() == old(ctx).cursor() + 5
            &&& mutability.spec_item() != Mutability::Mutable ==> final(ctx).diags() == old(ctx).diags()
        },
        forall|n: int| #[trigger]
            hinted_function_rest_at(old(ctx).tokens(), old(ctx).cursor() as int, n) ==> {
                &&& r matches Some(s) && hinted_function_from(*s, old(ctx).tokens(), old(ctx).text(), old(ctx).cursor() as int, n)
                &&& r matches Some(s) && s.span == covering(fn_kw.span, old(ctx).tokens()[old(ctx).cursor() + 4 * n + 3].span)
                &&& final(ctx).cursor() == old(ctx).cursor() + 4 * n + 4
                &&& mutability.spec_item() != Mutability::Mutable ==> final(ctx).diags() == old(ctx).diags()
            },
    decreases old(ctx).remaining(), 3int,
{
    let ghost c0 = *ctx;
    let name_ident = match parse_name(ctx, TokenKind::Keyword(Keyword::Fn)) {
        Some(n) => n,
        None => {
            return None;
        },
    };
    let ghost c1 = *ctx;
    let generics = match parse_generics(ctx) {
        Some(g) => g,
        None => {
            proof {
                ctx.lemma_follows_trans(&c1, &c0);
            }
            return None;
        },
    };
    proof {
        ctx.lemma_follows_trans(&c1, &c0);
    }
    let ghost c2 = *ctx;
    let prototype = match parse_function_sig(ctx) {
        Some(p) => p,
        None => {
            proof {
                ctx.lemma_follows_trans(&c2, &c0);
            }
            return None;
        },
    };
    proof {
        ctx.lemma_follows_trans(&c2, &c0);
    }
    let ghost c3 = *ctx;
    if !ctx.is_sp(Separator::OpenBrace) && kind != FunctionDeclKind::Extern {
        let span = ctx.current().span;
        ctx.emit(
            crate::diagnostics::error_at(
                "missing function body",
                span,
                string_of("expected function body"),
            ),
        );
        let ghost e1 = *ctx;
        ctx.skip_until(true, Separator::OpenBrace);
        proof {
            ctx.lemma_follows_trans(&e1, &c3);
        }
    } else {
        proof {
            ctx.lemma_follows_refl();
        }
    }
    proof {
        ctx.lemma_follows_trans(&c3, &c0);
    }
    let ghost c3b = *ctx;
    if *mutability.get() == Mutability::Mutable {
        let diag = Diagnostic::new(
            Severity::Error,
            string_of("invalid token"),
            *mutability.span(),
            string_of("functions cannot be annotated with `mut`"),
        ).with_help(string_of("consider removing `mut`"));
        ctx.emit(diag);
    } else {
        proof {
            ctx.lemma_follows_refl();
        }
    }
    proof {
        ctx.lemma_follows_trans(&c3b, &c0);
    }
    let ghost c4 = *ctx;
    let open = match ctx.eat(&[TokenKind::Separator(Separator::OpenBrace)]) {
        Some(t) => t,
        None => {
            proof {
                ctx.lemma_follows_trans(&c4, &c0);
            }
            return None;
        },
    };
    proof {
        c4.lemma_spans();
        ctx.lemma_follows_trans(&c4, &c0);
    }
    let ghost c5 = *ctx;
    let block = match parse_block_(ctx) {
        Some(b) => b,
        None => {
            proof {
                ctx.lemma_follows_trans(&c5, &c0);
            }
            return None;
        },
    };
    proof {
        ctx.lemma_follows_trans(&c5, &c0);
        ctx.lemma_spans();
    }
    let close_span = ctx.previous().span;
    let body = Expr::new(open.span.cover(close_span), ExprData::Block(block));
    Some(
        Stmt::new_function_definition(
            fn_kw.span.cover(close_span),
            *visibility.get(),
            *mutability.get(),
            kind,
            name_ident,
            generics,
            prototype,
            Some(body),
        ),
    )
}

/// Parses `return expression;`.
pub fn parse_return(ctx: &mut ParseContext) -> (r: Option<StmtRef>)
    requires
        old(ctx).wf(),
    ensures
        final(ctx).follows(old(ctx)),
        r is None ==> final(ctx).diags().len() > old(ctx).diags().len(),
        r is Some ==> final(ctx).cursor() > old(ctx).cursor(),
        r matches Some(s) ==> s.data is Return && s.span == old(ctx).spec_current().span,
{
    let return_kw = match ctx.eat(&[TokenKind::Keyword(Keyword::Return)]) {
        Some(t) => t,
        None => {
            return None;
        },
    };
    proof {
        assert(seq![TokenKind::Keyword(Keyword::Return)][0] == TokenKind::Keyword(Keyword::Return));
    }
    let ghost c1 = *ctx;
    let expr = match parse_expression(ctx, Precedence::Lowest) {
        Some(e) => e,
        None => {
            proof {
                ctx.lemma_follows_trans(&c1, old(ctx));
            }
            return None;
        },
    };
    proof {
        ctx.lemma_follows_trans(&c1, old(ctx));
    }
    let ghost c2 = *ctx;
    let semi = ctx.eat(&[TokenKind::Separator(Separator::SemiColon)]);
    proof {
        ctx.lemma_follows_trans(&c2, old(ctx));
    }
    if semi.is_none() {
        return None;
    }
    Some(Stmt::new_return(return_kw.span, expr))
}

/// Parses `let name [: type] = initializer;`.  When the `=` or the initializer is
/// missing, tokens are skipped past the next `;`.
pub fn parse_vardecl(
    ctx: &mut ParseContext,
    visibility: Spanned<Visibility>,
    mutability: Spanned<Mutability>,
) -> (r: Option<StmtRef>)
    requires
        old(ctx).wf(),
        mutability.spec_span().source_id == old(ctx).spec_source_id(),
    ensures
        final(ctx).follows(old(ctx)),
        r is None ==> final(ctx).diags().len() > old(ctx).diags().len(),
        r is Some ==> final(ctx).cursor() > old(ctx).cursor(),
        r matches Some(s) ==> declares_variable(*s, mutability.spec_item(), final(ctx).text()),
{
    let let_kw = match ctx.eat(&[TokenKind::Keyword(Keyword::Let)]) {
        Some(t) => t,
        None => {
            return None;
        },
    };
    proof {
        assert(seq![TokenKind::Keyword(Keyword::Let)][0] == TokenKind::Keyword(Keyword::Let));
    }
    let ghost c1 = *ctx;
    let result = parse_vardecl_rest(ctx, let_kw, mutability);
    proof {
        ctx.lemma_follows_trans(&c1, old(ctx));
    }
    result
}

/// The part of a variable declaration after `let`.
fn parse_vardecl_rest(ctx: &mut ParseContext, let_kw: Token, mutability: Spanned<Mutability>) -> (r:
    Option<StmtRef>)
    requires
        old(ctx).wf(),
        mutability.spec_span().source_id == old(ctx).spec_source_id(),
    ensures
        final(ctx).follows(old(ctx)),
        r is None ==> final(ctx).diags().len() > old(ctx).diags().len(),
        r matches Some(s) ==> declares_variable(*s, mutability.spec_item(), final(ctx).text()),
{
    let name = match parse_name(ctx, let_kw.kind) {
        Some(n) => n,
        None => {
            return None;
        },
    };
    let ghost c2 = *ctx;
    let type_hint = if ctx.try_eat(TokenKind::Separator(Separator::Colon)) {
        match parse_type_hint(ctx, TypeContext::Variable) {
            Some(t) => Some(t),
            None => {
                proof {
                    ctx.lemma_follows_trans(&c2, old(ctx));
                }
                return None;
            },
        }
    } else {
        None
    };
    proof {
        ctx.lemma_follows_trans(&c2, old(ctx));
    }
    let ghost c3 = *ctx;
    if ctx.eat(&[TokenKind::Operator(Operator::Assign)]).is_none() {
        ctx.skip_until(true, Separator::SemiColon);
        proof {
            ctx.lemma_follows_trans(&c3, old(ctx));
        }
        return None;
    }
    proof {
        ctx.lemma_follows_trans(&c3, old(ctx));
    }
    let ghost c4 = *ctx;
    let initializer = match parse_expression(ctx, Precedence::Lowest) {
        Some(e) => e,
        None => {
            ctx.skip_until(true, Separator::SemiColon);
            proof {
                ctx.lemma_follows_trans(&c4, old(ctx));
            }
            return None;
        },
    };
    proof {
        ctx.lemma_follows_trans(&c4, old(ctx));
    }
    let ghost c5 = *ctx;
    let semi = ctx.eat(&[TokenKind::Separator(Separator::SemiColon)]);
    proof {
        ctx.lemma_follows_trans(&c5, old(ctx));
        ctx.lemma_spans();
    }
    if semi.is_none() {
        return None;
    }
    let end = ctx.previous().span;
    Some(
        Stmt::new_variable_decl(
            mutability.span().cover(end),
            *mutability.get(),
            name,
            type_hint,
            initializer,
        ),
    )
}

/// `data` is the type that the name spelt at `span` of `text` stands for: a scalar
/// type by its name, any other name as a named type.
pub open spec fn names_type(data: TypeData, text: Seq<char>, span: Span) -> bool {
    let name = byte_slice(text, span.start as int, span.end as int);
    match scalar_type_named(name) {
        Some(d) => data == d,
        None => (data matches TypeData::Named(n) && n.span == span && n.value@ == name),
    }
}

/// Parses a type hint: an optional `mut` or `const`, then `*` and a pointee type, or
/// a name (the scalar types by their names, any other name as a named type).
pub fn parse_type_hint(ctx: &mut ParseContext, context: TypeContext) -> (r: Option<TypeRef>)
    requires
        old(ctx).wf(),
    ensures
        final(ctx).follows(old(ctx)),
        r is None ==> final(ctx).diags().len() > old(ctx).diags().len(),
        r is Some ==> final(ctx).cursor() > old(ctx).cursor(),
        old(ctx).spec_current().kind == TokenKind::Identifier ==> ({
            &&& r matches Some(t)
            &&& t.mutability == Mutability::Immutable
            &&& names_type(t.data, old(ctx).text(), old(ctx).spec_current().span)
            &&& final(ctx).cursor() == old(ctx).cursor() + 1
            &&& final(ctx).diags() == old(ctx).diags()
        }),
        old(ctx).spec_current().kind == TokenKind::Operator(Operator::Star) ==> ({
            &&& r matches Some(t) ==> t.mutability == Mutability::Immutable && t.data is Pointer
            &&& r is Some ==> final(ctx).cursor() > old(ctx).cursor() + 1
            &&& old(ctx).tokens()[old(ctx).cursor() + 1int].kind == TokenKind::Identifier ==> (
            r matches Some(t) && t.data matches TypeData::Pointer(inner) && inner.mutability
                == Mutability::Immutable && names_type(
                inner.data,
                old(ctx).text(),
                old(ctx).tokens()[old(ctx).cursor() + 1int].span,
            ))
        }),
    decreases old(ctx).remaining(),
{
    let mutability = if ctx.try_eat(TokenKind::Keyword(Keyword::Mut)) {
        Mutability::Mutable
    } else {
        let _ = ctx.try_eat(TokenKind::Keyword(Keyword::Const));
        Mutability::Immutable
    };
    let ghost c1 = *ctx;
    let data = match ctx.current_kind() {
        TokenKind::Keyword(Keyword::Fn) => {
            let span = ctx.current().span;
            ctx.emit(unsupported(span, "function types are not supported"));
            proof {
                ctx.lemma_follows_trans(&c1, old(ctx));
            }
            return None;
        },
        TokenKind::Operator(Operator::Star) => {
            ctx.next();
            let ghost c2 = *ctx;
            assert(c2.cursor() == c1.cursor() + 1);
            assert(old(ctx).spec_current().kind == TokenKind::Operator(Operator::Star) ==> c1
                == *old(ctx) && c2.spec_current() == old(ctx).tokens()[old(ctx).cursor() + 1int]);
            assert(c2.tokens() == old(ctx).tokens());
            assert(c2.cursor() > old(ctx).cursor());
            assert(c2.remaining() < old(ctx).remaining());
            let inner = match parse_type_hint(ctx, TypeContext::Parameter) {
                Some(t) => t,
                None => {
                    proof {
                        ctx.lemma_follows_trans(&c2, &c1);
                        ctx.lemma_follows_trans(&c1, old(ctx));
                    }
                    return None;
                },
            };
            proof {
                ctx.lemma_follows_trans(&c2, &c1);
            }
            TypeData::Pointer(inner)
        },
        TokenKind::Identifier => {
            let span = ctx.current().span;
            let name = ctx.slice(span);
            ctx.next();
            match scalar_type_from_name(&name) {
                Some(d) => d,
                None => TypeData::Named(Name { span, value: name }),
            }
        },
        _ => {
            let span = ctx.current().span;
            ctx.emit(crate::diagnostics::error_at("missing type", span, string_of("expected a type here")));
            proof {
                ctx.lemma_follows_trans(&c1, old(ctx));
            }
            return None;
        },
    };
    proof {
        ctx.lemma_follows_trans(&c1, old(ctx));
    }
    let span = ctx.current().span;
    Some(Type::new(span, data, mutability))
}

/// `e` is the name spelt by token `t` of `text`.
pub open spec fn name_expr_at(e: Expr, t: Token, text: Seq<char>) -> bool {
    &&& e.span == t.span
    &&& e.data matches ExprData::Identifier(n)
    &&& n@ == byte_slice(text, t.span.start as int, t.span.end as int)
}

/// The operation that a `+` or `-` token stands for.
pub open spec fn term_operator(k: TokenKind) -> Option<BinaryOperator> {
    match k {
        TokenKind::Operator(Operator::Add) => Some(BinaryOperator::Add),
        TokenKind::Operator(Operator::Minus) => Some(BinaryOperator::Sub),
        _ => None,
    }
}

/// An infix operator keeps its symbol: the character that lexes as an operator joining
/// two terms is the symbol that operation is written with in C.
pub proof fn law_operator_symbol_kept(c: char)
    requires
        crate::lexer::punct1(c) matches Some(k) && term_operator(k) is Some,
    ensures
        crate::ast::binary_operator_symbol(term_operator(crate::lexer::punct1(c)->0)->0) == seq![c],
{
    reveal_strlit("+");
    reveal_strlit("-");
}

/// From position `c` on, `toks` spell `n` names joined by `+` or `-`, followed by a
/// token that is no infix operator.
pub open spec fn chain_at(toks: Seq<Token>, c: int, n: nat) -> bool {
    &&& n >= 1 && 0 <= c && c + 2 * n - 1 < toks.len()
    &&& forall|i: int|
        c <= i < c + 2 * n - 1 ==> if (i - c) % 2 == 0 {
            (#[trigger] toks[i]).kind == TokenKind::Identifier
        } else {
            term_operator(toks[i].kind) is Some
        }
    &&& !(rule_of(toks[c + 2 * n - 1].kind) matches Some(rule) && rule.3 is Some)
}

/// `e` is the tree of the first `k` names of the chain at `c`, grouped from the left:
/// `a - b - c` is `(a - b) - c`.
pub open spec fn left_tree(e: Expr, toks: Seq<Token>, text: Seq<char>, c: int, k: nat) -> bool
    decreases k,
{
    if k <= 1 {
        name_expr_at(e, toks[c], text)
    } else {
        &&& e.data matches ExprData::BinaryOperation(b)
        &&& term_operator(toks[c + 2 * k - 3].kind) == Some(b.operator)
        &&& left_tree(*b.left, toks, text, c, (k - 1) as nat)
        &&& name_expr_at(*b.right, toks[c + 2 * k - 2], text)
    }
}

/// Parses an expression by precedence climbing: a prefix expression, then infix
/// operators as long as they bind tighter than `precedence` (or as tight, for
/// right-associative ones).  An expression that parses consumes at least one token.
pub fn parse_expression(ctx: &mut ParseContext, precedence: Precedence) -> (r: Option<ExprRef>)
    requires
        old(ctx).wf(),
    ensures
        final(ctx).follows(old(ctx)),
        r is None ==> final(ctx).diags().len() > old(ctx).diags().len(),
        r is Some ==> final(ctx).cursor() > old(ctx).cursor(),
        r matches Some(e) ==> e.span.source_id == old(ctx).spec_source_id(),
        !(rule_of(old(ctx).spec_current().kind) matches Some(rule) && rule.2 is Some) ==> {
            &&& r is None
            &&& final(ctx).cursor() == old(ctx).cursor()
            &&& final(ctx).diags().len() == old(ctx).diags().len() + 1
        },
        old(ctx).spec_current().kind == TokenKind::Identifier && precedence.spec_rank()
            >= Precedence::Factor.spec_rank() ==> {
            &&& r matches Some(e) && name_expr_at(*e, old(ctx).spec_current(), old(ctx).text())
            &&& final(ctx).cursor() == old(ctx).cursor() + 1
            &&& final(ctx).diags() == old(ctx).diags()
        },
        forall|n: nat|
            #[trigger] chain_at(old(ctx).tokens(), old(ctx).cursor() as int, n) && precedence.spec_rank()
                < Precedence::Term.spec_rank() ==> {
                &&& r matches Some(e) && left_tree(
                    *e,
                    old(ctx).tokens(),
                    old(ctx).text(),
                    old(ctx).cursor() as int,
                    n,
                )
                &&& final(ctx).cursor() == old(ctx).cursor() + 2 * n - 1
                &&& final(ctx).diags() == old(ctx).diags()
            },
    decreases old(ctx).remaining(), 0int,
{
    proof {
        old(ctx).lemma_spans();
    }
    let ghost c0 = old(ctx).cursor() as int;
    let ghost toks = old(ctx).tokens();
    let ghost chain = exists|n: nat| #[trigger] chain_at(toks, c0, n) && precedence.spec_rank()
        < Precedence::Term.spec_rank();
    let ghost n: nat = choose|n: nat| #[trigger] chain_at(toks, c0, n) && precedence.spec_rank()
        < Precedence::Term.spec_rank();
    let ghost single = old(ctx).spec_current().kind == TokenKind::Identifier && precedence.spec_rank()
        >= Precedence::Factor.spec_rank();
    let ghost mut k: nat = 1;
    proof {
        if chain {
            assert(toks[c0] == old(ctx).spec_current());
        }
    }
    let mut left = match get_rule(ctx.current_kind()) {
        Some((_, _, Some(_prefix), _)) => {
            match parse_primary_expr(ctx) {
                Some(e) => e,
                None => {
                    return None;
                },
            }
        },
        _ => {
            let span = ctx.current().span;
            let mut label = string_of("expected expression, got ");
            push_kind_text(&mut label, ctx.current_kind());
            ctx.emit(crate::diagnostics::error_at("unexpected token", span, label));
            return None;
        },
    };
    let ghost c1 = *ctx;
    proof {
        ctx.lemma_follows_refl();
    }
    loop
        invariant
            ctx.follows(&c1),
            c1.follows(old(ctx)),
            c1.cursor() > old(ctx).cursor(),
            left.span.source_id == old(ctx).spec_source_id(),
            (rule_of(old(ctx).spec_current().kind) matches Some(rule) && rule.2 is Some),
            c0 == old(ctx).cursor(),
            toks == old(ctx).tokens(),
            single ==> *ctx == c1 && c1.cursor() == c0 + 1 && c1.diags() == old(ctx).diags()
                && name_expr_at(*left, old(ctx).spec_current(), old(ctx).text()),
            single == (old(ctx).spec_current().kind == TokenKind::Identifier && precedence.spec_rank()
                >= Precedence::Factor.spec_rank()),
            chain == exists|m: nat| #[trigger] chain_at(toks, c0, m) && precedence.spec_rank()
                < Precedence::Term.spec_rank(),
            chain ==> {
                &&& chain_at(toks, c0, n)
                &&& precedence.spec_rank() < Precedence::Term.spec_rank()
                &&& 1 <= k <= n
                &&& ctx.cursor() == c0 + 2 * k - 1
                &&& ctx.diags() == old(ctx).diags()
                &&& left_tree(*left, toks, old(ctx).text(), c0, k)
            },
        ensures
            chain ==> k == n,
        decreases ctx.remaining(),
    {
        proof {
            if chain {
                let j = c0 + 2 * k - 1;
                assert(ctx.spec_current() == toks[j]);
                if k < n {
                    assert((j - c0) % 2 == 1);
                    assert(term_operator(toks[j].kind) is Some);
                }
            }
        }
        match get_rule(ctx.current_kind()) {
            Some((next_precedence, assoc, _, Some(infix))) => {
                let should_break = if assoc == Associativity::Right {
                    precedence.rank() > next_precedence.rank()
                } else {
                    precedence.rank() >= next_precedence.rank()
                };
                if should_break {
                    break;
                }
                let ghost before = *ctx;
                proof {
                    if chain {
                        assert(k < n);
                        assert(infix == InfixRule::Term);
                        let i = c0 + 2 * k;
                        assert((i - c0) % 2 == 0);
                        assert(toks[i].kind == TokenKind::Identifier);
                    }
                }
                ctx.next();
                let ghost consumed = *ctx;
                let next = match infix {
                    InfixRule::Term => parse_term_expr(ctx, left),
                    InfixRule::Pipe => parse_pipe_expr(ctx, left),
                };
                proof {
                    ctx.lemma_follows_trans(&consumed, &before);
                    ctx.lemma_follows_trans(&before, &c1);
                    ctx.lemma_follows_trans(&c1, old(ctx));
                }
                proof {
                    if chain {
                        assert(consumed.cursor() == c0 + 2 * k);
                        assert(((c0 + 2 * k) - c0) % 2 == 0);
                        assert(consumed.spec_current() == toks[c0 + 2 * k]);
                        assert(consumed.spec_previous() == toks[c0 + 2 * k - 1]);
                        assert(next is Some);
                    }
                }
                match next {
                    Some(e) => {
                        proof {
                            if chain {
                                assert(left_tree(*e, toks, old(ctx).text(), c0, k + 1));
                                k = k + 1;
                            }
                        }
                        left = e;
                    },
                    None => {
                        return None;
                    },
                }
            },
            _ => {
                break;
            },
        }
    }
    proof {
        ctx.lemma_follows_trans(&c1, old(ctx));
    }
    Some(left)
}

/// Parses a primary expression from the current token: an identifier, or an integer
/// literal (which must fit in an `i64`).  String literals are not supported.
pub fn parse_primary_expr(ctx: &mut ParseContext) -> (r: Option<ExprRef>)
    requires
        old(ctx).wf(),
        rule_of(old(ctx).spec_current().kind) matches Some(rule) && rule.2 is Some,
    ensures
        final(ctx).follows(old(ctx)),
        r is None ==> final(ctx).diags().len() > old(ctx).diags().len(),
        final(ctx).cursor() == old(ctx).cursor() + 1,
        r matches Some(e) ==> e.span == old(ctx).spec_current().span,
        ({
            let span = old(ctx).spec_current().span;
            let text = byte_slice(old(ctx).text(), span.start as int, span.end as int);
            match old(ctx).spec_current().kind {
                TokenKind::Identifier => (r matches Some(e) && (e.data matches ExprData::Identifier(n)
                    && n@ == text) && final(ctx).diags() == old(ctx).diags()),
                TokenKind::Literal(Literal::Integer) => match integer_literal_value(text) {
                    Some(v) => (r matches Some(e) && e.data == ExprData::Integer(v)),
                    None => r is None,
                },
                _ => r is None,
            }
        }),
{
    proof {
        old(ctx).lemma_spans();
    }
    let token = ctx.next();
    let ghost c1 = *ctx;
    match token.kind {
        TokenKind::Identifier => {
            let name = ctx.slice(token.span);
            Some(Expr::new(token.span, ExprData::Identifier(name)))
        },
        TokenKind::Literal(Literal::Integer) => {
            let text = ctx.slice(token.span);
            match parse_integer_literal(&text) {
                Some(value) => Some(Expr::new(token.span, ExprData::Integer(value))),
                None => {
                    ctx.emit(
                        crate::diagnostics::error_at(
                            "invalid integer literal",
                            token.span,
                            string_of("integer literal does not fit in 64 bits"),
                        ),
                    );
                    proof {
                        ctx.lemma_follows_trans(&c1, old(ctx));
                    }
                    None
                },
            }
        },
        _ => {
            ctx.emit(unsupported(token.span, "string literals are not supported here"));
            proof {
                ctx.lemma_follows_trans(&c1, old(ctx));
            }
            None
        },
    }
}

/// Parses the right operand of the `+` or `-` just consumed, binding tighter than a
/// term, and builds the operation from `lhs`.
fn parse_term_expr(ctx: &mut ParseContext, lhs: ExprRef) -> (r: Option<ExprRef>)
    requires
        old(ctx).wf(),
        old(ctx).spec_previous().kind == TokenKind::Operator(Operator::Add)
            || old(ctx).spec_previous().kind == TokenKind::Operator(Operator::Minus),
    ensures
        final(ctx).follows(old(ctx)),
        r is None ==> final(ctx).diags().len() > old(ctx).diags().len(),
        r matches Some(e) ==> e.span.source_id == old(ctx).spec_source_id(),
        r matches Some(e) ==> (e.data matches ExprData::BinaryOperation(b) && b.left == lhs
            && b.operator == if old(ctx).spec_previous().kind == TokenKind::Operator(Operator::Add) {
            BinaryOperator::Add
        } else {
            BinaryOperator::Sub
        }),
        old(ctx).spec_current().kind == TokenKind::Identifier ==> {
            &&& r matches Some(e) && (e.data matches ExprData::BinaryOperation(b) && name_expr_at(
                *b.right,
                old(ctx).spec_current(),
                old(ctx).text(),
            ))
            &&& final(ctx).cursor() == old(ctx).cursor() + 1
            &&& final(ctx).diags() == old(ctx).diags()
        },
    decreases old(ctx).remaining(), 1int,
{
    let op_tok = ctx.previous();
    let op = if op_tok.kind == TokenKind::Operator(Operator::Add) {
        BinaryOperator::Add
    } else {
        BinaryOperator::Sub
    };
    let rhs = match parse_expression(ctx, Precedence::Factor) {
        Some(e) => e,
        None => {
            return None;
        },
    };
    let span = op_tok.span.cover(rhs.span);
    Some(Expr::new_binary(span, lhs, rhs, op))
}

/// The pipe operator `|>` is not supported: it is reported.
fn parse_pipe_expr(ctx: &mut ParseContext, _lhs: ExprRef) -> (r: Option<ExprRef>)
    requires
        old(ctx).wf(),
    ensures
        final(ctx).follows(old(ctx)),
        r is None ==> final(ctx).diags().len() > old(ctx).diags().len(),
        r is None,
{
    let span = ctx.previous().span;
    ctx.emit(unsupported(span, "the `|>` operator is not supported"));
    None
}

/// Parses a block and gives it the span from its first token to the token after it.
pub fn parse_block_expr(ctx: &mut ParseContext) -> (r: Option<ExprRef>)
    requires
        old(ctx).wf(),
    ensures
        final(ctx).follows(old(ctx)),
        r is None ==> final(ctx).diags().len() > old(ctx).diags().len(),
        r matches Some(e) ==> e.data is Block && final(ctx).spec_previous().kind
            == TokenKind::Separator(Separator::CloseBrace),
        old(ctx).spec_current().kind == TokenKind::Separator(Separator::CloseBrace) ==> (r matches Some(e)
            && e.data matches ExprData::Block(b) && b.stmts@.len() == 0 && final(ctx).cursor()
            == old(ctx).cursor() + 1 && final(ctx).diags() == old(ctx).diags()),
{
    proof {
        old(ctx).lemma_spans();
    }
    let begin = ctx.current().span;
    let block = match parse_block_(ctx) {
        Some(b) => b,
        None => {
            return None;
        },
    };
    let end = ctx.current().span;
    Some(Expr::new(begin.cover(end), ExprData::Block(block)))
}

/// Parses statements up to the closing `}` and consumes it.  An expression statement
/// must end with `;`; when it does not, the missing semicolon is reported and tokens
/// are skipped up to the `}` and then past the next `;`.
pub fn parse_block_(ctx: &mut ParseContext) -> (r: Option<Block>)
    requires
        old(ctx).wf(),
    ensures
        final(ctx).follows(old(ctx)),
        r is None ==> final(ctx).diags().len() > old(ctx).diags().len(),
        r is Some ==> final(ctx).cursor() > old(ctx).cursor() && final(ctx).spec_previous().kind
            == TokenKind::Separator(Separator::CloseBrace),
        old(ctx).spec_current().kind == TokenKind::Separator(Separator::CloseBrace) ==> (r matches Some(b)
            && b.stmts@.len() == 0 && final(ctx).cursor() == old(ctx).cursor() + 1
            && final(ctx).diags() == old(ctx).diags() && final(ctx).spec_previous() == old(
            ctx,
        ).spec_current()),
    decreases old(ctx).remaining(), 2int,
{
    let mut stmts: Vec<StmtRef> = Vec::new();
    proof {
        ctx.lemma_follows_refl();
    }
    while !ctx.is_sp(Separator::CloseBrace)
        invariant
            ctx.follows(old(ctx)),
            old(ctx).spec_current().kind == TokenKind::Separator(Separator::CloseBrace) ==> *ctx
                == *old(ctx) && stmts@.len() == 0,
        decreases ctx.remaining(),
    {
        let ghost before = *ctx;
        let stmt = match parse_statement(ctx) {
            Some(s) => s,
            None => {
                proof {
                    ctx.lemma_follows_trans(&before, old(ctx));
                }
                return None;
            },
        };
        let ghost parsed = *ctx;
        proof {
            ctx.lemma_follows_trans(&before, old(ctx));
        }
        if stmt.is_expr() && !ctx.is_sp(Separator::SemiColon) {
            ctx.skip_until(false, Separator::CloseBrace);
            let ghost k1 = *ctx;
            let span = ctx.current().span;
            let text = ctx.slice(stmt.span);
            let mut label = string_of("consider using `return ");
            label.append(text.as_str());
            label.append(";` to return the value");
            let diag = crate::diagnostics::error_at(
                "missing semicolon",
                span,
                string_of("expected semicolon here"),
            ).with_label(label, stmt.span);
            ctx.emit(diag);
            let ghost k2 = *ctx;
            ctx.skip_until(true, Separator::SemiColon);
            proof {
                ctx.lemma_follows_trans(&k2, &k1);
                ctx.lemma_follows_trans(&k1, &parsed);
            }
        } else if stmt.is_expr() {
            let semi = ctx.eat(&[TokenKind::Separator(Separator::SemiColon)]);
            if semi.is_none() {
                proof {
                    ctx.lemma_follows_trans(&parsed, old(ctx));
                }
                return None;
            }
        } else {
            proof {
                ctx.lemma_follows_refl();
            }
        }
        proof {
            ctx.lemma_follows_trans(&parsed, old(ctx));
            assert(ctx.cursor() > before.cursor());
        }
        stmts.push(stmt);
    }
    let ghost before = *ctx;
    let close = ctx.eat(&[TokenKind::Separator(Separator::CloseBrace)]);
    proof {
        ctx.lemma_follows_trans(&before, old(ctx));
        assert(seq![TokenKind::Separator(Separator::CloseBrace)].contains(before.spec_current().kind)
            ==> before.spec_current().kind == TokenKind::Separator(Separator::CloseBrace));
        assert(seq![TokenKind::Separator(Separator::CloseBrace)][0] == TokenKind::Separator(
            Separator::CloseBrace,
        ));
    }
    if close.is_none() {
        return None;
    }
    Some(Block { stmts })
}


proof fn lemma_digit_char_value(d: nat)
    requires
        d < 10,
    ensures
        '0' <= digit_char(d) <= '9',
        digit_char(d) as int - '0' as int == d,
{
}

proof fn lemma_decimal_digits(n: nat)
    ensures
        decimal(n).len() > 0,
        all_digits(decimal(n)),
        decimal_value(decimal(n)) == n,
    decreases n,
{
    if n < 10 {
        lemma_digit_char_value(n);
        let d = decimal(n);
        assert(d.drop_last() =~= Seq::<char>::empty());
        assert(decimal_value(d.drop_last()) == 0);
        assert(decimal_value(d) == decimal_value(d.drop_last()) * 10 + (d.last() as int - '0' as int));
        assert(decimal_value(d) == n);
    } else {
        lemma_decimal_digits(n / 10);
        lemma_digit_char_value(n % 10);
        let d = decimal(n);
        assert(d == decimal(n / 10).push(digit_char(n % 10)));
        assert(d.drop_last() =~= decimal(n / 10));
        assert(d.last() == digit_char(n % 10));
        assert(decimal_value(d) == decimal_value(d.drop_last()) * 10 + (d.last() as int - '0' as int));
        assert(n / 10 * 10 + n % 10 == n) by (nonlinear_arith);
        assert(decimal_value(d) == n);
        assert(all_digits(d)) by {
            assert forall|i: int| 0 <= i < d.len() implies '0' <= #[trigger] d[i] <= '9' by {
                if i < d.len() - 1 {
                    assert(d[i] == decimal(n / 10)[i]);
                }
            }
        }
    }
}

/// Reading back the decimal rendering of a number gives the number: an integer
/// literal written as [`crate::text::push_decimal`] writes it has that value.
pub proof fn law_decimal_round_trip(n: nat)
    requires
        n <= i64::MAX,
    ensures
        integer_literal_value(decimal(n)) == Some(n as i64),
{
    lemma_decimal_digits(n);
}
} // verus!
