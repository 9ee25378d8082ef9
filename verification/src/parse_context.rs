//! The parser's view of the token stream: the current and previous tokens, the source
//! text they come from, and the diagnostics reported so far.

use vstd::prelude::*;

use crate::ast::{Mutability, Visibility};
use crate::diagnostics::{Diagnostic, Severity};
use crate::span::{SourceId, Span, Spanned};
use crate::text::{char_len_utf8, lemma_utf8_len_mono, lemma_utf8_len_step, push_char, string_of, utf8_len};
use crate::token::{Keyword, Literal, Operator, Separator, Token, TokenKind};
use crate::token_stream::TokenStream;

verus! {

pub open spec fn keyword_name(k: Keyword) -> Seq<char> {
    match k {
        Keyword::Fn => "Fn"@,
        Keyword::Pub => "Pub"@,
        Keyword::Shared => "Shared"@,
        Keyword::Module => "Module"@,
        Keyword::Use => "Use"@,
        Keyword::Extern => "Extern"@,
        Keyword::Type => "Type"@,
        Keyword::Return => "Return"@,
        Keyword::If => "If"@,
        Keyword::Else => "Else"@,
        Keyword::For => "For"@,
        Keyword::Break => "Break"@,
        Keyword::Continue => "Continue"@,
        Keyword::Delete => "Delete"@,
        Keyword::Move => "Move"@,
        Keyword::Let => "Let"@,
        Keyword::Mut => "Mut"@,
        Keyword::Const => "Const"@,
        Keyword::Cast => "Cast"@,
    }
}

pub open spec fn operator_name(o: Operator) -> Seq<char> {
    match o {
        Operator::Add => "Add"@,
        Operator::Minus => "Minus"@,
        Operator::Star => "Star"@,
        Operator::Slash => "Slash"@,
        Operator::AddAssign => "AddAssign"@,
        Operator::SubAssign => "SubAssign"@,
        Operator::MulAssign => "MulAssign"@,
        Operator::DivAssign => "DivAssign"@,
        Operator::Equal => "Equal"@,
        Operator::NotEqual => "NotEqual"@,
        Operator::Assign => "Assign"@,
        Operator::Not => "Not"@,
        Operator::Bar => "Bar"@,
        Operator::LessThan => "LessThan"@,
        Operator::GreaterThan => "GreaterThan"@,
        Operator::LessThanEqual => "LessThanEqual"@,
        Operator::GreaterThanEqual => "GreaterThanEqual"@,
        Operator::ShiftLeft => "ShiftLeft"@,
        Operator::ShiftRight => "ShiftRight"@,
        Operator::ShiftLeftAssign => "ShiftLeftAssign"@,
        Operator::ShiftRightAssign => "ShiftRightAssign"@,
        Operator::Pipe => "Pipe"@,
    }
}

pub open spec fn separator_name(s: Separator) -> Seq<char> {
    match s {
        Separator::SemiColon => "SemiColon"@,
        Separator::Colon => "Colon"@,
        Separator::Comma => "Comma"@,
        Separator::Dot => "Dot"@,
        Separator::Arrow => "Arrow"@,
        Separator::OpenBrace => "OpenBrace"@,
        Separator::OpenBracket => "OpenBracket"@,
        Separator::OpenParen => "OpenParen"@,
        Separator::CloseBrace => "CloseBrace"@,
        Separator::CloseBracket => "CloseBracket"@,
        Separator::CloseParen => "CloseParen"@,
    }
}

pub open spec fn literal_name(l: Literal) -> Seq<char> {
    match l {
        Literal::String => "String"@,
        Literal::Integer => "Integer"@,
        Literal::Float => "Float"@,
        Literal::True => "True"@,
        Literal::False => "False"@,
    }
}

/// How a token kind is written in diagnostics: its variant, with the inner variant in
/// brackets (`Keyword(Fn)`, `Separator(OpenParen)`, `Identifier`).
pub open spec fn kind_text(k: TokenKind) -> Seq<char> {
    match k {
        TokenKind::Keyword(x) => "Keyword("@ + keyword_name(x) + ")"@,
        TokenKind::Operator(x) => "Operator("@ + operator_name(x) + ")"@,
        TokenKind::Separator(x) => "Separator("@ + separator_name(x) + ")"@,
        TokenKind::Literal(x) => "Literal("@ + literal_name(x) + ")"@,
        TokenKind::Identifier => "Identifier"@,
        TokenKind::EndOfFile => "EndOfFile"@,
        TokenKind::Error => "Error"@,
    }
}

/// The texts of `kinds`, separated by `", "`.
pub open spec fn kinds_text(kinds: Seq<TokenKind>) -> Seq<char>
    decreases kinds.len(),
{
    if kinds.len() == 0 {
        Seq::empty()
    } else if kinds.len() == 1 {
        kind_text(kinds[0])
    } else {
        kinds_text(kinds.drop_last()) + ", "@ + kind_text(kinds.last())
    }
}

fn keyword_str(k: Keyword) -> (r: &'static str)
    ensures
        r@ == keyword_name(k),
{
    match k {
        Keyword::Fn => "Fn",
        Keyword::Pub => "Pub",
        Keyword::Shared => "Shared",
        Keyword::Module => "Module",
        Keyword::Use => "Use",
        Keyword::Extern => "Extern",
        Keyword::Type => "Type",
        Keyword::Return => "Return",
        Keyword::If => "If",
        Keyword::Else => "Else",
        Keyword::For => "For",
        Keyword::Break => "Break",
        Keyword::Continue => "Continue",
        Keyword::Delete => "Delete",
        Keyword::Move => "Move",
        Keyword::Let => "Let",
        Keyword::Mut => "Mut",
        Keyword::Const => "Const",
        Keyword::Cast => "Cast",
    }
}

fn operator_str(o: Operator) -> (r: &'static str)
    ensures
        r@ == operator_name(o),
{
    match o {
        Operator::Add => "Add",
        Operator::Minus => "Minus",
        Operator::Star => "Star",
        Operator::Slash => "Slash",
        Operator::AddAssign => "AddAssign",
        Operator::SubAssign => "SubAssign",
        Operator::MulAssign => "MulAssign",
        Operator::DivAssign => "DivAssign",
        Operator::Equal => "Equal",
        Operator::NotEqual => "NotEqual",
        Operator::Assign => "Assign",
        Operator::Not => "Not",
        Operator::Bar => "Bar",
        Operator::LessThan => "LessThan",
        Operator::GreaterThan => "GreaterThan",
        Operator::LessThanEqual => "LessThanEqual",
        Operator::GreaterThanEqual => "GreaterThanEqual",
        Operator::ShiftLeft => "ShiftLeft",
        Operator::ShiftRight => "ShiftRight",
        Operator::ShiftLeftAssign => "ShiftLeftAssign",
        Operator::ShiftRightAssign => "ShiftRightAssign",
        Operator::Pipe => "Pipe",
    }
}

fn separator_str(s: Separator) -> (r: &'static str)
    ensures
        r@ == separator_name(s),
{
    match s {
        Separator::SemiColon => "SemiColon",
        Separator::Colon => "Colon",
        Separator::Comma => "Comma",
        Separator::Dot => "Dot",
        Separator::Arrow => "Arrow",
        Separator::OpenBrace => "OpenBrace",
        Separator::OpenBracket => "OpenBracket",
        Separator::OpenParen => "OpenParen",
        Separator::CloseBrace => "CloseBrace",
        Separator::CloseBracket => "CloseBracket",
        Separator::CloseParen => "CloseParen",
    }
}

fn literal_str(l: Literal) -> (r: &'static str)
    ensures
        r@ == literal_name(l),
{
    match l {
        Literal::String => "String",
        Literal::Integer => "Integer",
        Literal::Float => "Float",
        Literal::True => "True",
        Literal::False => "False",
    }
}

/// Appends `a`, `b` and `)` to `out`.
fn push_wrapped(out: &mut String, a: &str, b: &str)
    ensures
        final(out)@ == old(out)@ + a@ + b@ + ")"@,
{
    out.append(a);
    out.append(b);
    out.append(")");
}

/// Appends the text of `kind` to `out`.
pub fn push_kind_text(out: &mut String, kind: TokenKind)
    ensures
        final(out)@ == old(out)@ + kind_text(kind),
{
    match kind {
        TokenKind::Keyword(x) => push_wrapped(out, "Keyword(", keyword_str(x)),
        TokenKind::Operator(x) => push_wrapped(out, "Operator(", operator_str(x)),
        TokenKind::Separator(x) => push_wrapped(out, "Separator(", separator_str(x)),
        TokenKind::Literal(x) => push_wrapped(out, "Literal(", literal_str(x)),
        TokenKind::Identifier => out.append("Identifier"),
        TokenKind::EndOfFile => out.append("EndOfFile"),
        TokenKind::Error => out.append("Error"),
    }
    assert(final(out)@ =~= old(out)@ + kind_text(kind));
}

/// The characters of `s` among its first `n` whose UTF-8 encoding starts at a byte
/// offset in `start..end`.
pub open spec fn byte_slice_upto(s: Seq<char>, n: int, start: int, end: int) -> Seq<char>
    decreases n,
{
    if n <= 0 {
        Seq::empty()
    } else {
        let prev = byte_slice_upto(s, n - 1, start, end);
        let p = utf8_len(s.take(n - 1)) as int;
        if start <= p < end {
            prev.push(s[n - 1])
        } else {
            prev
        }
    }
}

/// The characters of `s` whose UTF-8 encoding starts at a byte offset in `start..end`:
/// for a range on character boundaries, the text of that byte range.
pub open spec fn byte_slice(s: Seq<char>, start: int, end: int) -> Seq<char> {
    byte_slice_upto(s, s.len() as int, start, end)
}

/// The texts of `kinds`, separated by `", "`.
fn kinds_label(kinds: &[TokenKind]) -> (r: String)
    ensures
        r@ == kinds_text(kinds@),
{
    let mut buffer = String::new();
    let mut index: usize = 0;
    while index < kinds.len()
        invariant
            index <= kinds@.len(),
            buffer@ == kinds_text(kinds@.take(index as int)),
        decreases kinds@.len() - index,
    {
        let ghost prev = kinds@.take(index as int);
        if index != 0 {
            buffer.append(", ");
        }
        push_kind_text(&mut buffer, kinds[index]);
        proof {
            let next = kinds@.take(index + 1);
            assert(next.drop_last() =~= prev);
            assert(next.last() == kinds@[index as int]);
            if index == 0 {
                assert(next.len() == 1);
            }
        }
        assert(buffer@ =~= kinds_text(kinds@.take(index + 1)));
        index = index + 1;
    }
    assert(kinds@.take(kinds@.len() as int) =~= kinds@);
    buffer
}

/// Reads tokens for the parser and collects what it reports.
pub struct ParseContext {
    ts: TokenStream,
    source: Vec<char>,
    source_id: SourceId,
    previous: Token,
    diagnostics: Vec<Diagnostic>,
}

impl ParseContext {
    pub closed spec fn tokens(&self) -> Seq<Token> {
        self.ts.tokens@
    }

    pub closed spec fn cursor(&self) -> nat {
        self.ts.cursor as nat
    }

    pub closed spec fn text(&self) -> Seq<char> {
        self.source@
    }

    pub closed spec fn spec_source_id(&self) -> SourceId {
        self.source_id
    }

    /// The token under the cursor.
    pub open spec fn spec_current(&self) -> Token {
        self.tokens()[self.cursor() as int]
    }

    pub closed spec fn spec_previous(&self) -> Token {
        self.previous
    }

    /// How many tokens are left, the current one included.
    pub open spec fn remaining(&self) -> nat {
        (self.tokens().len() - self.cursor()) as nat
    }

    /// The stream is well formed, every token (and the previous one) lies in one
    /// source file, and the source's encoding fits in memory.
    pub closed spec fn wf(&self) -> bool {
        &&& self.ts.wf()
        &&& self.ts.from_source(self.source_id)
        &&& self.previous.span.source_id == self.source_id
        &&& utf8_len(self.source@) <= usize::MAX
    }

    /// What every parsing step keeps: the tokens and source, a cursor that only moves
    /// forward, and earlier diagnostics, to which only errors are added.
    pub open spec fn follows(&self, prev: &Self) -> bool {
        &&& self.wf()
        &&& self.cursor() < self.tokens().len()
        &&& self.tokens() == prev.tokens()
        &&& self.text() == prev.text()
        &&& self.spec_source_id() == prev.spec_source_id()
        &&& prev.cursor() <= self.cursor()
        &&& prev.diags().len() <= self.diags().len()
        &&& self.diags().subrange(0, prev.diags().len() as int) == prev.diags()
        &&& forall|i: int|
            prev.diags().len() <= i < self.diags().len() ==> (
            #[trigger] self.diags()[i])@.severity == Severity::Error
    }

    /// The current and the previous token lie in the context's source file.
    pub proof fn lemma_spans(&self)
        requires
            self.wf(),
        ensures
            self.spec_current().span.source_id == self.spec_source_id(),
            self.spec_previous().span.source_id == self.spec_source_id(),
    {
    }

    /// The diagnostics reported so far.
    pub closed spec fn diags(&self) -> Seq<Diagnostic> {
        self.diagnostics@
    }

    /// The number of diagnostics reported so far.
    pub fn diagnostic_count(&self) -> (r: usize)
        ensures
            r == self.diags().len(),
    {
        self.diagnostics.len()
    }

    pub proof fn lemma_follows_refl(&self)
        requires
            self.wf(),
        ensures
            self.follows(self),
    {
        assert(self.cursor() < self.tokens().len());
        assert(self.diagnostics@.subrange(0, self.diagnostics@.len() as int) =~= self.diagnostics@);
    }

    pub proof fn lemma_follows_trans(&self, mid: &Self, first: &Self)
        requires
            self.follows(mid),
            mid.follows(first),
        ensures
            self.follows(first),
    {
        assert(self.diagnostics@.subrange(0, first.diagnostics@.len() as int)
            =~= self.diagnostics@.subrange(0, mid.diagnostics@.len() as int).subrange(
            0,
            first.diagnostics@.len() as int,
        ));
        assert forall|i: int|
            first.diagnostics@.len() <= i < self.diagnostics@.len() implies (
            #[trigger] self.diagnostics@[i])@.severity == Severity::Error by {
            if i < mid.diagnostics@.len() {
                assert(self.diagnostics@[i] == self.diagnostics@.subrange(
                    0,
                    mid.diagnostics@.len() as int,
                )[i]);
            }
        }
    }

    /// A context at the start of `ts` over the text `source`.  The previous token is
    /// the current one until a token is consumed.
    pub fn new(ts: TokenStream, source: Vec<char>) -> (r: Self)
        requires
            ts.wf(),
            ts.from_source(ts.tokens@[0].span.source_id),
            utf8_len(source@) <= usize::MAX,
        ensures
            r.wf(),
            r.spec_source_id() == ts.tokens@[0].span.source_id,
            r.tokens() == ts.tokens@,
            r.cursor() == ts.cursor,
            r.text() == source@,
            r.diags().len() == 0,
    {
        let source_id = ts.tokens[0].span.source_id;
        let previous = ts.peek();
        ParseContext { ts, source, source_id, previous, diagnostics: Vec::new() }
    }

    /// The position of the cursor.
    pub fn position(&self) -> (r: usize)
        ensures
            r == self.cursor(),
    {
        self.ts.cursor
    }

    /// Gives back the token stream and the source text.
    pub fn into_parts(self) -> (r: (TokenStream, Vec<char>, Vec<Diagnostic>))
        requires
            self.wf(),
        ensures
            r.0.wf(),
            r.0.from_source(self.spec_source_id()),
            utf8_len(r.1@) <= usize::MAX,
            r.0.tokens@ == self.tokens(),
            r.0.cursor == self.cursor(),
            r.1@ == self.text(),
            r.2@ == self.diags(),
    {
        (self.ts, self.source, self.diagnostics)
    }

    pub fn emit(&mut self, diag: Diagnostic)
        requires
            old(self).wf(),
            diag@.severity == Severity::Error,
        ensures
            final(self).follows(old(self)),
            final(self).cursor() == old(self).cursor(),
            final(self).spec_previous() == old(self).spec_previous(),
            final(self).diags() == old(self).diags().push(diag),
    {
        self.diagnostics.push(diag);
        assert(self.diagnostics@.subrange(0, old(self).diags().len() as int)
            =~= old(self).diags());
    }

    /// The source text of the byte range `span`.
    pub fn slice(&self, span: Span) -> (r: String)
        requires
            self.wf(),
        ensures
            r@ == byte_slice(self.text(), span.start as int, span.end as int),
    {
        let ghost s = self.source@;
        let mut out = String::new();
        let mut pos: usize = 0;
        let mut i: usize = 0;
        proof {
            assert(s.take(s.len() as int) =~= s);
            assert(s.take(0) =~= Seq::<char>::empty());
            assert(out@ =~= Seq::<char>::empty());
        }
        while i < self.source.len()
            invariant
                s == self.source@,
                i <= s.len(),
                utf8_len(s) <= usize::MAX,
                s.take(s.len() as int) == s,
                pos == utf8_len(s.take(i as int)),
                out@ == byte_slice_upto(s, i as int, span.start as int, span.end as int),
            decreases s.len() - i,
        {
            let c = self.source[i];
            if span.start <= pos && pos < span.end {
                push_char(&mut out, c);
            }
            proof {
                lemma_utf8_len_step(s, i as int);
                lemma_utf8_len_mono(s, i + 1, s.len() as int);
            }
            pos = pos + char_len_utf8(c);
            i = i + 1;
        }
        out
    }

    pub fn current(&self) -> (r: Token)
        requires
            self.wf(),
        ensures
            r == self.spec_current(),
            r.span.source_id == self.spec_source_id(),
    {
        self.ts.peek()
    }

    pub fn current_kind(&self) -> (r: TokenKind)
        requires
            self.wf(),
        ensures
            r == self.spec_current().kind,
    {
        self.current().kind
    }

    pub fn previous(&self) -> (r: Token)
        requires
            self.wf(),
        ensures
            r == self.spec_previous(),
            r.span.source_id == self.spec_source_id(),
    {
        self.previous
    }

    pub fn previous_kind(&self) -> (r: TokenKind)
        requires
            self.wf(),
        ensures
            r == self.spec_previous().kind,
    {
        self.previous().kind
    }

    pub fn equals(&self, kind: TokenKind) -> (r: bool)
        requires
            self.wf(),
        ensures
            r == (self.spec_current().kind == kind),
    {
        self.current().kind == kind
    }

    pub fn is_kw(&self, kw: Keyword) -> (r: bool)
        requires
            self.wf(),
        ensures
            r == (self.spec_current().kind == TokenKind::Keyword(kw)),
    {
        self.equals(TokenKind::Keyword(kw))
    }

    pub fn is_op(&self, op: Operator) -> (r: bool)
        requires
            self.wf(),
        ensures
            r == (self.spec_current().kind == TokenKind::Operator(op)),
    {
        self.equals(TokenKind::Operator(op))
    }

    pub fn is_sp(&self, sp: Separator) -> (r: bool)
        requires
            self.wf(),
        ensures
            r == (self.spec_current().kind == TokenKind::Separator(sp)),
    {
        self.equals(TokenKind::Separator(sp))
    }

    pub fn is_lt(&self, lt: Literal) -> (r: bool)
        requires
            self.wf(),
        ensures
            r == (self.spec_current().kind == TokenKind::Literal(lt)),
    {
        self.equals(TokenKind::Literal(lt))
    }

    pub fn is_done(&self) -> (r: bool)
        requires
            self.wf(),
        ensures
            r == (self.spec_current().kind == TokenKind::EndOfFile),
    {
        self.equals(TokenKind::EndOfFile)
    }

    /// Consumes the current token and returns it; it becomes the previous token.  At
    /// the end of file the cursor stays.
    pub fn next(&mut self) -> (r: Token)
        requires
            old(self).wf(),
        ensures
            final(self).follows(old(self)),
            r == old(self).spec_current(),
            final(self).spec_previous() == r,
            final(self).diags() == old(self).diags(),
            final(self).cursor() == if r.kind == TokenKind::EndOfFile {
                old(self).cursor()
            } else {
                old(self).cursor() + 1
            },
    {
        assert(self.ts.tokens@.len() == self.ts.tokens.len());
        let token = self.ts.next();
        self.previous = token;
        proof {
            self.lemma_follows_refl();
            assert(self.diagnostics@.subrange(0, old(self).diags().len() as int)
                =~= old(self).diags());
        }
        token
    }

    /// Consumes the current token when its kind is one of `kinds`; otherwise reports an
    /// unexpected token, listing the kinds that were expected.
    pub fn eat(&mut self, kinds: &[TokenKind]) -> (r: Option<Token>)
        requires
            old(self).wf(),
        ensures
            final(self).follows(old(self)),
            if kinds@.contains(old(self).spec_current().kind) {
                &&& r == Some(old(self).spec_current())
                &&& final(self).spec_previous() == old(self).spec_current()
                &&& final(self).diags() == old(self).diags()
                &&& final(self).cursor() == if old(self).spec_current().kind
                    == TokenKind::EndOfFile {
                    old(self).cursor()
                } else {
                    old(self).cursor() + 1
                }
            } else {
                &&& r is None
                &&& final(self).cursor() == old(self).cursor()
                &&& final(self).diags().len() == old(self).diags().len() + 1
                &&& final(self).diags().last()@ == crate::diagnostics::new_diagnostic_view(
                    Severity::Error,
                    "unexpected token"@,
                    old(self).spec_current().span,
                    kinds_text(kinds@),
                )
            },
    {
        let mut i: usize = 0;
        while i < kinds.len()
            invariant
                i <= kinds@.len(),
                *self == *old(self),
                self.wf(),
                forall|j: int| 0 <= j < i ==> kinds@[j] != self.spec_current().kind,
            decreases kinds@.len() - i,
        {
            if self.current().kind == kinds[i] {
                self.next();
                return Some(self.previous());
            }
            i = i + 1;
        }
        let buffer = kinds_label(kinds);
        let span = self.current().span;
        self.emit(Diagnostic::new(Severity::Error, string_of("unexpected token"), span, buffer));
        None
    }

    /// Consumes the current token when its kind is one of `kinds`.
    pub fn try_eat_many(&mut self, kinds: &[TokenKind]) -> (r: Option<Token>)
        requires
            old(self).wf(),
        ensures
            final(self).follows(old(self)),
            final(self).diags() == old(self).diags(),
            if kinds@.contains(old(self).spec_current().kind) {
                &&& r == Some(old(self).spec_current())
                &&& final(self).spec_previous() == old(self).spec_current()
                &&& final(self).cursor() == if old(self).spec_current().kind
                    == TokenKind::EndOfFile {
                    old(self).cursor()
                } else {
                    old(self).cursor() + 1
                }
            } else {
                r is None && *final(self) == *old(self)
            },
    {
        let mut i: usize = 0;
        while i < kinds.len()
            invariant
                i <= kinds@.len(),
                *self == *old(self),
                self.wf(),
                forall|j: int| 0 <= j < i ==> kinds@[j] != self.spec_current().kind,
            decreases kinds@.len() - i,
        {
            if self.current().kind == kinds[i] {
                let t = self.next();
                return Some(t);
            }
            i = i + 1;
        }
        proof {
            self.lemma_follows_refl();
        }
        None
    }

    /// Consumes the current token when it is of `kind`.
    pub fn try_eat(&mut self, kind: TokenKind) -> (r: bool)
        requires
            old(self).wf(),
        ensures
            final(self).follows(old(self)),
            final(self).diags() == old(self).diags(),
            r == (old(self).spec_current().kind == kind),
            r ==> final(self).spec_previous() == old(self).spec_current() && final(self).cursor()
                == if kind == TokenKind::EndOfFile {
                old(self).cursor()
            } else {
                old(self).cursor() + 1
            },
            !r ==> *final(self) == *old(self),
    {
        if self.current().kind == kind {
            self.next();
            return true;
        }
        proof {
            self.lemma_follows_refl();
        }
        false
    }

    /// Skips tokens up to one whose kind is in `kinds` (consuming it too when `eat`).
    /// False when the end of file came first.
    pub fn skip_to(&mut self, eat: bool, kinds: &[TokenKind]) -> (r: bool)
        requires
            old(self).wf(),
        ensures
            final(self).follows(old(self)),
            final(self).diags() == old(self).diags(),
            !r ==> final(self).spec_current().kind == TokenKind::EndOfFile,
            r && !eat ==> kinds@.contains(final(self).spec_current().kind),
            r && eat ==> kinds@.contains(final(self).spec_previous().kind) && final(self).cursor()
                > old(self).cursor() && final(self).spec_previous() == final(self).tokens()[final(
                self).cursor() - 1],
            forall|j: int|
                old(self).cursor() <= j < final(self).cursor() - (if r && eat {
                    1int
                } else {
                    0int
                }) ==> !kinds@.contains(#[trigger] final(self).tokens()[j].kind),
    {
        proof {
            self.lemma_follows_refl();
        }
        while !self.is_done()
            invariant
                self.follows(old(self)),
                self.diags() == old(self).diags(),
                forall|j: int|
                    old(self).cursor() <= j < self.cursor() ==> !kinds@.contains(
                        #[trigger] self.tokens()[j].kind,
                    ),
            decreases self.remaining(),
        {
            let ghost iter_start = *self;
            let mut i: usize = 0;
            while i < kinds.len()
                invariant
                    i <= kinds@.len(),
                    *self == iter_start,
                    self.spec_current().kind != TokenKind::EndOfFile,
                    self.follows(old(self)),
                    self.diags() == old(self).diags(),
                    forall|j: int| 0 <= j < i ==> kinds@[j] != self.spec_current().kind,
                    forall|j: int|
                        old(self).cursor() <= j < self.cursor() ==> !kinds@.contains(
                            #[trigger] self.tokens()[j].kind,
                        ),
                decreases kinds@.len() - i,
            {
                if self.equals(kinds[i]) {
                    if eat {
                        let ghost before = *self;
                        self.next();
                        proof {
                            self.lemma_follows_trans(&before, old(self));
                        }
                    }
                    return true;
                }
                i = i + 1;
            }
            let ghost before = *self;
            proof {
                assert(!kinds@.contains(self.spec_current().kind));
            }
            self.next();
            proof {
                self.lemma_follows_trans(&before, old(self));
            }
        }
        false
    }

    /// Skips tokens up to the separator `sep` (consuming it too when `eat`), or to the
    /// end of file.
    pub fn skip_until(&mut self, eat: bool, sep: Separator)
        requires
            old(self).wf(),
        ensures
            final(self).follows(old(self)),
            final(self).diags() == old(self).diags(),
            final(self).spec_current().kind == TokenKind::EndOfFile || (!eat
                && final(self).spec_current().kind == TokenKind::Separator(sep)) || (eat
                && final(self).spec_previous().kind == TokenKind::Separator(sep)
                && final(self).cursor() > old(self).cursor() && final(self).spec_previous()
                == final(self).tokens()[final(self).cursor() - 1]),
            forall|j: int|
                old(self).cursor() <= j < final(self).cursor() - (if final(self).cursor()
                    > old(self).cursor() && final(self).tokens()[final(self).cursor() - 1].kind
                    == TokenKind::Separator(sep) {
                    1int
                } else {
                    0int
                }) ==> #[trigger] final(self).tokens()[j].kind != TokenKind::Separator(sep),
    {
        proof {
            self.lemma_follows_refl();
        }
        while !self.is_done() && !self.current().is_sp(sep)
            invariant
                self.follows(old(self)),
                self.diags() == old(self).diags(),
                forall|j: int|
                    old(self).cursor() <= j < self.cursor() ==> #[trigger] self.tokens()[j].kind
                        != TokenKind::Separator(sep),
            decreases self.remaining(),
        {
            let ghost before = *self;
            self.next();
            proof {
                self.lemma_follows_trans(&before, old(self));
            }
        }
        if !self.is_done() && eat {
            let ghost before = *self;
            self.next();
            proof {
                self.lemma_follows_trans(&before, old(self));
            }
        }
    }

    /// Reads the optional visibility (`pub`, `shared`) and mutability (`const`, `mut`)
    /// in front of a statement.  A missing one is private or implicitly immutable,
    /// placed at the current token.
    pub fn collect_specifiers(&mut self) -> (r: (Spanned<Visibility>, Spanned<Mutability>))
        requires
            old(self).wf(),
        ensures
            final(self).follows(old(self)),
            final(self).diags() == old(self).diags(),
            old(self).spec_current().kind == TokenKind::Keyword(Keyword::Pub) ==> r.0.spec_item()
                == Visibility::Public,
            old(self).spec_current().kind == TokenKind::Keyword(Keyword::Shared)
                ==> r.0.spec_item() == Visibility::Shared,
            old(self).spec_current().kind != TokenKind::Keyword(Keyword::Pub)
                && old(self).spec_current().kind != TokenKind::Keyword(Keyword::Shared)
                ==> r.0.spec_item() == Visibility::Private && r.0.spec_span() == old(
            self).spec_current().span,
            r.1.spec_span().source_id == old(self).spec_source_id(),
            old(self).spec_current().kind != TokenKind::Keyword(Keyword::Pub)
                && old(self).spec_current().kind != TokenKind::Keyword(Keyword::Shared)
                && old(self).spec_current().kind != TokenKind::Keyword(Keyword::Const)
                && old(self).spec_current().kind != TokenKind::Keyword(Keyword::Mut)
                ==> *final(self) == *old(self) && r.1.spec_item() == Mutability::ImplicitlyImmutable,
    {
        let ghost start = *self;
        let visibility = if let Some(token) = self.try_eat_many(&[TokenKind::Keyword(Keyword::Pub)]) {
            Spanned::new(Visibility::Public, token.span)
        } else if let Some(token) = self.try_eat_many(&[TokenKind::Keyword(Keyword::Shared)]) {
            Spanned::new(Visibility::Shared, token.span)
        } else {
            let current_span = self.current().span;
            Spanned::new(Visibility::Private, current_span)
        };
        proof {
            assert(seq![TokenKind::Keyword(Keyword::Pub)].contains(TokenKind::Keyword(Keyword::Pub)) == true) by {
                assert(seq![TokenKind::Keyword(Keyword::Pub)][0] == TokenKind::Keyword(Keyword::Pub));
            }
        }
        let ghost mid = *self;
        let mutability = match self.try_eat_many(
            &[TokenKind::Keyword(Keyword::Const), TokenKind::Keyword(Keyword::Mut)],
        ) {
            Some(token) => {
                if token.kind == TokenKind::Keyword(Keyword::Mut) {
                    Spanned::new(Mutability::Mutable, token.span)
                } else {
                    Spanned::new(Mutability::Immutable, token.span)
                }
            },
            None => {
                let current_span = self.current().span;
                Spanned::new(Mutability::ImplicitlyImmutable, current_span)
            },
        };
        proof {
            self.lemma_follows_trans(&mid, old(self));
        }
        (visibility, mutability)
    }
}


/// The whole byte range of a text is the text.
pub proof fn law_byte_slice_whole(s: Seq<char>)
    ensures
        byte_slice(s, 0, utf8_len(s) as int) == s,
{
    lemma_byte_slice_prefix(s, s.len() as int);
    assert(s.take(s.len() as int) =~= s);
}

proof fn lemma_byte_slice_prefix(s: Seq<char>, n: int)
    requires
        0 <= n <= s.len(),
    ensures
        byte_slice_upto(s, n, 0, utf8_len(s) as int) == s.take(n),
    decreases n,
{
    if n > 0 {
        lemma_byte_slice_prefix(s, n - 1);
        crate::text::lemma_utf8_len_mono(s, n - 1, s.len() as int);
        crate::text::lemma_utf8_len_mono(s, n - 1, n);
        assert(s.take(s.len() as int) =~= s);
        assert(s.take(n) =~= s.take(n - 1).push(s[n - 1]));
    } else {
        assert(s.take(0) =~= Seq::<char>::empty());
    }
}
/// `w` with its first letter, a lower-case ASCII letter, made upper-case.
pub open spec fn capitalized(w: Seq<char>) -> Seq<char> {
    seq![((w[0] as u32) - 32) as char] + w.drop_first()
}

/// A keyword is shown in diagnostics under its own spelling, capitalized: the word that
/// lexes as a keyword (or as a boolean literal) is the name that kind is shown with.
pub proof fn law_keyword_shown_as_spelt(w: Seq<char>)
    ensures
        crate::lexer::keyword_kind(w) matches TokenKind::Keyword(k) ==> keyword_name(k) == capitalized(w),
        crate::lexer::keyword_kind(w) matches TokenKind::Literal(l) ==> literal_name(l) == capitalized(w),
{
    reveal_strlit("Fn");
    reveal_strlit("Pub");
    reveal_strlit("Module");
    reveal_strlit("Use");
    reveal_strlit("Type");
    reveal_strlit("Return");
    reveal_strlit("If");
    reveal_strlit("Else");
    reveal_strlit("For");
    reveal_strlit("Break");
    reveal_strlit("Continue");
    reveal_strlit("Const");
    reveal_strlit("Let");
    reveal_strlit("Mut");
    reveal_strlit("Move");
    reveal_strlit("Cast");
    reveal_strlit("True");
    reveal_strlit("False");
    let n = capitalized(w);
    if crate::lexer::keyword_kind(w) is Keyword || crate::lexer::keyword_kind(w) is Literal {
        if w == seq!['f', 'n'] {
            assert(n =~= "Fn"@);
        } else if w == seq!['p', 'u', 'b'] {
            assert(n =~= "Pub"@);
        } else if w == seq!['m', 'o', 'd', 'u', 'l', 'e'] {
            assert(n =~= "Module"@);
        } else if w == seq!['u', 's', 'e'] {
            assert(n =~= "Use"@);
        } else if w == seq!['t', 'y', 'p', 'e'] {
            assert(n =~= "Type"@);
        } else if w == seq!['r', 'e', 't', 'u', 'r', 'n'] {
            assert(n =~= "Return"@);
        } else if w == seq!['i', 'f'] {
            assert(n =~= "If"@);
        } else if w == seq!['e', 'l', 's', 'e'] {
            assert(n =~= "Else"@);
        } else if w == seq!['f', 'o', 'r'] {
            assert(n =~= "For"@);
        } else if w == seq!['b', 'r', 'e', 'a', 'k'] {
            assert(n =~= "Break"@);
        } else if w == seq!['c', 'o', 'n', 't', 'i', 'n', 'u', 'e'] {
            assert(n =~= "Continue"@);
        } else if w == seq!['c', 'o', 'n', 's', 't'] {
            assert(n =~= "Const"@);
        } else if w == seq!['l', 'e', 't'] {
            assert(n =~= "Let"@);
        } else if w == seq!['m', 'u', 't'] {
            assert(n =~= "Mut"@);
        } else if w == seq!['m', 'o', 'v', 'e'] {
            assert(n =~= "Move"@);
        } else if w == seq!['c', 'a', 's', 't'] {
            assert(n =~= "Cast"@);
        } else if w == seq!['t', 'r', 'u', 'e'] {
            assert(n =~= "True"@);
        } else if w == seq!['f', 'a', 'l', 's', 'e'] {
            assert(n =~= "False"@);
        }
    }
}

} // verus!
