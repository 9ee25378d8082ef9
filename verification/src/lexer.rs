//! Splits source text into tokens.

use vstd::prelude::*;

use crate::diagnostics::{error_at, new_diagnostic_view, Diagnostic, DiagnosticView, Severity};
use crate::span::{SourceId, Span};
use crate::text::{
    char_len_utf8, char_width, lemma_utf8_len_mono, lemma_utf8_len_step, push_char, str_chars, string_of,
    utf8_len,
};
use crate::token::{Keyword, Literal, Operator, Separator, Token, TokenKind};

verus! {

/// Whether `char::is_alphabetic` holds of `c` (the Unicode `Alphabetic` property).
pub uninterp spec fn char_alphabetic(c: char) -> bool;

/// Whether `char::is_alphanumeric` holds of `c` (Unicode `Alphabetic` or `Numeric`).
pub uninterp spec fn char_alphanumeric(c: char) -> bool;

/// `char::is_alphabetic`: the result is the Unicode property of `c`, named
/// [`char_alphabetic`]; of the ASCII characters exactly the letters `a`-`z` and
/// `A`-`Z` have it.  Nothing more is stated of other characters.
#[verifier::external_body]
fn is_alphabetic(c: char) -> (r: bool)
    ensures
        r == char_alphabetic(c),
        (c as u32) < 128 ==> (r <==> (('a' <= c && c <= 'z') || ('A' <= c && c <= 'Z'))),
{
    c.is_alphabetic()
}

/// `char::is_alphanumeric`: the result is the Unicode property of `c`, named
/// [`char_alphanumeric`], which holds of every alphabetic character; of the ASCII
/// characters exactly the letters and the digits `0`-`9` have it.  Nothing more is
/// stated of other characters.
#[verifier::external_body]
fn is_alphanumeric(c: char) -> (r: bool)
    ensures
        r == char_alphanumeric(c),
        c == '\0' ==> !r,
        char_alphabetic(c) ==> r,
        (c as u32) < 128 ==> (r <==> (('a' <= c && c <= 'z') || ('A' <= c && c <= 'Z') || ('0'
            <= c && c <= '9'))),
{
    c.is_alphanumeric()
}

/// The character at position `p`, or `'\0'` past the end.
pub open spec fn cur_char(s: Seq<char>, p: int) -> char {
    if 0 <= p < s.len() {
        s[p]
    } else {
        '\0'
    }
}

pub open spec fn is_blank(c: char) -> bool {
    c == '\n' || c == '\t' || c == '\r' || c == ' '
}

pub open spec fn is_digit(c: char) -> bool {
    '0' <= c && c <= '9'
}

/// `c` may start a name: `_` or an alphabetic character (for ASCII, a letter).
pub open spec fn is_ident_start(c: char) -> bool {
    if (c as u32) < 128 {
        ('a' <= c && c <= 'z') || ('A' <= c && c <= 'Z') || c == '_'
    } else {
        char_alphabetic(c) || c == '_'
    }
}

/// `c` may continue a name: `_` or an alphanumeric character (for ASCII, a letter or a
/// digit).
pub open spec fn is_ident_continue(c: char) -> bool {
    if (c as u32) < 128 {
        ('a' <= c && c <= 'z') || ('A' <= c && c <= 'Z') || ('0' <= c && c <= '9') || c == '_'
    } else {
        char_alphanumeric(c) || c == '_'
    }
}

/// Byte offset of character position `p`.
pub open spec fn byte_at(s: Seq<char>, p: nat) -> nat {
    utf8_len(s.take(p as int))
}

/// Position of the line break (or end of text) that ends a `//` comment whose text
/// starts at `p`.
pub open spec fn comment_end(s: Seq<char>, p: nat) -> nat
    decreases s.len() - p,
{
    if p >= s.len() || s[p as int] == '\n' || s[p as int] == '\r' || s[p as int] == '\0' {
        p
    } else {
        comment_end(s, p + 1)
    }
}

pub proof fn lemma_comment_end(s: Seq<char>, p: nat)
    ensures
        p <= comment_end(s, p),
        p <= s.len() ==> comment_end(s, p) <= s.len(),
    decreases s.len() - p,
{
    if !(p >= s.len() || s[p as int] == '\n' || s[p as int] == '\r' || s[p as int] == '\0') {
        lemma_comment_end(s, p + 1);
    }
}

/// Position of the first character from `p` on that is neither blank nor inside a
/// `//` comment.
pub open spec fn skip_trivia(s: Seq<char>, p: nat) -> nat
    decreases s.len() - p,
{
    if p >= s.len() || s[p as int] == '\0' {
        p
    } else if is_blank(s[p as int]) {
        skip_trivia(s, p + 1)
    } else if p + 1 < s.len() && s[p as int] == '/' && s[(p + 1) as int] == '/' {
        proof {
            lemma_comment_end(s, p + 2);
        }
        skip_trivia(s, comment_end(s, p + 2))
    } else {
        p
    }
}

pub proof fn lemma_skip_trivia(s: Seq<char>, p: nat)
    requires
        p <= s.len(),
    ensures
        p <= skip_trivia(s, p) <= s.len(),
    decreases s.len() - p,
{
    if p >= s.len() || s[p as int] == '\0' {
    } else if is_blank(s[p as int]) {
        lemma_skip_trivia(s, p + 1);
    } else if p + 1 < s.len() && s[p as int] == '/' && s[(p + 1) as int] == '/' {
        lemma_comment_end(s, p + 2);
        lemma_skip_trivia(s, comment_end(s, p + 2));
    }
}

/// End of the run of identifier characters starting at `p`.
pub open spec fn ident_end(s: Seq<char>, p: nat) -> nat
    decreases s.len() - p,
{
    if p < s.len() && is_ident_continue(s[p as int]) {
        ident_end(s, p + 1)
    } else {
        p
    }
}

/// End of the run of ASCII digits starting at `p`.
pub open spec fn digits_end(s: Seq<char>, p: nat) -> nat
    decreases s.len() - p,
{
    if p < s.len() && is_digit(s[p as int]) {
        digits_end(s, p + 1)
    } else {
        p
    }
}

pub proof fn lemma_ident_end(s: Seq<char>, p: nat)
    requires
        p <= s.len(),
    ensures
        p <= ident_end(s, p) <= s.len(),
    decreases s.len() - p,
{
    if p < s.len() && is_ident_continue(s[p as int]) {
        lemma_ident_end(s, p + 1);
    }
}

pub proof fn lemma_digits_end(s: Seq<char>, p: nat)
    requires
        p <= s.len(),
    ensures
        p <= digits_end(s, p) <= s.len(),
    decreases s.len() - p,
{
    if p < s.len() && is_digit(s[p as int]) {
        lemma_digits_end(s, p + 1);
    }
}

/// The token kind of a word made of identifier characters: a keyword, a boolean
/// literal, or an identifier.
pub open spec fn keyword_kind(w: Seq<char>) -> TokenKind {
    if w == seq!['f', 'n'] {
        TokenKind::Keyword(Keyword::Fn)
    } else if w == seq!['p', 'u', 'b'] {
        TokenKind::Keyword(Keyword::Pub)
    } else if w == seq!['m', 'o', 'd', 'u', 'l', 'e'] {
        TokenKind::Keyword(Keyword::Module)
    } else if w == seq!['u', 's', 'e'] {
        TokenKind::Keyword(Keyword::Use)
    } else if w == seq!['t', 'y', 'p', 'e'] {
        TokenKind::Keyword(Keyword::Type)
    } else if w == seq!['r', 'e', 't', 'u', 'r', 'n'] {
        TokenKind::Keyword(Keyword::Return)
    } else if w == seq!['i', 'f'] {
        TokenKind::Keyword(Keyword::If)
    } else if w == seq!['e', 'l', 's', 'e'] {
        TokenKind::Keyword(Keyword::Else)
    } else if w == seq!['f', 'o', 'r'] {
        TokenKind::Keyword(Keyword::For)
    } else if w == seq!['b', 'r', 'e', 'a', 'k'] {
        TokenKind::Keyword(Keyword::Break)
    } else if w == seq!['c', 'o', 'n', 't', 'i', 'n', 'u', 'e'] {
        TokenKind::Keyword(Keyword::Continue)
    } else if w == seq!['c', 'o', 'n', 's', 't'] {
        TokenKind::Keyword(Keyword::Const)
    } else if w == seq!['l', 'e', 't'] {
        TokenKind::Keyword(Keyword::Let)
    } else if w == seq!['m', 'u', 't'] {
        TokenKind::Keyword(Keyword::Mut)
    } else if w == seq!['m', 'o', 'v', 'e'] {
        TokenKind::Keyword(Keyword::Move)
    } else if w == seq!['c', 'a', 's', 't'] {
        TokenKind::Keyword(Keyword::Cast)
    } else if w == seq!['t', 'r', 'u', 'e'] {
        TokenKind::Literal(Literal::True)
    } else if w == seq!['f', 'a', 'l', 's', 'e'] {
        TokenKind::Literal(Literal::False)
    } else {
        TokenKind::Identifier
    }
}

/// The two-character operators and separators.
pub open spec fn punct2(a: char, b: char) -> Option<TokenKind> {
    if a == '-' && b == '>' {
        Some(TokenKind::Separator(Separator::Arrow))
    } else if a == '|' && b == '>' {
        Some(TokenKind::Operator(Operator::Pipe))
    } else if a == '+' && b == '=' {
        Some(TokenKind::Operator(Operator::AddAssign))
    } else if a == '-' && b == '=' {
        Some(TokenKind::Operator(Operator::SubAssign))
    } else if a == '*' && b == '=' {
        Some(TokenKind::Operator(Operator::MulAssign))
    } else if a == '/' && b == '=' {
        Some(TokenKind::Operator(Operator::DivAssign))
    } else {
        None
    }
}

/// The one-character operators and separators.
pub open spec fn punct1(a: char) -> Option<TokenKind> {
    if a == '.' {
        Some(TokenKind::Separator(Separator::Dot))
    } else if a == ';' {
        Some(TokenKind::Separator(Separator::SemiColon))
    } else if a == ',' {
        Some(TokenKind::Separator(Separator::Comma))
    } else if a == ':' {
        Some(TokenKind::Separator(Separator::Colon))
    } else if a == '(' {
        Some(TokenKind::Separator(Separator::OpenParen))
    } else if a == ')' {
        Some(TokenKind::Separator(Separator::CloseParen))
    } else if a == '{' {
        Some(TokenKind::Separator(Separator::OpenBrace))
    } else if a == '}' {
        Some(TokenKind::Separator(Separator::CloseBrace))
    } else if a == '[' {
        Some(TokenKind::Separator(Separator::OpenBracket))
    } else if a == ']' {
        Some(TokenKind::Separator(Separator::CloseBracket))
    } else if a == '+' {
        Some(TokenKind::Operator(Operator::Add))
    } else if a == '-' {
        Some(TokenKind::Operator(Operator::Minus))
    } else if a == '*' {
        Some(TokenKind::Operator(Operator::Star))
    } else if a == '/' {
        Some(TokenKind::Operator(Operator::Slash))
    } else if a == '=' {
        Some(TokenKind::Operator(Operator::Assign))
    } else {
        None
    }
}

/// The token that starts at `p` (which holds a character other than `'\0'`), as its
/// kind (`None` for a character that starts no token) and its end position.
pub open spec fn scan_at(s: Seq<char>, p: nat) -> (Option<TokenKind>, nat) {
    let c = s[p as int];
    if is_ident_start(c) {
        let e = ident_end(s, p + 1);
        (Some(keyword_kind(s.subrange(p as int, e as int))), e)
    } else if is_digit(c) {
        (Some(TokenKind::Literal(Literal::Integer)), digits_end(s, p + 1))
    } else if p + 1 < s.len() && punct2(c, s[(p + 1) as int]) is Some {
        (punct2(c, s[(p + 1) as int]), p + 2)
    } else if punct1(c) is Some {
        (punct1(c), p + 1)
    } else {
        (None, p + 1)
    }
}

/// What one call of [`Lexer::next_token`] yields.
pub enum LexOutcome {
    /// A token.
    Token(Token),
    /// A character that starts no token, and its span.
    Unexpected(char, Span),
}

/// One step of the lexer: what it yields, and its cursor and token start afterwards.
pub struct LexStep {
    pub outcome: LexOutcome,
    pub pos: nat,
    pub prev: nat,
}

/// The label of the diagnostic for a character `c` that starts no token.
pub open spec fn unexpected_label(c: char) -> Seq<char> {
    "unexpected character `"@ + seq![c, '`']
}

/// The diagnostic for a character `c` that starts no token.
pub open spec fn unexpected_diagnostic(c: char, span: Span) -> DiagnosticView {
    new_diagnostic_view(Severity::Error, "unexpected character"@, span, unexpected_label(c))
}

/// The lexer step from cursor `pos`, where the previous token started at byte `prev`:
/// blanks and comments are skipped; at the end of the text (or at a `'\0'`) the
/// end-of-file token spans from `prev` to the cursor; otherwise the token (or the
/// unexpected character) that starts there is consumed.
pub open spec fn lex_step(s: Seq<char>, id: SourceId, pos: nat, prev: nat) -> LexStep {
    let p = skip_trivia(s, pos);
    if p >= s.len() || s[p as int] == '\0' {
        LexStep {
            outcome: LexOutcome::Token(
                Token {
                    kind: TokenKind::EndOfFile,
                    span: Span { start: prev as usize, end: byte_at(s, p) as usize, source_id: id },
                },
            ),
            pos: p,
            prev,
        }
    } else {
        let (k, e) = scan_at(s, p);
        let span = Span {
            start: byte_at(s, p) as usize,
            end: byte_at(s, e) as usize,
            source_id: id,
        };
        LexStep {
            outcome: match k {
                Some(kind) => LexOutcome::Token(Token { kind, span }),
                None => LexOutcome::Unexpected(s[p as int], span),
            },
            pos: e,
            prev: byte_at(s, p),
        }
    }
}

/// Blanks before a token are skipped: with a space, a tab, a line feed or a carriage
/// return under the cursor, the lexer yields what it yields from the next character on,
/// and stops where it stops from there.
pub proof fn law_blank_skipped(s: Seq<char>, id: SourceId, pos: nat, prev: nat)
    requires
        pos < s.len(),
        s[pos as int] == ' ' || s[pos as int] == '\t' || s[pos as int] == '\n' || s[pos as int]
            == '\r',
    ensures
        lex_step(s, id, pos, prev) == lex_step(s, id, pos + 1, prev),
{
    assert(skip_trivia(s, pos) == skip_trivia(s, pos + 1));
}

/// `t` is `s` with the space at position `i` replaced by a tab.
pub open spec fn tab_for_space(s: Seq<char>, t: Seq<char>, i: int) -> bool {
    0 <= i < s.len() && s[i] == ' ' && t == s.update(i, '\t')
}

proof fn lemma_tab_width()
    ensures
        char_width('\t') == char_width(' '),
{
    assert(('\t' as u32) <= 0x7F);
    assert((' ' as u32) <= 0x7F);
    assert(char_width('\t') == 1);
    assert(char_width(' ') == 1);
}

proof fn lemma_tab_byte_at(s: Seq<char>, t: Seq<char>, i: int, p: nat)
    requires
        tab_for_space(s, t, i),
        p <= s.len(),
    ensures
        byte_at(s, p) == byte_at(t, p),
    decreases p,
{
    if p > 0 {
        lemma_tab_byte_at(s, t, i, (p - 1) as nat);
        lemma_utf8_len_step(s, p - 1);
        lemma_utf8_len_step(t, p - 1);
        lemma_tab_width();
    }
}

proof fn lemma_tab_comment_end(s: Seq<char>, t: Seq<char>, i: int, p: nat)
    requires
        tab_for_space(s, t, i),
    ensures
        comment_end(s, p) == comment_end(t, p),
    decreases s.len() - p,
{
    if p < s.len() {
        lemma_tab_comment_end(s, t, i, p + 1);
    }
}

proof fn lemma_tab_ident_end(s: Seq<char>, t: Seq<char>, i: int, p: nat)
    requires
        tab_for_space(s, t, i),
    ensures
        ident_end(s, p) == ident_end(t, p),
        !(p <= i < ident_end(s, p)),
    decreases s.len() - p,
{
    if p < s.len() {
        lemma_tab_ident_end(s, t, i, p + 1);
    }
}

proof fn lemma_tab_digits_end(s: Seq<char>, t: Seq<char>, i: int, p: nat)
    requires
        tab_for_space(s, t, i),
    ensures
        digits_end(s, p) == digits_end(t, p),
    decreases s.len() - p,
{
    if p < s.len() {
        lemma_tab_digits_end(s, t, i, p + 1);
    }
}

proof fn lemma_tab_skip_trivia(s: Seq<char>, t: Seq<char>, i: int, p: nat)
    requires
        tab_for_space(s, t, i),
    ensures
        skip_trivia(s, p) == skip_trivia(t, p),
        skip_trivia(s, p) != i,
    decreases s.len() - p,
{
    if p >= s.len() || s[p as int] == '\0' {
    } else if is_blank(s[p as int]) {
        lemma_tab_skip_trivia(s, t, i, p + 1);
    } else if p + 1 < s.len() && s[p as int] == '/' && s[(p + 1) as int] == '/' {
        lemma_comment_end(s, p + 2);
        lemma_tab_comment_end(s, t, i, p + 2);
        lemma_tab_skip_trivia(s, t, i, comment_end(s, p + 2));
    }
}

/// A tab lexes as a space does: with one space of the text replaced by a tab, the
/// lexer yields the same tokens, at the same places, from every position.
pub proof fn law_tab_lexes_as_space(s: Seq<char>, t: Seq<char>, i: int, id: SourceId, pos: nat, prev: nat)
    requires
        tab_for_space(s, t, i),
        pos <= s.len(),
    ensures
        lex_step(s, id, pos, prev) == lex_step(t, id, pos, prev),
{
    lemma_tab_skip_trivia(s, t, i, pos);
    lemma_skip_trivia(s, pos);
    let p = skip_trivia(s, pos);
    lemma_tab_byte_at(s, t, i, p);
    if !(p >= s.len() || s[p as int] == '\0') {
        let c = s[p as int];
        assert(t[p as int] == c);
        lemma_tab_ident_end(s, t, i, p + 1);
        lemma_ident_end(s, p + 1);
        lemma_tab_digits_end(s, t, i, p + 1);
        lemma_digits_end(s, p + 1);
        let e = ident_end(s, p + 1);
        assert(s.subrange(p as int, e as int) =~= t.subrange(p as int, e as int));
        if p + 1 < s.len() && (p + 1) as int == i {
            assert(punct2(c, ' ') is None);
            assert(punct2(c, '\t') is None);
        } else if p + 1 < s.len() {
            assert(s[(p + 1) as int] == t[(p + 1) as int]);
        }
        assert(scan_at(s, p) == scan_at(t, p));
        let end = scan_at(s, p).1;
        assert(end <= s.len());
        lemma_tab_byte_at(s, t, i, end);
    }
}

/// A cursor over the characters of one source text.
#[derive(Debug)]
pub struct Lexer {
    source: Vec<char>,
    pos: usize,
    index: usize,
    prev_index: usize,
    source_id: SourceId,
}

impl Lexer {
    /// The characters being lexed.
    pub closed spec fn text(&self) -> Seq<char> {
        self.source@
    }

    /// Character position of the cursor.
    pub closed spec fn cursor(&self) -> nat {
        self.pos as nat
    }

    /// Byte offset where the last token (other than end of file) started.
    pub closed spec fn token_start(&self) -> nat {
        self.prev_index as nat
    }

    pub closed spec fn source_id(&self) -> SourceId {
        self.source_id
    }

    pub closed spec fn wf(&self) -> bool {
        &&& self.pos <= self.source@.len()
        &&& self.source@.len() <= usize::MAX
        &&& self.index == byte_at(self.source@, self.pos as nat)
        &&& utf8_len(self.source@) <= usize::MAX
    }

    pub fn new(source: &str, source_id: SourceId) -> (r: Self)
        requires
            utf8_len(source@) <= usize::MAX,
        ensures
            r.wf(),
            r.text() == source@,
            r.cursor() == 0,
            r.token_start() == 0,
            r.source_id() == source_id,
    {
        let chars = str_chars(source);
        let _n = chars.len();
        assert(chars@.take(0) =~= Seq::<char>::empty());
        Lexer { source: chars, source_id, index: 0, prev_index: 0, pos: 0 }
    }

    proof fn lemma_byte_bound(&self, p: nat)
        requires
            self.wf(),
            p <= self.source@.len(),
        ensures
            byte_at(self.source@, p) <= usize::MAX,
    {
        lemma_utf8_len_mono(self.source@, p as int, self.source@.len() as int);
        assert(self.source@.take(self.source@.len() as int) =~= self.source@);
    }

    /// The character under the cursor, or `'\0'` at the end of the text.
    fn cur(&self) -> (c: char)
        requires
            self.wf(),
        ensures
            c == cur_char(self.source@, self.pos as int),
    {
        if self.pos < self.source.len() {
            self.source[self.pos]
        } else {
            '\0'
        }
    }

    /// Moves past the character under the cursor, unless it is `'\0'`, and returns it.
    fn next(&mut self) -> (c: char)
        requires
            old(self).wf(),
        ensures
            final(self).wf(),
            c == cur_char(old(self).source@, old(self).pos as int),
            final(self).source == old(self).source,
            final(self).prev_index == old(self).prev_index,
            final(self).source_id == old(self).source_id,
            final(self).pos == if c != '\0' { old(self).pos + 1 } else { old(self).pos as int },
    {
        let ch = self.cur();
        if ch != '\0' {
            proof {
                lemma_utf8_len_step(self.source@, self.pos as int);
                self.lemma_byte_bound((self.pos + 1) as nat);
            }
            let w = char_len_utf8(ch);
            assert(ch == self.source@[self.pos as int]);
            assert(self.index + w == byte_at(self.source@, (self.pos + 1) as nat));
            self.index = self.index + w;
            self.pos = self.pos + 1;
        }
        ch
    }

    /// Moves past `prefix` when the text at the cursor starts with it.
    fn eat(&mut self, prefix: &[char]) -> (r: bool)
        requires
            old(self).wf(),
        ensures
            final(self).wf(),
            final(self).source == old(self).source,
            final(self).prev_index == old(self).prev_index,
            final(self).source_id == old(self).source_id,
            r == (old(self).pos + prefix@.len() <= old(self).source@.len()
                && old(self).source@.subrange(
                old(self).pos as int,
                old(self).pos + prefix@.len(),
            ) == prefix@),
            final(self).pos == if r { old(self).pos + prefix@.len() } else { old(self).pos as int },
    {
        let n = prefix.len();
        if n > self.source.len() - self.pos {
            return false;
        }
        let mut i: usize = 0;
        while i < n
            invariant
                self.wf(),
                i <= n,
                n == prefix@.len(),
                self.pos + n <= self.source@.len(),
                forall|j: int| 0 <= j < i ==> self.source@[self.pos + j] == prefix@[j],
            decreases n - i,
        {
            if self.source[self.pos + i] != prefix[i] {
                assert(self.source@.subrange(self.pos as int, self.pos + n)[i as int]
                    != prefix@[i as int]);
                return false;
            }
            i = i + 1;
        }
        assert(self.source@.subrange(self.pos as int, self.pos + n) =~= prefix@);
        let ghost p0 = self.pos;
        let mut k: usize = 0;
        while k < n
            invariant
                self.wf(),
                k <= n,
                self.pos == p0 + k,
                p0 + n <= self.source@.len(),
                self.source == old(self).source,
                self.prev_index == old(self).prev_index,
                self.source_id == old(self).source_id,
                forall|j: int| 0 <= j < n ==> self.source@[p0 + j] == prefix@[j],
            decreases n - k,
        {
            proof {
                lemma_utf8_len_step(self.source@, self.pos as int);
                self.lemma_byte_bound((self.pos + 1) as nat);
            }
            let c = self.source[self.pos];
            self.index = self.index + char_len_utf8(c);
            self.pos = self.pos + 1;
            k = k + 1;
        }
        true
    }

    /// Whether the cursor is at the end of the text or at a `'\0'`.
    fn is_done(&self) -> (r: bool)
        requires
            self.wf(),
        ensures
            r == (self.pos >= self.source@.len() || self.source@[self.pos as int] == '\0'),
    {
        self.pos >= self.source.len() || self.cur() == '\0'
    }

    /// A token of kind `kind` spanning from the last token start to the cursor.
    fn tok(&self, kind: TokenKind) -> (t: Token)
        ensures
            t == (Token {
                kind,
                span: Span { start: self.prev_index, end: self.index, source_id: self.source_id },
            }),
    {
        Token { kind, span: Span::new(self.prev_index, self.index, self.source_id) }
    }
}


/// Whether the characters `w` are exactly `k`.
fn same_chars(w: &[char], k: &[char]) -> (r: bool)
    ensures
        r == (w@ == k@),
{
    if w.len() != k.len() {
        return false;
    }
    let mut i: usize = 0;
    while i < w.len()
        invariant
            i <= w@.len(),
            w@.len() == k@.len(),
            forall|j: int| 0 <= j < i ==> w@[j] == k@[j],
        decreases w@.len() - i,
    {
        if w[i] != k[i] {
            return false;
        }
        i = i + 1;
    }
    assert(w@ =~= k@);
    true
}

/// The token kind of a word of identifier characters.
fn keyword_of(w: &[char]) -> (k: TokenKind)
    ensures
        k == keyword_kind(w@),
{
    if same_chars(w, &['f', 'n']) {
        TokenKind::Keyword(Keyword::Fn)
    } else if same_chars(w, &['p', 'u', 'b']) {
        TokenKind::Keyword(Keyword::Pub)
    } else if same_chars(w, &['m', 'o', 'd', 'u', 'l', 'e']) {
        TokenKind::Keyword(Keyword::Module)
    } else if same_chars(w, &['u', 's', 'e']) {
        TokenKind::Keyword(Keyword::Use)
    } else if same_chars(w, &['t', 'y', 'p', 'e']) {
        TokenKind::Keyword(Keyword::Type)
    } else if same_chars(w, &['r', 'e', 't', 'u', 'r', 'n']) {
        TokenKind::Keyword(Keyword::Return)
    } else if same_chars(w, &['i', 'f']) {
        TokenKind::Keyword(Keyword::If)
    } else if same_chars(w, &['e', 'l', 's', 'e']) {
        TokenKind::Keyword(Keyword::Else)
    } else if same_chars(w, &['f', 'o', 'r']) {
        TokenKind::Keyword(Keyword::For)
    } else if same_chars(w, &['b', 'r', 'e', 'a', 'k']) {
        TokenKind::Keyword(Keyword::Break)
    } else if same_chars(w, &['c', 'o', 'n', 't', 'i', 'n', 'u', 'e']) {
        TokenKind::Keyword(Keyword::Continue)
    } else if same_chars(w, &['c', 'o', 'n', 's', 't']) {
        TokenKind::Keyword(Keyword::Const)
    } else if same_chars(w, &['l', 'e', 't']) {
        TokenKind::Keyword(Keyword::Let)
    } else if same_chars(w, &['m', 'u', 't']) {
        TokenKind::Keyword(Keyword::Mut)
    } else if same_chars(w, &['m', 'o', 'v', 'e']) {
        TokenKind::Keyword(Keyword::Move)
    } else if same_chars(w, &['c', 'a', 's', 't']) {
        TokenKind::Keyword(Keyword::Cast)
    } else if same_chars(w, &['t', 'r', 'u', 'e']) {
        TokenKind::Literal(Literal::True)
    } else if same_chars(w, &['f', 'a', 'l', 's', 'e']) {
        TokenKind::Literal(Literal::False)
    } else {
        TokenKind::Identifier
    }
}

/// The two-character operator or separator spelled `a b`, if any.
fn punct_pair(a: char, b: char) -> (r: Option<TokenKind>)
    ensures
        r == punct2(a, b),
{
    if a == '-' && b == '>' {
        Some(TokenKind::Separator(Separator::Arrow))
    } else if a == '|' && b == '>' {
        Some(TokenKind::Operator(Operator::Pipe))
    } else if a == '+' && b == '=' {
        Some(TokenKind::Operator(Operator::AddAssign))
    } else if a == '-' && b == '=' {
        Some(TokenKind::Operator(Operator::SubAssign))
    } else if a == '*' && b == '=' {
        Some(TokenKind::Operator(Operator::MulAssign))
    } else if a == '/' && b == '=' {
        Some(TokenKind::Operator(Operator::DivAssign))
    } else {
        None
    }
}

/// The one-character operator or separator spelled `a`, if any.
fn punct_single(a: char) -> (r: Option<TokenKind>)
    ensures
        r == punct1(a),
{
    if a == '.' {
        Some(TokenKind::Separator(Separator::Dot))
    } else if a == ';' {
        Some(TokenKind::Separator(Separator::SemiColon))
    } else if a == ',' {
        Some(TokenKind::Separator(Separator::Comma))
    } else if a == ':' {
        Some(TokenKind::Separator(Separator::Colon))
    } else if a == '(' {
        Some(TokenKind::Separator(Separator::OpenParen))
    } else if a == ')' {
        Some(TokenKind::Separator(Separator::CloseParen))
    } else if a == '{' {
        Some(TokenKind::Separator(Separator::OpenBrace))
    } else if a == '}' {
        Some(TokenKind::Separator(Separator::CloseBrace))
    } else if a == '[' {
        Some(TokenKind::Separator(Separator::OpenBracket))
    } else if a == ']' {
        Some(TokenKind::Separator(Separator::CloseBracket))
    } else if a == '+' {
        Some(TokenKind::Operator(Operator::Add))
    } else if a == '-' {
        Some(TokenKind::Operator(Operator::Minus))
    } else if a == '*' {
        Some(TokenKind::Operator(Operator::Star))
    } else if a == '/' {
        Some(TokenKind::Operator(Operator::Slash))
    } else if a == '=' {
        Some(TokenKind::Operator(Operator::Assign))
    } else {
        None
    }
}

impl Lexer {
    /// Skips blanks and `//` comments.
    fn skip_trivia(&mut self)
        requires
            old(self).wf(),
        ensures
            final(self).wf(),
            final(self).source == old(self).source,
            final(self).prev_index == old(self).prev_index,
            final(self).source_id == old(self).source_id,
            final(self).pos == skip_trivia(old(self).source@, old(self).pos as nat),
    {
        let ghost s = self.source@;
        let ghost target = skip_trivia(s, self.pos as nat);
        loop
            invariant
                self.wf(),
                self.source@ == s,
                self.source == old(self).source,
                self.prev_index == old(self).prev_index,
                self.source_id == old(self).source_id,
                skip_trivia(s, self.pos as nat) == target,
            ensures
                self.wf(),
                self.source == old(self).source,
                self.prev_index == old(self).prev_index,
                self.source_id == old(self).source_id,
                self.pos == target,
            decreases s.len() - self.pos,
        {
            let c = self.cur();
            if c == '\0' {
                break;
            }
            if c == '\n' || c == '\t' || c == '\r' || c == ' ' {
                self.next();
                continue;
            }
            let ghost p = self.pos;
            if self.eat(&['/', '/']) {
                assert(s[p as int] == '/' && s[p + 1] == '/') by {
                    assert(s.subrange(p as int, p + 2)[0] == '/');
                    assert(s.subrange(p as int, p + 2)[1] == '/');
                }
                proof {
                    lemma_comment_end(s, (p + 2) as nat);
                }
                while !(self.cur() == '\n' || self.cur() == '\r' || self.cur() == '\0')
                    invariant
                        self.wf(),
                        self.source@ == s,
                        self.source == old(self).source,
                        self.prev_index == old(self).prev_index,
                        self.source_id == old(self).source_id,
                        p + 2 <= self.pos,
                        comment_end(s, self.pos as nat) == comment_end(s, (p + 2) as nat),
                    decreases s.len() - self.pos,
                {
                    self.next();
                }
                continue;
            }
            assert(!(p + 1 < s.len() && s[p as int] == '/' && s[p + 1] == '/')) by {
                if p + 1 < s.len() && s[p as int] == '/' && s[p + 1] == '/' {
                    assert(s.subrange(p as int, p + 2) =~= seq!['/', '/']);
                }
            }
            break;
        }
    }

    /// Lexes the next token.  Blanks and `//` comments before it are skipped; at the
    /// end of the text the end-of-file token is returned (again on every later call);
    /// a character that starts no token is consumed and reported as an error.
    pub fn next_token(&mut self) -> (r: Result<Token, Diagnostic>)
        requires
            old(self).wf(),
        ensures
            final(self).wf(),
            final(self).text() == old(self).text(),
            final(self).source_id() == old(self).source_id(),
            ({
                let st = lex_step(
                    old(self).text(),
                    old(self).source_id(),
                    old(self).cursor(),
                    old(self).token_start(),
                );
                &&& final(self).cursor() == st.pos
                &&& final(self).token_start() == st.prev
                &&& match st.outcome {
                    LexOutcome::Token(t) => r == Ok::<Token, Diagnostic>(t),
                    LexOutcome::Unexpected(c, span) => r matches Err(d) && d@
                        == unexpected_diagnostic(c, span),
                }
            }),
    {
        let ghost s = self.source@;
        self.skip_trivia();
        if self.is_done() {
            return Ok(self.tok(TokenKind::EndOfFile));
        }
        let ghost p = self.pos;
        self.prev_index = self.index;
        let first_char = self.cur();
        let start = self.pos;
        if is_alphabetic(first_char) || first_char == '_' {
            self.next();
            proof {
                lemma_ident_end(s, (p + 1) as nat);
            }
            while self.pos < self.source.len() && (is_alphanumeric(self.cur()) || self.cur()
                == '_')
                invariant
                    self.wf(),
                    self.source@ == s,
                    self.prev_index == byte_at(s, p as nat),
                    self.source_id == old(self).source_id,
                    start == p,
                    p < self.pos,
                    ident_end(s, self.pos as nat) == ident_end(s, (p + 1) as nat),
                decreases s.len() - self.pos,
            {
                self.next();
            }
            let kind = keyword_of(&self.source.as_slice()[start..self.pos]);
            return Ok(self.tok(kind));
        }
        if '0' <= first_char && first_char <= '9' {
            self.next();
            while self.pos < self.source.len() && ('0' <= self.cur() && self.cur() <= '9')
                invariant
                    self.wf(),
                    self.source@ == s,
                    self.prev_index == byte_at(s, p as nat),
                    self.source_id == old(self).source_id,
                    p < self.pos,
                    digits_end(s, self.pos as nat) == digits_end(s, (p + 1) as nat),
                decreases s.len() - self.pos,
            {
                self.next();
            }
            return Ok(self.tok(TokenKind::Literal(Literal::Integer)));
        }
        if self.pos + 1 < self.source.len() {
            let second = self.source[self.pos + 1];
            if let Some(kind) = punct_pair(first_char, second) {
                self.next();
                self.next();
                return Ok(self.tok(kind));
            }
        }
        if let Some(kind) = punct_single(first_char) {
            self.next();
            return Ok(self.tok(kind));
        }
        let invalid_char = self.next();
        let mut label = string_of("unexpected character `");
        push_char(&mut label, invalid_char);
        push_char(&mut label, '`');
        assert(label@ =~= unexpected_label(invalid_char));
        let span = Span::new(self.prev_index, self.index, self.source_id);
        Err(error_at("unexpected character", span, label))
    }
}

} // verus!
