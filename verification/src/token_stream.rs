//! The whole token sequence of a source text, with a read cursor.

use vstd::prelude::*;

use crate::diagnostics::{Diagnostic, DiagnosticView};
use crate::lexer::{lex_step, unexpected_diagnostic, Lexer, LexOutcome};
use crate::lexer::{lemma_digits_end, lemma_ident_end, lemma_skip_trivia, scan_at, skip_trivia};
use crate::span::SourceId;
use crate::text::utf8_len;
use crate::token::{Token, TokenKind};

verus! {

/// Whether a lexer step yields the end-of-file token.
pub open spec fn is_eof_outcome(o: LexOutcome) -> bool {
    o matches LexOutcome::Token(t) && t.kind == TokenKind::EndOfFile
}

/// Every lexer step that is not the end of file consumes at least one character.
pub proof fn lemma_lex_step_progress(s: Seq<char>, id: SourceId, pos: nat, prev: nat)
    requires
        pos <= s.len(),
    ensures
        lex_step(s, id, pos, prev).pos <= s.len(),
        !is_eof_outcome(lex_step(s, id, pos, prev).outcome) ==> pos < lex_step(
            s,
            id,
            pos,
            prev,
        ).pos,
{
    lemma_skip_trivia(s, pos);
    let p = skip_trivia(s, pos);
    if !(p >= s.len() || s[p as int] == '\0') {
        lemma_ident_end(s, p + 1);
        lemma_digits_end(s, p + 1);
    }
}

/// All lexer steps from cursor `pos` (previous token start `prev`) up to and including
/// the one that yields the end-of-file token.
pub open spec fn lex_all(s: Seq<char>, id: SourceId, pos: nat, prev: nat) -> Seq<LexOutcome>
    decreases s.len() - pos,
{
    let st = lex_step(s, id, pos, prev);
    if is_eof_outcome(st.outcome) || !(pos < st.pos <= s.len()) {
        seq![st.outcome]
    } else {
        seq![st.outcome] + lex_all(s, id, st.pos, st.prev)
    }
}

/// The tokens among lexer steps, in order.
pub open spec fn outcome_tokens(o: Seq<LexOutcome>) -> Seq<Token>
    decreases o.len(),
{
    if o.len() == 0 {
        Seq::empty()
    } else {
        let rest = outcome_tokens(o.drop_last());
        match o.last() {
            LexOutcome::Token(t) => rest.push(t),
            LexOutcome::Unexpected(_, _) => rest,
        }
    }
}

/// The diagnostics for the characters among lexer steps that start no token, in order.
pub open spec fn outcome_errors(o: Seq<LexOutcome>) -> Seq<DiagnosticView>
    decreases o.len(),
{
    if o.len() == 0 {
        Seq::empty()
    } else {
        let rest = outcome_errors(o.drop_last());
        match o.last() {
            LexOutcome::Token(_) => rest,
            LexOutcome::Unexpected(c, span) => rest.push(unexpected_diagnostic(c, span)),
        }
    }
}

/// The lexer steps over the whole of `s`.
pub open spec fn lex_source(s: Seq<char>, id: SourceId) -> Seq<LexOutcome> {
    lex_all(s, id, 0, 0)
}

proof fn lemma_lex_all_last_eof(s: Seq<char>, id: SourceId, pos: nat, prev: nat)
    requires
        pos <= s.len(),
    ensures
        lex_all(s, id, pos, prev).len() > 0,
        is_eof_outcome(lex_all(s, id, pos, prev).last()),
        forall|i: int|
            0 <= i < lex_all(s, id, pos, prev).len() - 1 ==> !is_eof_outcome(
                #[trigger] lex_all(s, id, pos, prev)[i],
            ),
    decreases s.len() - pos,
{
    lemma_lex_step_progress(s, id, pos, prev);
    let st = lex_step(s, id, pos, prev);
    if !is_eof_outcome(st.outcome) {
        lemma_lex_all_last_eof(s, id, st.pos, st.prev);
        let rest = lex_all(s, id, st.pos, st.prev);
        assert forall|i: int| 0 <= i < lex_all(s, id, pos, prev).len() - 1 implies !is_eof_outcome(
            #[trigger] lex_all(s, id, pos, prev)[i],
        ) by {
            if i > 0 {
                assert(lex_all(s, id, pos, prev)[i] == rest[i - 1]);
            }
        }
    }
}

proof fn lemma_outcome_tokens_eof(o: Seq<LexOutcome>)
    requires
        o.len() > 0,
        is_eof_outcome(o.last()),
        forall|i: int| 0 <= i < o.len() - 1 ==> !is_eof_outcome(#[trigger] o[i]),
    ensures
        outcome_tokens(o).len() > 0,
        outcome_tokens(o).last().kind == TokenKind::EndOfFile,
        forall|i: int|
            0 <= i < outcome_tokens(o).len() - 1 ==> #[trigger] outcome_tokens(o)[i].kind
                != TokenKind::EndOfFile,
{
    lemma_outcome_tokens_no_eof(o.drop_last());
}

proof fn lemma_outcome_tokens_no_eof(o: Seq<LexOutcome>)
    requires
        forall|i: int| 0 <= i < o.len() ==> !is_eof_outcome(#[trigger] o[i]),
    ensures
        forall|i: int|
            0 <= i < outcome_tokens(o).len() ==> #[trigger] outcome_tokens(o)[i].kind
                != TokenKind::EndOfFile,
    decreases o.len(),
{
    if o.len() > 0 {
        assert forall|i: int| 0 <= i < o.drop_last().len() implies !is_eof_outcome(
            #[trigger] o.drop_last()[i],
        ) by {
            assert(o.drop_last()[i] == o[i]);
        }
        lemma_outcome_tokens_no_eof(o.drop_last());
    }
}

/// The tokens of a source text and a cursor into them.
#[derive(Debug)]
pub struct TokenStream {
    pub tokens: Vec<Token>,
    pub cursor: usize,
}

impl TokenStream {
    /// The stream holds at least one token, ends with the end-of-file token (and holds
    /// no other), and the cursor is on a token.
    pub open spec fn wf(&self) -> bool {
        &&& self.tokens@.len() > 0
        &&& self.tokens@.last().kind == TokenKind::EndOfFile
        &&& forall|i: int|
            0 <= i < self.tokens@.len() - 1 ==> #[trigger] self.tokens@[i].kind
                != TokenKind::EndOfFile
        &&& self.cursor < self.tokens@.len()
    }

    /// Every token lies in the source file `id`.
    pub open spec fn from_source(&self, id: SourceId) -> bool {
        forall|i: int| 0 <= i < self.tokens@.len() ==> (#[trigger] self.tokens@[i]).span.source_id == id
    }

    /// Whether every token lies in the source file `id`.
    pub fn all_from(&self, id: SourceId) -> (r: bool)
        ensures
            r == self.from_source(id),
    {
        let mut i: usize = 0;
        while i < self.tokens.len()
            invariant
                i <= self.tokens@.len(),
                forall|j: int| 0 <= j < i ==> (#[trigger] self.tokens@[j]).span.source_id == id,
            decreases self.tokens@.len() - i,
        {
            if self.tokens[i].span.source_id.0 != id.0 {
                return false;
            }
            i = i + 1;
        }
        true
    }

    /// Lexes the whole of `source`.  When some characters start no token, the
    /// diagnostics for all of them are returned instead.
    pub fn new(source: &str, source_id: SourceId) -> (r: Result<Self, Vec<Diagnostic>>)
        requires
            utf8_len(source@) <= usize::MAX,
        ensures
            match r {
                Ok(ts) => {
                    &&& outcome_errors(lex_source(source@, source_id)).len() == 0
                    &&& ts.tokens@ == outcome_tokens(lex_source(source@, source_id))
                    &&& ts.cursor == 0
                    &&& ts.wf()
                    &&& ts.from_source(source_id)
                },
                Err(diags) => {
                    &&& outcome_errors(lex_source(source@, source_id)).len() > 0
                    &&& diags@.map_values(|d: Diagnostic| d@) == outcome_errors(
                        lex_source(source@, source_id),
                    )
                },
            },
    {
        let mut lexer = Lexer::new(source, source_id);
        let mut diags: Vec<Diagnostic> = Vec::new();
        let mut tokens: Vec<Token> = Vec::new();
        let ghost s = source@;
        let ghost total = lex_source(s, source_id);
        let ghost mut done: Seq<LexOutcome> = Seq::empty();
        proof {
            lemma_lex_all_last_eof(s, source_id, 0, 0);
        }
        loop
            invariant_except_break
                lexer.wf(),
                lexer.text() == s,
                lexer.source_id() == source_id,
                lexer.cursor() <= s.len(),
                done + lex_all(s, source_id, lexer.cursor(), lexer.token_start()) == total,
                forall|i: int| 0 <= i < done.len() ==> !is_eof_outcome(#[trigger] done[i]),
            invariant
                tokens@ == outcome_tokens(done),
                forall|i: int| 0 <= i < tokens@.len() ==> (#[trigger] tokens@[i]).span.source_id == source_id,
                diags@.map_values(|d: Diagnostic| d@) == outcome_errors(done),
            ensures
                done == total,
            decreases s.len() - lexer.cursor(),
        {
            let ghost pos = lexer.cursor();
            let ghost prev = lexer.token_start();
            proof {
                lemma_lex_step_progress(s, source_id, pos, prev);
            }
            let ghost st = lex_step(s, source_id, pos, prev);
            let ghost rest = lex_all(s, source_id, pos, prev);
            let ghost old_diags = diags@;
            let ghost old_tokens = tokens@;
            match lexer.next_token() {
                Ok(token) => {
                    let is_eof = token.is_eof();
                    tokens.push(token);
                    proof {
                        assert((done.push(st.outcome)).drop_last() =~= done);
                        assert(st.outcome == LexOutcome::Token(token));
                        assert(outcome_tokens(done.push(st.outcome)) == outcome_tokens(done).push(
                            token,
                        ));
                        assert(outcome_errors(done.push(st.outcome)) == outcome_errors(done));
                        done = done.push(st.outcome);
                    }
                    if is_eof {
                        assert(done =~= total);
                        break;
                    }
                    assert(done + lex_all(s, source_id, lexer.cursor(), lexer.token_start())
                        =~= total) by {
                        assert(rest =~= seq![st.outcome] + lex_all(s, source_id, st.pos, st.prev));
                    }
                },
                Err(diag) => {
                    diags.push(diag);
                    proof {
                        assert((done.push(st.outcome)).drop_last() =~= done);
                        assert(outcome_tokens(done.push(st.outcome)) == outcome_tokens(done));
                        assert(outcome_errors(done.push(st.outcome)) == outcome_errors(done).push(
                            diag@,
                        ));
                        done = done.push(st.outcome);
                        assert(diags@.map_values(|d: Diagnostic| d@) =~= old_diags.map_values(
                            |d: Diagnostic| d@,
                        ).push(diag@));
                        assert(rest =~= seq![st.outcome] + lex_all(s, source_id, st.pos, st.prev));
                    }
                    assert(done + lex_all(s, source_id, lexer.cursor(), lexer.token_start())
                        =~= total);
                },
            }
        }
        proof {
            lemma_outcome_tokens_eof(total);
            assert(diags@.map_values(|d: Diagnostic| d@).len() == diags@.len());
        }
        if diags.len() != 0 {
            Err(diags)
        } else {
            Ok(TokenStream { tokens, cursor: 0 })
        }
    }

    /// The token under the cursor (the last token when the cursor is past the end).
    pub fn peek(&self) -> (t: Token)
        requires
            self.tokens@.len() > 0,
        ensures
            t == if self.cursor < self.tokens@.len() {
                self.tokens@[self.cursor as int]
            } else {
                self.tokens@.last()
            },
    {
        if self.cursor < self.tokens.len() {
            self.tokens[self.cursor]
        } else {
            self.tokens[self.tokens.len() - 1]
        }
    }

    /// Returns the token under the cursor (the last token when the cursor is past the
    /// end) and moves past it, unless it is the end of file.
    pub fn next(&mut self) -> (t: Token)
        requires
            old(self).tokens@.len() > 0,
            old(self).cursor < usize::MAX,
        ensures
            old(self).wf() ==> final(self).wf(),
            t == if old(self).cursor < old(self).tokens@.len() {
                old(self).tokens@[old(self).cursor as int]
            } else {
                old(self).tokens@.last()
            },
            final(self).tokens == old(self).tokens,
            final(self).cursor == if t.kind == TokenKind::EndOfFile {
                old(self).cursor as int
            } else {
                old(self).cursor + 1
            },
    {
        let token = self.peek();
        let _len = self.tokens.len();
        if !token.is_eof() {
            self.cursor = self.cursor + 1;
        }
        token
    }

    /// The token `nth` places from the cursor: the first token when that lies before
    /// the start, the last token when it lies past the end.
    pub fn peek_nth(&self, nth: i32) -> (t: Token)
        requires
            self.tokens@.len() > 0,
            self.cursor <= i32::MAX,
            i32::MIN <= self.cursor + nth <= i32::MAX,
        ensures
            ({
                let target = self.cursor + nth;
                t == if target < 0 {
                    self.tokens@[0]
                } else if target < self.tokens@.len() {
                    self.tokens@[target]
                } else {
                    self.tokens@.last()
                }
            }),
    {
        let target_index = self.cursor as i32 + nth;
        if target_index < 0 {
            return self.tokens[0];
        }
        let t = target_index as usize;
        if t < self.tokens.len() {
            self.tokens[t]
        } else {
            self.tokens[self.tokens.len() - 1]
        }
    }
}


/// Once the lexer reaches the end of file it stays there: the step after an
/// end-of-file step yields the same end-of-file token and does not move.
pub proof fn law_end_of_file_repeats(s: Seq<char>, id: SourceId, pos: nat, prev: nat)
    requires
        is_eof_outcome(lex_step(s, id, pos, prev).outcome),
    ensures
        ({
            let st = lex_step(s, id, pos, prev);
            let again = lex_step(s, id, st.pos, st.prev);
            again.outcome == st.outcome && again.pos == st.pos && again.prev == st.prev
        }),
{
    let p = skip_trivia(s, pos);
    if !(p >= s.len() || s[p as int] == '\0') {
        lemma_skip_trivia(s, pos);
        let (k, e) = scan_at(s, p);
        assert(k is Some ==> k->0 != TokenKind::EndOfFile) by {
            lemma_scan_not_eof(s, p);
        }
    }
}

proof fn lemma_scan_not_eof(s: Seq<char>, p: nat)
    requires
        p < s.len(),
    ensures
        scan_at(s, p).0 is Some ==> scan_at(s, p).0->0 != TokenKind::EndOfFile,
{
}
} // verus!
