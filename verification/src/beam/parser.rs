//! The lexer of the beam language and the token cursor its parser reads from.
use crate::text::{char_string, from_chars, is_whitespace, push_char, spec_is_whitespace, str_equal};
use vstd::prelude::*;

verus! {

/// A token: its text, and the file and line it was read from.
#[derive(Debug)]
pub struct Token {
    pub text: String,
    pub file: String,
    pub line: usize,
}

impl Clone for Token {
    fn clone(&self) -> (r: Self)
        ensures
            r == *self,
    {
        Token { text: self.text.clone(), file: self.file.clone(), line: self.line }
    }
}

/// A cursor over a list of tokens.
#[derive(Clone, Debug)]
pub struct TokenStream {
    pub tokens: Vec<Token>,
    pub index: usize,
}

/// The texts of a list of tokens.
pub open spec fn texts(toks: Seq<Token>) -> Seq<Seq<char>> {
    Seq::new(toks.len(), |i: int| toks[i].text@)
}

/// A token's model: text and line.
pub struct TokenView {
    pub text: Seq<char>,
    pub line: int,
}

/// The lexer's states.
#[derive(PartialEq, Eq, Structural, Clone, Copy)]
pub enum LexMode {
    Whitespace,
    Ident,
    String,
    Comment,
    StringEscaped,
}

/// The lexer's state after a prefix of the text.
pub struct LexState {
    pub out: Seq<TokenView>,
    pub buf: Seq<char>,
    pub line: int,
    pub mode: LexMode,
}

/// Characters that are tokens of their own.
pub open spec fn is_punct(c: char) -> bool {
    c == ':' || c == '+' || c == '-' || c == '*' || c == '/' || c == '(' || c == ')' || c == '<'
        || c == '>'
}

/// One step of the lexer on character `c`.
///
/// Between tokens, spaces and tabs are skipped, punctuation is a token of its own, a
/// quote starts a string, `;` starts a comment and anything else starts an identifier.
/// An identifier runs up to whitespace, punctuation or `;`. A string keeps its quotes,
/// drops backslashes (the next character is kept as it is) and newlines. A comment runs
/// to the end of the line.
pub open spec fn lex_step(st: LexState, c: char) -> LexState {
    match st.mode {
        LexMode::Whitespace => if c == ' ' || c == '\t' {
            st
        } else if c == '\n' {
            LexState { line: st.line + 1, ..st }
        } else if is_punct(c) {
            LexState { out: st.out.push(TokenView { text: seq![c], line: st.line }), ..st }
        } else if c == '"' {
            LexState { buf: seq![], mode: LexMode::String, ..st }
        } else if c == ';' {
            LexState { buf: seq![], mode: LexMode::Comment, ..st }
        } else {
            LexState { buf: seq![c], mode: LexMode::Ident, ..st }
        },
        LexMode::Ident => if !spec_is_whitespace(c) && !(is_punct(c) || c == ';') {
            LexState { buf: st.buf.push(c), ..st }
        } else {
            let out = st.out.push(TokenView { text: st.buf, line: st.line });
            let line = if c == '\n' {
                st.line + 1
            } else {
                st.line
            };
            let out = if c != '\n' && is_punct(c) {
                out.push(TokenView { text: seq![c], line })
            } else {
                out
            };
            LexState {
                out,
                buf: seq![],
                line,
                mode: if c == ';' {
                    LexMode::Comment
                } else {
                    LexMode::Whitespace
                },
            }
        },
        LexMode::String => if c == '"' {
            LexState {
                out: st.out.push(
                    TokenView { text: seq!['"'] + st.buf + seq!['"'], line: st.line },
                ),
                buf: seq![],
                mode: LexMode::Whitespace,
                ..st
            }
        } else if c == '\\' {
            LexState { mode: LexMode::StringEscaped, ..st }
        } else if c == '\n' {
            LexState { line: st.line + 1, ..st }
        } else {
            LexState { buf: st.buf.push(c), ..st }
        },
        LexMode::StringEscaped => LexState { buf: st.buf.push(c), mode: LexMode::String, ..st },
        LexMode::Comment => if c == '\n' {
            LexState { line: st.line + 1, mode: LexMode::Whitespace, ..st }
        } else {
            st
        },
    }
}

/// The lexer's state after reading all of `s`.
pub open spec fn lex_state(s: Seq<char>) -> LexState
    decreases s.len(),
{
    if s.len() == 0 {
        LexState { out: seq![], buf: seq![], line: 1, mode: LexMode::Whitespace }
    } else {
        lex_step(lex_state(s.drop_last()), s.last())
    }
}

/// The tokens of `s`: what the lexer emitted, and the text it was reading at the end
/// (an identifier, or the inside of an unfinished string) as a last token.
pub open spec fn beam_tokens(s: Seq<char>) -> Seq<TokenView> {
    let st = lex_state(s);
    if st.buf.len() > 0 {
        st.out.push(TokenView { text: st.buf, line: st.line })
    } else {
        st.out
    }
}

/// The line never exceeds one more than the characters read.
pub proof fn lemma_lex_line(s: Seq<char>)
    ensures
        1 <= lex_state(s).line <= s.len() + 1,
    decreases s.len(),
{
    if s.len() > 0 {
        lemma_lex_line(s.drop_last());
    }
}

/// What the lexer has emitted is in line order, no token is empty, and none is past
/// the current line; an identifier being read is not empty.
proof fn lemma_lex_shape(s: Seq<char>)
    ensures
        ({
            let st = lex_state(s);
            &&& st.line >= 1
            &&& (st.mode == LexMode::Ident ==> st.buf.len() > 0)
            &&& forall|k: int| 0 <= k < st.out.len() ==> (#[trigger] st.out[k]).text.len() > 0 && 1 <= st.out[k].line <= st.line
            &&& forall|j: int, k: int| 0 <= j < k < st.out.len() ==> #[trigger] st.out[j].line <= #[trigger] st.out[k].line
        }),
    decreases s.len(),
{
    if s.len() > 0 {
        lemma_lex_shape(s.drop_last());
    }
}

/// No token is empty, every token's line is at least one, and the tokens come in line
/// order.
pub proof fn law_tokens_in_line_order(s: Seq<char>)
    ensures
        forall|k: int| 0 <= k < beam_tokens(s).len() ==> (#[trigger] beam_tokens(s)[k]).text.len() > 0 && 1 <= beam_tokens(s)[k].line,
        forall|j: int, k: int| 0 <= j < k < beam_tokens(s).len() ==> #[trigger] beam_tokens(s)[j].line <= #[trigger] beam_tokens(s)[k].line,
{
    lemma_lex_shape(s);
}

/// Text of an identifier: no punctuation, `;`, space, tab or newline in it.
pub open spec fn ident_text(t: Seq<char>) -> bool {
    forall|i: int| 0 <= i < t.len() ==> !is_punct(#[trigger] t[i]) && t[i] != ';' && t[i] != ' ' && t[i] != '\t' && t[i] != '\n'
}

/// A token's text is a string (it starts with a quote), one punctuation character, or an
/// identifier.
pub open spec fn token_kind_ok(t: Seq<char>) -> bool {
    ||| t.len() > 0 && t[0] == '"'
    ||| t.len() == 1 && is_punct(t[0])
    ||| t.len() > 0 && ident_text(t)
}

proof fn lemma_lex_kinds(s: Seq<char>)
    ensures
        ({
            let st = lex_state(s);
            &&& forall|k: int| 0 <= k < st.out.len() ==> token_kind_ok(#[trigger] st.out[k].text)
            &&& st.mode == LexMode::Ident ==> st.buf.len() > 0 && ident_text(st.buf)
            &&& (st.mode == LexMode::Whitespace || st.mode == LexMode::Comment) ==> st.buf.len() == 0
        }),
    decreases s.len(),
{
    if s.len() > 0 {
        let p = s.drop_last();
        lemma_lex_kinds(p);
        let st = lex_state(p);
        let c = s.last();
        let nx = lex_step(st, c);
        assert(lex_state(s) == nx);
        assert forall|k: int| 0 <= k < nx.out.len() implies token_kind_ok(#[trigger] nx.out[k].text) by {
            if k < st.out.len() {
                assert(nx.out[k] == st.out[k]);
            } else if st.mode == LexMode::String && c == '"' {
                assert(nx.out[k].text[0] == '"');
            } else if st.mode == LexMode::Ident && k == st.out.len() {
                assert(nx.out[k].text == st.buf);
            } else {
                assert(nx.out[k].text == seq![c]);
            }
        }
        if st.mode == LexMode::Ident && nx.mode == LexMode::Ident {
            assert forall|i: int| 0 <= i < nx.buf.len() implies !is_punct(#[trigger] nx.buf[i]) && nx.buf[i] != ';'
                && nx.buf[i] != ' ' && nx.buf[i] != '\t' && nx.buf[i] != '\n' by {
                if i < st.buf.len() {
                    assert(nx.buf[i] == st.buf[i]);
                }
            }
        }
        if st.mode == LexMode::Whitespace && nx.mode == LexMode::Ident {
            assert(nx.buf == seq![c]);
            assert forall|i: int| 0 <= i < nx.buf.len() implies !is_punct(#[trigger] nx.buf[i]) && nx.buf[i] != ';'
                && nx.buf[i] != ' ' && nx.buf[i] != '\t' && nx.buf[i] != '\n' by {
                assert(nx.buf[i] == c);
            }
        }
    }
}

/// Each token is a string (starting with its quote), a single punctuation character, or
/// an identifier without punctuation, `;`, space, tab or newline; only the last token,
/// left by a string that was not closed, may be none of these.
pub proof fn law_token_kinds(s: Seq<char>)
    ensures
        forall|k: int| 0 <= k < beam_tokens(s).len() ==> token_kind_ok(#[trigger] beam_tokens(s)[k].text) || (k
            == beam_tokens(s).len() - 1 && (lex_state(s).mode == LexMode::String || lex_state(s).mode
            == LexMode::StringEscaped)),
{
    lemma_lex_kinds(s);
    let st = lex_state(s);
    let ts = beam_tokens(s);
    assert forall|k: int| 0 <= k < ts.len() implies token_kind_ok(#[trigger] ts[k].text) || (k == ts.len() - 1 && (
    st.mode == LexMode::String || st.mode == LexMode::StringEscaped)) by {
        if k < st.out.len() {
            assert(ts[k] == st.out[k]);
        }
    }
}

/// The tokens' texts one after the other.
pub open spec fn texts_joined(ts: Seq<TokenView>) -> Seq<char>
    decreases ts.len(),
{
    if ts.len() == 0 {
        seq![]
    } else {
        texts_joined(ts.drop_last()) + ts.last().text
    }
}

/// A character that neither separates nor starts a string or a comment.
pub open spec fn plain_char(c: char) -> bool {
    !spec_is_whitespace(c) && c != '"' && c != ';'
}

proof fn lemma_lex_plain(s: Seq<char>)
    requires
        forall|i: int| 0 <= i < s.len() ==> plain_char(#[trigger] s[i]),
    ensures
        ({
            let st = lex_state(s);
            &&& texts_joined(st.out) + st.buf == s
            &&& st.line == 1
            &&& (st.mode == LexMode::Ident || (st.mode == LexMode::Whitespace && st.buf.len() == 0))
            &&& forall|k: int| 0 <= k < st.out.len() ==> (#[trigger] st.out[k]).line == 1
        }),
    decreases s.len(),
{
    if s.len() > 0 {
        let p = s.drop_last();
        assert forall|i: int| 0 <= i < p.len() implies plain_char(#[trigger] p[i]) by {
            assert(p[i] == s[i]);
        }
        lemma_lex_plain(p);
        let st = lex_state(p);
        let c = s.last();
        assert(plain_char(s[s.len() - 1]));
        assert(c != ' ' && c != '\t' && c != '\n');
        let st2 = lex_state(s);
        assert(s =~= p.push(c));
        if st.mode == LexMode::Whitespace {
            if is_punct(c) {
                assert(st2.out.drop_last() == st.out);
                assert(texts_joined(st2.out) == texts_joined(st.out) + seq![c]);
            }
            assert(texts_joined(st2.out) + st2.buf =~= s);
        } else {
            if !is_punct(c) {
                assert(texts_joined(st2.out) + st2.buf =~= s);
            } else {
                let o1 = st.out.push(TokenView { text: st.buf, line: st.line });
                assert(o1.drop_last() == st.out);
                assert(st2.out.drop_last() == o1);
                assert(texts_joined(o1) == texts_joined(st.out) + st.buf);
                assert(texts_joined(st2.out) == texts_joined(o1) + seq![c]);
                assert(texts_joined(st2.out) =~= texts_joined(st.out) + st.buf + seq![c]);
                assert(texts_joined(st2.out) + st2.buf =~= s);
            }
        }
    }
}

/// Text with no whitespace, quote or `;` reads back whole: the tokens' texts, one after
/// the other, are the text, and every token is on line one.
pub proof fn law_plain_tokens_rejoin(s: Seq<char>)
    requires
        forall|i: int| 0 <= i < s.len() ==> plain_char(#[trigger] s[i]),
    ensures
        texts_joined(beam_tokens(s)) == s,
        forall|k: int| 0 <= k < beam_tokens(s).len() ==> (#[trigger] beam_tokens(s)[k]).line == 1,
{
    lemma_lex_plain(s);
    let st = lex_state(s);
    if st.buf.len() > 0 {
        let o = st.out.push(TokenView { text: st.buf, line: st.line });
        assert(o.drop_last() == st.out);
    } else {
        assert(texts_joined(st.out) + st.buf =~= texts_joined(st.out));
    }
}

/// The number of newlines in `s`.
pub open spec fn newlines(s: Seq<char>) -> int
    decreases s.len(),
{
    if s.len() == 0 {
        0
    } else {
        newlines(s.drop_last()) + if s.last() == '\n' {
            1int
        } else {
            0int
        }
    }
}

proof fn lemma_lex_line_count(s: Seq<char>)
    ensures
        lex_state(s).line <= 1 + newlines(s),
    decreases s.len(),
{
    if s.len() > 0 {
        lemma_lex_line_count(s.drop_last());
    }
}

/// Every token's line is between one and one more than the number of newlines.
pub proof fn law_token_lines_bounded(s: Seq<char>)
    ensures
        forall|k: int| 0 <= k < beam_tokens(s).len() ==> 1 <= (#[trigger] beam_tokens(s)[k]).line <= 1 + newlines(s),
{
    lemma_lex_line_count(s);
    lemma_lex_shape(s);
}

/// A token's model.
pub open spec fn token_view(t: Token) -> TokenView {
    TokenView { text: t.text@, line: t.line as int }
}

/// Splits source text into tokens, each tagged with `file` and its line.
pub fn tokenize(s: String, file: String) -> (r: Vec<Token>)
    requires
        s@.len() < usize::MAX,
    ensures
        r@.map_values(|t: Token| token_view(t)) == beam_tokens(s@),
        forall|i: int| 0 <= i < r@.len() ==> (#[trigger] r@[i]).file@ == file@,
{
    broadcast use vstd::string::group_string_axioms;

    let mut out: Vec<Token> = Vec::new();
    let mut buf = String::new();
    let mut line: usize = 1;
    let mut state = LexMode::Whitespace;
    for c in it: s.as_str().chars()
        invariant
            it.seq() == s@,
            s@.len() < usize::MAX,
            ({
                let st = lex_state(s@.take(it.index() as int));
                &&& out@.map_values(|t: Token| token_view(t)) == st.out
                &&& buf@ == st.buf
                &&& line == st.line
                &&& state == st.mode
            }),
            forall|i: int| 0 <= i < out@.len() ==> (#[trigger] out@[i]).file@ == file@,
    {
        let ghost pre = s@.take(it.index() as int);
        let ghost old_out = out@.map_values(|t: Token| token_view(t));
        proof {
            let post = s@.take(it.index() + 1);
            assert(post.drop_last() == pre);
            assert(post.last() == c);
            assert(lex_state(post) == lex_step(lex_state(pre), c));
            lemma_lex_line(pre);
        }
        let punct = c == ':' || c == '+' || c == '-' || c == '*' || c == '/' || c == '(' || c
            == ')' || c == '<' || c == '>';
        match state {
            LexMode::Whitespace => {
                if c == ' ' || c == '\t' {
                } else if c == '\n' {
                    line += 1;
                } else if punct {
                    out.push(Token { text: char_string(c), file: file.clone(), line });
                } else if c == '"' {
                    buf = String::new();
                    state = LexMode::String;
                } else if c == ';' {
                    buf = String::new();
                    state = LexMode::Comment;
                } else {
                    buf = String::new();
                    push_char(&mut buf, c);
                    state = LexMode::Ident;
                }
            },
            LexMode::Ident => {
                if !is_whitespace(c) && !(punct || c == ';') {
                    push_char(&mut buf, c);
                } else {
                    out.push(Token { text: buf, file: file.clone(), line });
                    buf = String::new();
                    if c == '\n' {
                        line += 1;
                    } else if punct {
                        out.push(Token { text: char_string(c), file: file.clone(), line });
                    }
                    state =
                    if c == ';' {
                        LexMode::Comment
                    } else {
                        LexMode::Whitespace
                    };
                }
            },
            LexMode::String => {
                if c == '"' {
                    let mut t = char_string('"');
                    crate::text::push_str(&mut t, buf.as_str());
                    push_char(&mut t, '"');
                    assert(t@ =~= seq!['"'] + buf@ + seq!['"']);
                    out.push(Token { text: t, file: file.clone(), line });
                    buf = String::new();
                    state = LexMode::Whitespace;
                } else if c == '\\' {
                    state = LexMode::StringEscaped;
                } else if c == '\n' {
                    line += 1;
                } else {
                    push_char(&mut buf, c);
                }
            },
            LexMode::StringEscaped => {
                push_char(&mut buf, c);
                state = LexMode::String;
            },
            LexMode::Comment => {
                if c == '\n' {
                    line += 1;
                    state = LexMode::Whitespace;
                }
            },
        }
        assert(out@.map_values(|t: Token| token_view(t)) =~= lex_state(
            s@.take(it.index() + 1),
        ).out);
    }
    assert(s@.take(s@.len() as int) == s@);
    if !buf.as_str().is_empty() {
        let ghost old_out = out@.map_values(|t: Token| token_view(t));
        out.push(Token { text: buf, file, line });
        assert(out@.map_values(|t: Token| token_view(t)) =~= beam_tokens(s@));
    }
    out
}

impl TokenStream {
    /// A cursor at the first token of `s`.
    pub fn from_string(s: String, file: String) -> (r: Self)
        requires
            s@.len() < usize::MAX,
        ensures
            r.tokens@.map_values(|t: Token| token_view(t)) == beam_tokens(s@),
            forall|i: int| 0 <= i < r.tokens@.len() ==> (#[trigger] r.tokens@[i]).file@ == file@,
            r.index == 0,
    {
        let tokens = tokenize(s, file);
        Self { tokens, index: 0 }
    }

    /// The token under the cursor, and the cursor moves past it; `None` at the end.
    pub fn next(&mut self) -> (r: Option<Token>)
        ensures
            final(self).tokens == old(self).tokens,
            old(self).index < old(self).tokens@.len() ==> r == Some(
                old(self).tokens@[old(self).index as int],
            ) && final(self).index == old(self).index + 1,
            old(self).index >= old(self).tokens@.len() ==> r is None && final(self).index == old(
                self,
            ).index,
    {
        if self.index < self.tokens.len() {
            let out = self.tokens[self.index].clone();
            self.index += 1;
            Some(out)
        } else {
            None
        }
    }

    /// The token under the cursor, without moving; `None` at the end.
    pub fn peek(&self) -> (r: Option<Token>)
        ensures
            self.index < self.tokens@.len() ==> r == Some(self.tokens@[self.index as int]),
            self.index >= self.tokens@.len() ==> r is None,
    {
        if self.index < self.tokens.len() {
            Some(self.tokens[self.index].clone())
        } else {
            None
        }
    }

    /// Puts `t` under the cursor, in front of the tokens not read yet.
    pub fn insert_next(&mut self, t: Token)
        requires
            old(self).index <= old(self).tokens@.len(),
        ensures
            final(self).index == old(self).index,
            final(self).tokens@ == old(self).tokens@.insert(old(self).index as int, t),
    {
        self.tokens.insert(self.index, t);
    }
}

/// Where skipping a function body that starts at token `i` ends: just past its `end`,
/// skipping nested function bodies, or at the end of the tokens.
pub open spec fn skip_fn_at(toks: Seq<Seq<char>>, i: int) -> int
    decreases toks.len() - i,
{
    if i < 0 || i >= toks.len() {
        if i < 0 { 0 } else { i }
    } else if toks[i] == seq!['e', 'n', 'd'] {
        i + 1
    } else if toks[i] == seq!['f', 'n'] {
        let j = skip_fn_at(toks, i + 1);
        if i < j <= toks.len() {
            skip_fn_at(toks, j)
        } else {
            j
        }
    } else {
        skip_fn_at(toks, i + 1)
    }
}

/// Where skipping a struct body that starts at token `i` ends: just past its `end`,
/// skipping nested struct and function bodies, or at the end of the tokens.
pub open spec fn skip_struct_at(toks: Seq<Seq<char>>, i: int) -> int
    decreases toks.len() - i,
{
    if i < 0 || i >= toks.len() {
        if i < 0 { 0 } else { i }
    } else if toks[i] == seq!['e', 'n', 'd'] {
        i + 1
    } else if toks[i] == seq!['s', 't', 'r', 'u', 'c', 't'] {
        let j = skip_struct_at(toks, i + 1);
        if i < j <= toks.len() {
            skip_struct_at(toks, j)
        } else {
            j
        }
    } else if toks[i] == seq!['f', 'n'] {
        let j = skip_fn_at(toks, i + 1);
        if i < j <= toks.len() {
            skip_struct_at(toks, j)
        } else {
            j
        }
    } else {
        skip_struct_at(toks, i + 1)
    }
}

/// Skipping moves forward and stays within the tokens.
pub proof fn lemma_skip_fn(toks: Seq<Seq<char>>, i: int)
    requires
        0 <= i <= toks.len(),
    ensures
        i <= skip_fn_at(toks, i) <= toks.len(),
        i < toks.len() ==> i < skip_fn_at(toks, i),
    decreases toks.len() - i,
{
    if i < toks.len() {
        if toks[i] == seq!['e', 'n', 'd'] {
        } else if toks[i] == seq!['f', 'n'] {
            lemma_skip_fn(toks, i + 1);
            let j = skip_fn_at(toks, i + 1);
            lemma_skip_fn(toks, j);
        } else {
            lemma_skip_fn(toks, i + 1);
        }
    }
}

/// Skipping moves forward and stays within the tokens.
pub proof fn lemma_skip_struct(toks: Seq<Seq<char>>, i: int)
    requires
        0 <= i <= toks.len(),
    ensures
        i <= skip_struct_at(toks, i) <= toks.len(),
        i < toks.len() ==> i < skip_struct_at(toks, i),
    decreases toks.len() - i,
{
    if i < toks.len() {
        if toks[i] == seq!['e', 'n', 'd'] {
        } else if toks[i] == seq!['s', 't', 'r', 'u', 'c', 't'] {
            lemma_skip_struct(toks, i + 1);
            let j = skip_struct_at(toks, i + 1);
            lemma_skip_struct(toks, j);
        } else if toks[i] == seq!['f', 'n'] {
            lemma_skip_fn(toks, i + 1);
            let j = skip_fn_at(toks, i + 1);
            lemma_skip_struct(toks, j);
        } else {
            lemma_skip_struct(toks, i + 1);
        }
    }
}

/// Skips the rest of a function body: up to and past its `end`, with nested function
/// bodies skipped whole.
pub fn skip_fn(tokens: &mut TokenStream) -> (r: Result<(), String>)
    requires
        old(tokens).index <= old(tokens).tokens@.len(),
    ensures
        r is Ok,
        final(tokens).tokens == old(tokens).tokens,
        final(tokens).index == skip_fn_at(texts(old(tokens).tokens@), old(tokens).index as int),
    decreases old(tokens).tokens@.len() - old(tokens).index,
{
    let ghost toks = texts(tokens.tokens@);
    let ghost start = tokens.index as int;
    proof {
        lemma_skip_fn(toks, start);
    }
    while tokens.index < tokens.tokens.len()
        invariant_except_break
            tokens.tokens == old(tokens).tokens,
            toks == texts(tokens.tokens@),
            start <= tokens.index <= tokens.tokens@.len(),
            start == old(tokens).index,
            skip_fn_at(toks, start) == skip_fn_at(toks, tokens.index as int),
        ensures
            tokens.tokens == old(tokens).tokens,
            tokens.index == skip_fn_at(toks, start),
        decreases tokens.tokens@.len() - tokens.index,
    {
        let ghost i = tokens.index as int;
        let n = match tokens.next() {
            Some(n) => n,
            None => {
                break;
            },
        };
        assert(n.text@ == toks[i]);
        proof {
            reveal_strlit("end");
            reveal_strlit("fn");
            assert("end"@ =~= seq!['e', 'n', 'd']);
            assert("fn"@ =~= seq!['f', 'n']);
        }
        if str_equal(n.text.as_str(), "end") {
            assert(toks[i] == seq!['e', 'n', 'd']);
            assert(skip_fn_at(toks, i) == i + 1);
            break;
        }
        if str_equal(n.text.as_str(), "fn") {
            proof {
                lemma_skip_fn(toks, i + 1);
            }
            skip_fn(tokens)?;
            proof {
                lemma_skip_fn(toks, tokens.index as int);
            }
        } else {
        }
    }
    Ok(())
}

/// Skips the rest of a struct body: up to and past its `end`, with nested struct and
/// function bodies skipped whole.
pub fn skip_struct(tokens: &mut TokenStream) -> (r: Result<(), String>)
    requires
        old(tokens).index <= old(tokens).tokens@.len(),
    ensures
        r is Ok,
        final(tokens).tokens == old(tokens).tokens,
        final(tokens).index == skip_struct_at(
            texts(old(tokens).tokens@),
            old(tokens).index as int,
        ),
    decreases old(tokens).tokens@.len() - old(tokens).index,
{
    let ghost toks = texts(tokens.tokens@);
    let ghost start = tokens.index as int;
    proof {
        lemma_skip_struct(toks, start);
    }
    while tokens.index < tokens.tokens.len()
        invariant_except_break
            tokens.tokens == old(tokens).tokens,
            toks == texts(tokens.tokens@),
            start <= tokens.index <= tokens.tokens@.len(),
            start == old(tokens).index,
            skip_struct_at(toks, start) == skip_struct_at(toks, tokens.index as int),
        ensures
            tokens.tokens == old(tokens).tokens,
            tokens.index == skip_struct_at(toks, start),
        decreases tokens.tokens@.len() - tokens.index,
    {
        let ghost i = tokens.index as int;
        let n = match tokens.next() {
            Some(n) => n,
            None => {
                break;
            },
        };
        assert(n.text@ == toks[i]);
        proof {
            reveal_strlit("end");
            reveal_strlit("struct");
            reveal_strlit("fn");
            assert("end"@ =~= seq!['e', 'n', 'd']);
            assert("fn"@ =~= seq!['f', 'n']);
            assert("struct"@ =~= seq!['s', 't', 'r', 'u', 'c', 't']);
        }
        if str_equal(n.text.as_str(), "end") {
            assert(toks[i] == seq!['e', 'n', 'd']);
            break;
        }
        let is_struct = str_equal(n.text.as_str(), "struct");
        if is_struct {
            proof {
                lemma_skip_struct(toks, i + 1);
            }
            skip_struct(tokens)?;
            proof {
                lemma_skip_struct(toks, tokens.index as int);
                assert(toks[i] == seq!['s', 't', 'r', 'u', 'c', 't']);
                assert(skip_struct_at(toks, i) == skip_struct_at(toks, tokens.index as int));
            }
        }
        if str_equal(n.text.as_str(), "fn") {
            proof {
                lemma_skip_fn(toks, i + 1);
            }
            skip_fn(tokens)?;
            proof {
                lemma_skip_fn(toks, i + 1);
                lemma_skip_struct(toks, tokens.index as int);
                assert(toks[i] == seq!['f', 'n']);
                assert(toks[i] != seq!['s', 't', 'r', 'u', 'c', 't']);
                assert(skip_struct_at(toks, i) == skip_struct_at(toks, tokens.index as int));
            }
        } else if !is_struct {
            assert(toks[i] != seq!['f', 'n']);
            assert(toks[i] != seq!['e', 'n', 'd']);
            assert(toks[i] != seq!['s', 't', 'r', 'u', 'c', 't']);
            assert(skip_struct_at(toks, i) == skip_struct_at(toks, i + 1));
        }
    }
    Ok(())
}

/// The name a function is linked under: its own name.
pub fn func_mangle(function_name: String, _file: String) -> (r: String)
    ensures
        r@ == function_name@,
{
    function_name
}

} // verus!
