//! The lexer of the second bug front end: a cursor over the source text that yields one
//! token at a time, tracking line and column.
use crate::text::{char_string, from_chars, is_whitespace, push_char, spec_is_whitespace};
use vstd::prelude::*;

verus! {

/// The kinds of token.
#[derive(Clone, Copy, PartialEq, Eq, Structural, Debug)]
pub enum TokenType {
    Literal,
    String,
    Number,
    OpenParen,
    CloseParen,
    OpenBracket,
    CloseBracket,
    OpenCurly,
    CloseCurly,
    Operator,
    DeFN,
    DeStruct,
    TokenNone,
    TokenError,
}

/// A token: kind, text, and the line and column where it starts.
#[derive(Clone, Debug)]
pub struct Token {
    pub tt: TokenType,
    pub st: String,
    pub line: usize,
    pub collumn: usize,
}

/// A cursor over the source text `v`; `current` is the text not read yet.
#[derive(Clone, Copy, Debug)]
pub struct Tokenizer<'a> {
    pub v: &'a str,
    pub current: &'a str,
    pub line: usize,
    pub collumn: usize,
}

/// A token's model.
pub struct TokV {
    pub tt: TokenType,
    pub st: Seq<char>,
    pub line: int,
    pub col: int,
}

/// The model of a produced token.
pub open spec fn tok_view(t: Token) -> TokV {
    TokV { tt: t.tt, st: t.st@, line: t.line as int, col: t.collumn as int }
}

/// A lexer position: text not read yet, line and column.
pub struct Pos {
    pub cur: Seq<char>,
    pub line: int,
    pub col: int,
}

/// Skips spaces, tabs and newlines; a newline starts the next line at column one.
pub open spec fn skip_ws(p: Pos) -> Pos
    decreases p.cur.len(),
{
    if p.cur.len() == 0 {
        p
    } else if p.cur[0] == ' ' || p.cur[0] == '\t' {
        skip_ws(Pos { cur: p.cur.drop_first(), line: p.line, col: p.col + 1 })
    } else if p.cur[0] == '\n' {
        skip_ws(Pos { cur: p.cur.drop_first(), line: p.line + 1, col: 1 })
    } else {
        p
    }
}

/// The state of the string-literal reader.
pub struct StrSt {
    pub s: Seq<char>,
    pub last_was_slash: bool,
    pub hit: bool,
    pub line: int,
    pub col: int,
}

/// Reads the rest of a string literal (after its opening quote). A backslash escapes the
/// next character and is kept in the text in front of it; an unescaped quote closes the
/// literal. Whitespace that starts a continuation line left of the literal's column is
/// dropped. A literal that the text ends inside is an error token.
pub open spec fn string_lit(cur: Seq<char>, st: StrSt, sl: int, sc: int) -> (TokV, Pos)
    decreases cur.len(),
{
    if cur.len() == 0 {
        (
            TokV { tt: TokenType::TokenError, st: st.s, line: sl, col: sc },
            Pos { cur, line: st.line, col: st.col },
        )
    } else {
        let c = cur[0];
        let rest = cur.drop_first();
        if c == '\n' {
            string_lit(
                rest,
                StrSt { line: st.line + 1, col: 1, last_was_slash: false, hit: false, ..st },
                sl,
                sc,
            )
        } else if c == '\\' && !st.last_was_slash {
            string_lit(rest, StrSt { col: st.col + 1, last_was_slash: true, ..st }, sl, sc)
        } else if c == '"' && !st.last_was_slash {
            (
                TokV { tt: TokenType::String, st: st.s, line: sl, col: sc },
                Pos { cur: rest, line: st.line, col: st.col },
            )
        } else {
            let keep = st.col >= sc || !spec_is_whitespace(c) || st.hit;
            let s2 = if keep {
                (if st.last_was_slash {
                    st.s.push('\\')
                } else {
                    st.s
                }).push(c)
            } else {
                st.s
            };
            string_lit(
                rest,
                StrSt { s: s2, hit: keep, last_was_slash: false, col: st.col + 1, ..st },
                sl,
                sc,
            )
        }
    }
}

/// Characters that end an atom.
pub open spec fn is_delim(c: char) -> bool {
    c == ' ' || c == '\n' || c == '\t' || c == ')' || c == '('
}

/// The length of the atom at the start of `cur`.
pub open spec fn atom_len(cur: Seq<char>) -> int
    decreases cur.len(),
{
    if cur.len() == 0 || is_delim(cur[0]) {
        0
    } else {
        1 + atom_len(cur.drop_first())
    }
}

/// The kind of an atom: the keywords `fn` and `struct`, or a plain literal.
pub open spec fn atom_kind(s: Seq<char>) -> TokenType {
    if s == seq!['f', 'n'] {
        TokenType::DeFN
    } else if s == seq!['s', 't', 'r', 'u', 'c', 't'] {
        TokenType::DeStruct
    } else {
        TokenType::Literal
    }
}

/// What `parse_lit` reads at position `p` of text `v`: a string literal, a number (one
/// digit), or an atom.
pub open spec fn spec_parse_lit(v: Seq<char>, p: Pos) -> (TokV, Pos) {
    if p.cur.len() == 0 {
        (TokV { tt: TokenType::TokenNone, st: v, line: p.line, col: p.col }, p)
    } else {
        let k = p.cur[0];
        if k == '"' {
            string_lit(
                p.cur.drop_first(),
                StrSt { s: seq![], last_was_slash: false, hit: true, line: p.line, col: p.col },
                p.line,
                p.col,
            )
        } else if '0' <= k && k <= '9' {
            (
                TokV { tt: TokenType::Number, st: seq![k], line: p.line, col: p.col },
                Pos { cur: p.cur.drop_first(), line: p.line, col: p.col + 1 },
            )
        } else {
            let n = atom_len(p.cur);
            let s = p.cur.take(n);
            (
                TokV { tt: atom_kind(s), st: s, line: p.line, col: p.col },
                Pos { cur: p.cur.skip(n), line: p.line, col: p.col + n },
            )
        }
    }
}

/// A one- or two-character operator token at column `col` of line `line`.
pub open spec fn op_tok(s: Seq<char>, line: int, col: int) -> TokV {
    TokV { tt: TokenType::Operator, st: s, line, col }
}

/// What `next_token` reads at position `p` of text `v`.
pub open spec fn spec_next_token(v: Seq<char>, p0: Pos) -> (TokV, Pos) {
    let p = skip_ws(p0);
    let l = p.line;
    let col = p.col;
    if p.cur.len() == 0 || p.cur[0] == '\0' {
        (TokV { tt: TokenType::TokenNone, st: v, line: l, col }, p)
    } else {
        let c = p.cur[0];
        let r = p.cur.drop_first();
        let one = Pos { cur: r, line: l, col: col + 1 };
        let two = Pos { cur: r.drop_first(), line: l, col: col + 2 };
        let next_is = |d: char| r.len() > 0 && r[0] == d;
        if c == '(' {
            (TokV { tt: TokenType::OpenParen, st: seq!['('], line: l, col }, one)
        } else if c == ')' {
            (TokV { tt: TokenType::CloseParen, st: seq![')'], line: l, col }, one)
        } else if c == '{' {
            (TokV { tt: TokenType::OpenCurly, st: seq!['{'], line: l, col }, one)
        } else if c == '}' {
            (TokV { tt: TokenType::CloseCurly, st: seq!['}'], line: l, col }, one)
        } else if c == '[' {
            if next_is(']') {
                (op_tok(seq!['[', ']'], l, col + 1), two)
            } else {
                (TokV { tt: TokenType::OpenBracket, st: seq!['{'], line: l, col }, one)
            }
        } else if c == ']' {
            (TokV { tt: TokenType::CloseBracket, st: seq![']'], line: l, col }, one)
        } else if c == '+' || c == '-' || c == '*' || c == '=' || c == '>' {
            if next_is('=') {
                (op_tok(seq![c, '='], l, col + 1), two)
            } else {
                (op_tok(seq![c], l, col), one)
            }
        } else if c == '<' {
            if next_is('<') {
                (op_tok(seq!['<', '='], l, col + 1), two)
            } else {
                (op_tok(seq!['<'], l, col), one)
            }
        } else if c == '/' {
            if next_is('=') {
                (op_tok(seq!['/', '='], l, col + 1), two)
            } else if next_is('/') {
                let end = Pos {
                    cur: seq![],
                    line: l + r.len(),
                    col: if r.contains('\n') {
                        1
                    } else {
                        col + 1
                    },
                };
                (TokV { tt: TokenType::TokenNone, st: v, line: end.line, col: end.col }, end)
            } else {
                (op_tok(seq!['/'], l, col), one)
            }
        } else {
            spec_parse_lit(v, p)
        }
    }
}

/// The characters read in moving from `cur` to its suffix `rest` are all ASCII.
pub open spec fn read_ascii(cur: Seq<char>, rest: Seq<char>) -> bool {
    forall|i: int| 0 <= i < cur.len() - rest.len() ==> (cur[i] as u32) < 128
}

/// Lines and columns cannot overflow while the rest of the text is read.
pub open spec fn counters_fit(t: Tokenizer) -> bool {
    &&& t.line + t.current@.len() <= usize::MAX
    &&& t.collumn + t.current@.len() + 1 <= usize::MAX
}

/// The position of a tokenizer.
pub open spec fn pos_of(t: Tokenizer) -> Pos {
    Pos { cur: t.current@, line: t.line as int, col: t.collumn as int }
}

/// Skipping whitespace only drops characters from the front, one line or column step
/// for each.
pub proof fn lemma_skip_ws(p: Pos)
    requires
        p.col >= 0,
    ensures
        ({
            let q = skip_ws(p);
            &&& q.cur.len() <= p.cur.len()
            &&& q.cur == p.cur.skip(p.cur.len() - q.cur.len())
            &&& p.line <= q.line <= p.line + (p.cur.len() - q.cur.len())
            &&& 0 <= q.col <= p.col + (p.cur.len() - q.cur.len())
            &&& (q.cur.len() > 0 ==> !(q.cur[0] == ' ' || q.cur[0] == '\t' || q.cur[0] == '\n'))
        }),
    decreases p.cur.len(),
{
    if p.cur.len() > 0 && (p.cur[0] == ' ' || p.cur[0] == '\t' || p.cur[0] == '\n') {
        let p2 = if p.cur[0] == '\n' {
            Pos { cur: p.cur.drop_first(), line: p.line + 1, col: 1 }
        } else {
            Pos { cur: p.cur.drop_first(), line: p.line, col: p.col + 1 }
        };
        lemma_skip_ws(p2);
        let q = skip_ws(p2);
        assert(p.cur.drop_first().skip(p2.cur.len() - q.cur.len()) == p.cur.skip(
            p.cur.len() - q.cur.len(),
        ));
    } else {
        assert(p.cur.skip(0) == p.cur);
    }
}

/// Reading a string literal only drops characters from the front, at most one line or
/// column step for each.
pub proof fn lemma_string_lit(cur: Seq<char>, st: StrSt, sl: int, sc: int)
    requires
        st.col >= 0,
    ensures
        ({
            let (t, q) = string_lit(cur, st, sl, sc);
            &&& q.cur.len() <= cur.len()
            &&& q.cur == cur.skip(cur.len() - q.cur.len())
            &&& st.line <= q.line <= st.line + (cur.len() - q.cur.len())
            &&& 0 <= q.col <= st.col + (cur.len() - q.cur.len())
        }),
    decreases cur.len(),
{
    if cur.len() > 0 {
        let c = cur[0];
        let rest = cur.drop_first();
        if c == '\n' {
            let st2 = StrSt { line: st.line + 1, col: 1, last_was_slash: false, hit: false, ..st };
            lemma_string_lit(rest, st2, sl, sc);
            let (t, q) = string_lit(rest, st2, sl, sc);
            assert(rest.skip(rest.len() - q.cur.len()) == cur.skip(cur.len() - q.cur.len()));
        } else if c == '\\' && !st.last_was_slash {
            let st2 = StrSt { col: st.col + 1, last_was_slash: true, ..st };
            lemma_string_lit(rest, st2, sl, sc);
            let (t, q) = string_lit(rest, st2, sl, sc);
            assert(rest.skip(rest.len() - q.cur.len()) == cur.skip(cur.len() - q.cur.len()));
        } else if c == '"' && !st.last_was_slash {
            assert(rest == cur.skip(1));
        } else {
            let keep = st.col >= sc || !spec_is_whitespace(c) || st.hit;
            let s2 = if keep {
                (if st.last_was_slash {
                    st.s.push('\\')
                } else {
                    st.s
                }).push(c)
            } else {
                st.s
            };
            let st2 = StrSt { s: s2, hit: keep, last_was_slash: false, col: st.col + 1, ..st };
            lemma_string_lit(rest, st2, sl, sc);
            let (t, q) = string_lit(rest, st2, sl, sc);
            assert(rest.skip(rest.len() - q.cur.len()) == cur.skip(cur.len() - q.cur.len()));
        }
    } else {
        assert(cur.skip(0) == cur);
    }
}

/// An atom is a prefix of the text, and the character after it (if any) ends it.
pub proof fn lemma_atom_len(cur: Seq<char>)
    ensures
        0 <= atom_len(cur) <= cur.len(),
        forall|i: int| 0 <= i < atom_len(cur) ==> !is_delim(#[trigger] cur[i]),
        atom_len(cur) < cur.len() ==> is_delim(cur[atom_len(cur)]),
    decreases cur.len(),
{
    if cur.len() > 0 && !is_delim(cur[0]) {
        lemma_atom_len(cur.drop_first());
        assert forall|i: int| 0 <= i < atom_len(cur) implies !is_delim(#[trigger] cur[i]) by {
            if i > 0 {
                assert(cur[i] == cur.drop_first()[i - 1]);
            }
        }
    }
}

/// A string literal reads as a string or an error token.
proof fn lemma_string_lit_kind(cur: Seq<char>, st: StrSt, sl: int, sc: int)
    ensures
        string_lit(cur, st, sl, sc).0.tt == TokenType::String || string_lit(cur, st, sl, sc).0.tt
            == TokenType::TokenError,
    decreases cur.len(),
{
    if cur.len() > 0 {
        let c = cur[0];
        let rest = cur.drop_first();
        if c == '\n' {
            lemma_string_lit_kind(rest, StrSt { line: st.line + 1, col: 1, last_was_slash: false, hit: false, ..st }, sl, sc);
        } else if c == '\\' && !st.last_was_slash {
            lemma_string_lit_kind(rest, StrSt { col: st.col + 1, last_was_slash: true, ..st }, sl, sc);
        } else if c == '"' && !st.last_was_slash {
        } else {
            let keep = st.col >= sc || !spec_is_whitespace(c) || st.hit;
            let s2 = if keep {
                (if st.last_was_slash {
                    st.s.push('\\')
                } else {
                    st.s
                }).push(c)
            } else {
                st.s
            };
            lemma_string_lit_kind(rest, StrSt { s: s2, hit: keep, last_was_slash: false, col: st.col + 1, ..st }, sl, sc);
        }
    }
}

/// Reading a token only drops characters from the front of the text; every token but
/// the end marker drops at least one; the line never goes back; and where the text
/// holds no NUL character the end marker comes only when all of it is read, and its
/// text is the whole source. Text of only spaces, tabs and newlines reads as the end.
pub proof fn law_next_token_progress(v: Seq<char>, p: Pos)
    requires
        p.col >= 0,
    ensures
        spec_next_token(v, p).1.cur.len() <= p.cur.len(),
        spec_next_token(v, p).1.cur == p.cur.skip(p.cur.len() - spec_next_token(v, p).1.cur.len()),
        spec_next_token(v, p).0.tt != TokenType::TokenNone ==> spec_next_token(v, p).1.cur.len()
            < p.cur.len(),
        spec_next_token(v, p).1.line >= p.line,
        !p.cur.contains('\0') && spec_next_token(v, p).0.tt == TokenType::TokenNone
            ==> spec_next_token(v, p).1.cur.len() == 0 && spec_next_token(v, p).0.st == v,
        (forall|i: int| 0 <= i < p.cur.len() ==> #[trigger] p.cur[i] == ' ' || p.cur[i] == '\t'
            || p.cur[i] == '\n') ==> spec_next_token(v, p).0.tt == TokenType::TokenNone,
{
    lemma_skip_ws(p);
    let w = skip_ws(p);
    let (t, q) = spec_next_token(v, p);
    let d = p.cur.len() - w.cur.len();
    if w.cur.len() > 0 {
        assert(w.cur[0] == p.cur[d]);
        if !p.cur.contains('\0') {
            assert(w.cur[0] != '\0');
        }
    }
    if w.cur.len() > 0 && w.cur[0] != '\0' {
        let c = w.cur[0];
        let r = w.cur.drop_first();
        assert(r == p.cur.skip(d + 1));
        if r.len() > 0 {
            assert(r.drop_first() == p.cur.skip(d + 2));
        }
        if c == '"' {
            lemma_string_lit(
                r,
                StrSt { s: seq![], last_was_slash: false, hit: true, line: w.line, col: w.col },
                w.line,
                w.col,
            );
            let (t2, q2) = string_lit(
                r,
                StrSt { s: seq![], last_was_slash: false, hit: true, line: w.line, col: w.col },
                w.line,
                w.col,
            );
            assert(q2.cur == p.cur.skip(p.cur.len() - q2.cur.len()));
            lemma_string_lit_kind(
                r,
                StrSt { s: seq![], last_was_slash: false, hit: true, line: w.line, col: w.col },
                w.line,
                w.col,
            );
        } else if !(c == '(' || c == ')' || c == '{' || c == '}' || c == '[' || c == ']' || c == '+'
            || c == '-' || c == '*' || c == '=' || c == '>' || c == '<' || c == '/') && !('0' <= c
            && c <= '9') {
            lemma_atom_len(w.cur);
            let n = atom_len(w.cur);
            assert(n >= 1);
            assert(w.cur.skip(n) == p.cur.skip(d + n));
        }
        if forall|i: int| 0 <= i < p.cur.len() ==> #[trigger] p.cur[i] == ' ' || p.cur[i] == '\t'
            || p.cur[i] == '\n' {
            assert(p.cur[d] == ' ' || p.cur[d] == '\t' || p.cur[d] == '\n');
        }
    }
}

/// After any spaces, tabs and newlines (each newline starting the next line at column
/// one), a bracket or brace is a token of its own at the line and column reached, and
/// reading moves one column past it.
pub proof fn law_bracket_token(v: Seq<char>, p: Pos)
    requires
        skip_ws(p).cur.len() > 0,
        skip_ws(p).cur[0] == '(' || skip_ws(p).cur[0] == ')' || skip_ws(p).cur[0] == '{'
            || skip_ws(p).cur[0] == '}' || skip_ws(p).cur[0] == ']',
    ensures
        ({
            let w = skip_ws(p);
            let c = w.cur[0];
            let (t, q) = spec_next_token(v, p);
            &&& t.st == seq![c]
            &&& t.tt == (if c == '(' {
                TokenType::OpenParen
            } else if c == ')' {
                TokenType::CloseParen
            } else if c == '{' {
                TokenType::OpenCurly
            } else if c == '}' {
                TokenType::CloseCurly
            } else {
                TokenType::CloseBracket
            })
            &&& t.line == w.line && t.col == w.col
            &&& q == (Pos { cur: w.cur.drop_first(), line: w.line, col: w.col + 1 })
        }),
{
}

/// The number of newlines in `w`.
pub open spec fn newline_count(w: Seq<char>) -> int
    decreases w.len(),
{
    if w.len() == 0 {
        0
    } else {
        (if w[0] == '\n' {
            1int
        } else {
            0int
        }) + newline_count(w.drop_first())
    }
}

/// The number of characters of `w` after its last newline (when it has one).
pub open spec fn after_last_newline(w: Seq<char>) -> int
    decreases w.len(),
{
    if w.len() == 0 {
        0
    } else if w.drop_first().contains('\n') {
        after_last_newline(w.drop_first())
    } else {
        w.len() - 1
    }
}

/// Characters that `skip_ws` passes over.
pub open spec fn is_ws(c: char) -> bool {
    c == ' ' || c == '\t' || c == '\n'
}

proof fn lemma_skip_ws_counts(w: Seq<char>, rest: Seq<char>, line: int, col: int)
    requires
        forall|i: int| 0 <= i < w.len() ==> is_ws(#[trigger] w[i]),
        rest.len() == 0 || !is_ws(rest[0]),
    ensures
        skip_ws(Pos { cur: w + rest, line, col }) == (Pos {
            cur: rest,
            line: line + newline_count(w),
            col: if w.contains('\n') {
                1 + after_last_newline(w)
            } else {
                col + w.len()
            },
        }),
    decreases w.len(),
{
    if w.len() == 0 {
        assert(w + rest =~= rest);
    } else {
        let w2 = w.drop_first();
        assert((w + rest).drop_first() =~= w2 + rest);
        assert((w + rest)[0] == w[0]);
        assert forall|i: int| 0 <= i < w2.len() implies is_ws(#[trigger] w2[i]) by {
            assert(w2[i] == w[i + 1]);
        }
        if w[0] == '\n' {
            lemma_skip_ws_counts(w2, rest, line + 1, 1);
            assert(w.contains('\n'));
            if !w2.contains('\n') {
                assert(after_last_newline(w) == w.len() - 1);
            }
        } else {
            lemma_skip_ws_counts(w2, rest, line, col + 1);
            if w2.contains('\n') {
                let k = choose|k: int| 0 <= k < w2.len() && w2[k] == '\n';
                assert(w[k + 1] == '\n');
            }
            if w.contains('\n') {
                let k = choose|k: int| 0 <= k < w.len() && w[k] == '\n';
                assert(k != 0);
                assert(w2[k - 1] == '\n');
            }
        }
    }
}

/// Spaces, tabs and newlines and then a bracket or brace: the bracket is a token of its
/// own, on the line reached by counting the newlines skipped, at the column one past the
/// characters after the last of them (or past all of them when there is none), and
/// reading moves one column past it.
pub proof fn law_bracket_after_whitespace(v: Seq<char>, w: Seq<char>, c: char, rest: Seq<char>, line: int, col: int)
    requires
        forall|i: int| 0 <= i < w.len() ==> is_ws(#[trigger] w[i]),
        c == '(' || c == ')' || c == '{' || c == '}' || c == ']',
    ensures
        ({
            let p = Pos { cur: w + seq![c] + rest, line, col };
            let l = line + newline_count(w);
            let k = if w.contains('\n') {
                1 + after_last_newline(w)
            } else {
                col + w.len()
            };
            let (t, q) = spec_next_token(v, p);
            &&& t.st == seq![c]
            &&& t.tt == (if c == '(' {
                TokenType::OpenParen
            } else if c == ')' {
                TokenType::CloseParen
            } else if c == '{' {
                TokenType::OpenCurly
            } else if c == '}' {
                TokenType::CloseCurly
            } else {
                TokenType::CloseBracket
            })
            &&& t.line == l && t.col == k
            &&& q == (Pos { cur: rest, line: l, col: k + 1 })
        }),
{
    let r2 = seq![c] + rest;
    assert(w + seq![c] + rest =~= w + r2);
    lemma_skip_ws_counts(w, r2, line, col);
    assert(r2[0] == c);
    assert(r2.drop_first() =~= rest);
}

impl<'a> Tokenizer<'a> {
    /// A tokenizer at the start of `v`, line one, column one.
    pub fn new(v: &'a str) -> (r: Self)
        ensures
            r.v@ == v@,
            r.current@ == v@,
            r.line == 1,
            r.collumn == 1,
    {
        Tokenizer { v, current: v, line: 1, collumn: 1 }
    }

    /// The first character not read yet.
    fn first(&self) -> (r: Option<char>)
        ensures
            self.current@.len() == 0 ==> r is None,
            self.current@.len() > 0 ==> r == Some(self.current@[0]),
    {
        if self.current.is_empty() {
            None
        } else {
            Some(self.current.get_char(0))
        }
    }

    /// Moves past the first character not read yet.
    fn advance(&mut self)
        requires
            old(self).current@.len() > 0,
        ensures
            final(self).current@ == old(self).current@.drop_first(),
            final(self).v == old(self).v,
            final(self).line == old(self).line,
            final(self).collumn == old(self).collumn,
    {
        let n = self.current.unicode_len();
        self.current = self.current.substring_char(1, n);
    }

    /// Reads a string literal, a one-digit number, or an atom (the keywords `fn` and
    /// `struct` have kinds of their own). At the end of the text it returns a
    /// `TokenNone` token whose text is the whole source.
    pub fn parse_lit(&mut self) -> (r: Token)
        requires
            counters_fit(*old(self)),
            read_ascii(old(self).current@, spec_parse_lit(old(self).v@, pos_of(*old(self))).1.cur),
        ensures
            ({
                let (t, p) = spec_parse_lit(old(self).v@, pos_of(*old(self)));
                &&& tok_view(r) == t
                &&& pos_of(*final(self)) == p
                &&& final(self).v == old(self).v
            }),
    {
        let start_line = self.line;
        let start_col = self.collumn;
        let mut s: Vec<char> = Vec::new();
        let k = match self.first() {
            None => {
                return Token {
                    tt: TokenType::TokenNone,
                    st: from_chars(crate::text::to_chars(self.v).as_slice()),
                    line: self.line,
                    collumn: self.collumn,
                };
            },
            Some(k) => k,
        };
        let is_num = k >= '0' && k <= '9';
        if k == '"' {
            let ghost v0 = self.v@;
            let ghost p0 = pos_of(*self);
            let mut last_was_slash = false;
            let mut closed = false;
            let start_col = self.collumn;
            let mut hit_nonwhitespace = true;
            self.advance();
            let ghost goal = string_lit(
                self.current@,
                StrSt { s: seq![], last_was_slash: false, hit: true, line: self.line as int, col: self.collumn as int },
                start_line as int,
                start_col as int,
            );
            proof {
                lemma_string_lit(
                    self.current@,
                    StrSt { s: seq![], last_was_slash: false, hit: true, line: self.line as int, col: self.collumn as int },
                    start_line as int,
                    start_col as int,
                );
            }
            loop
                invariant_except_break
                    self.v@ == v0,
                    self.v == old(self).v,
                    !closed,
                    goal == string_lit(
                        self.current@,
                        StrSt {
                            s: s@,
                            last_was_slash,
                            hit: hit_nonwhitespace,
                            line: self.line as int,
                            col: self.collumn as int,
                        },
                        start_line as int,
                        start_col as int,
                    ),
                    old(self).line <= self.line,
                    self.line + self.current@.len() <= old(self).line + old(self).current@.len(),
                    self.collumn + self.current@.len() <= old(self).collumn + old(
                        self,
                    ).current@.len(),
                    old(self).line + old(self).current@.len() <= usize::MAX,
                    old(self).collumn + old(self).current@.len() + 1 <= usize::MAX,
                ensures
                    self.v == old(self).v,
                    goal == (
                        TokV {
                            tt: if closed {
                                TokenType::String
                            } else {
                                TokenType::TokenError
                            },
                            st: s@,
                            line: start_line as int,
                            col: start_col as int,
                        },
                        pos_of(*self),
                    ),
                decreases self.current@.len(),
            {
                let c = match self.first() {
                    None => {
                        break;
                    },
                    Some(c) => c,
                };
                self.advance();
                if c == '\n' {
                    self.line += 1;
                    self.collumn = 1;
                    last_was_slash = false;
                    hit_nonwhitespace = false;
                    continue;
                }
                if c == '\\' && !last_was_slash {
                    self.collumn += 1;
                    last_was_slash = true;
                    continue;
                }
                if c == '"' && !last_was_slash {
                    closed = true;
                    break;
                }
                if (self.collumn >= start_col) || !is_whitespace(c) || hit_nonwhitespace {
                    if last_was_slash {
                        s.push('\\');
                    }
                    s.push(c);
                    hit_nonwhitespace = true;
                }
                last_was_slash = false;
                self.collumn += 1;
            }
            let st = from_chars(s.as_slice());
            if !closed {
                return Token { tt: TokenType::TokenError, st, line: start_line, collumn: start_col };
            }
            return Token { tt: TokenType::String, st, line: start_line, collumn: start_col };
        }
        if is_num {
            self.advance();
            self.collumn += 1;
            s.push(k);
            return Token {
                tt: TokenType::Number,
                st: from_chars(s.as_slice()),
                line: start_line,
                collumn: start_col,
            };
        }
        let ghost cur0 = self.current@;
        proof {
            lemma_atom_len(cur0);
        }
        loop
            invariant_except_break
                self.v == old(self).v,
                self.line == old(self).line,
                0 <= s@.len() <= atom_len(cur0),
                s@ == cur0.take(s@.len() as int),
                self.current@ == cur0.skip(s@.len() as int),
                self.collumn == old(self).collumn + s@.len(),
                cur0 == old(self).current@,
                old(self).collumn + old(self).current@.len() + 1 <= usize::MAX,
                forall|i: int| 0 <= i < atom_len(cur0) ==> !is_delim(#[trigger] cur0[i]),
                atom_len(cur0) < cur0.len() ==> is_delim(cur0[atom_len(cur0)]),
                atom_len(cur0) <= cur0.len(),
            ensures
                self.v == old(self).v,
                self.line == old(self).line,
                s@ == cur0.take(atom_len(cur0)),
                self.current@ == cur0.skip(atom_len(cur0)),
                self.collumn == old(self).collumn + atom_len(cur0),
            decreases self.current@.len(),
        {
            let c = match self.first() {
                None => {
                    break;
                },
                Some(c) => c,
            };
            if c == ' ' || c == '\n' || c == '\t' || c == ')' || c == '(' {
                break;
            }
            assert(c == cur0[s@.len() as int]);
            self.advance();
            self.collumn += 1;
            s.push(c);
            assert(s@ == cur0.take(s@.len() as int));
            assert(self.current@ == cur0.skip(s@.len() as int));
        }
        let st = from_chars(s.as_slice());
        let fn_kw = s.len() == 2 && s[0] == 'f' && s[1] == 'n';
        let struct_kw = s.len() == 6 && s[0] == 's' && s[1] == 't' && s[2] == 'r' && s[3] == 'u'
            && s[4] == 'c' && s[5] == 't';
        if fn_kw {
            assert(s@ =~= seq!['f', 'n']);
            return Token { tt: TokenType::DeFN, st, line: start_line, collumn: start_col };
        } else if struct_kw {
            assert(s@ =~= seq!['s', 't', 'r', 'u', 'c', 't']);
            return Token { tt: TokenType::DeStruct, st, line: start_line, collumn: start_col };
        } else {
            return Token { tt: TokenType::Literal, st, line: start_line, collumn: start_col };
        }
    }

    /// A one-character token of kind `tt` at the cursor; the cursor moves past it.
    fn single(&mut self, tt: TokenType, c: char) -> (r: Token)
        requires
            old(self).current@.len() > 0,
            old(self).collumn + 1 <= usize::MAX,
        ensures
            final(self).current@ == old(self).current@.drop_first(),
            final(self).v == old(self).v,
            final(self).line == old(self).line,
            final(self).collumn == old(self).collumn + 1,
            tok_view(r) == (TokV {
                tt,
                st: seq![c],
                line: old(self).line as int,
                col: old(self).collumn as int,
            }),
    {
        self.advance();
        self.collumn += 1;
        Token { tt, st: char_string(c), line: self.line, collumn: self.collumn - 1 }
    }

    /// An operator token at the cursor: `c` alone, or `c` and the next character when
    /// that is `second`, in which case the token's text is `c` then `shown`.
    fn operator(&mut self, c: char, second: char, shown: char) -> (r: Token)
        requires
            old(self).current@.len() > 0,
            old(self).collumn + 2 <= usize::MAX,
        ensures
            final(self).v == old(self).v,
            final(self).line == old(self).line,
            ({
                let r0 = old(self).current@.drop_first();
                let l = old(self).line as int;
                let col = old(self).collumn as int;
                if r0.len() > 0 && r0[0] == second {
                    &&& final(self).current@ == r0.drop_first()
                    &&& final(self).collumn == col + 2
                    &&& tok_view(r) == op_tok(seq![c, shown], l, col + 1)
                } else {
                    &&& final(self).current@ == r0
                    &&& final(self).collumn == col + 1
                    &&& tok_view(r) == op_tok(seq![c], l, col)
                }
            }),
    {
        self.advance();
        self.collumn += 1;
        if self.first() == Some(second) {
            self.advance();
            self.collumn += 1;
            let mut st = char_string(c);
            push_char(&mut st, shown);
            assert(st@ =~= seq![c, shown]);
            Token { tt: TokenType::Operator, st, line: self.line, collumn: self.collumn - 1 }
        } else {
            Token {
                tt: TokenType::Operator,
                st: char_string(c),
                line: self.line,
                collumn: self.collumn - 1,
            }
        }
    }

    /// Reads the next token: whitespace is skipped; parentheses, braces and brackets are
    /// tokens of their own (`[]` is one operator); `+ - * = > / <` form operators, with a
    /// following `=` (or `<` after `<`) joining them; `//` comments out the rest of the
    /// text; anything else is read by `parse_lit`. At the end of the text (or at a NUL
    /// character) it returns a `TokenNone` token whose text is the whole source.
    pub fn next_token(&mut self) -> (r: Token)
        requires
            counters_fit(*old(self)),
            read_ascii(old(self).current@, spec_next_token(old(self).v@, pos_of(*old(self))).1.cur),
        ensures
            ({
                let (t, p) = spec_next_token(old(self).v@, pos_of(*old(self)));
                &&& tok_view(r) == t
                &&& pos_of(*final(self)) == p
                &&& final(self).v == old(self).v
            }),
        decreases old(self).current@.len(),
    {
        let ghost p0 = pos_of(*self);
        proof {
            lemma_skip_ws(p0);
        }
        let mut c = '\0';
        loop
            invariant_except_break
                self.v == old(self).v,
                skip_ws(pos_of(*self)) == skip_ws(p0),
                c == '\0',
                old(self).line <= self.line,
                self.line + self.current@.len() <= old(self).line + old(self).current@.len(),
                self.collumn + self.current@.len() <= old(self).collumn + old(
                    self,
                ).current@.len(),
                self.collumn >= 1 || self.collumn == old(self).collumn,
                old(self).line + old(self).current@.len() <= usize::MAX,
                old(self).collumn + old(self).current@.len() + 1 <= usize::MAX,
            ensures
                self.v == old(self).v,
                pos_of(*self) == skip_ws(p0),
                self.current@.len() == 0 ==> c == '\0',
                self.current@.len() > 0 ==> c == self.current@[0],
            decreases self.current@.len(),
        {
            match self.first() {
                None => {
                    break;
                },
                Some(k) => {
                    if k == ' ' || k == '\t' {
                        self.advance();
                        self.collumn += 1;
                    } else if k == '\n' {
                        self.advance();
                        self.collumn = 1;
                        self.line += 1;
                    } else {
                        c = k;
                        break;
                    }
                },
            }
        }
        proof {
            lemma_skip_ws(p0);
        }
        if c == '\0' {
            return Token {
                tt: TokenType::TokenNone,
                st: from_chars(crate::text::to_chars(self.v).as_slice()),
                line: self.line,
                collumn: self.collumn,
            };
        }
        let out = if c == '(' {
            self.single(TokenType::OpenParen, '(')
        } else if c == ')' {
            self.single(TokenType::CloseParen, ')')
        } else if c == '{' {
            self.single(TokenType::OpenCurly, '{')
        } else if c == '}' {
            self.single(TokenType::CloseCurly, '}')
        } else if c == '[' {
            self.advance();
            self.collumn += 1;
            if self.first() == Some(']') {
                self.advance();
                self.collumn += 1;
                let mut st = char_string('[');
                push_char(&mut st, ']');
                assert(st@ =~= seq!['[', ']']);
                Token { tt: TokenType::Operator, st, line: self.line, collumn: self.collumn - 1 }
            } else {
                Token {
                    tt: TokenType::OpenBracket,
                    st: char_string('{'),
                    line: self.line,
                    collumn: self.collumn - 1,
                }
            }
        } else if c == ']' {
            self.single(TokenType::CloseBracket, ']')
        } else if c == '+' || c == '-' || c == '*' || c == '=' || c == '>' {
            self.operator(c, '=', '=')
        } else if c == '<' {
            self.operator(c, '<', '=')
        } else if c == '/' {
            self.advance();
            self.collumn += 1;
            if self.first() == Some('=') {
                self.advance();
                self.collumn += 1;
                let mut st = char_string('/');
                push_char(&mut st, '=');
                assert(st@ =~= seq!['/', '=']);
                Token { tt: TokenType::Operator, st, line: self.line, collumn: self.collumn - 1 }
            } else if self.first() == Some('/') {
                let ghost r0 = self.current@;
                let ghost l0 = self.line as int;
                let ghost c0 = self.collumn as int;
                loop
                    invariant_except_break
                        self.v == old(self).v,
                        r0.len() >= self.current@.len(),
                        self.current@ == r0.skip(r0.len() - self.current@.len()),
                        self.line == l0 + (r0.len() - self.current@.len()),
                        self.collumn == (if r0.take(r0.len() - self.current@.len()).contains(
                            '\n',
                        ) {
                            1
                        } else {
                            c0
                        }),
                        l0 + r0.len() <= usize::MAX,
                    ensures
                        self.v == old(self).v,
                        self.current@.len() == 0,
                        self.line == l0 + r0.len(),
                        self.collumn == (if r0.contains('\n') {
                            1
                        } else {
                            c0
                        }),
                    decreases self.current@.len(),
                {
                    let ghost k = r0.len() - self.current@.len();
                    match self.first() {
                        None => {
                            assert(r0.take(k) == r0);
                            break;
                        },
                        Some(ch) => {
                            assert(ch == r0[k]);
                            self.advance();
                            if ch != '\n' {
                                self.line += 1;
                            } else {
                                self.collumn = 1;
                                self.line += 1;
                            }
                            proof {
                                let t = r0.take(k);
                                let t2 = r0.take(k + 1);
                                assert(t2 == t.push(ch));
                                if t.contains('\n') {
                                    let j = choose|j: int| 0 <= j < t.len() && t[j] == '\n';
                                    assert(t2[j] == '\n');
                                }
                                if ch == '\n' {
                                    assert(t2[k] == '\n');
                                }
                                if t2.contains('\n') {
                                    let j = choose|j: int| 0 <= j < t2.len() && t2[j] == '\n';
                                    if j < k {
                                        assert(t[j] == '\n');
                                    }
                                }
                                assert(t2.contains('\n') == (t.contains('\n') || ch == '\n'));
                            }
                            assert(self.current@ == r0.skip(k + 1));
                        },
                    }
                }
                let ghost mid = pos_of(*self);
                assert(skip_ws(mid) == mid);
                assert(self.current@ =~= Seq::<char>::empty());
                let t = self.next_token();
                assert(pos_of(*self) == mid);
                assert(r0 == skip_ws(p0).cur.drop_first());
                assert(mid == spec_next_token(old(self).v@, p0).1);
                assert(tok_view(t) == spec_next_token(old(self).v@, p0).0);
                return t;
            } else {
                Token {
                    tt: TokenType::Operator,
                    st: char_string('/'),
                    line: self.line,
                    collumn: self.collumn - 1,
                }
            }
        } else {
            self.parse_lit()
        };
        out
    }

    /// The token that `next_token` would read, without moving.
    pub fn peek_next(&self) -> (r: Token)
        requires
            counters_fit(*self),
            read_ascii(self.current@, spec_next_token(self.v@, pos_of(*self)).1.cur),
        ensures
            tok_view(r) == spec_next_token(self.v@, pos_of(*self)).0,
    {
        let mut tmp = *self;
        tmp.next_token()
    }
}

} // verus!
