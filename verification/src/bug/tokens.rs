//! The lexer of the bug language: characters to tokens, one token at a time.
use crate::text::{from_chars, str_equal, to_chars};
use vstd::prelude::*;

verus! {

/// A token: its text, the file and line it was read from, and its kind.
#[derive(Debug)]
pub struct Token {
    pub st: String,
    pub file: String,
    pub line: usize,
    pub tt: TokenType,
}

/// The model of a token.
pub struct TokenV {
    pub st: Seq<char>,
    pub file: Seq<char>,
    pub line: usize,
    pub tt: TokenType,
}

pub open spec fn tok_view(t: Token) -> TokenV {
    TokenV { st: t.st@, file: t.file@, line: t.line, tt: t.tt }
}

/// The models of a list of tokens.
pub open spec fn toks_v(s: Seq<Token>) -> Seq<TokenV> {
    Seq::new(s.len(), |i: int| tok_view(s[i]))
}

impl Clone for Token {
    fn clone(&self) -> (r: Self)
        ensures
            tok_view(r) == tok_view(*self),
    {
        Token { st: self.st.clone(), file: self.file.clone(), line: self.line, tt: self.tt }
    }
}

impl Token {
    /// Whether the token's text is `st`.
    pub fn equals(&self, st: &str) -> (r: bool)
        ensures
            r == (self.st@ == st@),
    {
        str_equal(self.st.as_str(), st)
    }
}

/// What the lexer is in the middle of reading.
#[derive(PartialEq, Eq, Structural, Clone, Copy, Debug)]
pub enum TTState {
    TTEmpty,
    TTChar,
    TTNum,
    TTString,
    TTIdent,
}

/// The kinds of token.
#[derive(PartialEq, Eq, Structural, Clone, Copy, Debug)]
pub enum TokenType {
    TokenNone,
    TokenStr,
    TokenChar,
    TokenInt,
    TokenFloat,
    TokenOpenCurl,
    TokenCloseCurl,
    TokenOpenParen,
    TokenCloseParen,
    TokenSemi,
    TokenColon,
    TokenOperator,
    TokenIdent,
    TokenComma,
    TokenDot,
    TokenOpenBracket,
    TokenCloseBracket,
    TokenTypeCount,
}

pub open spec fn spec_is_whitespace(c: char) -> bool {
    c == ' ' || c == '\n' || c == '\t' || c == '\r'
}

/// Space, newline, tab or carriage return.
pub fn is_whitespace(c: char) -> (r: bool)
    ensures
        r == spec_is_whitespace(c),
{
    if c == ' ' {
        true
    } else if c == '\n' {
        return true;
    } else if c == '\t' {
        return true;
    } else {
        return c == '\r';
    }
}

pub open spec fn spec_is_number(c: char) -> bool {
    ('0' <= c && c <= '9') || c == '.'
}

/// A decimal digit or a dot.
pub fn is_number(c: char) -> (r: bool)
    ensures
        r == spec_is_number(c),
{
    if c == '0' {
        true
    } else if c == '1' {
        return true;
    } else if c == '2' {
        return true;
    } else if c == '3' {
        return true;
    } else if c == '4' {
        return true;
    } else if c == '5' {
        return true;
    } else if c == '6' {
        return true;
    } else if c == '7' {
        return true;
    } else if c == '8' {
        return true;
    } else if c == '9' {
        return true;
    } else {
        return c == '.';
    }
}

pub open spec fn spec_is_entire_token(c: char, n: char) -> bool {
    (n == '=' && (c == '+' || c == '-' || c == '*' || c == '/' || c == '=' || c == '>' || c
        == '<')) || (n == '>' && c == '-')
}

/// Whether `c` followed by `n` is one two-character operator (`+=`, `==`, `->`, ...).
pub fn is_entire_token(c: char, n: char) -> (r: bool)
    ensures
        r == spec_is_entire_token(c, n),
{
    if n == '=' {
        if c == '+' {
            return true;
        } else if c == '-' {
            return true;
        } else if c == '*' {
            return true;
        } else if c == '/' {
            return true;
        } else if c == '=' {
            return true;
        } else if c == '>' {
            return true;
        } else if c == '<' {
            return true;
        }
    } else if n == '>' && c == '-' {
        return true;
    }
    false
}

pub open spec fn spec_is_reserved(c: char) -> bool {
    c == '(' || c == ')' || c == '+' || c == '-' || c == '*' || c == '/' || c == '{' || c == '}'
        || c == ';' || c == '.' || c == '[' || c == ']' || c == '<' || c == '=' || c == '>' || c
        == ':'
}

/// Whether `c` is a punctuation or operator character that ends an identifier.
pub fn is_reserved(c: char) -> (r: bool)
    ensures
        r == spec_is_reserved(c),
{
    if c == '(' {
        true
    } else if c == ')' {
        return true;
    } else if c == '+' {
        return true;
    } else if c == '-' {
        return true;
    } else if c == '*' {
        return true;
    } else if c == '/' {
        return true;
    } else if c == '{' {
        return true;
    } else if c == '}' {
        return true;
    } else if c == ';' {
        return true;
    } else if c == '.' {
        return true;
    } else if c == '[' {
        return true;
    } else if c == ']' {
        return true;
    } else if c == '<' {
        return true;
    } else if c == '=' {
        return true;
    } else if c == '>' {
        return true;
    } else {
        return c == ':';
    }
}

pub open spec fn spec_calc_tt(c: char) -> TokenType {
    if c == '(' {
        TokenType::TokenOpenParen
    } else if c == ')' {
        TokenType::TokenCloseParen
    } else if c == '{' {
        TokenType::TokenOpenCurl
    } else if c == '}' {
        TokenType::TokenCloseCurl
    } else if c == '[' {
        TokenType::TokenOpenBracket
    } else if c == ']' {
        TokenType::TokenCloseBracket
    } else if c == ';' {
        TokenType::TokenSemi
    } else if c == ':' {
        TokenType::TokenColon
    } else if c == '.' {
        TokenType::TokenDot
    } else if c == ',' {
        TokenType::TokenComma
    } else {
        TokenType::TokenOperator
    }
}

/// The kind of the token that starts with punctuation character `c`.
pub fn calc_tt(c: char) -> (r: TokenType)
    ensures
        r == spec_calc_tt(c),
{
    if c == '(' {
        TokenType::TokenOpenParen
    } else if c == ')' {
        return TokenType::TokenCloseParen;
    } else if c == '{' {
        return TokenType::TokenOpenCurl;
    } else if c == '}' {
        return TokenType::TokenCloseCurl;
    } else if c == '[' {
        return TokenType::TokenOpenBracket;
    } else if c == ']' {
        return TokenType::TokenCloseBracket;
    } else if c == ';' {
        return TokenType::TokenSemi;
    } else if c == ':' {
        return TokenType::TokenColon;
    } else if c == '.' {
        return TokenType::TokenDot;
    } else if c == ',' {
        return TokenType::TokenComma;
    } else {
        return TokenType::TokenOperator;
    }
}

/// The lexer's state while it reads one token.
pub struct ScanState {
    pub idx: int,
    pub line: int,
    pub s: Seq<char>,
    pub state: TTState,
    pub tt: TokenType,
    pub was_slash: bool,
    /// The token is complete.
    pub stop: bool,
}

/// The character that an escape sequence `\c` inside a char or string literal stands
/// for; `None` for an escape that the lexer drops.
pub open spec fn escaped(c: char) -> Option<char> {
    if c == 't' {
        Some('\t')
    } else if c == '"' {
        Some('"')
    } else if c == 'n' {
        Some('\n')
    } else if c == '0' {
        Some('\0')
    } else {
        None
    }
}

/// `s` with `escaped(c)` appended when there is one.
pub open spec fn push_escaped(s: Seq<char>, c: char) -> Seq<char> {
    match escaped(c) {
        Some(e) => s.push(e),
        None => s,
    }
}

/// One step of the lexer: it reads the character at `st.idx` (which must exist).
pub open spec fn scan_step(chars: Seq<char>, st: ScanState) -> ScanState {
    let c = chars[st.idx];
    let idx = st.idx + 1;
    let line = if c == '\n' {
        st.line + 1
    } else {
        st.line
    };
    let st = ScanState { idx, line, ..st };
    if st.state == TTState::TTEmpty {
        if spec_is_whitespace(c) {
            st
        } else if c == '"' {
            ScanState { state: TTState::TTString, s: st.s.push(c), ..st }
        } else if c == '\'' {
            ScanState { state: TTState::TTChar, s: st.s.push(c), ..st }
        } else if spec_is_number(c) {
            ScanState { state: TTState::TTNum, s: st.s.push(c), ..st }
        } else if c == ',' {
            ScanState { s: st.s.push(c), tt: TokenType::TokenComma, stop: true, ..st }
        } else if spec_is_reserved(c) {
            if idx < chars.len() && spec_is_entire_token(c, chars[idx]) {
                ScanState {
                    idx: idx + 1,
                    s: st.s.push(c).push(c),
                    tt: spec_calc_tt(c),
                    stop: true,
                    ..st
                }
            } else {
                ScanState { s: st.s.push(c), tt: spec_calc_tt(c), stop: true, ..st }
            }
        } else {
            ScanState { state: TTState::TTIdent, s: st.s.push(c), ..st }
        }
    } else if st.state == TTState::TTChar || st.state == TTState::TTString {
        let close = if st.state == TTState::TTChar {
            '\''
        } else {
            '"'
        };
        if st.was_slash {
            ScanState { s: push_escaped(st.s, c), was_slash: false, ..st }
        } else if c == '\\' {
            ScanState { was_slash: true, ..st }
        } else if c == close {
            ScanState { s: st.s.push(c), stop: true, ..st }
        } else {
            ScanState { s: st.s.push(c), was_slash: false, ..st }
        }
    } else if st.state == TTState::TTIdent {
        if spec_is_whitespace(c) || spec_is_reserved(c) {
            ScanState {
                idx: idx - 1,
                line: if c == '\n' {
                    line - 1
                } else {
                    line
                },
                stop: true,
                ..st
            }
        } else {
            ScanState { s: st.s.push(c), ..st }
        }
    } else {
        if spec_is_number(c) {
            ScanState { s: st.s.push(c), ..st }
        } else {
            ScanState { idx: idx - 1, stop: true, ..st }
        }
    }
}

/// Runs the lexer from state `st` until the token is complete or the characters end.
pub open spec fn scan(chars: Seq<char>, st: ScanState) -> ScanState
    decreases chars.len() - st.idx,
{
    if st.stop || st.idx < 0 || st.idx >= chars.len() {
        st
    } else {
        let st2 = scan_step(chars, st);
        if st2.stop || st2.idx <= st.idx {
            st2
        } else {
            scan(chars, st2)
        }
    }
}

/// The state in which the lexer starts a token at position `idx`.
pub open spec fn scan_start(idx: int, line: int) -> ScanState {
    ScanState {
        idx,
        line,
        s: seq![],
        state: TTState::TTEmpty,
        tt: TokenType::TokenNone,
        was_slash: false,
        stop: false,
    }
}

/// The kind of a completed token.
pub open spec fn final_tt(st: ScanState) -> TokenType {
    if st.state == TTState::TTNum {
        if st.s.contains('.') && st.s != seq!['.'] {
            TokenType::TokenFloat
        } else if st.s != seq!['.'] {
            TokenType::TokenInt
        } else {
            TokenType::TokenDot
        }
    } else if st.state == TTState::TTChar {
        TokenType::TokenChar
    } else if st.state == TTState::TTString {
        TokenType::TokenStr
    } else if st.state == TTState::TTIdent {
        TokenType::TokenIdent
    } else if st.s == seq!['.'] {
        TokenType::TokenDot
    } else {
        st.tt
    }
}

/// A token as the lexer reports it: text, line and kind.
pub struct TokenView {
    pub st: Seq<char>,
    pub line: int,
    pub tt: TokenType,
}

/// The position after the token; reading the last character moves one past the end.
pub open spec fn next_idx(chars: Seq<char>, st: ScanState) -> int {
    if st.idx == chars.len() {
        chars.len() + 1int
    } else {
        st.idx
    }
}

/// What `next` does from position `idx` on line `line`: the token read (if any), and
/// the new position and line.
pub open spec fn next_token(chars: Seq<char>, idx: int, line: int) -> (Option<TokenView>, int, int) {
    if idx >= chars.len() {
        (None, idx, line)
    } else {
        let st = scan(chars, scan_start(idx, line));
        let tok = if st.s.len() == 0 {
            None
        } else {
            Some(TokenView { st: st.s, line: st.line, tt: final_tt(st) })
        };
        (tok, next_idx(chars, st), st.line)
    }
}

/// A token's model.
pub open spec fn token_view(t: Token) -> TokenView {
    TokenView { st: t.st@, line: t.line as int, tt: t.tt }
}

/// Reading a token from a position inside the text moves past that position.
pub proof fn lemma_next_token(chars: Seq<char>, idx: int, line: int)
    requires
        0 <= idx <= chars.len() + 1,
    ensures
        ({
            let (tok, i2, l2) = next_token(chars, idx, line);
            &&& idx <= i2 <= chars.len() + 1
            &&& (tok is Some ==> idx < i2)
            &&& (idx < chars.len() ==> idx < i2)
        }),
{
    if idx < chars.len() {
        lemma_scan(chars, scan_start(idx, line));
    }
}

/// From a fresh state, the lexer reads no character into a token exactly when only
/// whitespace is left, and then it reads to the end.
proof fn lemma_scan_blank(chars: Seq<char>, st: ScanState)
    requires
        0 <= st.idx <= chars.len(),
        st.state == TTState::TTEmpty,
        st.s.len() == 0,
        !st.stop,
    ensures
        scan(chars, st).s.len() == 0 <==> (forall|i: int| st.idx <= i < chars.len() ==> spec_is_whitespace(#[trigger] chars[i])),
        scan(chars, st).s.len() == 0 ==> scan(chars, st).idx == chars.len(),
    decreases chars.len() - st.idx,
{
    if st.idx < chars.len() {
        let st2 = scan_step(chars, st);
        lemma_scan_step(chars, st);
        let c = chars[st.idx];
        if spec_is_whitespace(c) {
            assert(st2.state == TTState::TTEmpty && st2.s.len() == 0 && !st2.stop && st2.idx == st.idx + 1);
            lemma_scan_blank(chars, st2);
            assert forall|i: int| st.idx <= i < chars.len() && (forall|j: int| st2.idx <= j < chars.len() ==> spec_is_whitespace(#[trigger] chars[j])) implies spec_is_whitespace(#[trigger] chars[i]) by {
                if i > st.idx {
                    assert(spec_is_whitespace(chars[i]));
                }
            }
        } else {
            assert(st2.s.len() > 0);
            if !(st2.stop || st2.idx <= st.idx) {
                lemma_scan(chars, st2);
            }
        }
    }
}

/// `next` finds no token exactly when only whitespace is left; a token it finds is
/// not empty and moves the position on; and after it finds none, it finds none again.
pub proof fn law_next_token_none(chars: Seq<char>, idx: int, line: int)
    requires
        0 <= idx <= chars.len() + 1,
    ensures
        next_token(chars, idx, line).0 is None <==> (forall|i: int| idx <= i < chars.len() ==> spec_is_whitespace(#[trigger] chars[i])),
        next_token(chars, idx, line).0 matches Some(t) ==> t.st.len() > 0 && next_token(chars, idx, line).1 > idx,
        next_token(chars, idx, line).0 is None ==> next_token(
            chars,
            next_token(chars, idx, line).1,
            next_token(chars, idx, line).2,
        ).0 is None,
{
    lemma_next_token(chars, idx, line);
    if idx < chars.len() {
        lemma_scan_blank(chars, scan_start(idx, line));
    }
}

/// The tokens read one after another from position `idx` on line `line` until `next`
/// finds none.
pub open spec fn all_tokens(chars: Seq<char>, idx: int, line: int) -> Seq<TokenView>
    decreases chars.len() + 1 - idx,
{
    let (tok, i2, l2) = next_token(chars, idx, line);
    match tok {
        Some(t) => if idx < i2 <= chars.len() + 1 {
            seq![t] + all_tokens(chars, i2, l2)
        } else {
            seq![]
        },
        None => seq![],
    }
}

/// A lexer over the characters of one source file.
#[derive(Clone, Debug)]
pub struct TokenStream {
    idx: usize,
    line: usize,
    file: String,
    chars: Vec<char>,
}

/// The lexer's model: its characters, position, line and file name.
pub struct TokenStreamView {
    pub chars: Seq<char>,
    pub idx: int,
    pub line: int,
    pub file: Seq<char>,
}

impl View for TokenStream {
    type V = TokenStreamView;

    closed spec fn view(&self) -> TokenStreamView {
        TokenStreamView {
            chars: self.chars@,
            idx: self.idx as int,
            line: self.line as int,
            file: self.file@,
        }
    }
}

/// Reading a character moves the position by one and the line by at most one; a
/// step never moves the position back past where it started.
pub proof fn lemma_scan_step(chars: Seq<char>, st: ScanState)
    requires
        0 <= st.idx < chars.len(),
        !st.stop,
    ensures
        ({
            let st2 = scan_step(chars, st);
            &&& st.idx <= st2.idx <= chars.len()
            &&& st.line <= st2.line <= st.line + 1
            &&& st2.line - st.line <= st2.idx - st.idx + 1
            &&& (st2.idx == st.idx ==> st2.stop)
            &&& (!st2.stop ==> st2.idx == st.idx + 1 && st2.line - st.line <= 1)
            &&& (st.state == TTState::TTEmpty ==> st2.idx >= st.idx + 1)
            &&& (st2.line - st.line == st2.idx - st.idx + 1 ==> st2.idx == st.idx)
        }),
{
}

/// Over a whole token, the line grows by at most the number of characters read, plus
/// one when the token is a number that stopped at a newline.
pub proof fn lemma_scan(chars: Seq<char>, st: ScanState)
    requires
        0 <= st.idx <= chars.len(),
    ensures
        ({
            let st2 = scan(chars, st);
            &&& st.idx <= st2.idx <= chars.len()
            &&& st.line <= st2.line
            &&& st2.line - st.line <= st2.idx - st.idx + 1
            &&& (st2.idx == st.idx ==> st2.line <= st.line + 1)
            &&& (st2.s.len() >= st.s.len())
            &&& (st2.s.len() > st.s.len() && st2.idx == st.idx ==> st2.stop)
            &&& (st.idx < chars.len() && !st.stop && st.state == TTState::TTEmpty ==> st2.idx
                > st.idx)
        }),
    decreases chars.len() - st.idx,
{
    if st.stop || st.idx >= chars.len() {
    } else {
        lemma_scan_step(chars, st);
        let st2 = scan_step(chars, st);
        if st2.stop || st2.idx <= st.idx {
        } else {
            lemma_scan(chars, st2);
        }
    }
}

impl TokenStream {
    /// Positions and lines stay in range: the line never exceeds twice the position
    /// plus one, so no counter can overflow.
    pub closed spec fn wf(&self) -> bool {
        &&& self.idx <= self.chars@.len() + 1
        &&& 1 <= self.line <= 2 * self.idx + 1
        &&& self.chars@.len() <= usize::MAX / 8
    }

    /// A lexer at the start of `chars`, on line one. The lexer holds the text as a
    /// vector of 4-byte characters, and no allocation exceeds `isize::MAX` bytes, so a
    /// text the lexer can hold has at most `usize::MAX / 8` characters.
    pub fn new(chars: &str, file: &str) -> (r: Self)
        requires
            chars@.len() <= usize::MAX / 8,
        ensures
            r.wf(),
            r@.chars == chars@,
            r@.idx == 0,
            r@.line == 1,
            r@.file == file@,
    {
        let file_chars = to_chars(file);
        Self { chars: to_chars(chars), idx: 0, line: 1, file: from_chars(file_chars.as_slice()) }
    }

    /// Reads the next token. Whitespace is skipped; a token that runs into the end of
    /// the text ends there; `None` when nothing but whitespace is left.
    pub fn next(&mut self) -> (r: Option<Token>)
        requires
            old(self).wf(),
        ensures
            final(self).wf(),
            final(self)@.chars == old(self)@.chars,
            final(self)@.file == old(self)@.file,
            ({
                let (tok, idx, line) = next_token(old(self)@.chars, old(self)@.idx, old(self)@.line);
                &&& final(self)@.idx == idx
                &&& final(self)@.line == line
                &&& match tok {
                    Some(t) => r matches Some(o) && o.st@ == t.st && o.line == t.line && o.tt
                        == t.tt && o.file@ == old(self)@.file,
                    None => r is None,
                }
            }),
    {
        let ghost chars = self.chars@;
        let mut s: Vec<char> = Vec::new();
        let mut state = TTState::TTEmpty;
        let mut tt = TokenType::TokenNone;
        let mut was_slash = false;
        if self.idx >= self.chars.len() {
            return None;
        }
        let ghost start = scan_start(self.idx as int, self.line as int);
        let ghost start_idx = self.idx as int;
        let ghost start_line = self.line as int;
        proof {
            lemma_scan(chars, start);
        }
        while self.idx < self.chars.len()
            invariant_except_break
                self.chars@ == chars,
                self.file@ == old(self)@.file,
                self.chars@.len() <= usize::MAX / 8,
                start_idx <= self.idx <= chars.len(),
                start_line <= self.line,
                self.line - start_line <= self.idx - start_idx,
                start_line <= 2 * start_idx + 1,
                1 <= start_line,
                start == scan_start(start_idx, start_line),
                scan(chars, start) == scan(
                    chars,
                    ScanState {
                        idx: self.idx as int,
                        line: self.line as int,
                        s: s@,
                        state,
                        tt,
                        was_slash,
                        stop: false,
                    },
                ),
                s@.len() <= self.idx - start_idx,
            ensures
                self.chars@ == chars,
                self.file@ == old(self)@.file,
                self.chars@.len() <= usize::MAX / 8,
                start_idx <= self.idx <= chars.len(),
                start_line <= 2 * start_idx + 1,
                1 <= start_line,
                ({
                    let fin = scan(chars, start);
                    &&& fin.idx == self.idx
                    &&& fin.line == self.line
                    &&& fin.s == s@
                    &&& fin.state == state
                    &&& fin.tt == tt
                }),
            decreases chars.len() - self.idx,
        {
            let ghost cur = ScanState {
                idx: self.idx as int,
                line: self.line as int,
                s: s@,
                state,
                tt,
                was_slash,
                stop: false,
            };
            let ghost nxt = scan_step(chars, cur);
            proof {
                lemma_scan_step(chars, cur);
            }
            let c = self.chars[self.idx];
            self.idx += 1;
            if c == '\n' {
                self.line += 1;
            }
            if state == TTState::TTEmpty {
                if is_whitespace(c) {
                    continue;
                } else if c == '"' {
                    state = TTState::TTString;
                    s.push(c);
                    continue;
                } else if c == '\'' {
                    state = TTState::TTChar;
                    s.push(c);
                    continue;
                } else if is_number(c) {
                    state = TTState::TTNum;
                    s.push(c);
                    continue;
                } else if c == ',' {
                    s.push(c);
                    tt = TokenType::TokenComma;
                    break;
                } else if is_reserved(c) {
                    let has_next = self.idx < self.chars.len();
                    s.push(c);
                    if has_next {
                        let n = self.chars[self.idx];
                        if is_entire_token(c, n) {
                            self.idx += 1;
                            s.push(c);
                        }
                    }
                    tt = calc_tt(c);
                    break;
                } else {
                    state = TTState::TTIdent;
                    s.push(c);
                    continue;
                }
            } else if state == TTState::TTChar || state == TTState::TTString {
                let close = if state == TTState::TTChar {
                    '\''
                } else {
                    '"'
                };
                if was_slash {
                    if c == 't' {
                        s.push('\t');
                    } else if c == '"' {
                        s.push('"');
                    } else if c == 'n' {
                        s.push('\n');
                    } else if c == '0' {
                        s.push('\0');
                    }
                    was_slash = false;
                } else if c == '\\' {
                    was_slash = true;
                } else {
                    s.push(c);
                    if c == close {
                        break;
                    }
                    was_slash = false;
                }
            } else if state == TTState::TTIdent {
                if is_whitespace(c) || is_reserved(c) {
                    self.idx -= 1;
                    if c == '\n' {
                        self.line -= 1;
                    }
                    break;
                } else {
                    s.push(c);
                }
            } else {
                if is_number(c) {
                    s.push(c);
                } else {
                    self.idx -= 1;
                    break;
                }
            }
        }
        proof {
            lemma_scan(chars, start);
        }
        if self.idx == self.chars.len() {
            self.idx = self.chars.len() + 1;
        }
        let out_st = from_chars(s.as_slice());
        let is_dot = s.len() == 1 && s[0] == '.';
        if is_dot {
            assert(s@ =~= seq!['.']);
        }
        if is_dot {
            tt = TokenType::TokenDot;
        }
        if state == TTState::TTNum {
            let mut has_dot = false;
            let mut k: usize = 0;
            while k < s.len()
                invariant
                    k <= s@.len(),
                    has_dot == (exists|j: int| 0 <= j < k && s@[j] == '.'),
                decreases s@.len() - k,
            {
                if s[k] == '.' {
                    has_dot = true;
                }
                k += 1;
            }
            assert(has_dot == s@.contains('.'));
            if has_dot && !is_dot {
                tt = TokenType::TokenFloat;
            } else if !is_dot {
                tt = TokenType::TokenInt;
            }
        } else if state == TTState::TTChar {
            tt = TokenType::TokenChar;
        } else if state == TTState::TTString {
            tt = TokenType::TokenStr;
        } else if state == TTState::TTIdent {
            tt = TokenType::TokenIdent;
        }
        if s.len() == 0 {
            return None;
        }
        Some(Token { st: out_st, file: self.file.clone(), line: self.line, tt })
    }

    /// Reads every remaining token.
    pub fn collect(&mut self) -> (r: Vec<Token>)
        requires
            old(self).wf(),
        ensures
            final(self).wf(),
            final(self)@.chars == old(self)@.chars,
            final(self)@.file == old(self)@.file,
            r@.map_values(|t: Token| token_view(t)) == all_tokens(
                old(self)@.chars,
                old(self)@.idx,
                old(self)@.line,
            ),
            forall|i: int| 0 <= i < r@.len() ==> (#[trigger] r@[i]).file@ == old(self)@.file,
            next_token(final(self)@.chars, final(self)@.idx, final(self)@.line).0 is None,
    {
        let ghost chars = self@.chars;
        let mut out: Vec<Token> = Vec::new();
        loop
            invariant
                self.wf(),
                self@.chars == chars,
                self@.file == old(self)@.file,
                chars == old(self)@.chars,
                all_tokens(chars, old(self)@.idx, old(self)@.line) == out@.map_values(
                    |t: Token| token_view(t),
                ) + all_tokens(chars, self@.idx, self@.line),
                forall|i: int| 0 <= i < out@.len() ==> (#[trigger] out@[i]).file@ == old(
                    self,
                )@.file,
            decreases chars.len() + 1 - self@.idx,
        {
            proof {
                lemma_next_token(chars, self@.idx, self@.line);
                law_next_token_none(chars, self@.idx as int, self@.line as int);
            }
            let ghost before = out@.map_values(|t: Token| token_view(t));
            match self.next() {
                Some(v) => {
                    out.push(v);
                    assert(out@.map_values(|t: Token| token_view(t)) =~= before.push(
                        token_view(v),
                    ));
                },
                None => {
                    assert(out@.map_values(|t: Token| token_view(t)) + Seq::<TokenView>::empty()
                        =~= out@.map_values(|t: Token| token_view(t)));
                    return out;
                },
            }
        }
    }

    /// The token that `next` would read, without moving.
    pub fn peek(&self) -> (r: Option<Token>)
        requires
            self.wf(),
        ensures
            match next_token(self@.chars, self@.idx, self@.line).0 {
                Some(t) => r matches Some(o) && o.st@ == t.st && o.line == t.line && o.tt == t.tt
                    && o.file@ == self@.file,
                None => r is None,
            },
    {
        let mut prev = TokenStream {
            idx: self.idx,
            line: self.line,
            file: self.file.clone(),
            chars: self.chars.clone(),
        };
        assert(prev.chars@ =~= self.chars@);
        let out = prev.next()?;
        Some(out)
    }
}

} // verus!
