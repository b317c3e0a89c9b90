use vstd::prelude::*;

use crate::scan::{
    comment_pred, digit_pred, digit_value, digits_value, ident_pred, is_digit, is_whitespace_start,
    lemma_digits_value_grows, lemma_digits_value_nonneg, lemma_scan_end, peek_at, scan_end,
    whitespace_pred,
};
use crate::text::{
    chars_of, is_alphanumeric, is_whitespace, string_eq, string_from_chars, string_from_str,
};

verus! {

/// Tokens of the language.
#[derive(Debug, PartialEq)]
pub enum Token {
    Integer(i64),
    Identifier(String),
    Operator(String),
    OpenBrace,
    CloseBrace,
    OpenBracket,
    CloseBracket,
    OpenParen,
    CloseParen,
    Colon,
    ColonEquals,
    Let,
    Var,
    Do,
    SetKeyword,
    On,
    EndOfInput,
}

impl Clone for Token {
    fn clone(&self) -> (r: Self)
        ensures
            r == *self,
    {
        match self {
            Token::Integer(v) => Token::Integer(*v),
            Token::Identifier(s) => Token::Identifier(s.clone()),
            Token::Operator(s) => Token::Operator(s.clone()),
            Token::OpenBrace => Token::OpenBrace,
            Token::CloseBrace => Token::CloseBrace,
            Token::OpenBracket => Token::OpenBracket,
            Token::CloseBracket => Token::CloseBracket,
            Token::OpenParen => Token::OpenParen,
            Token::CloseParen => Token::CloseParen,
            Token::Colon => Token::Colon,
            Token::ColonEquals => Token::ColonEquals,
            Token::Let => Token::Let,
            Token::Var => Token::Var,
            Token::Do => Token::Do,
            Token::SetKeyword => Token::SetKeyword,
            Token::On => Token::On,
            Token::EndOfInput => Token::EndOfInput,
        }
    }
}

/// The view of a token: its text as characters.
pub enum TokenV {
    Integer(i64),
    Identifier(Seq<char>),
    Operator(Seq<char>),
    OpenBrace,
    CloseBrace,
    OpenBracket,
    CloseBracket,
    OpenParen,
    CloseParen,
    Colon,
    ColonEquals,
    Let,
    Var,
    Do,
    SetKeyword,
    On,
    EndOfInput,
}

pub open spec fn token_view(t: Token) -> TokenV {
    match t {
        Token::Integer(v) => TokenV::Integer(v),
        Token::Identifier(s) => TokenV::Identifier(s@),
        Token::Operator(s) => TokenV::Operator(s@),
        Token::OpenBrace => TokenV::OpenBrace,
        Token::CloseBrace => TokenV::CloseBrace,
        Token::OpenBracket => TokenV::OpenBracket,
        Token::CloseBracket => TokenV::CloseBracket,
        Token::OpenParen => TokenV::OpenParen,
        Token::CloseParen => TokenV::CloseParen,
        Token::Colon => TokenV::Colon,
        Token::ColonEquals => TokenV::ColonEquals,
        Token::Let => TokenV::Let,
        Token::Var => TokenV::Var,
        Token::Do => TokenV::Do,
        Token::SetKeyword => TokenV::SetKeyword,
        Token::On => TokenV::On,
        Token::EndOfInput => TokenV::EndOfInput,
    }
}

pub open spec fn tokens_view(ts: Seq<Token>) -> Seq<TokenV> {
    ts.map_values(|t: Token| token_view(t))
}

/// The spelling of a keyword token.
pub open spec fn keyword_text(t: TokenV) -> Option<Seq<char>> {
    match t {
        TokenV::Let => Some("let"@),
        TokenV::Var => Some("var"@),
        TokenV::SetKeyword => Some("set"@),
        TokenV::Do => Some("do"@),
        TokenV::On => Some("on"@),
        _ => None,
    }
}

impl Token {
    /// The spelling of a keyword token; `None` for the other tokens.
    pub fn to_keyword(&self) -> (r: Option<String>)
        ensures
            match keyword_text(token_view(*self)) {
                Some(k) => r matches Some(s) && s@ == k,
                None => r is None,
            },
    {
        match self {
            Token::Let => Some(string_from_str("let")),
            Token::Var => Some(string_from_str("var")),
            Token::SetKeyword => Some(string_from_str("set")),
            Token::Do => Some(string_from_str("do")),
            Token::On => Some(string_from_str("on")),
            _ => None,
        }
    }
}

/// Whether two tokens are the same token.
pub fn same_token(a: &Token, b: &Token) -> (r: bool)
    ensures
        r == (token_view(*a) == token_view(*b)),
{
    match (a, b) {
        (Token::Integer(x), Token::Integer(y)) => *x == *y,
        (Token::Identifier(x), Token::Identifier(y)) => string_eq(x, y),
        (Token::Operator(x), Token::Operator(y)) => string_eq(x, y),
        (Token::OpenBrace, Token::OpenBrace) => true,
        (Token::CloseBrace, Token::CloseBrace) => true,
        (Token::OpenBracket, Token::OpenBracket) => true,
        (Token::CloseBracket, Token::CloseBracket) => true,
        (Token::OpenParen, Token::OpenParen) => true,
        (Token::CloseParen, Token::CloseParen) => true,
        (Token::Colon, Token::Colon) => true,
        (Token::ColonEquals, Token::ColonEquals) => true,
        (Token::Let, Token::Let) => true,
        (Token::Var, Token::Var) => true,
        (Token::Do, Token::Do) => true,
        (Token::SetKeyword, Token::SetKeyword) => true,
        (Token::On, Token::On) => true,
        (Token::EndOfInput, Token::EndOfInput) => true,
        _ => false,
    }
}

/// The characters that make up operators.
pub open spec fn is_operator_char(c: char) -> bool {
    c == '~' || c == '!' || c == '@' || c == '$' || c == '%' || c == '^' || c == '&' || c == '*'
        || c == '-' || c == '+' || c == '=' || c == '|' || c == '/' || c == ',' || c == '<'
        || c == '>'
}

pub open spec fn operator_pred() -> spec_fn(char) -> bool {
    |c: char| is_operator_char(c)
}

/// The token a word spells: one of the keywords or an identifier.
pub open spec fn word_token(w: Seq<char>) -> TokenV {
    if w == seq!['l', 'e', 't'] {
        TokenV::Let
    } else if w == seq!['v', 'a', 'r'] {
        TokenV::Var
    } else if w == seq!['d', 'o'] {
        TokenV::Do
    } else if w == seq!['s', 'e', 't'] {
        TokenV::SetKeyword
    } else if w == seq!['o', 'n'] {
        TokenV::On
    } else {
        TokenV::Identifier(w)
    }
}

/// A word lexes as the keyword it spells or as an identifier of itself: where the token
/// of a word is a keyword, the keyword's spelling is that word; otherwise the token is the
/// identifier with the word as its name.
pub proof fn law_word_spelling(w: Seq<char>)
    ensures
        keyword_text(word_token(w)) matches Some(k) ==> k == w,
        keyword_text(word_token(w)) is None ==> word_token(w) == TokenV::Identifier(w),
{
    reveal_strlit("let");
    reveal_strlit("var");
    reveal_strlit("set");
    reveal_strlit("do");
    reveal_strlit("on");
    assert("let"@ =~= seq!['l', 'e', 't']);
    assert("var"@ =~= seq!['v', 'a', 'r']);
    assert("set"@ =~= seq!['s', 'e', 't']);
    assert("do"@ =~= seq!['d', 'o']);
    assert("on"@ =~= seq!['o', 'n']);
}

/// What the lexer finds from a position: the end of input, a token and where the next
/// one starts, or a failure (an unknown character or a number too large for `i64`).
pub enum Next {
    End,
    Tok(TokenV, int),
    Fail,
}

/// The token that starts at `i`, a character that starts neither a comment nor blank
/// space nor the end of input.
pub open spec fn token_at(cs: Seq<char>, i: int) -> Next {
    let c = cs[i];
    if c == ':' {
        if peek_at(cs, i + 1) == '=' {
            Next::Tok(TokenV::ColonEquals, i + 2)
        } else {
            Next::Tok(TokenV::Colon, i + 1)
        }
    } else if c == '(' {
        Next::Tok(TokenV::OpenParen, i + 1)
    } else if c == ')' {
        Next::Tok(TokenV::CloseParen, i + 1)
    } else if c == '{' {
        Next::Tok(TokenV::OpenBrace, i + 1)
    } else if c == '}' {
        Next::Tok(TokenV::CloseBrace, i + 1)
    } else if c == '[' {
        Next::Tok(TokenV::OpenBracket, i + 1)
    } else if c == ']' {
        Next::Tok(TokenV::CloseBracket, i + 1)
    } else if is_digit(c) {
        let j = scan_end(cs, i, digit_pred());
        let v = digits_value(cs.subrange(i, j));
        if v <= i64::MAX {
            Next::Tok(TokenV::Integer(v as i64), j)
        } else {
            Next::Fail
        }
    } else if 'a' <= c <= 'z' || 'A' <= c <= 'Z' {
        let j = scan_end(cs, i, ident_pred());
        Next::Tok(word_token(cs.subrange(i, j)), j)
    } else if is_operator_char(c) {
        let j = scan_end(cs, i, operator_pred());
        Next::Tok(TokenV::Operator(cs.subrange(i, j)), j)
    } else {
        Next::Fail
    }
}

/// The next token from position `i`, after comments (`#` to the end of the line) and blank
/// space (a run of white space starting with a space, tab or line feed).
pub open spec fn next_token(cs: Seq<char>, i: int) -> Next
    decreases cs.len() - i,
{
    if i < 0 || i >= cs.len() || cs[i] == '\0' {
        Next::End
    } else if cs[i] == '#' {
        let j = scan_end(cs, i, comment_pred());
        if i < j <= cs.len() {
            next_token(cs, j)
        } else {
            Next::Fail
        }
    } else if cs[i] == ' ' || cs[i] == '\t' || cs[i] == '\n' {
        let j = scan_end(cs, i, whitespace_pred());
        if i < j <= cs.len() {
            next_token(cs, j)
        } else {
            Next::Fail
        }
    } else {
        token_at(cs, i)
    }
}

/// The tokens from position `i` on, or `None` where lexing fails.
pub open spec fn lex_from(cs: Seq<char>, i: int) -> Option<Seq<TokenV>>
    decreases cs.len() - i,
{
    match next_token(cs, i) {
        Next::End => Some(Seq::empty()),
        Next::Fail => None,
        Next::Tok(t, j) => if i < j <= cs.len() {
            match lex_from(cs, j) {
                Some(rest) => Some(seq![t] + rest),
                None => None,
            }
        } else {
            None
        },
    }
}

/// The tokens of a program text, or `None` where the lexer stops on an unknown character
/// or a number that does not fit in an `i64`.
pub open spec fn lex_spec(cs: Seq<char>) -> Option<Seq<TokenV>> {
    lex_from(cs, 0)
}

/// The characters operators are written with: `~!@$%^&*-+=|/,<>`.
pub open spec fn operator_alphabet() -> Seq<char> {
    seq!['~', '!', '@', '$', '%', '^', '&', '*', '-', '+', '=', '|', '/', ',', '<', '>']
}

proof fn lemma_operator_alphabet(c: char)
    requires
        operator_alphabet().contains(c),
    ensures
        is_operator_char(c),
        operator_pred()(c),
        c != ':' && c != '(' && c != ')' && c != '{' && c != '}' && c != '[' && c != ']',
        c != '#' && c != ' ' && c != '\t' && c != '\n' && c != '\0',
        !is_digit(c),
        !('a' <= c <= 'z' || 'A' <= c <= 'Z'),
{
    let k = choose|k: int| 0 <= k < operator_alphabet().len() && operator_alphabet()[k] == c;
    assert(0 <= k < 16);
}

/// A non-empty text written only with operator characters lexes as one operator token
/// spelled by the whole text; in particular each of `~!@$%^&*-+=|/,<>` on its own is an
/// operator.
pub proof fn law_operator_text(cs: Seq<char>)
    requires
        cs.len() > 0,
        forall|k: int| 0 <= k < cs.len() ==> operator_alphabet().contains(#[trigger] cs[k]),
    ensures
        lex_spec(cs) == Some(seq![TokenV::Operator(cs)]),
{
    assert forall|k: int| 0 <= k < cs.len() implies #[trigger] operator_pred()(cs[k]) by {
        lemma_operator_alphabet(cs[k]);
    }
    lemma_operator_alphabet(cs[0]);
    lemma_scan_end(cs, 0, operator_pred());
    let j = scan_end(cs, 0, operator_pred());
    if j < cs.len() {
        assert(operator_pred()(cs[j]));
    }
    assert(j == cs.len());
    assert(cs.subrange(0, j) =~= cs);
    assert(token_at(cs, 0) == Next::Tok(TokenV::Operator(cs), cs.len() as int));
    assert(next_token(cs, 0) == Next::Tok(TokenV::Operator(cs), cs.len() as int));
    assert(next_token(cs, cs.len() as int) == Next::End);
    assert(lex_from(cs, cs.len() as int) == Some(Seq::<TokenV>::empty()));
    assert(seq![TokenV::Operator(cs)] + Seq::<TokenV>::empty() =~= seq![TokenV::Operator(cs)]);
}

/// An operator is the longest run of operator characters: a text that starts with such a
/// run, followed by anything that does not start with an operator character, yields first
/// the operator spelled by the run and goes on right after it.
pub proof fn law_operator_run(ops: Seq<char>, rest: Seq<char>)
    requires
        ops.len() > 0,
        forall|k: int| 0 <= k < ops.len() ==> operator_alphabet().contains(#[trigger] ops[k]),
        rest.len() > 0 ==> !is_operator_char(rest[0]),
    ensures
        next_token(ops + rest, 0) == Next::Tok(TokenV::Operator(ops), ops.len() as int),
{
    let cs = ops + rest;
    assert forall|k: int| 0 <= k < ops.len() implies #[trigger] operator_pred()(cs[k]) by {
        lemma_operator_alphabet(ops[k]);
    }
    lemma_operator_alphabet(ops[0]);
    lemma_scan_end(cs, 0, operator_pred());
    let j = scan_end(cs, 0, operator_pred());
    if j < ops.len() {
        assert(operator_pred()(cs[j]));
    }
    if j > ops.len() {
        assert(operator_pred()(cs[ops.len() as int]));
        assert(cs[ops.len() as int] == rest[0]);
    }
    assert(j == ops.len());
    assert(cs.subrange(0, j) =~= ops);
}

/// Whether a character is an operator character.
fn is_operator(ch: char) -> (r: bool)
    ensures
        r == is_operator_char(ch),
{
    ch == '~' || ch == '!' || ch == '@' || ch == '$' || ch == '%' || ch == '^' || ch == '&' || ch
        == '*' || ch == '-' || ch == '+' || ch == '=' || ch == '|' || ch == '/' || ch == ','
        || ch == '<' || ch == '>'
}

/// The token for a scanned word: a keyword or an identifier.
fn word(w: Vec<char>) -> (t: Token)
    ensures
        token_view(t) == word_token(w@),
        !(t is EndOfInput),
{
    let n = w.len();
    if n == 3 && w[0] == 'l' && w[1] == 'e' && w[2] == 't' {
        assert(w@ =~= seq!['l', 'e', 't']);
        Token::Let
    } else if n == 3 && w[0] == 'v' && w[1] == 'a' && w[2] == 'r' {
        assert(w@ =~= seq!['v', 'a', 'r']);
        assert(w@ != seq!['l', 'e', 't']);
        Token::Var
    } else if n == 2 && w[0] == 'd' && w[1] == 'o' {
        assert(w@ =~= seq!['d', 'o']);
        assert(w@ != seq!['l', 'e', 't']);
        assert(w@ != seq!['v', 'a', 'r']);
        Token::Do
    } else if n == 3 && w[0] == 's' && w[1] == 'e' && w[2] == 't' {
        assert(w@ =~= seq!['s', 'e', 't']);
        assert(w@ != seq!['l', 'e', 't']);
        assert(w@ != seq!['v', 'a', 'r']);
        Token::SetKeyword
    } else if n == 2 && w[0] == 'o' && w[1] == 'n' {
        assert(w@ =~= seq!['o', 'n']);
        assert(w@ != seq!['d', 'o']);
        Token::On
    } else {
        proof {
            if w@ == seq!['l', 'e', 't'] || w@ == seq!['v', 'a', 'r'] || w@ == seq!['s', 'e', 't'] {
                assert(w@[0] == w[0] && w@[1] == w[1] && w@[2] == w[2]);
            }
            if w@ == seq!['d', 'o'] || w@ == seq!['o', 'n'] {
                assert(w@[0] == w[0] && w@[1] == w[1]);
            }
        }
        Token::Identifier(string_from_chars(&w))
    }
}

/// The lexer: the program's characters and the position reached.
pub struct Lexer {
    chars: Vec<char>,
    index: usize,
}

impl Lexer {
    /// Lexes a program text into its tokens.
    pub fn lex(str: String) -> (out: Vec<Token>)
        requires
            lex_spec(str@) is Some,
        ensures
            tokens_view(out@) == lex_spec(str@).unwrap(),
    {
        let ghost cs = str@;
        let mut out: Vec<Token> = vec![];
        let mut lexer = Lexer::new(str);
        assert(tokens_view(out@) + lex_from(cs, 0).unwrap() == lex_from(cs, 0).unwrap());
        loop
            invariant
                cs == str@,
                lexer.chars@ == cs,
                lexer.index <= cs.len(),
                lex_from(cs, lexer.index as int) is Some,
                lex_spec(cs) == Some(tokens_view(out@) + lex_from(cs, lexer.index as int).unwrap()),
            decreases cs.len() - lexer.index,
        {
            let ghost i = lexer.index as int;
            let tok = lexer.next();
            match tok {
                None => {
                    vstd::pervasive::unreached::<()>();
                },
                Some(Token::EndOfInput) => {
                    assert(next_token(cs, i) is End);
                    assert(lex_from(cs, i) == Some(Seq::<TokenV>::empty()));
                    assert(tokens_view(out@) + Seq::<TokenV>::empty() == tokens_view(out@));
                    return out;
                },
                Some(t) => {
                    let ghost rest = lex_from(cs, lexer.index as int).unwrap();
                    out.push(t);
                    proof {
                        assert(tokens_view(out@) == tokens_view(out@.drop_last()).push(token_view(t)));
                        assert(tokens_view(out@) + rest =~= tokens_view(out@.drop_last()) + (seq![token_view(t)] + rest));
                    }
                },
            }
        }
    }

    /// Lexes a program text, or gives `None` where `lex` would stop on an unknown character
    /// or a number too large for an `i64`.
    pub fn try_lex(str: String) -> (r: Option<Vec<Token>>)
        ensures
            (r is Some) == (lex_spec(str@) is Some),
            r matches Some(out) ==> tokens_view(out@) == lex_spec(str@).unwrap(),
    {
        if Self::lexes(&str) {
            Some(Self::lex(str))
        } else {
            None
        }
    }

    /// Whether the program text lexes without failure.
    fn lexes(str: &String) -> (b: bool)
        ensures
            b == (lex_spec(str@) is Some),
    {
        let ghost cs = str@;
        let mut lexer = Lexer::new(str.clone());
        loop
            invariant
                cs == str@,
                lexer.chars@ == cs,
                lexer.index <= cs.len(),
                lex_spec(cs) is Some == lex_from(cs, lexer.index as int) is Some,
            decreases cs.len() - lexer.index,
        {
            match lexer.next() {
                None => return false,
                Some(Token::EndOfInput) => return true,
                Some(_) => {},
            }
        }
    }

    fn new(str: String) -> (l: Self)
        ensures
            l.chars@ == str@,
            l.index == 0,
    {
        Lexer { chars: chars_of(str.as_str()), index: 0 }
    }

    fn peek(&self) -> (c: char)
        ensures
            c == peek_at(self.chars@, self.index as int),
    {
        if self.index >= self.chars.len() {
            return '\0';
        }
        self.chars[self.index]
    }

    fn advance(&mut self)
        requires
            old(self).index < old(self).chars.len(),
        ensures
            final(self).chars@ == old(self).chars@,
            final(self).index == old(self).index + 1,
    {
        self.index += 1;
    }

    /// The next token, skipping comments and blank space; `None` where lexing fails.
    fn next(&mut self) -> (r: Option<Token>)
        requires
            old(self).index <= old(self).chars.len(),
        ensures
            final(self).chars@ == old(self).chars@,
            final(self).index <= final(self).chars.len(),
            match next_token(old(self).chars@, old(self).index as int) {
                Next::End => r == Some(Token::EndOfInput),
                Next::Fail => r is None,
                Next::Tok(t, j) => r matches Some(tok) && token_view(tok) == t && !(tok is EndOfInput)
                    && final(self).index == j && old(self).index < j,
            },
    {
        let ghost cs = self.chars@;
        let ghost i0 = self.index as int;
        loop
            invariant
                self.chars@ == cs,
                old(self).chars@ == cs,
                old(self).index == i0,
                i0 <= self.index <= cs.len(),
                next_token(cs, i0) == next_token(cs, self.index as int),
            decreases cs.len() - self.index,
        {
            let c = self.peek();
            if c == '\0' {
                return Some(Token::EndOfInput);
            } else if c == '#' {
                let ghost i = self.index as int;
                proof {
                    lemma_scan_end(cs, i, comment_pred());
                }
                self.comment();
                assert(i < self.index);
            } else if c == ' ' || c == '\t' || c == '\n' {
                let ghost i = self.index as int;
                self.whitespace();
                assert(i < self.index);
            } else {
                assert(self.index < cs.len());
                assert(next_token(cs, self.index as int) == token_at(cs, self.index as int));
                return self.token();
            }
        }
    }

    /// Skips a comment: everything up to a line feed or the end.
    fn comment(&mut self)
        requires
            old(self).index < old(self).chars.len(),
            old(self).chars@[old(self).index as int] == '#',
        ensures
            final(self).chars@ == old(self).chars@,
            final(self).index == scan_end(old(self).chars@, old(self).index as int, comment_pred()),
            final(self).index <= final(self).chars.len(),
    {
        let ghost cs = self.chars@;
        let ghost start = self.index as int;
        proof {
            lemma_scan_end(cs, start, comment_pred());
        }
        loop
            invariant
                self.chars@ == cs,
                old(self).chars@ == cs,
                old(self).index == start,
                start < cs.len(),
                start <= self.index <= cs.len(),
                scan_end(cs, start, comment_pred()) == scan_end(cs, self.index as int, comment_pred()),
            decreases cs.len() - self.index,
        {
            let c = self.peek();
            if c == '\n' || c == '\0' {
                proof {
                    if self.index < cs.len() {
                        assert(!comment_pred()(cs[self.index as int]));
                    }
                }
                return;
            }
            proof {
                assert(comment_pred()(cs[self.index as int]));
            }
            self.advance();
        }
    }

    /// Skips a run of white space.
    fn whitespace(&mut self)
        requires
            old(self).index < old(self).chars.len(),
            is_whitespace_start(old(self).chars@[old(self).index as int]),
        ensures
            final(self).chars@ == old(self).chars@,
            final(self).index == scan_end(old(self).chars@, old(self).index as int, whitespace_pred()),
            final(self).index <= final(self).chars.len(),
            final(self).index > old(self).index,
    {
        let ghost cs = self.chars@;
        let ghost start = self.index as int;
        proof {
            lemma_scan_end(cs, start, whitespace_pred());
        }
        loop
            invariant
                self.chars@ == cs,
                old(self).chars@ == cs,
                old(self).index == start,
                start < cs.len(),
                start <= self.index <= cs.len(),
                scan_end(cs, start, whitespace_pred()) == scan_end(cs, self.index as int, whitespace_pred()),
                is_whitespace_start(cs[start]),
            decreases cs.len() - self.index,
        {
            let c = self.peek();
            let w = is_whitespace(c);
            if !w {
                proof {
                    if self.index == start {
                        assert(c == cs[start]);
                        assert((c as u32) < 128);
                        assert(9 <= (c as u32) <= 13 || (c as u32) == 32);
                    }
                    if self.index < cs.len() {
                        assert(!whitespace_pred()(cs[self.index as int]));
                    } else {
                        assert((c as u32) < 128);
                    }
                }
                return;
            }
            proof {
                assert(whitespace_pred()(cs[self.index as int]));
            }
            self.advance();
        }
    }

    /// The token at a character that starts neither a comment nor blank space nor the end.
    fn token(&mut self) -> (r: Option<Token>)
        requires
            old(self).index < old(self).chars.len(),
        ensures
            final(self).chars@ == old(self).chars@,
            final(self).index <= final(self).chars.len(),
            match token_at(old(self).chars@, old(self).index as int) {
                Next::End => false,
                Next::Fail => r is None,
                Next::Tok(t, j) => r matches Some(tok) && token_view(tok) == t && !(tok is EndOfInput)
                    && final(self).index == j && old(self).index < j,
            },
    {
        let c = self.peek();
        if c == ':' {
            self.advance();
            if self.peek() == '=' {
                return Some(self.accept(Token::ColonEquals));
            }
            return Some(Token::Colon);
        } else if c == '(' {
            return Some(self.accept(Token::OpenParen));
        } else if c == ')' {
            return Some(self.accept(Token::CloseParen));
        } else if c == '{' {
            return Some(self.accept(Token::OpenBrace));
        } else if c == '}' {
            return Some(self.accept(Token::CloseBrace));
        } else if c == '[' {
            return Some(self.accept(Token::OpenBracket));
        } else if c == ']' {
            return Some(self.accept(Token::CloseBracket));
        } else if '0' <= c && c <= '9' {
            return self.number();
        } else if ('a' <= c && c <= 'z') || ('A' <= c && c <= 'Z') {
            return Some(self.identifier_or_keyword());
        } else if is_operator(c) {
            return Some(self.operator());
        }
        None
    }

    fn accept(&mut self, token: Token) -> (t: Token)
        requires
            old(self).index < old(self).chars.len(),
        ensures
            final(self).chars@ == old(self).chars@,
            final(self).index == old(self).index + 1,
            t == token,
    {
        self.advance();
        token
    }

    /// A run of decimal digits; `None` where its value does not fit in an `i64`.
    fn number(&mut self) -> (r: Option<Token>)
        requires
            old(self).index < old(self).chars.len(),
            is_digit(old(self).chars@[old(self).index as int]),
        ensures
            final(self).chars@ == old(self).chars@,
            final(self).index <= final(self).chars.len(),
            ({
                let cs = old(self).chars@;
                let i = old(self).index as int;
                let j = scan_end(cs, i, digit_pred());
                let v = digits_value(cs.subrange(i, j));
                if v <= i64::MAX {
                    r == Some(Token::Integer(v as i64)) && final(self).index == j && i < j
                } else {
                    r is None
                }
            }),
    {
        let ghost cs = self.chars@;
        let ghost start = self.index as int;
        let ghost end = scan_end(cs, start, digit_pred());
        proof {
            lemma_scan_end(cs, start, digit_pred());
            assert forall|k: int| start <= k < end implies #[trigger] is_digit(cs[k]) by {
                assert(digit_pred()(cs[k]));
            }
            assert(digit_pred()(cs[start]));
        }
        let mut sum: i64 = 0;
        loop
            invariant
                self.chars@ == cs,
                old(self).chars@ == cs,
                old(self).index == start,
                start < cs.len(),
                start <= self.index <= end,
                end == scan_end(cs, start, digit_pred()),
                end == scan_end(cs, self.index as int, digit_pred()),
                start < end <= cs.len(),
                forall|k: int| start <= k < end ==> #[trigger] is_digit(cs[k]),
                sum == digits_value(cs.subrange(start, self.index as int)),
            decreases cs.len() - self.index,
        {
            let c = self.peek();
            match digit_value(c) {
                None => {
                    return Some(Token::Integer(sum));
                },
                Some(digit) => {
                    let ghost i = self.index as int;
                    proof {
                        lemma_scan_end(cs, i, digit_pred());
                    }
                    self.advance();
                    assert(cs.subrange(start, i + 1).drop_last() == cs.subrange(start, i));
                    proof {
                        lemma_digits_value_grows(cs, start, i + 1, end);
                    }
                    let next = match sum.checked_mul(10) {
                        Some(m) => m.checked_add(digit as i64),
                        None => None,
                    };
                    match next {
                        Some(v) => {
                            sum = v;
                        },
                        None => {
                            assert(forall|k: int| 0 <= k < i - start ==> is_digit(#[trigger] cs.subrange(start, i)[k]));
                            proof {
                                lemma_digits_value_nonneg(cs.subrange(start, i));
                            }
                            assert(c == cs[i]);
                            assert(digit as int == cs[i] as int - '0' as int);
                            assert(cs.subrange(start, i + 1).last() == cs[i]);
                            assert(digits_value(cs.subrange(start, i + 1)) == sum * 10 + (cs[i] as int - '0' as int));
                            assert(digits_value(cs.subrange(start, i + 1)) > i64::MAX);
                            return None;
                        },
                    }
                },
            }
        }
    }

    /// An identifier or a keyword.
    fn identifier_or_keyword(&mut self) -> (t: Token)
        requires
            old(self).index < old(self).chars.len(),
            'a' <= old(self).chars@[old(self).index as int] <= 'z' || 'A' <= old(self).chars@[old(self).index as int] <= 'Z',
        ensures
            final(self).index > old(self).index,
            final(self).chars@ == old(self).chars@,
            final(self).index == scan_end(old(self).chars@, old(self).index as int, ident_pred()),
            final(self).index <= final(self).chars.len(),
            token_view(t) == word_token(
                old(self).chars@.subrange(old(self).index as int, final(self).index as int),
            ),
            !(t is EndOfInput),
    {
        let ghost cs = self.chars@;
        let ghost start = self.index as int;
        proof {
            lemma_scan_end(cs, start, ident_pred());
        }
        let mut chars: Vec<char> = Vec::new();
        loop
            invariant
                self.chars@ == cs,
                old(self).chars@ == cs,
                old(self).index == start,
                start < cs.len(),
                start <= self.index <= cs.len(),
                scan_end(cs, start, ident_pred()) == scan_end(cs, self.index as int, ident_pred()),
                chars@ == cs.subrange(start, self.index as int),
                'a' <= cs[start] <= 'z' || 'A' <= cs[start] <= 'Z',
            ensures
                self.chars@ == cs,
                start < self.index <= cs.len(),
                self.index == scan_end(cs, start, ident_pred()),
                chars@ == cs.subrange(start, self.index as int),
            decreases cs.len() - self.index,
        {
            let ch = self.peek();
            let a = is_alphanumeric(ch);
            if a || ch == '\'' || ch == '_' {
                proof {
                    assert(ident_pred()(cs[self.index as int]));
                }
                self.advance();
                chars.push(ch);
            } else {
                proof {
                    if self.index == start {
                        assert(ch == cs[start]);
                        assert((ch as u32) < 128);
                    }
                    if self.index < cs.len() {
                        assert(!ident_pred()(cs[self.index as int]));
                    } else {
                        assert((ch as u32) < 128);
                    }
                }
                break;
            }
        }
        word(chars)
    }

    /// A run of operator characters.
    fn operator(&mut self) -> (t: Token)
        requires
            old(self).index < old(self).chars.len(),
            is_operator_char(old(self).chars@[old(self).index as int]),
        ensures
            final(self).index > old(self).index,
            final(self).chars@ == old(self).chars@,
            final(self).index == scan_end(old(self).chars@, old(self).index as int, operator_pred()),
            final(self).index <= final(self).chars.len(),
            t == Token::Operator(t->Operator_0),
            token_view(t) == TokenV::Operator(
                old(self).chars@.subrange(old(self).index as int, final(self).index as int),
            ),
    {
        let ghost cs = self.chars@;
        let ghost start = self.index as int;
        proof {
            lemma_scan_end(cs, start, operator_pred());
        }
        let mut word: Vec<char> = Vec::new();
        loop
            invariant
                self.chars@ == cs,
                old(self).chars@ == cs,
                old(self).index == start,
                start < cs.len(),
                start <= self.index <= cs.len(),
                scan_end(cs, start, operator_pred()) == scan_end(cs, self.index as int, operator_pred()),
                word@ == cs.subrange(start, self.index as int),
                is_operator_char(cs[start]),
            ensures
                self.chars@ == cs,
                start < self.index <= cs.len(),
                self.index == scan_end(cs, start, operator_pred()),
                word@ == cs.subrange(start, self.index as int),
            decreases cs.len() - self.index,
        {
            let ch = self.peek();
            if is_operator(ch) {
                proof {
                    assert(operator_pred()(cs[self.index as int]));
                }
                self.advance();
                word.push(ch);
            } else {
                proof {
                    if self.index == start {
                        assert(ch == cs[start]);
                    }
                    if self.index < cs.len() {
                        assert(!operator_pred()(cs[self.index as int]));
                    }
                }
                break;
            }
        }
        Token::Operator(string_from_chars(&word))
    }
}

} // verus!
