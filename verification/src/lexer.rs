use vstd::prelude::*;

use crate::grammar::{is_operator_char, token_view, tokens_view, word_token, Token, TokenV};
use crate::scan::{
    comment_pred, digit_pred, digit_value, digits_value, ident_pred, is_digit, is_whitespace_start,
    lemma_digits_value_grows, lemma_digits_value_nonneg, lemma_scan_end, peek_at, scan_end,
    whitespace_pred,
};
use crate::text::{chars_of, is_alphanumeric, is_whitespace, string_from_chars};

verus! {

pub open spec fn operator_pred() -> spec_fn(char) -> bool {
    |c: char| is_operator_char(c)
}

/// What the lexer finds from a position: the end of input, a token and where the next
/// one starts, or a failure (an unknown character, a number too large for `i64`, or an
/// unterminated string or quoted identifier).
pub enum Next {
    End,
    Tok(TokenV, int),
    Fail,
}

/// The token that starts at `i`, a character that starts neither a comment nor blank
/// space nor the end of input.
pub open spec fn token_at(cs: Seq<char>, i: int) -> Next {
    let c = cs[i];
    if c == ':' {
        if peek_at(cs, i + 1) == '=' {
            Next::Tok(TokenV::ColonEquals, i + 2)
        } else {
            Next::Tok(TokenV::Colon, i + 1)
        }
    } else if c == '(' {
        Next::Tok(TokenV::OpenParen, i + 1)
    } else if c == ')' {
        Next::Tok(TokenV::CloseParen, i + 1)
    } else if c == '{' {
        Next::Tok(TokenV::OpenBrace, i + 1)
    } else if c == '}' {
        Next::Tok(TokenV::CloseBrace, i + 1)
    } else if c == '[' {
        Next::Tok(TokenV::OpenBracket, i + 1)
    } else if c == ']' {
        Next::Tok(TokenV::CloseBracket, i + 1)
    } else if c == '?' {
        Next::Tok(TokenV::QuestionMark, i + 1)
    } else if c == '"' {
        match find_char(cs, i + 1, '"') {
            Some(j) => Next::Tok(TokenV::String(cs.subrange(i + 1, j)), j + 1),
            None => Next::Fail,
        }
    } else if c == '_' {
        match find_char(cs, i + 1, '_') {
            Some(j) => Next::Tok(TokenV::QuotedIdentifier(cs.subrange(i + 1, j)), j + 1),
            None => Next::Fail,
        }
    } else if is_digit(c) {
        let j = scan_end(cs, i, digit_pred());
        let v = digits_value(cs.subrange(i, j));
        if v <= i64::MAX {
            Next::Tok(TokenV::Integer(v as i64), j)
        } else {
            Next::Fail
        }
    } else if 'a' <= c <= 'z' || 'A' <= c <= 'Z' {
        let j = scan_end(cs, i, ident_pred());
        Next::Tok(word_token(cs.subrange(i, j)), j)
    } else if is_operator_char(c) {
        let j = scan_end(cs, i, operator_pred());
        Next::Tok(TokenV::Operator(cs.subrange(i, j)), j)
    } else {
        Next::Fail
    }
}

/// The next token from position `i`, after comments (`#` to the end of the line) and blank
/// space (a run of white space starting with a space, tab or line feed).
pub open spec fn next_token(cs: Seq<char>, i: int) -> Next
    decreases cs.len() - i,
{
    if i < 0 || i >= cs.len() || cs[i] == '\0' {
        Next::End
    } else if cs[i] == '#' {
        let j = scan_end(cs, i, comment_pred());
        if i < j <= cs.len() {
            next_token(cs, j)
        } else {
            Next::Fail
        }
    } else if cs[i] == ' ' || cs[i] == '\t' || cs[i] == '\n' {
        let j = scan_end(cs, i, whitespace_pred());
        if i < j <= cs.len() {
            next_token(cs, j)
        } else {
            Next::Fail
        }
    } else {
        token_at(cs, i)
    }
}

/// The tokens from position `i` on, or `None` where lexing fails.
pub open spec fn lex_from(cs: Seq<char>, i: int) -> Option<Seq<TokenV>>
    decreases cs.len() - i,
{
    match next_token(cs, i) {
        Next::End => Some(Seq::empty()),
        Next::Fail => None,
        Next::Tok(t, j) => if i < j <= cs.len() {
            match lex_from(cs, j) {
                Some(rest) => Some(seq![t] + rest),
                None => None,
            }
        } else {
            None
        },
    }
}

/// The tokens of a program text, or `None` where the lexer stops on an unknown character
/// or a number that does not fit in an `i64`, or runs on past the end of the text in a
/// string or quoted identifier without its closing character.
pub open spec fn lex_spec(cs: Seq<char>) -> Option<Seq<TokenV>> {
    lex_from(cs, 0)
}

/// The first index at or after `i` holding `c`, if any.
pub open spec fn find_char(cs: Seq<char>, i: int, c: char) -> Option<int>
    decreases cs.len() - i,
{
    if i < 0 || i >= cs.len() {
        None
    } else if cs[i] == c {
        Some(i)
    } else {
        find_char(cs, i + 1, c)
    }
}

proof fn lemma_find_char(cs: Seq<char>, i: int, c: char)
    requires
        0 <= i,
    ensures
        find_char(cs, i, c) matches Some(j) ==> i <= j < cs.len() && cs[j] == c,
    decreases cs.len() - i,
{
    if i < cs.len() && cs[i] != c {
        lemma_find_char(cs, i + 1, c);
    }
}

/// The characters operators are written with: `~!@$%^&*-+=|/.,<>`.
pub open spec fn operator_alphabet() -> Seq<char> {
    seq!['~', '!', '@', '$', '%', '^', '&', '*', '-', '+', '=', '|', '/', '.', ',', '<', '>']
}

proof fn lemma_operator_alphabet(c: char)
    requires
        operator_alphabet().contains(c),
    ensures
        is_operator_char(c),
        operator_pred()(c),
        c != ':' && c != '(' && c != ')' && c != '{' && c != '}' && c != '[' && c != ']',
        c != '?' && c != '"' && c != '_',
        c != '#' && c != ' ' && c != '\t' && c != '\n' && c != '\0',
        !is_digit(c),
        !('a' <= c <= 'z' || 'A' <= c <= 'Z'),
{
    let k = choose|k: int| 0 <= k < operator_alphabet().len() && operator_alphabet()[k] == c;
    assert(0 <= k < 17);
}

/// A non-empty text written only with operator characters lexes as one operator token
/// spelled by the whole text; in particular each of `~!@$%^&*-+=|/.,<>` on its own is an
/// operator.
pub proof fn law_operator_text(cs: Seq<char>)
    requires
        cs.len() > 0,
        forall|k: int| 0 <= k < cs.len() ==> operator_alphabet().contains(#[trigger] cs[k]),
    ensures
        lex_spec(cs) == Some(seq![TokenV::Operator(cs)]),
{
    assert forall|k: int| 0 <= k < cs.len() implies #[trigger] operator_pred()(cs[k]) by {
        lemma_operator_alphabet(cs[k]);
    }
    lemma_operator_alphabet(cs[0]);
    lemma_scan_end(cs, 0, operator_pred());
    let j = scan_end(cs, 0, operator_pred());
    if j < cs.len() {
        assert(operator_pred()(cs[j]));
    }
    assert(j == cs.len());
    assert(cs.subrange(0, j) =~= cs);
    assert(token_at(cs, 0) == Next::Tok(TokenV::Operator(cs), cs.len() as int));
    assert(next_token(cs, 0) == Next::Tok(TokenV::Operator(cs), cs.len() as int));
    assert(next_token(cs, cs.len() as int) == Next::End);
    assert(lex_from(cs, cs.len() as int) == Some(Seq::<TokenV>::empty()));
    assert(seq![TokenV::Operator(cs)] + Seq::<TokenV>::empty() =~= seq![TokenV::Operator(cs)]);
}

/// An operator is the longest run of operator characters: a text that starts with such a
/// run, followed by anything that does not start with an operator character, yields first
/// the operator spelled by the run and goes on right after it.
pub proof fn law_operator_run(ops: Seq<char>, rest: Seq<char>)
    requires
        ops.len() > 0,
        forall|k: int| 0 <= k < ops.len() ==> operator_alphabet().contains(#[trigger] ops[k]),
        rest.len() > 0 ==> !is_operator_char(rest[0]),
    ensures
        next_token(ops + rest, 0) == Next::Tok(TokenV::Operator(ops), ops.len() as int),
{
    let cs = ops + rest;
    assert forall|k: int| 0 <= k < ops.len() implies #[trigger] operator_pred()(cs[k]) by {
        lemma_operator_alphabet(ops[k]);
    }
    lemma_operator_alphabet(ops[0]);
    lemma_scan_end(cs, 0, operator_pred());
    let j = scan_end(cs, 0, operator_pred());
    if j < ops.len() {
        assert(operator_pred()(cs[j]));
    }
    if j > ops.len() {
        assert(operator_pred()(cs[ops.len() as int]));
        assert(cs[ops.len() as int] == rest[0]);
    }
    assert(j == ops.len());
    assert(cs.subrange(0, j) =~= ops);
}

proof fn lemma_find_char_first(cs: Seq<char>, i: int, j: int, c: char)
    requires
        0 <= i <= j < cs.len(),
        cs[j] == c,
        forall|k: int| i <= k < j ==> cs[k] != c,
    ensures
        find_char(cs, i, c) == Some(j),
    decreases j - i,
{
    if i < j {
        lemma_find_char_first(cs, i + 1, j, c);
    }
}

/// A string literal is its text between double quotes: a quoted text without a double
/// quote in it lexes as one string token holding exactly that text.
pub proof fn law_string_literal(body: Seq<char>)
    requires
        forall|k: int| 0 <= k < body.len() ==> #[trigger] body[k] != '"',
    ensures
        lex_spec(seq!['"'] + body + seq!['"']) == Some(seq![TokenV::String(body)]),
{
    let cs = seq!['"'] + body + seq!['"'];
    let n = body.len() as int;
    assert forall|k: int| 1 <= k < n + 1 implies cs[k] != '"' by {
        assert(cs[k] == body[k - 1]);
    }
    lemma_find_char_first(cs, 1, n + 1, '"');
    assert(cs.subrange(1, n + 1) =~= body);
    assert(token_at(cs, 0) == Next::Tok(TokenV::String(body), n + 2));
    assert(next_token(cs, 0) == Next::Tok(TokenV::String(body), n + 2));
    assert(next_token(cs, n + 2) == Next::End);
    assert(lex_from(cs, n + 2) == Some(Seq::<TokenV>::empty()));
    assert(seq![TokenV::String(body)] + Seq::<TokenV>::empty() =~= seq![TokenV::String(body)]);
}

/// The lexer: the program's characters and the position reached.
pub struct Lexer {
    chars: Vec<char>,
    index: usize,
}

impl Lexer {
    /// Lexes a program text into its tokens.
    pub fn lex(str: String) -> (out: Vec<Token>)
        requires
            lex_spec(str@) is Some,
        ensures
            tokens_view(out@) == lex_spec(str@).unwrap(),
    {
        let ghost cs = str@;
        let mut out: Vec<Token> = vec![];
        let mut lexer = Lexer::new(str);
        assert(tokens_view(out@) + lex_from(cs, 0).unwrap() == lex_from(cs, 0).unwrap());
        loop
            invariant
                cs == str@,
                lexer.chars@ == cs,
                lexer.index <= cs.len(),
                lex_from(cs, lexer.index as int) is Some,
                lex_spec(cs) == Some(tokens_view(out@) + lex_from(cs, lexer.index as int).unwrap()),
            decreases cs.len() - lexer.index,
        {
            let ghost i = lexer.index as int;
            let tok = lexer.next();
            match tok {
                None => {
                    vstd::pervasive::unreached::<()>();
                },
                Some(Token::EndOfInput) => {
                    assert(next_token(cs, i) is End);
                    assert(lex_from(cs, i) == Some(Seq::<TokenV>::empty()));
                    assert(tokens_view(out@) + Seq::<TokenV>::empty() == tokens_view(out@));
                    return out;
                },
                Some(t) => {
                    let ghost rest = lex_from(cs, lexer.index as int).unwrap();
                    out.push(t);
                    proof {
                        assert(tokens_view(out@) == tokens_view(out@.drop_last()).push(token_view(t)));
                        assert(tokens_view(out@) + rest =~= tokens_view(out@.drop_last()) + (seq![token_view(t)] + rest));
                    }
                },
            }
        }
    }

    /// Lexes a program text, or gives `None` where `lex` would stop on an unknown
    /// character or a number too large for an `i64`, or run on past the end of the text.
    pub fn try_lex(str: String) -> (r: Option<Vec<Token>>)
        ensures
            (r is Some) == (lex_spec(str@) is Some),
            r matches Some(out) ==> tokens_view(out@) == lex_spec(str@).unwrap(),
    {
        if Self::lexes(&str) {
            Some(Self::lex(str))
        } else {
            None
        }
    }

    /// Whether the program text lexes without failure.
    fn lexes(str: &String) -> (b: bool)
        ensures
            b == (lex_spec(str@) is Some),
    {
        let ghost cs = str@;
        let mut lexer = Lexer::new(str.clone());
        loop
            invariant
                cs == str@,
                lexer.chars@ == cs,
                lexer.index <= cs.len(),
                lex_spec(cs) is Some == lex_from(cs, lexer.index as int) is Some,
            decreases cs.len() - lexer.index,
        {
            match lexer.next() {
                None => return false,
                Some(Token::EndOfInput) => return true,
                Some(_) => {},
            }
        }
    }

    fn new(str: String) -> (l: Self)
        ensures
            l.chars@ == str@,
            l.index == 0,
    {
        Lexer { chars: chars_of(str.as_str()), index: 0 }
    }

    fn peek(&self) -> (c: char)
        ensures
            c == peek_at(self.chars@, self.index as int),
    {
        if self.index >= self.chars.len() {
            return '\0';
        }
        self.chars[self.index]
    }

    fn advance(&mut self)
        requires
            old(self).index < old(self).chars.len(),
        ensures
            final(self).chars@ == old(self).chars@,
            final(self).index == old(self).index + 1,
    {
        self.index += 1;
    }

    /// The next token, skipping comments and blank space; `None` where lexing fails.
    fn next(&mut self) -> (r: Option<Token>)
        requires
            old(self).index <= old(self).chars.len(),
        ensures
            final(self).chars@ == old(self).chars@,
            final(self).index <= final(self).chars.len(),
            match next_token(old(self).chars@, old(self).index as int) {
                Next::End => r == Some(Token::EndOfInput),
                Next::Fail => r is None,
                Next::Tok(t, j) => r matches Some(tok) && token_view(tok) == t && !(tok is EndOfInput)
                    && final(self).index == j && old(self).index < j,
            },
    {
        let ghost cs = self.chars@;
        let ghost i0 = self.index as int;
        loop
            invariant
                self.chars@ == cs,
                old(self).chars@ == cs,
                old(self).index == i0,
                i0 <= self.index <= cs.len(),
                next_token(cs, i0) == next_token(cs, self.index as int),
            decreases cs.len() - self.index,
        {
            let c = self.peek();
            if c == '\0' {
                return Some(Token::EndOfInput);
            } else if c == '#' {
                let ghost i = self.index as int;
                proof {
                    lemma_scan_end(cs, i, comment_pred());
                }
                self.comment();
                assert(i < self.index);
            } else if c == ' ' || c == '\t' || c == '\n' {
                let ghost i = self.index as int;
                self.whitespace();
                assert(i < self.index);
            } else {
                assert(self.index < cs.len());
                assert(next_token(cs, self.index as int) == token_at(cs, self.index as int));
                return self.token();
            }
        }
    }

    /// Skips a comment: everything up to a line feed or the end.
    fn comment(&mut self)
        requires
            old(self).index < old(self).chars.len(),
            old(self).chars@[old(self).index as int] == '#',
        ensures
            final(self).chars@ == old(self).chars@,
            final(self).index == scan_end(old(self).chars@, old(self).index as int, comment_pred()),
            final(self).index <= final(self).chars.len(),
    {
        let ghost cs = self.chars@;
        let ghost start = self.index as int;
        proof {
            lemma_scan_end(cs, start, comment_pred());
        }
        loop
            invariant
                self.chars@ == cs,
                old(self).chars@ == cs,
                old(self).index == start,
                start < cs.len(),
                start <= self.index <= cs.len(),
                scan_end(cs, start, comment_pred()) == scan_end(cs, self.index as int, comment_pred()),
            decreases cs.len() - self.index,
        {
            let c = self.peek();
            if c == '\n' || c == '\0' {
                proof {
                    if self.index < cs.len() {
                        assert(!comment_pred()(cs[self.index as int]));
                    }
                }
                return;
            }
            proof {
                assert(comment_pred()(cs[self.index as int]));
            }
            self.advance();
        }
    }

    /// Skips a run of white space.
    fn whitespace(&mut self)
        requires
            old(self).index < old(self).chars.len(),
            is_whitespace_start(old(self).chars@[old(self).index as int]),
        ensures
            final(self).chars@ == old(self).chars@,
            final(self).index == scan_end(old(self).chars@, old(self).index as int, whitespace_pred()),
            final(self).index <= final(self).chars.len(),
            final(self).index > old(self).index,
    {
        let ghost cs = self.chars@;
        let ghost start = self.index as int;
        proof {
            lemma_scan_end(cs, start, whitespace_pred());
        }
        loop
            invariant
                self.chars@ == cs,
                old(self).chars@ == cs,
                old(self).index == start,
                start < cs.len(),
                start <= self.index <= cs.len(),
                scan_end(cs, start, whitespace_pred()) == scan_end(cs, self.index as int, whitespace_pred()),
                is_whitespace_start(cs[start]),
            decreases cs.len() - self.index,
        {
            let c = self.peek();
            let w = is_whitespace(c);
            if !w {
                proof {
                    if self.index == start {
                        assert(c == cs[start]);
                        assert((c as u32) < 128);
                        assert(9 <= (c as u32) <= 13 || (c as u32) == 32);
                    }
                    if self.index < cs.len() {
                        assert(!whitespace_pred()(cs[self.index as int]));
                    } else {
                        assert((c as u32) < 128);
                    }
                }
                return;
            }
            proof {
                assert(whitespace_pred()(cs[self.index as int]));
            }
            self.advance();
        }
    }

    /// The token at a character that starts neither a comment nor blank space nor the end.
    fn token(&mut self) -> (r: Option<Token>)
        requires
            old(self).index < old(self).chars.len(),
        ensures
            final(self).chars@ == old(self).chars@,
            final(self).index <= final(self).chars.len(),
            match token_at(old(self).chars@, old(self).index as int) {
                Next::End => false,
                Next::Fail => r is None,
                Next::Tok(t, j) => r matches Some(tok) && token_view(tok) == t && !(tok is EndOfInput)
                    && final(self).index == j && old(self).index < j,
            },
    {
        let c = self.peek();
        if c == ':' {
            self.advance();
            if self.peek() == '=' {
                return Some(self.accept(Token::ColonEquals));
            }
            return Some(Token::Colon);
        } else if c == '(' {
            return Some(self.accept(Token::OpenParen));
        } else if c == ')' {
            return Some(self.accept(Token::CloseParen));
        } else if c == '{' {
            return Some(self.accept(Token::OpenBrace));
        } else if c == '}' {
            return Some(self.accept(Token::CloseBrace));
        } else if c == '[' {
            return Some(self.accept(Token::OpenBracket));
        } else if c == ']' {
            return Some(self.accept(Token::CloseBracket));
        } else if c == '?' {
            return Some(self.accept(Token::QuestionMark));
        } else if c == '"' {
            return self.delimited('"');
        } else if c == '_' {
            return self.delimited('_');
        } else if '0' <= c && c <= '9' {
            return self.number();
        } else if ('a' <= c && c <= 'z') || ('A' <= c && c <= 'Z') {
            return Some(self.identifier_or_keyword());
        } else if Token::is_operator(c) {
            return Some(self.operator());
        }
        None
    }

    fn accept(&mut self, token: Token) -> (t: Token)
        requires
            old(self).index < old(self).chars.len(),
        ensures
            final(self).chars@ == old(self).chars@,
            final(self).index == old(self).index + 1,
            t == token,
    {
        self.advance();
        token
    }

    /// A run of decimal digits; `None` where its value does not fit in an `i64`.
    fn number(&mut self) -> (r: Option<Token>)
        requires
            old(self).index < old(self).chars.len(),
            is_digit(old(self).chars@[old(self).index as int]),
        ensures
            final(self).chars@ == old(self).chars@,
            final(self).index <= final(self).chars.len(),
            ({
                let cs = old(self).chars@;
                let i = old(self).index as int;
                let j = scan_end(cs, i, digit_pred());
                let v = digits_value(cs.subrange(i, j));
                if v <= i64::MAX {
                    r == Some(Token::Integer(v as i64)) && final(self).index == j && i < j
                } else {
                    r is None
                }
            }),
    {
        let ghost cs = self.chars@;
        let ghost start = self.index as int;
        let ghost end = scan_end(cs, start, digit_pred());
        proof {
            lemma_scan_end(cs, start, digit_pred());
            assert forall|k: int| start <= k < end implies #[trigger] is_digit(cs[k]) by {
                assert(digit_pred()(cs[k]));
            }
            assert(digit_pred()(cs[start]));
        }
        let mut sum: i64 = 0;
        loop
            invariant
                self.chars@ == cs,
                old(self).chars@ == cs,
                old(self).index == start,
                start < cs.len(),
                start <= self.index <= end,
                end == scan_end(cs, start, digit_pred()),
                end == scan_end(cs, self.index as int, digit_pred()),
                start < end <= cs.len(),
                forall|k: int| start <= k < end ==> #[trigger] is_digit(cs[k]),
                sum == digits_value(cs.subrange(start, self.index as int)),
            decreases cs.len() - self.index,
        {
            let c = self.peek();
            match digit_value(c) {
                None => {
                    return Some(Token::Integer(sum));
                },
                Some(digit) => {
                    let ghost i = self.index as int;
                    proof {
                        lemma_scan_end(cs, i, digit_pred());
                    }
                    self.advance();
                    assert(cs.subrange(start, i + 1).drop_last() == cs.subrange(start, i));
                    proof {
                        lemma_digits_value_grows(cs, start, i + 1, end);
                    }
                    let next = match sum.checked_mul(10) {
                        Some(m) => m.checked_add(digit as i64),
                        None => None,
                    };
                    match next {
                        Some(v) => {
                            sum = v;
                        },
                        None => {
                            assert(forall|k: int| 0 <= k < i - start ==> is_digit(#[trigger] cs.subrange(start, i)[k]));
                            proof {
                                lemma_digits_value_nonneg(cs.subrange(start, i));
                            }
                            assert(c == cs[i]);
                            assert(digit as int == cs[i] as int - '0' as int);
                            assert(cs.subrange(start, i + 1).last() == cs[i]);
                            assert(digits_value(cs.subrange(start, i + 1)) == sum * 10 + (cs[i] as int - '0' as int));
                            assert(digits_value(cs.subrange(start, i + 1)) > i64::MAX);
                            return None;
                        },
                    }
                },
            }
        }
    }

    /// An identifier or a keyword.
    fn identifier_or_keyword(&mut self) -> (t: Token)
        requires
            old(self).index < old(self).chars.len(),
            'a' <= old(self).chars@[old(self).index as int] <= 'z' || 'A' <= old(self).chars@[old(self).index as int] <= 'Z',
        ensures
            final(self).index > old(self).index,
            final(self).chars@ == old(self).chars@,
            final(self).index == scan_end(old(self).chars@, old(self).index as int, ident_pred()),
            final(self).index <= final(self).chars.len(),
            token_view(t) == word_token(
                old(self).chars@.subrange(old(self).index as int, final(self).index as int),
            ),
            !(t is EndOfInput),
    {
        let ghost cs = self.chars@;
        let ghost start = self.index as int;
        proof {
            lemma_scan_end(cs, start, ident_pred());
        }
        let mut chars: Vec<char> = Vec::new();
        loop
            invariant
                self.chars@ == cs,
                old(self).chars@ == cs,
                old(self).index == start,
                start < cs.len(),
                start <= self.index <= cs.len(),
                scan_end(cs, start, ident_pred()) == scan_end(cs, self.index as int, ident_pred()),
                chars@ == cs.subrange(start, self.index as int),
                'a' <= cs[start] <= 'z' || 'A' <= cs[start] <= 'Z',
            ensures
                self.chars@ == cs,
                start < self.index <= cs.len(),
                self.index == scan_end(cs, start, ident_pred()),
                chars@ == cs.subrange(start, self.index as int),
            decreases cs.len() - self.index,
        {
            let ch = self.peek();
            let a = is_alphanumeric(ch);
            if a || ch == '\'' || ch == '_' {
                proof {
                    assert(ident_pred()(cs[self.index as int]));
                }
                self.advance();
                chars.push(ch);
            } else {
                proof {
                    if self.index == start {
                        assert(ch == cs[start]);
                        assert((ch as u32) < 128);
                    }
                    if self.index < cs.len() {
                        assert(!ident_pred()(cs[self.index as int]));
                    } else {
                        assert((ch as u32) < 128);
                    }
                }
                break;
            }
        }
        Token::from_ident(string_from_chars(&chars))
    }

    /// A string (between double quotes) or a quoted identifier (between underscores);
    /// `None` where the closing character never comes.
    fn delimited(&mut self, close: char) -> (r: Option<Token>)
        requires
            old(self).index < old(self).chars.len(),
            old(self).chars@[old(self).index as int] == close,
            close == '"' || close == '_',
        ensures
            final(self).chars@ == old(self).chars@,
            final(self).index <= final(self).chars.len(),
            ({
                let cs = old(self).chars@;
                let i = old(self).index as int;
                match find_char(cs, i + 1, close) {
                    Some(j) => r matches Some(t) && token_view(t) == (if close == '"' {
                        TokenV::String(cs.subrange(i + 1, j))
                    } else {
                        TokenV::QuotedIdentifier(cs.subrange(i + 1, j))
                    }) && final(self).index == j + 1 && i < j + 1,
                    None => r is None,
                }
            }),
    {
        let ghost cs = self.chars@;
        let ghost start = self.index as int;
        self.advance();
        proof {
            lemma_find_char(cs, start + 1, close);
        }
        let mut text: Vec<char> = Vec::new();
        while self.index < self.chars.len()
            invariant
                self.chars@ == cs,
                old(self).chars@ == cs,
                old(self).index == start,
                start < self.index <= cs.len(),
                find_char(cs, start + 1, close) == find_char(cs, self.index as int, close),
                text@ == cs.subrange(start + 1, self.index as int),
                close == '"' || close == '_',
            decreases cs.len() - self.index,
        {
            let ch = self.chars[self.index];
            if ch == close {
                self.advance();
                let s = string_from_chars(&text);
                if close == '"' {
                    return Some(Token::String(s));
                } else {
                    return Some(Token::QuotedIdentifier(s));
                }
            }
            self.advance();
            text.push(ch);
        }
        None
    }

    /// A run of operator characters.
    fn operator(&mut self) -> (t: Token)
        requires
            old(self).index < old(self).chars.len(),
            is_operator_char(old(self).chars@[old(self).index as int]),
        ensures
            final(self).index > old(self).index,
            final(self).chars@ == old(self).chars@,
            final(self).index == scan_end(old(self).chars@, old(self).index as int, operator_pred()),
            final(self).index <= final(self).chars.len(),
            t == Token::Operator(t->Operator_0),
            token_view(t) == TokenV::Operator(
                old(self).chars@.subrange(old(self).index as int, final(self).index as int),
            ),
    {
        let ghost cs = self.chars@;
        let ghost start = self.index as int;
        proof {
            lemma_scan_end(cs, start, operator_pred());
        }
        let mut word: Vec<char> = Vec::new();
        loop
            invariant
                self.chars@ == cs,
                old(self).chars@ == cs,
                old(self).index == start,
                start < cs.len(),
                start <= self.index <= cs.len(),
                scan_end(cs, start, operator_pred()) == scan_end(cs, self.index as int, operator_pred()),
                word@ == cs.subrange(start, self.index as int),
                is_operator_char(cs[start]),
            ensures
                self.chars@ == cs,
                start < self.index <= cs.len(),
                self.index == scan_end(cs, start, operator_pred()),
                word@ == cs.subrange(start, self.index as int),
            decreases cs.len() - self.index,
        {
            let ch = self.peek();
            if Token::is_operator(ch) {
                proof {
                    assert(operator_pred()(cs[self.index as int]));
                }
                self.advance();
                word.push(ch);
            } else {
                proof {
                    if self.index == start {
                        assert(ch == cs[start]);
                    }
                    if self.index < cs.len() {
                        assert(!operator_pred()(cs[self.index as int]));
                    }
                }
                break;
            }
        }
        Token::Operator(string_from_chars(&word))
    }
}

} // verus!
