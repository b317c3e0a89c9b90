use vstd::prelude::*;
use vstd::string::StrSliceExecFns;
use vstd::string::StringSliceAdditionalSpecFns;
use vstd::utf8::{encode_utf8, is_ascii_chars, is_char_boundary, valid_utf8};

use crate::scan::{digits_value, is_digit};
use crate::text::{chars_of, string_eq, string_from_str, string_push};

verus! {

/// Tokens of the full grammar.
#[derive(Debug, Clone, PartialEq, Eq, Hash)]
pub enum Token {
    Integer(i64),
    Identifier(String),
    QuotedIdentifier(String),
    Operator(String),
    String(String),
    OpenBrace,
    CloseBrace,
    OpenBracket,
    CloseBracket,
    OpenParen,
    CloseParen,
    Colon,
    ColonEquals,
    QuestionMark,
    Let,
    Var,
    Do,
    SetKeyword,
    On,
    Return,
    Import,
    Export,
    SelfRef,
    If,
    Then,
    Else,
    End,
    True,
    False,
    EndOfInput,
}

/// The view of a token: its text as characters.
pub enum TokenV {
    Integer(i64),
    Identifier(Seq<char>),
    QuotedIdentifier(Seq<char>),
    Operator(Seq<char>),
    String(Seq<char>),
    OpenBrace,
    CloseBrace,
    OpenBracket,
    CloseBracket,
    OpenParen,
    CloseParen,
    Colon,
    ColonEquals,
    QuestionMark,
    Let,
    Var,
    Do,
    SetKeyword,
    On,
    Return,
    Import,
    Export,
    SelfRef,
    If,
    Then,
    Else,
    End,
    True,
    False,
    EndOfInput,
}

pub open spec fn token_view(t: Token) -> TokenV {
    match t {
        Token::Integer(v) => TokenV::Integer(v),
        Token::Identifier(s) => TokenV::Identifier(s@),
        Token::QuotedIdentifier(s) => TokenV::QuotedIdentifier(s@),
        Token::Operator(s) => TokenV::Operator(s@),
        Token::String(s) => TokenV::String(s@),
        Token::OpenBrace => TokenV::OpenBrace,
        Token::CloseBrace => TokenV::CloseBrace,
        Token::OpenBracket => TokenV::OpenBracket,
        Token::CloseBracket => TokenV::CloseBracket,
        Token::OpenParen => TokenV::OpenParen,
        Token::CloseParen => TokenV::CloseParen,
        Token::Colon => TokenV::Colon,
        Token::ColonEquals => TokenV::ColonEquals,
        Token::QuestionMark => TokenV::QuestionMark,
        Token::Let => TokenV::Let,
        Token::Var => TokenV::Var,
        Token::Do => TokenV::Do,
        Token::SetKeyword => TokenV::SetKeyword,
        Token::On => TokenV::On,
        Token::Return => TokenV::Return,
        Token::Import => TokenV::Import,
        Token::Export => TokenV::Export,
        Token::SelfRef => TokenV::SelfRef,
        Token::If => TokenV::If,
        Token::Then => TokenV::Then,
        Token::Else => TokenV::Else,
        Token::End => TokenV::End,
        Token::True => TokenV::True,
        Token::False => TokenV::False,
        Token::EndOfInput => TokenV::EndOfInput,
    }
}

pub open spec fn tokens_view(ts: Seq<Token>) -> Seq<TokenV> {
    ts.map_values(|t: Token| token_view(t))
}

/// The keyword a word spells, if it is one.
pub open spec fn keyword_token(w: Seq<char>) -> Option<TokenV> {
    if w == "let"@ {
        Some(TokenV::Let)
    } else if w == "var"@ {
        Some(TokenV::Var)
    } else if w == "set"@ {
        Some(TokenV::SetKeyword)
    } else if w == "do"@ {
        Some(TokenV::Do)
    } else if w == "on"@ {
        Some(TokenV::On)
    } else if w == "return"@ {
        Some(TokenV::Return)
    } else if w == "self"@ {
        Some(TokenV::SelfRef)
    } else if w == "import"@ {
        Some(TokenV::Import)
    } else if w == "export"@ {
        Some(TokenV::Export)
    } else if w == "if"@ {
        Some(TokenV::If)
    } else if w == "then"@ {
        Some(TokenV::Then)
    } else if w == "else"@ {
        Some(TokenV::Else)
    } else if w == "end"@ {
        Some(TokenV::End)
    } else if w == "true"@ {
        Some(TokenV::True)
    } else if w == "false"@ {
        Some(TokenV::False)
    } else {
        None
    }
}

/// The token a word lexes as: a keyword or an identifier.
pub open spec fn word_token(w: Seq<char>) -> TokenV {
    match keyword_token(w) {
        Some(t) => t,
        None => TokenV::Identifier(w),
    }
}

/// The spelling of a keyword token.
pub open spec fn keyword_text(t: TokenV) -> Option<Seq<char>> {
    match t {
        TokenV::Let => Some("let"@),
        TokenV::Var => Some("var"@),
        TokenV::SetKeyword => Some("set"@),
        TokenV::Do => Some("do"@),
        TokenV::On => Some("on"@),
        TokenV::Return => Some("return"@),
        TokenV::SelfRef => Some("self"@),
        TokenV::Import => Some("import"@),
        TokenV::Export => Some("export"@),
        TokenV::If => Some("if"@),
        TokenV::Then => Some("then"@),
        TokenV::Else => Some("else"@),
        TokenV::End => Some("end"@),
        TokenV::True => Some("true"@),
        TokenV::False => Some("false"@),
        _ => None,
    }
}

/// The characters that make up operators.
pub open spec fn is_operator_char(c: char) -> bool {
    c == '~' || c == '!' || c == '@' || c == '$' || c == '%' || c == '^' || c == '&' || c == '*'
        || c == '-' || c == '+' || c == '=' || c == '|' || c == '/' || c == '.' || c == ','
        || c == '<' || c == '>'
}

/// The decimal digit for a value below ten.
pub open spec fn digit_char(d: int) -> char {
    if d == 0 {
        '0'
    } else if d == 1 {
        '1'
    } else if d == 2 {
        '2'
    } else if d == 3 {
        '3'
    } else if d == 4 {
        '4'
    } else if d == 5 {
        '5'
    } else if d == 6 {
        '6'
    } else if d == 7 {
        '7'
    } else if d == 8 {
        '8'
    } else {
        '9'
    }
}

/// The decimal digits of a natural number, without leading zeros.
pub open spec fn nat_text(n: nat) -> Seq<char>
    decreases n,
{
    if n < 10 {
        seq![digit_char(n as int)]
    } else {
        nat_text(n / 10) + seq![digit_char((n % 10) as int)]
    }
}

/// The decimal text of an integer, with a minus sign when negative.
pub open spec fn int_text(n: int) -> Seq<char> {
    if n < 0 {
        seq!['-'] + nat_text((-n) as nat)
    } else {
        nat_text(n as nat)
    }
}

/// The decimal text of a number reads back as that number: every character of it is a
/// digit, the digits spell the number, and there is no leading zero except in `0` itself;
/// a negative number's text is a minus sign before the text of its magnitude.
pub proof fn law_decimal_text_reads_back(n: nat)
    ensures
        nat_text(n).len() >= 1,
        forall|k: int| 0 <= k < nat_text(n).len() ==> is_digit(#[trigger] nat_text(n)[k]),
        digits_value(nat_text(n)) == n,
        nat_text(n)[0] == '0' ==> n == 0,
        int_text(-(n as int)) == (if n == 0 { nat_text(0) } else { seq!['-'] + nat_text(n) }),
    decreases n,
{
    if n >= 10 {
        law_decimal_text_reads_back(n / 10);
        let s = nat_text(n);
        let d = (n % 10) as int;
        assert(s == nat_text(n / 10) + seq![digit_char(d)]);
        assert(s.drop_last() =~= nat_text(n / 10));
        assert(s.last() == digit_char(d));
        assert(digit_char(d) as int - '0' as int == d);
        assert((n / 10) * 10 + d == n) by (nonlinear_arith)
            requires
                d == n % 10,
        ;
        assert(digits_value(s) == digits_value(s.drop_last()) * 10 + (s.last() as int - '0' as int));
        assert(digits_value(s) == (n / 10) * 10 + d);
        assert forall|k: int| 0 <= k < s.len() implies is_digit(#[trigger] s[k]) by {
            if k < s.len() - 1 {
                assert(s[k] == nat_text(n / 10)[k]);
            }
        }
        assert(s[0] == nat_text(n / 10)[0]);
        assert(n / 10 > 0);
    } else {
        assert(digit_char(n as int) as int - '0' as int == n);
        let s = nat_text(n);
        assert(s.drop_last() =~= Seq::<char>::empty());
        assert(digits_value(s) == digits_value(s.drop_last()) * 10 + (s.last() as int - '0' as int));
        assert(digits_value(s.drop_last()) == 0);
    }
}

/// The text a token contributes to a key: names, operators, numbers and keywords.
pub open spec fn key_part_text(t: TokenV) -> Option<Seq<char>> {
    match t {
        TokenV::Identifier(k) => Some(k),
        TokenV::Operator(k) => Some(k),
        TokenV::Integer(n) => Some(int_text(n as int)),
        _ => keyword_text(t),
    }
}

fn digit(d: u64) -> (c: char)
    requires
        d < 10,
    ensures
        c == digit_char(d as int),
{
    if d == 0 {
        '0'
    } else if d == 1 {
        '1'
    } else if d == 2 {
        '2'
    } else if d == 3 {
        '3'
    } else if d == 4 {
        '4'
    } else if d == 5 {
        '5'
    } else if d == 6 {
        '6'
    } else if d == 7 {
        '7'
    } else if d == 8 {
        '8'
    } else {
        '9'
    }
}

/// Appends the decimal digits of `n`.
fn push_nat(n: u64, out: &mut String)
    ensures
        final(out)@ == old(out)@ + nat_text(n as nat),
    decreases n,
{
    if n >= 10 {
        push_nat(n / 10, out);
    }
    string_push(out, digit(n % 10));
    proof {
        if n < 10 {
            assert(final(out)@ =~= old(out)@ + nat_text(n as nat)) by {
                assert(nat_text(n as nat) == seq![digit_char(n as int)]);
            }
        }
    }
}

/// The decimal text of an integer, as `to_string` writes it.
pub fn int_to_string(n: i64) -> (s: String)
    ensures
        s@ == int_text(n as int),
{
    let mut s = String::new();
    if n < 0 {
        string_push(&mut s, '-');
        let m: u64 = if n == i64::MIN {
            9223372036854775808u64
        } else {
            (0 - n) as u64
        };
        push_nat(m, &mut s);
    } else {
        push_nat(n as u64, &mut s);
    }
    s
}

/// Whether a string spells the given text.
fn spells(w: &String, k: &str) -> (r: bool)
    ensures
        r == (w@ == k@),
{
    let s = string_from_str(k);
    string_eq(w, &s)
}

impl Token {
    /// Whether a character is an operator character.
    pub fn is_operator(ch: char) -> (r: bool)
        ensures
            r == is_operator_char(ch),
    {
        ch == '~' || ch == '!' || ch == '@' || ch == '$' || ch == '%' || ch == '^' || ch == '&'
            || ch == '*' || ch == '-' || ch == '+' || ch == '=' || ch == '|' || ch == '/' || ch
            == '.' || ch == ',' || ch == '<' || ch == '>'
    }

    /// The keyword a word spells, or an identifier token holding the word.
    pub fn from_ident(str: String) -> (t: Token)
        ensures
            token_view(t) == word_token(str@),
    {
        if spells(&str, "let") {
            Token::Let
        } else if spells(&str, "var") {
            Token::Var
        } else if spells(&str, "set") {
            Token::SetKeyword
        } else if spells(&str, "do") {
            Token::Do
        } else if spells(&str, "on") {
            Token::On
        } else if spells(&str, "return") {
            Token::Return
        } else if spells(&str, "self") {
            Token::SelfRef
        } else if spells(&str, "import") {
            Token::Import
        } else if spells(&str, "export") {
            Token::Export
        } else if spells(&str, "if") {
            Token::If
        } else if spells(&str, "then") {
            Token::Then
        } else if spells(&str, "else") {
            Token::Else
        } else if spells(&str, "end") {
            Token::End
        } else if spells(&str, "true") {
            Token::True
        } else if spells(&str, "false") {
            Token::False
        } else {
            Token::Identifier(str)
        }
    }

    /// The spelling of a keyword token; `None` for the other tokens.
    fn to_keyword(&self) -> (r: Option<String>)
        ensures
            match keyword_text(token_view(*self)) {
                Some(k) => r matches Some(s) && s@ == k,
                None => r is None,
            },
    {
        match self {
            Token::Let => Some(string_from_str("let")),
            Token::Var => Some(string_from_str("var")),
            Token::SetKeyword => Some(string_from_str("set")),
            Token::Do => Some(string_from_str("do")),
            Token::On => Some(string_from_str("on")),
            Token::Return => Some(string_from_str("return")),
            Token::SelfRef => Some(string_from_str("self")),
            Token::Import => Some(string_from_str("import")),
            Token::Export => Some(string_from_str("export")),
            Token::If => Some(string_from_str("if")),
            Token::Then => Some(string_from_str("then")),
            Token::Else => Some(string_from_str("else")),
            Token::End => Some(string_from_str("end")),
            Token::True => Some(string_from_str("true")),
            Token::False => Some(string_from_str("false")),
            _ => None,
        }
    }

    /// The text this token contributes to a key: names, operators, numbers in decimal and
    /// keywords; `None` for punctuation, strings and the end of input.
    pub fn key_part(self) -> (r: Option<String>)
        ensures
            match key_part_text(token_view(self)) {
                Some(k) => r matches Some(s) && s@ == k,
                None => r is None,
            },
    {
        match self {
            Token::Identifier(key) => Some(key),
            Token::Operator(key) => Some(key),
            Token::Integer(num) => Some(int_to_string(num)),
            tok => tok.to_keyword(),
        }
    }

    /// The token together with the place in the text it came from.
    pub fn with_source(self, source: Source) -> (t: TokenWithSource)
        ensures
            t.token == self,
            t.source == source,
    {
        TokenWithSource { token: self, source }
    }
}

/// A place in the program text: a character index and a length.
#[derive(Debug, Clone, Copy, PartialEq)]
pub struct Source {
    index: usize,
    length: usize,
}

/// A place in the text described for a reader: the excerpt around it, its line (from 1)
/// and its column.
#[derive(Debug, Clone, PartialEq)]
pub struct SourceContext {
    context: String,
    line: usize,
    column: usize,
}

impl SourceContext {
    pub closed spec fn context_text(&self) -> Seq<char> {
        self.context@
    }

    pub closed spec fn line_number(&self) -> usize {
        self.line
    }

    pub closed spec fn column_number(&self) -> usize {
        self.column
    }
}

/// A token together with the place in the text it came from.
#[derive(Debug, Clone)]
pub struct TokenWithSource {
    pub token: Token,
    pub source: Source,
}

/// The number of line feeds among the first `n` characters.
pub open spec fn newlines_before(cs: Seq<char>, n: int) -> nat
    decreases n,
{
    if n <= 0 {
        0
    } else {
        newlines_before(cs, n - 1) + (if cs[n - 1] == '\n' {
            1nat
        } else {
            0nat
        })
    }
}

/// The index of the last line feed among the first `n` characters, or 0 when there is
/// none.
pub open spec fn last_newline_before(cs: Seq<char>, n: int) -> int
    decreases n,
{
    if n <= 0 {
        0
    } else if cs[n - 1] == '\n' {
        n - 1
    } else {
        last_newline_before(cs, n - 1)
    }
}

/// The index of the first line feed at or after `i`, if any.
pub open spec fn newline_from(cs: Seq<char>, i: int) -> Option<int>
    decreases cs.len() - i,
{
    if i < 0 || i >= cs.len() {
        None
    } else if cs[i] == '\n' {
        Some(i)
    } else {
        newline_from(cs, i + 1)
    }
}

/// How many characters of context are shown on each side of a place.
pub open spec fn context_padding() -> int {
    10
}

/// Where the excerpt around `index` ends: at the first line feed from `index` on, or ten
/// characters on.
pub open spec fn excerpt_end(cs: Seq<char>, index: int) -> int {
    match newline_from(cs, index) {
        Some(j) => j,
        None => index + context_padding(),
    }
}

/// Where the excerpt around `index` starts: ten characters back, but not before the line
/// feed that ends the previous line.
pub open spec fn excerpt_start(cs: Seq<char>, index: int) -> int {
    let n = if index < cs.len() {
        index
    } else {
        cs.len() as int
    };
    let ls = last_newline_before(cs, n);
    if ls >= index - context_padding() {
        ls
    } else {
        index - context_padding()
    }
}

proof fn lemma_last_newline_before(cs: Seq<char>, n: int)
    requires
        0 <= n <= cs.len(),
    ensures
        0 <= last_newline_before(cs, n) <= n,
        n > 0 ==> last_newline_before(cs, n) < n,
    decreases n,
{
    if n > 0 {
        lemma_last_newline_before(cs, n - 1);
    }
}

proof fn lemma_newline_from(cs: Seq<char>, i: int)
    requires
        0 <= i,
    ensures
        newline_from(cs, i) matches Some(j) ==> i <= j < cs.len(),
    decreases cs.len() - i,
{
    if i < cs.len() && cs[i] != '\n' {
        lemma_newline_from(cs, i + 1);
    }
}

proof fn lemma_newlines_before_bound(cs: Seq<char>, n: int)
    requires
        0 <= n,
    ensures
        newlines_before(cs, n) <= n,
    decreases n,
{
    if n > 0 {
        lemma_newlines_before_bound(cs, n - 1);
    }
}

/// The index of the first line feed at or after `from`.
fn first_newline(chars: &Vec<char>, from: usize) -> (r: Option<usize>)
    ensures
        match newline_from(chars@, from as int) {
            Some(j) => r == Some(j as usize),
            None => r is None,
        },
{
    let mut j: usize = from;
    while j < chars.len()
        invariant
            from <= j,
            newline_from(chars@, from as int) == newline_from(chars@, j as int),
        decreases chars.len() - j,
    {
        if chars[j] == '\n' {
            return Some(j);
        }
        j = j + 1;
    }
    None
}

/// A character boundary of a text that lies within a prefix ending at a boundary is a
/// boundary of that prefix.
proof fn lemma_boundary_in_prefix(b: Seq<u8>, s: int, e: int)
    requires
        valid_utf8(b),
        is_char_boundary(b, s),
        is_char_boundary(b, e),
        0 <= s <= e,
    ensures
        is_char_boundary(b.subrange(0, e), s),
{
    vstd::utf8::valid_utf8_split(b, e);
    let p = b.subrange(0, e);
    vstd::utf8::is_char_boundary_start_end_of_seq(p);
    if 0 < s < e {
        vstd::utf8::is_char_boundary_iff_not_is_continuation_byte(b, s);
        vstd::utf8::is_char_boundary_iff_not_is_continuation_byte(p, s);
        assert(p[s] == b[s]);
    }
}

/// The bytes of an ASCII text between two positions are those of its characters there.
proof fn lemma_ascii_bytes(cs: Seq<char>, s: int, e: int)
    requires
        is_ascii_chars(cs),
        0 <= s <= e <= cs.len(),
    ensures
        encode_utf8(cs).subrange(s, e) == encode_utf8(cs.subrange(s, e)),
{
    let sub = cs.subrange(s, e);
    assert(is_ascii_chars(sub));
    vstd::utf8::is_ascii_chars_encode_utf8(cs);
    vstd::utf8::is_ascii_chars_encode_utf8(sub);
    assert(encode_utf8(cs).subrange(s, e) =~= encode_utf8(sub));
}

impl Source {
    pub closed spec fn index(&self) -> usize {
        self.index
    }

    pub closed spec fn length(&self) -> usize {
        self.length
    }

    pub fn new(index: usize, length: usize) -> (s: Self)
        ensures
            s.index() == index,
            s.length() == length,
    {
        Self { index, length }
    }

    /// The place described in the text `source`: the excerpt from ten characters back (or
    /// the previous line feed) to the end of the line (or ten characters on), the line
    /// number counting from 1, and the column measured from the previous line feed.
    /// The excerpt is cut from the text's bytes at these character positions (for ASCII
    /// text, the characters between them), so both must fall on character boundaries of
    /// the text; the place is at least ten characters in.
    pub fn in_context(&self, source: &str) -> (c: SourceContext)
        requires
            source@.len() < usize::MAX,
            self.index() >= context_padding(),
            self.index() + context_padding() <= usize::MAX,
            is_char_boundary(encode_utf8(source@), excerpt_start(source@, self.index() as int)),
            is_char_boundary(encode_utf8(source@), excerpt_end(source@, self.index() as int)),
        ensures
            ({
                let cs = source@;
                let n = if self.index() < cs.len() {
                    self.index() as int
                } else {
                    cs.len() as int
                };
                &&& encode_utf8(c.context_text()) == encode_utf8(cs).subrange(
                    excerpt_start(cs, self.index() as int),
                    excerpt_end(cs, self.index() as int),
                )
                &&& is_ascii_chars(cs) ==> c.context_text() == cs.subrange(
                    excerpt_start(cs, self.index() as int),
                    excerpt_end(cs, self.index() as int),
                )
                &&& c.line_number() == 1 + newlines_before(cs, n)
                &&& c.column_number() == self.index() - last_newline_before(cs, n)
            }),
    {
        let ghost cs = source@;
        let chars = chars_of(source);
        let index = self.index;
        let limit = if index < chars.len() {
            index
        } else {
            chars.len()
        };
        let mut line_number: usize = 1;
        let mut line_start: usize = 0;
        let mut i: usize = 0;
        while i < limit
            invariant
                chars@ == cs,
                limit <= cs.len(),
                cs.len() < usize::MAX,
                i <= limit,
                line_number == 1 + newlines_before(cs, i as int),
                line_start == last_newline_before(cs, i as int),
                line_start <= i,
            decreases limit - i,
        {
            proof {
                lemma_newlines_before_bound(cs, i as int);
            }
            proof {
                lemma_newlines_before_bound(cs, i + 1);
            }
            if chars[i] == '\n' {
                line_number += 1;
                line_start = i;
            }
            i = i + 1;
        }
        let max_context_padding: usize = 10;
        let excerpt_start = if line_start >= index - max_context_padding {
            line_start
        } else {
            index - max_context_padding
        };
        proof {
            lemma_newline_from(cs, index as int);
        }
        let excerpt_end = match first_newline(&chars, index) {
            Some(j) => j,
            None => index + max_context_padding,
        };
        proof {
            lemma_last_newline_before(cs, limit as int);
        }
        proof {
            assert(excerpt_start == crate::grammar::excerpt_start(cs, index as int));
            assert(excerpt_end == crate::grammar::excerpt_end(cs, index as int));
            broadcast use vstd::utf8::encode_utf8_valid_utf8;
            lemma_boundary_in_prefix(encode_utf8(cs), excerpt_start as int, excerpt_end as int);
        }
        let (head, _) = source.split_at(excerpt_end);
        let (_, piece) = head.split_at(excerpt_start);
        let context = string_from_str(piece);
        proof {
            let b = encode_utf8(cs);
            let st = excerpt_start as int;
            let en = excerpt_end as int;
            broadcast use vstd::utf8::encode_utf8_valid_utf8, vstd::utf8::encode_utf8_decode_utf8;

            assert(piece.spec_bytes() =~= b.subrange(st, en));
            assert(encode_utf8(context@) == b.subrange(st, en));
            if is_ascii_chars(cs) {
                vstd::utf8::is_ascii_chars_encode_utf8(cs);
                assert(valid_utf8(b));
                assert(en <= b.len());
                lemma_ascii_bytes(cs, st, en);
                assert(vstd::utf8::decode_utf8(encode_utf8(context@)) == context@);
                assert(vstd::utf8::decode_utf8(encode_utf8(cs.subrange(st, en))) == cs.subrange(st, en));
            }
        }
        SourceContext { context, line: line_number, column: index - line_start }
    }
}

} // verus!
