use vstd::prelude::*;

use vstd::string::StrSliceExecFns;

use crate::compiler_2::{
    binding_view, binding_view_fn, bindings_view, expr_view, expr_view_fn, exprs_view,
    lemma_exprs_view, lemma_pairs_view, lemma_stmts_view, object_view, stmt_view, stmts_view,
    AstHandlerV, Binding, BindingV, Expr, ExprV, Object, ObjectV, Stmt, StmtV,
};
use crate::lexer_2::{keyword_text, same_token, token_view, tokens_view, Token, TokenV};
use crate::runtime_2::{add_sorted, keys_of, keys_sorted, lookup_sorted};
use crate::sorted::{
    has_key, keyed, lemma_add_sorted_commute, lemma_add_sorted_map, lemma_lookup_map_entries,
    map_entries, sorted_insert,
};
use crate::text::{push_str, string_from_str, string_push};

verus! {

/// Errors the parser reports.
#[derive(Debug, Clone, PartialEq)]
pub enum ParseError {
    Expected(String),
    ExpectedToken(Token),
    DuplicateKey(String),
    MixedKeyPair(String),
}

pub type Parse<T> = Result<T, ParseError>;

pub type ParseOpt<T> = Result<Option<T>, ParseError>;

/// The view of a parse error.
pub enum ParseErrorV {
    Expected(Seq<char>),
    ExpectedToken(TokenV),
    DuplicateKey(Seq<char>),
    MixedKeyPair(Seq<char>),
}

pub open spec fn parse_error_view(e: ParseError) -> ParseErrorV {
    match e {
        ParseError::Expected(s) => ParseErrorV::Expected(s@),
        ParseError::ExpectedToken(t) => ParseErrorV::ExpectedToken(crate::lexer_2::token_view(t)),
        ParseError::DuplicateKey(s) => ParseErrorV::DuplicateKey(s@),
        ParseError::MixedKeyPair(s) => ParseErrorV::MixedKeyPair(s@),
    }
}

/// What parsing a piece gives: the value and the position after it, an error, or
/// `Fault` where the parser would panic (an object literal with two handlers for one
/// selector).
pub enum Parsed<T> {
    Done(T, int),
    Failed(ParseErrorV),
    Fault,
}

/// The token at `p`, or the end of input past the last token.
pub open spec fn tok(ts: Seq<TokenV>, p: int) -> TokenV {
    if 0 <= p < ts.len() {
        ts[p]
    } else {
        TokenV::EndOfInput
    }
}

/// The text a token contributes to a key: names, operators and keywords.
pub open spec fn key_text(t: TokenV) -> Option<Seq<char>> {
    match t {
        TokenV::Identifier(k) => Some(k),
        TokenV::Operator(k) => Some(k),
        _ => keyword_text(t),
    }
}

/// The words of a key starting at `p`, and the position after them.
pub open spec fn key_words(ts: Seq<TokenV>, p: int) -> (Seq<Seq<char>>, int)
    decreases ts.len() - p,
{
    if 0 <= p < ts.len() && key_text(ts[p]) is Some {
        let (rest, q) = key_words(ts, p + 1);
        (seq![key_text(ts[p]).unwrap()] + rest, q)
    } else {
        (Seq::empty(), p)
    }
}

pub proof fn lemma_key_words(ts: Seq<TokenV>, p: int)
    ensures
        key_words(ts, p).1 >= p,
        0 <= p <= ts.len() ==> key_words(ts, p).1 <= ts.len(),
    decreases ts.len() - p,
{
    if 0 <= p < ts.len() && key_text(ts[p]) is Some {
        lemma_key_words(ts, p + 1);
    }
}

/// Words joined with single spaces.
pub open spec fn join_words(ws: Seq<Seq<char>>) -> Seq<char>
    decreases ws.len(),
{
    if ws.len() == 0 {
        Seq::empty()
    } else if ws.len() == 1 {
        ws[0]
    } else {
        join_words(ws.drop_last()) + seq![' '] + ws.last()
    }
}

/// The key at `p` (possibly empty) and the position after it.
pub open spec fn key_at(ts: Seq<TokenV>, p: int) -> (Seq<char>, int) {
    let (ws, q) = key_words(ts, p);
    (join_words(ws), q)
}

/// The selector of keyed parts: each key followed by a colon, in key order.
pub open spec fn selector_of<V>(items: Seq<(Seq<char>, V)>) -> Seq<char>
    decreases items.len(),
{
    if items.len() == 0 {
        Seq::empty()
    } else {
        selector_of(items.drop_last()) + items.last().0 + seq![':']
    }
}

/// Adding a keyed part; a key may appear once.
pub open spec fn builder_add<V>(items: Seq<(Seq<char>, V)>, key: Seq<char>, v: V) -> Result<
    Seq<(Seq<char>, V)>,
    ParseErrorV,
> {
    if lookup_sorted(items, key) is Some {
        Err(ParseErrorV::DuplicateKey(key))
    } else {
        Ok(add_sorted(items, key, v))
    }
}

/// The order in which keyed parts are written does not matter: two parts under
/// different keys give the same parts, and so the same selector, in either order.
pub proof fn law_keyed_parts_order<V>(items: Seq<(Seq<char>, V)>, k1: Seq<char>, v1: V, k2: Seq<char>, v2: V)
    requires
        keys_sorted(keys_of(items)),
        k1 != k2,
        builder_add(items, k1, v1) is Ok,
        builder_add(items, k2, v2) is Ok,
    ensures
        builder_add(builder_add(items, k1, v1)->Ok_0, k2, v2) is Ok,
        builder_add(builder_add(items, k1, v1)->Ok_0, k2, v2) == builder_add(
            builder_add(items, k2, v2)->Ok_0,
            k1,
            v1,
        ),
{
    lemma_add_sorted_commute(items, k1, v1, k2, v2);
}

/// The selector and parts of a send, a frame or a handler head: keyed parts give the
/// selector of their keys; a lone key is the selector itself; both together are an error.
pub open spec fn builder_resolve<V>(items: Seq<(Seq<char>, V)>, last_key: Seq<char>) -> Result<
    (Seq<char>, Seq<(Seq<char>, V)>),
    ParseErrorV,
> {
    if items.len() > 0 {
        if last_key.len() == 0 {
            Ok((selector_of(items), items))
        } else {
            Err(ParseErrorV::MixedKeyPair(last_key))
        }
    } else {
        Ok((last_key, Seq::empty()))
    }
}

/// A `let` binding: a plain name.
pub open spec fn binding_at(ts: Seq<TokenV>, p: int) -> Option<BindingV> {
    match tok(ts, p) {
        TokenV::Identifier(k) => Some(BindingV::Identifier(k)),
        _ => None,
    }
}

/// A handler parameter: `var name`, `do name` or a plain name.
pub open spec fn param_at(ts: Seq<TokenV>, p: int) -> Parsed<BindingV> {
    match tok(ts, p) {
        TokenV::Var => match tok(ts, p + 1) {
            TokenV::Identifier(k) => Parsed::Done(BindingV::VarIdentifier(k), p + 2),
            _ => Parsed::Failed(ParseErrorV::Expected("var param"@)),
        },
        TokenV::Do => match tok(ts, p + 1) {
            TokenV::Identifier(k) => Parsed::Done(BindingV::DoIdentifier(k), p + 2),
            _ => Parsed::Failed(ParseErrorV::Expected("do param"@)),
        },
        _ => match binding_at(ts, p) {
            Some(b) => Parsed::Done(b, p + 1),
            None => Parsed::Failed(ParseErrorV::Expected("param"@)),
        },
    }
}

/// An optional piece that must be there: anything but a found piece is reported as
/// `Expected(name)`.
pub open spec fn expect_some<T>(name: Seq<char>, r: Parsed<Option<T>>) -> Parsed<T> {
    match r {
        Parsed::Done(Some(v), q) => Parsed::Done(v, q),
        Parsed::Fault => Parsed::Fault,
        _ => Parsed::Failed(ParseErrorV::Expected(name)),
    }
}

/// The keyed parts of a handler head, from `p` on.
pub open spec fn params_loop(ts: Seq<TokenV>, p: int, items: Seq<(Seq<char>, BindingV)>) -> Parsed<
    (Seq<char>, Seq<(Seq<char>, BindingV)>),
>
    decreases ts.len() - p, 0nat,
{
    let (k, q) = key_at(ts, p);
    if tok(ts, q) == TokenV::Colon {
        match param_at(ts, q + 1) {
            Parsed::Done(b, r) => match builder_add(items, k, b) {
                Ok(items2) => if p < r <= ts.len() {
                    params_loop(ts, r, items2)
                } else {
                    Parsed::Fault
                },
                Err(e) => Parsed::Failed(e),
            },
            Parsed::Failed(e) => Parsed::Failed(e),
            Parsed::Fault => Parsed::Fault,
        }
    } else {
        match builder_resolve(items, k) {
            Ok(res) => Parsed::Done(res, q),
            Err(e) => Parsed::Failed(e),
        }
    }
}

/// The values of keyed parts, in key order.
pub open spec fn part_values<V>(items: Seq<(Seq<char>, V)>) -> Seq<V> {
    items.map_values(|e: (Seq<char>, V)| e.1)
}

/// A handler after its `on`: `{head}` and a body, added to the object.
pub open spec fn handler_at(ts: Seq<TokenV>, p: int, obj: ObjectV) -> Parsed<ObjectV>
    decreases ts.len() - p, 0nat,
{
    if tok(ts, p) != TokenV::OpenBrace {
        Parsed::Failed(ParseErrorV::ExpectedToken(TokenV::OpenBrace))
    } else if !(p < ts.len()) {
        Parsed::Fault
    } else {
        match params_loop(ts, p + 1, Seq::empty()) {
            Parsed::Done((sel, items), q) => if tok(ts, q) != TokenV::CloseBrace {
                Parsed::Failed(ParseErrorV::ExpectedToken(TokenV::CloseBrace))
            } else if !(p < q + 1 <= ts.len()) {
                Parsed::Fault
            } else {
                match body_loop(ts, q + 1, Seq::empty()) {
                    Parsed::Done(body, r) => if lookup_sorted(obj.handlers, sel) is Some {
                        Parsed::Fault
                    } else {
                        Parsed::Done(
                            ObjectV {
                                handlers: add_sorted(
                                    obj.handlers,
                                    sel,
                                    AstHandlerV { params: part_values(items), body },
                                ),
                            },
                            r,
                        )
                    },
                    Parsed::Failed(e) => Parsed::Failed(e),
                    Parsed::Fault => Parsed::Fault,
                }
            },
            Parsed::Failed(e) => Parsed::Failed(e),
            Parsed::Fault => Parsed::Fault,
        }
    }
}

/// The handlers of an object literal: each `on` followed by a handler.
pub open spec fn object_loop(ts: Seq<TokenV>, p: int, obj: ObjectV) -> Parsed<ObjectV>
    decreases ts.len() - p, 1nat,
{
    if tok(ts, p) == TokenV::On && p < ts.len() {
        match handler_at(ts, p + 1, obj) {
            Parsed::Done(obj2, q) => if p < q <= ts.len() {
                object_loop(ts, q, obj2)
            } else {
                Parsed::Fault
            },
            Parsed::Failed(e) => Parsed::Failed(e),
            Parsed::Fault => Parsed::Fault,
        }
    } else {
        Parsed::Done(obj, p)
    }
}

/// The keyed arguments of a send or a frame, from `p` on.
pub open spec fn pairs_loop(ts: Seq<TokenV>, p: int, items: Seq<(Seq<char>, ExprV)>) -> Parsed<
    (Seq<char>, Seq<(Seq<char>, ExprV)>),
>
    decreases ts.len() - p, 0nat,
{
    proof {
        lemma_key_words(ts, p);
    }
    let (k, q) = key_at(ts, p);
    if tok(ts, q) == TokenV::Colon && q < ts.len() {
        match arg_at(ts, q + 1) {
            Parsed::Done(a, r) => match builder_add(items, k, a) {
                Ok(items2) => if p < r <= ts.len() {
                    pairs_loop(ts, r, items2)
                } else {
                    Parsed::Fault
                },
                Err(e) => Parsed::Failed(e),
            },
            Parsed::Failed(e) => Parsed::Failed(e),
            Parsed::Fault => Parsed::Fault,
        }
    } else {
        match builder_resolve(items, k) {
            Ok(res) => Parsed::Done(res, q),
            Err(e) => Parsed::Failed(e),
        }
    }
}

/// A literal, a name, an object literal `[on ...]` or a frame `[key: value ...]`.
pub open spec fn base_expr_at(ts: Seq<TokenV>, p: int) -> Parsed<Option<ExprV>>
    decreases ts.len() - p, 1nat,
{
    match tok(ts, p) {
        TokenV::Integer(v) => Parsed::Done(Some(ExprV::Integer(v)), p + 1),
        TokenV::Identifier(k) => Parsed::Done(Some(ExprV::Identifier(k)), p + 1),
        TokenV::OpenBracket => if !(p < ts.len()) {
            Parsed::Fault
        } else if tok(ts, p + 1) == TokenV::On {
            match object_loop(ts, p + 1, ObjectV { handlers: Seq::empty() }) {
                Parsed::Done(obj, q) => if tok(ts, q) == TokenV::CloseBracket {
                    Parsed::Done(Some(ExprV::Object(obj)), q + 1)
                } else {
                    Parsed::Failed(ParseErrorV::ExpectedToken(TokenV::CloseBracket))
                },
                Parsed::Failed(e) => Parsed::Failed(e),
                Parsed::Fault => Parsed::Fault,
            }
        } else {
            match pairs_loop(ts, p + 1, Seq::empty()) {
                Parsed::Done((sel, items), q) => if tok(ts, q) == TokenV::CloseBracket {
                    Parsed::Done(Some(ExprV::Frame(sel, items)), q + 1)
                } else {
                    Parsed::Failed(ParseErrorV::ExpectedToken(TokenV::CloseBracket))
                },
                Parsed::Failed(e) => Parsed::Failed(e),
                Parsed::Fault => Parsed::Fault,
            }
        },
        _ => Parsed::Done(None, p),
    }
}

/// The sends that follow an expression: each `{...}` sends to what came before.
pub open spec fn send_loop(ts: Seq<TokenV>, p: int, left: ExprV) -> Parsed<Option<ExprV>>
    decreases ts.len() - p, 0nat,
{
    if tok(ts, p) == TokenV::OpenBrace && p < ts.len() {
        match pairs_loop(ts, p + 1, Seq::empty()) {
            Parsed::Done((sel, items), q) => {
                let left2 = ExprV::Send(sel, Box::new(left), part_values(items));
                if tok(ts, q) != TokenV::CloseBrace {
                    Parsed::Failed(ParseErrorV::ExpectedToken(TokenV::CloseBrace))
                } else if p < q + 1 <= ts.len() {
                    send_loop(ts, q + 1, left2)
                } else {
                    Parsed::Fault
                }
            },
            Parsed::Failed(e) => Parsed::Failed(e),
            Parsed::Fault => Parsed::Fault,
        }
    } else {
        Parsed::Done(Some(left), p)
    }
}

/// A base expression and the sends to it.
pub open spec fn send_expr_at(ts: Seq<TokenV>, p: int) -> Parsed<Option<ExprV>>
    decreases ts.len() - p, 2nat,
{
    match base_expr_at(ts, p) {
        Parsed::Done(Some(left), q) => if p < q <= ts.len() {
            send_loop(ts, q, left)
        } else {
            Parsed::Fault
        },
        Parsed::Done(None, q) => Parsed::Done(None, q),
        Parsed::Failed(e) => Parsed::Failed(e),
        Parsed::Fault => Parsed::Fault,
    }
}

/// A prefix operator applied to a send expression, or a send expression.
pub open spec fn unary_at(ts: Seq<TokenV>, p: int) -> Parsed<Option<ExprV>>
    decreases ts.len() - p, 3nat,
{
    match tok(ts, p) {
        TokenV::Operator(op) => if p < ts.len() {
            match expect_some("expr"@, send_expr_at(ts, p + 1)) {
                Parsed::Done(e, q) => Parsed::Done(Some(ExprV::Send(op, Box::new(e), Seq::empty())), q),
                Parsed::Failed(e) => Parsed::Failed(e),
                Parsed::Fault => Parsed::Fault,
            }
        } else {
            Parsed::Fault
        },
        _ => send_expr_at(ts, p),
    }
}

/// Binary operators, left to right, all of one precedence: `a + b` sends `+:` to `a`.
pub open spec fn binary_loop(ts: Seq<TokenV>, p: int, left: ExprV) -> Parsed<Option<ExprV>>
    decreases ts.len() - p, 0nat,
{
    match tok(ts, p) {
        TokenV::Operator(op) => if p < ts.len() {
            match expect_some("expr"@, unary_at(ts, p + 1)) {
                Parsed::Done(e, q) => if p < q <= ts.len() {
                    binary_loop(ts, q, ExprV::Send(op + seq![':'], Box::new(left), seq![e]))
                } else {
                    Parsed::Fault
                },
                Parsed::Failed(e) => Parsed::Failed(e),
                Parsed::Fault => Parsed::Fault,
            }
        } else {
            Parsed::Fault
        },
        _ => Parsed::Done(Some(left), p),
    }
}

/// An expression, if one starts at `p`.
pub open spec fn expr_at(ts: Seq<TokenV>, p: int) -> Parsed<Option<ExprV>>
    decreases ts.len() - p, 4nat,
{
    match unary_at(ts, p) {
        Parsed::Done(Some(left), q) => if p < q <= ts.len() {
            binary_loop(ts, q, left)
        } else {
            Parsed::Fault
        },
        Parsed::Done(None, q) => Parsed::Done(None, q),
        Parsed::Failed(e) => Parsed::Failed(e),
        Parsed::Fault => Parsed::Fault,
    }
}

/// An argument of a send or a frame: `var name`, a do-block (`on ...`) or an expression.
pub open spec fn arg_at(ts: Seq<TokenV>, p: int) -> Parsed<ExprV>
    decreases ts.len() - p, 5nat,
{
    match tok(ts, p) {
        TokenV::Var => match tok(ts, p + 1) {
            TokenV::Identifier(k) => Parsed::Done(ExprV::VarArg(k), p + 2),
            _ => Parsed::Failed(ParseErrorV::Expected("var"@)),
        },
        TokenV::On => match object_loop(ts, p, ObjectV { handlers: Seq::empty() }) {
            Parsed::Done(obj, q) => Parsed::Done(ExprV::DoArg(obj), q),
            Parsed::Failed(e) => Parsed::Failed(e),
            Parsed::Fault => Parsed::Fault,
        },
        _ => expect_some("arg"@, expr_at(ts, p)),
    }
}

/// `binding := expr` after a `let`, `var` or `set`.
pub open spec fn binding_stmt_at(ts: Seq<TokenV>, p: int) -> Parsed<(BindingV, ExprV)>
    decreases ts.len() - p, 5nat,
{
    match binding_at(ts, p) {
        None => Parsed::Failed(ParseErrorV::Expected("binding"@)),
        Some(b) => if tok(ts, p + 1) != TokenV::ColonEquals {
            Parsed::Failed(ParseErrorV::ExpectedToken(TokenV::ColonEquals))
        } else {
            match expect_some("expr"@, expr_at(ts, p + 2)) {
                Parsed::Done(e, q) => Parsed::Done((b, e), q),
                Parsed::Failed(e) => Parsed::Failed(e),
                Parsed::Fault => Parsed::Fault,
            }
        },
    }
}

/// A statement, if one starts at `p`.
pub open spec fn stmt_at(ts: Seq<TokenV>, p: int) -> Parsed<Option<StmtV>>
    decreases ts.len() - p, 6nat,
{
    match tok(ts, p) {
        TokenV::Let | TokenV::Var | TokenV::SetKeyword => if p < ts.len() {
            match binding_stmt_at(ts, p + 1) {
                Parsed::Done((b, e), q) => Parsed::Done(Some(keyword_stmt_v(tok(ts, p), b, e)), q),
                Parsed::Failed(e) => Parsed::Failed(e),
                Parsed::Fault => Parsed::Fault,
            }
        } else {
            Parsed::Fault
        },
        _ => match expr_at(ts, p) {
            Parsed::Done(Some(e), q) => Parsed::Done(Some(StmtV::Expr(e)), q),
            Parsed::Done(None, q) => Parsed::Done(None, q),
            Parsed::Failed(e) => Parsed::Failed(e),
            Parsed::Fault => Parsed::Fault,
        },
    }
}

/// The statement that `let`, `var` or `set` makes of a binding and its expression.
pub open spec fn keyword_stmt_v(t: TokenV, b: BindingV, e: ExprV) -> StmtV {
    match t {
        TokenV::Let => StmtV::Let(b, e),
        TokenV::Var => StmtV::Var(b, e),
        _ => StmtV::Assign(b, e),
    }
}

/// Statements from `p` on, appended to `acc`, up to the first place no statement starts.
pub open spec fn body_loop(ts: Seq<TokenV>, p: int, acc: Seq<StmtV>) -> Parsed<Seq<StmtV>>
    decreases ts.len() - p, 7nat,
{
    match stmt_at(ts, p) {
        Parsed::Done(Some(s), q) => if p < q <= ts.len() {
            body_loop(ts, q, acc.push(s))
        } else {
            Parsed::Fault
        },
        Parsed::Done(None, q) => Parsed::Done(acc, q),
        Parsed::Failed(e) => Parsed::Failed(e),
        Parsed::Fault => Parsed::Fault,
    }
}

/// The tokens of `n0 op1 n1 op2 n2 ...`: integers separated by operators.
pub open spec fn chain_tok(n0: i64, rest: Seq<(Seq<char>, i64)>, k: int) -> TokenV {
    if k == 0 {
        TokenV::Integer(n0)
    } else if k % 2 == 1 {
        TokenV::Operator(rest[(k - 1) / 2].0)
    } else {
        TokenV::Integer(rest[(k - 2) / 2].1)
    }
}

pub open spec fn chain_tokens(n0: i64, rest: Seq<(Seq<char>, i64)>) -> Seq<TokenV> {
    Seq::new(2 * rest.len() + 1, |k: int| chain_tok(n0, rest, k))
}

/// Operators applied left to right: each sends `op:` with the next operand to everything
/// before it.
pub open spec fn left_chain(acc: ExprV, rest: Seq<(Seq<char>, i64)>) -> ExprV
    decreases rest.len(),
{
    if rest.len() == 0 {
        acc
    } else {
        left_chain(
            ExprV::Send(rest[0].0 + seq![':'], Box::new(acc), seq![ExprV::Integer(rest[0].1)]),
            rest.drop_first(),
        )
    }
}

/// An integer operand of the chain parses as itself and stops at the next operator.
proof fn lemma_chain_operand(n0: i64, rest: Seq<(Seq<char>, i64)>, q: int, n: i64)
    requires
        0 <= q < chain_tokens(n0, rest).len(),
        q % 2 == 0,
        chain_tokens(n0, rest)[q] == TokenV::Integer(n),
    ensures
        unary_at(chain_tokens(n0, rest), q) == Parsed::Done(Some(ExprV::Integer(n)), q + 1),
{
    let ts = chain_tokens(n0, rest);
    assert(tok(ts, q) == TokenV::Integer(n));
    assert(base_expr_at(ts, q) == Parsed::Done(Some(ExprV::Integer(n)), q + 1));
    if q + 1 < ts.len() {
        assert(ts[q + 1] == chain_tok(n0, rest, q + 1));
        assert((q + 1) % 2 == 1);
        assert(tok(ts, q + 1) is Operator);
    }
    assert(send_loop(ts, q + 1, ExprV::Integer(n)) == Parsed::Done(Some(ExprV::Integer(n)), q + 1));
    assert(send_expr_at(ts, q) == Parsed::Done(Some(ExprV::Integer(n)), q + 1));
}

proof fn lemma_chain_from(n0: i64, rest: Seq<(Seq<char>, i64)>, i: int, acc: ExprV)
    requires
        0 <= i <= rest.len(),
    ensures
        binary_loop(chain_tokens(n0, rest), 2 * i + 1, acc) == Parsed::Done(
            Some(left_chain(acc, rest.skip(i))),
            (2 * rest.len() + 1) as int,
        ),
    decreases rest.len() - i,
{
    let ts = chain_tokens(n0, rest);
    if i == rest.len() {
        assert(rest.skip(i) =~= Seq::<(Seq<char>, i64)>::empty());
        assert(tok(ts, 2 * i + 1) == TokenV::EndOfInput);
    } else {
        let p = 2 * i + 1;
        assert(p % 2 == 1 && (p - 1) / 2 == i);
        assert(ts[p] == TokenV::Operator(rest[i].0));
        let q = p + 1;
        assert(q % 2 == 0 && (q - 2) / 2 == i);
        assert(ts[q] == TokenV::Integer(rest[i].1));
        lemma_chain_operand(n0, rest, q, rest[i].1);
        let acc2 = ExprV::Send(rest[i].0 + seq![':'], Box::new(acc), seq![ExprV::Integer(rest[i].1)]);
        lemma_chain_from(n0, rest, i + 1, acc2);
        assert(2 * (i + 1) + 1 == q + 1);
        assert(binary_loop(ts, p, acc) == binary_loop(ts, q + 1, acc2));
        assert(rest.skip(i)[0] == rest[i]);
        assert(rest.skip(i).drop_first() =~= rest.skip(i + 1));
    }
}

/// Binary operators share one precedence and group to the left: `n0 op1 n1 op2 n2 ...`
/// parses as `((n0 op1 n1) op2 n2) ...`, each `op` sent as the selector `op:`.
pub proof fn law_operators_left_to_right(n0: i64, rest: Seq<(Seq<char>, i64)>)
    ensures
        expr_at(chain_tokens(n0, rest), 0) == Parsed::Done(
            Some(left_chain(ExprV::Integer(n0), rest)),
            chain_tokens(n0, rest).len() as int,
        ),
{
    let ts = chain_tokens(n0, rest);
    assert(ts[0] == TokenV::Integer(n0));
    lemma_chain_operand(n0, rest, 0, n0);
    lemma_chain_from(n0, rest, 0, ExprV::Integer(n0));
    assert(rest.skip(0) =~= rest);
}

/// A whole program: statements, then the end of input.
pub open spec fn parse_spec(ts: Seq<TokenV>) -> Parsed<Seq<StmtV>> {
    match body_loop(ts, 0, Seq::empty()) {
        Parsed::Done(stmts, q) => if tok(ts, q) == TokenV::EndOfInput {
            Parsed::Done(stmts, q + 1)
        } else {
            Parsed::Failed(ParseErrorV::ExpectedToken(TokenV::EndOfInput))
        },
        Parsed::Failed(e) => Parsed::Failed(e),
        Parsed::Fault => Parsed::Fault,
    }
}

/// The keys of keyed parts only matter for the selector.
pub proof fn lemma_selector_of_map<V, W>(items: Seq<(Seq<char>, V)>, f: spec_fn(V) -> W)
    ensures
        selector_of(map_entries(items, f)) == selector_of(items),
    decreases items.len(),
{
    if items.len() > 0 {
        assert(map_entries(items, f).drop_last() =~= map_entries(items.drop_last(), f));
        lemma_selector_of_map(items.drop_last(), f);
    }
}

/// A piece that must be there, reported as `Expected(name)` otherwise.
fn expect<T>(name: &str, value: ParseOpt<T>) -> (r: Parse<T>)
    ensures
        match value {
            Ok(Some(v)) => r == Ok::<T, ParseError>(v),
            _ => r matches Err(e) && parse_error_view(e) == ParseErrorV::Expected(name@),
        },
{
    match value {
        Ok(Some(value)) => Ok(value),
        _ => Err(ParseError::Expected(string_from_str(name))),
    }
}

/// The values of keyed parts, in order.
fn part_values_of<T>(items: Vec<(String, T)>) -> (vs: Vec<T>)
    ensures
        vs@ == items@.map_values(|e: (String, T)| e.1),
{
    let mut items = items;
    let mut rev: Vec<T> = Vec::new();
    let ghost all = items@;
    while items.len() > 0
        invariant
            items@.len() + rev@.len() == all.len(),
            items@ == all.subrange(0, items@.len() as int),
            forall|i: int| 0 <= i < rev@.len() ==> #[trigger] rev@[i] == all[all.len() - 1 - i].1,
        decreases items@.len(),
    {
        let (_, v) = items.pop().unwrap();
        rev.push(v);
    }
    let mut out: Vec<T> = Vec::new();
    let ghost r = rev@;
    while rev.len() > 0
        invariant
            rev@.len() + out@.len() == all.len(),
            rev@ == r.subrange(0, rev@.len() as int),
            r.len() == all.len(),
            forall|i: int| 0 <= i < r.len() ==> #[trigger] r[i] == all[all.len() - 1 - i].1,
            forall|i: int| 0 <= i < out@.len() ==> #[trigger] out@[i] == all[i].1,
        decreases rev@.len(),
    {
        let v = rev.pop().unwrap();
        out.push(v);
    }
    assert(out@ =~= all.map_values(|e: (String, T)| e.1));
    out
}

/// The selector of keyed parts: each key followed by a colon.
pub(crate) fn selector_string<T>(items: &Vec<(String, T)>) -> (s: String)
    ensures
        s@ == selector_of(keyed(items@)),
{
    let mut s = String::new();
    let mut i: usize = 0;
    while i < items.len()
        invariant
            i <= items@.len(),
            s@ == selector_of(keyed(items@).subrange(0, i as int)),
        decreases items@.len() - i,
    {
        push_str(&mut s, items[i].0.as_str());
        string_push(&mut s, ':');
        proof {
            let k = keyed(items@);
            assert(k.subrange(0, i + 1).drop_last() =~= k.subrange(0, i as int));
        }
        i = i + 1;
    }
    assert(keyed(items@).subrange(0, items@.len() as int) =~= keyed(items@));
    s
}

/// Words joined with single spaces.
fn join_strings(parts: &Vec<String>) -> (s: String)
    ensures
        s@ == join_words(parts@.map_values(|p: String| p@)),
{
    let ghost ws = parts@.map_values(|p: String| p@);
    let mut s = String::new();
    let mut i: usize = 0;
    while i < parts.len()
        invariant
            ws == parts@.map_values(|p: String| p@),
            i <= parts@.len(),
            s@ == join_words(ws.subrange(0, i as int)),
        decreases parts@.len() - i,
    {
        if i > 0 {
            string_push(&mut s, ' ');
        }
        push_str(&mut s, parts[i].as_str());
        proof {
            assert(ws.subrange(0, i + 1).drop_last() =~= ws.subrange(0, i as int));
            if i == 0 {
                assert(s@ =~= ws.subrange(0, 1)[0]);
            }
        }
        i = i + 1;
    }
    assert(ws.subrange(0, parts@.len() as int) =~= ws);
    s
}


/// An optional expression result agrees with the parse outcome; a found expression comes
/// after `p0`.
pub open spec fn opt_expr_ok(o: Parsed<Option<ExprV>>, r: ParseOpt<Expr>, p0: int, idx: int, n: int) -> bool {
    match o {
        Parsed::Done(Some(v), q) => r matches Ok(Some(e)) && expr_view(e) == v && idx == q && p0 < q <= n,
        Parsed::Done(None, q) => r matches Ok(None) && idx == q && p0 <= q <= n,
        Parsed::Failed(e) => r matches Err(e2) && parse_error_view(e2) == e,
        Parsed::Fault => false,
    }
}

/// An expression result agrees with the parse outcome.
pub open spec fn expr_ok(o: Parsed<ExprV>, r: Parse<Expr>, p0: int, idx: int, n: int) -> bool {
    match o {
        Parsed::Done(v, q) => r matches Ok(e) && expr_view(e) == v && idx == q && p0 < q <= n,
        Parsed::Failed(e) => r matches Err(e2) && parse_error_view(e2) == e,
        Parsed::Fault => false,
    }
}

/// An optional statement result agrees with the parse outcome.
pub open spec fn opt_stmt_ok(o: Parsed<Option<StmtV>>, r: ParseOpt<Stmt>, p0: int, idx: int, n: int) -> bool {
    match o {
        Parsed::Done(Some(v), q) => r matches Ok(Some(st)) && stmt_view(st) == v && idx == q && p0 < q <= n,
        Parsed::Done(None, q) => r matches Ok(None) && idx == q && p0 <= q <= n,
        Parsed::Failed(e) => r matches Err(e2) && parse_error_view(e2) == e,
        Parsed::Fault => false,
    }
}

/// Keyed arguments agree with the parse outcome.
pub open spec fn pairs_ok(
    o: Parsed<(Seq<char>, Seq<(Seq<char>, ExprV)>)>,
    r: Parse<SelectorBuilderResult<Expr>>,
    p0: int,
    idx: int,
    n: int,
) -> bool {
    match o {
        Parsed::Done((sel, items), q) => r matches Ok(res) && res.selector@ == sel && map_entries(
            keyed(res.items@),
            expr_view_fn(),
        ) == items && idx == q && p0 <= q <= n,
        Parsed::Failed(e) => r matches Err(e2) && parse_error_view(e2) == e,
        Parsed::Fault => false,
    }
}

/// A selector and its keyed parts in key order.
pub struct SelectorBuilderResult<T> {
    pub selector: String,
    pub items: Vec<(String, T)>,
}

/// Keyed parts collected in key order.
struct SelectorBuilder<T> {
    items: Vec<(String, T)>,
}

impl<T> SelectorBuilder<T> {
    spec fn wf(&self) -> bool {
        keys_sorted(keys_of(keyed(self.items@)))
    }

    fn new() -> (b: Self)
        ensures
            b.wf(),
            b.items@ == Seq::<(String, T)>::empty(),
    {
        let b = Self { items: Vec::new() };
        assert(keys_of(keyed(b.items@)) =~= Seq::<Seq<char>>::empty());
        b
    }

    fn add(&mut self, key: String, value: T) -> (r: Parse<()>)
        requires
            old(self).wf(),
        ensures
            final(self).wf(),
            if lookup_sorted(keyed(old(self).items@), key@) is Some {
                r matches Err(e) && parse_error_view(e) == ParseErrorV::DuplicateKey(key@)
            } else {
                r is Ok && keyed(final(self).items@) == add_sorted(keyed(old(self).items@), key@, value)
            },
    {
        if has_key(&self.items, &key) {
            return Err(ParseError::DuplicateKey(key));
        }
        sorted_insert(&mut self.items, key, value);
        Ok(())
    }

    fn resolve(self, last_key: String) -> (r: Parse<SelectorBuilderResult<T>>)
        ensures
            match builder_resolve(keyed(self.items@), last_key@) {
                Ok((sel, items)) => r matches Ok(res) && res.selector@ == sel && keyed(res.items@) == items,
                Err(e) => r matches Err(e2) && parse_error_view(e2) == e,
            },
    {
        if self.items.len() > 0 {
            if last_key.unicode_len() == 0 {
                return self.resolve_pairs();
            }
            return Err(ParseError::MixedKeyPair(last_key));
        }
        let r = SelectorBuilderResult { selector: last_key, items: vec![] };
        assert(keyed(r.items@) =~= Seq::<(Seq<char>, T)>::empty());
        Ok(r)
    }

    fn resolve_pairs(self) -> (r: Parse<SelectorBuilderResult<T>>)
        ensures
            r matches Ok(res) && res.selector@ == selector_of(keyed(self.items@)) && res.items@ == self.items@,
    {
        let selector = selector_string(&self.items);
        Ok(SelectorBuilderResult { selector, items: self.items })
    }
}

/// The parser: the tokens and the position reached.
pub struct Parser {
    tokens: Vec<Token>,
    index: usize,
}

impl Parser {
    pub closed spec fn toks(&self) -> Seq<TokenV> {
        tokens_view(self.tokens@)
    }

    fn new(tokens: Vec<Token>) -> (p: Self)
        ensures
            p.toks() == tokens_view(tokens@),
            p.index == 0,
    {
        Self { tokens, index: 0 }
    }

    fn peek(&self) -> (t: Token)
        ensures
            token_view(t) == tok(self.toks(), self.index as int),
    {
        if self.index < self.tokens.len() {
            self.tokens[self.index].clone()
        } else {
            Token::EndOfInput
        }
    }

    fn advance(&mut self)
        requires
            old(self).index < old(self).tokens.len(),
        ensures
            final(self).toks() == old(self).toks(),
            final(self).index == old(self).index + 1,
            final(self).index <= final(self).toks().len(),
    {
        self.index += 1
    }

    fn expect_token(&mut self, token: Token) -> (r: Parse<()>)
        requires
            old(self).index <= old(self).toks().len(),
            token_view(token) != TokenV::EndOfInput,
        ensures
            final(self).toks() == old(self).toks(),
            if tok(old(self).toks(), old(self).index as int) == token_view(token) {
                r is Ok && final(self).index == old(self).index + 1
                    && final(self).index <= final(self).toks().len()
            } else {
                r matches Err(e) && parse_error_view(e) == ParseErrorV::ExpectedToken(token_view(token))
                    && final(self).index == old(self).index
            },
    {
        if same_token(&self.peek(), &token) {
            self.advance();
            Ok(())
        } else {
            Err(ParseError::ExpectedToken(token))
        }
    }

    /// A key: names, operators and keywords up to anything else, joined with spaces.
    fn key(&mut self) -> (r: Parse<String>)
        requires
            old(self).index <= old(self).toks().len(),
        ensures
            final(self).toks() == old(self).toks(),
            r matches Ok(k) && k@ == key_at(old(self).toks(), old(self).index as int).0,
            final(self).index == key_at(old(self).toks(), old(self).index as int).1,
            old(self).index <= final(self).index <= final(self).toks().len(),
    {
        let ghost ts = self.toks();
        let ghost p0 = self.index as int;
        let mut parts: Vec<String> = vec![];
        proof {
            lemma_key_words(ts, p0);
            assert(parts@.map_values(|p: String| p@) + key_words(ts, p0).0 =~= key_words(ts, p0).0);
        }
        loop
            invariant
                self.toks() == ts,
                old(self).toks() == ts,
                old(self).index == p0,
                p0 <= self.index <= ts.len(),
                key_words(ts, p0) == (
                    parts@.map_values(|p: String| p@) + key_words(ts, self.index as int).0,
                    key_words(ts, self.index as int).1,
                ),
            decreases ts.len() - self.index,
        {
            let t = self.peek();
            let ghost i = self.index as int;
            let part = match t {
                Token::Identifier(key) => Some(key),
                Token::Operator(key) => Some(key),
                other => other.to_keyword(),
            };
            match part {
                Some(key) => {
                    assert(i < ts.len());
                    self.advance();
                    let ghost before = parts@.map_values(|p: String| p@);
                    parts.push(key);
                    proof {
                        assert(parts@.map_values(|p: String| p@) =~= before.push(key@));
                        assert(key_words(ts, i).0 == seq![key@] + key_words(ts, i + 1).0);
                        assert(before + key_words(ts, i).0 =~= before.push(key@) + key_words(ts, i + 1).0);
                    }
                },
                None => {
                    proof {
                        assert(key_words(ts, i).0 =~= Seq::<Seq<char>>::empty());
                        assert(parts@.map_values(|p: String| p@) + key_words(ts, i).0 =~= parts@.map_values(|p: String| p@));
                    }
                    return Ok(join_strings(&parts));
                },
            }
        }
    }
}

impl Parser {
    /// Parses a program: its statements, then the end of input.
    pub fn parse(tokens: Vec<Token>) -> (r: Parse<Vec<Stmt>>)
        requires
            !(parse_spec(tokens_view(tokens@)) is Fault),
        ensures
            match parse_spec(tokens_view(tokens@)) {
                Parsed::Done(stmts, _) => r matches Ok(v) && stmts_view(v@) == stmts,
                Parsed::Failed(e) => r matches Err(e2) && parse_error_view(e2) == e,
                Parsed::Fault => false,
            },
    {
        let mut parser = Self::new(tokens);
        parser.program()
    }

    fn program(&mut self) -> (r: Parse<Vec<Stmt>>)
        requires
            old(self).index == 0,
            !(parse_spec(old(self).toks()) is Fault),
        ensures
            match parse_spec(old(self).toks()) {
                Parsed::Done(stmts, _) => r matches Ok(v) && stmts_view(v@) == stmts,
                Parsed::Failed(e) => r matches Err(e2) && parse_error_view(e2) == e,
                Parsed::Fault => false,
            },
    {
        let out = self.body()?;
        if same_token(&self.peek(), &Token::EndOfInput) {
            Ok(out)
        } else {
            Err(ParseError::ExpectedToken(Token::EndOfInput))
        }
    }

    /// Statements up to the first place no statement starts.
    #[verifier::rlimit(100)]
    #[verifier::spinoff_prover]
    fn body(&mut self) -> (r: Parse<Vec<Stmt>>)
        requires
            old(self).index <= old(self).toks().len(),
            !(body_loop(old(self).toks(), old(self).index as int, Seq::empty()) is Fault),
        ensures
            final(self).toks() == old(self).toks(),
            match body_loop(old(self).toks(), old(self).index as int, Seq::empty()) {
                Parsed::Done(stmts, q) => r matches Ok(v) && stmts_view(v@) == stmts && final(self).index
                    == q && old(self).index <= q <= final(self).toks().len(),
                Parsed::Failed(e) => r matches Err(e2) && parse_error_view(e2) == e,
                Parsed::Fault => false,
            },
        decreases old(self).toks().len() - old(self).index, 7nat,
    {
        let ghost ts = self.toks();
        let ghost p0 = self.index as int;
        let mut out: Vec<Stmt> = vec![];
        proof {
            lemma_stmts_view(out@);
            assert(out@.map_values(|s: Stmt| stmt_view(s)) =~= Seq::<StmtV>::empty());
        }
        loop
            invariant
                self.toks() == ts,
                old(self).toks() == ts,
                old(self).index == p0,
                p0 <= self.index <= ts.len(),
                body_loop(ts, p0, Seq::empty()) == body_loop(ts, self.index as int, stmts_view(out@)),
                !(body_loop(ts, self.index as int, stmts_view(out@)) is Fault),
            decreases ts.len() - self.index,
        {
            let ghost i = self.index as int;
            let ghost acc = stmts_view(out@);
            match self.stmt()? {
                Some(stmt) => {
                    let ghost sv = stmt_view(stmt);
                    let ghost old_out = out@;
                    out.push(stmt);
                    proof {
                        lemma_stmts_view(out@);
                        lemma_stmts_view(old_out);
                        assert(out@ == old_out.push(stmt));
                        assert(old_out.map_values(|s: Stmt| stmt_view(s)).push(sv) =~= out@.map_values(|s: Stmt| stmt_view(s)));
                        assert(stmts_view(out@) == acc.push(sv));
                        assert(body_loop(ts, i, acc) == body_loop(ts, self.index as int, acc.push(sv)));
                    }
                },
                None => {
                    return Ok(out);
                },
            }
        }
    }

    /// A statement, if one starts here.
    #[verifier::rlimit(100)]
    #[verifier::spinoff_prover]
    fn stmt(&mut self) -> (r: ParseOpt<Stmt>)
        requires
            old(self).index <= old(self).toks().len(),
            !(stmt_at(old(self).toks(), old(self).index as int) is Fault),
        ensures
            final(self).toks() == old(self).toks(),
            opt_stmt_ok(
                stmt_at(old(self).toks(), old(self).index as int),
                r,
                old(self).index as int,
                final(self).index as int,
                final(self).toks().len() as int,
            ),
        decreases old(self).toks().len() - old(self).index, 6nat,
    {
        let t = self.peek();
        match t {
            Token::Let | Token::Var | Token::SetKeyword => {
                self.advance();
                self.keyword_stmt(t)
            },
            _ => {
                if let Some(expr) = self.expr()? {
                    Ok(Some(Stmt::Expr(expr)))
                } else {
                    Ok(None)
                }
            },
        }
    }

    /// The rest of a `let`, `var` or `set` statement, after the keyword `t`.
    fn keyword_stmt(&mut self, t: Token) -> (r: ParseOpt<Stmt>)
        requires
            old(self).index <= old(self).toks().len(),
            !(binding_stmt_at(old(self).toks(), old(self).index as int) is Fault),
        ensures
            final(self).toks() == old(self).toks(),
            match binding_stmt_at(old(self).toks(), old(self).index as int) {
                Parsed::Done((b, e), q) => r matches Ok(Some(st)) && stmt_view(st) == keyword_stmt_v(
                    token_view(t),
                    b,
                    e,
                ) && final(self).index == q && old(self).index < q <= final(self).toks().len(),
                Parsed::Failed(e) => r matches Err(e2) && parse_error_view(e2) == e,
                Parsed::Fault => false,
            },
        decreases old(self).toks().len() - old(self).index, 6nat,
    {
        let (binding, expr) = self.binding_stmt()?;
        let st = match t {
            Token::Let => Stmt::Let(binding, expr),
            Token::Var => Stmt::Var(binding, expr),
            _ => Stmt::Assign(binding, expr),
        };
        Ok(Some(st))
    }

    /// `binding := expr`.
    #[verifier::rlimit(100)]
    #[verifier::spinoff_prover]
    fn binding_stmt(&mut self) -> (r: Parse<(Binding, Expr)>)
        requires
            old(self).index <= old(self).toks().len(),
            !(binding_stmt_at(old(self).toks(), old(self).index as int) is Fault),
        ensures
            final(self).toks() == old(self).toks(),
            match binding_stmt_at(old(self).toks(), old(self).index as int) {
                Parsed::Done((b, e), q) => r matches Ok((b2, e2)) && binding_view(b2) == b && expr_view(e2)
                    == e && final(self).index == q && old(self).index < q <= final(self).toks().len(),
                Parsed::Failed(e) => r matches Err(e2) && parse_error_view(e2) == e,
                Parsed::Fault => false,
            },
        decreases old(self).toks().len() - old(self).index, 5nat,
    {
        let binding = expect("binding", self.binding())?;
        self.expect_token(Token::ColonEquals)?;
        let expr = expect("expr", self.expr())?;
        Ok((binding, expr))
    }

    /// A plain name being bound.
    fn binding(&mut self) -> (r: ParseOpt<Binding>)
        requires
            old(self).index <= old(self).toks().len(),
        ensures
            final(self).toks() == old(self).toks(),
            match binding_at(old(self).toks(), old(self).index as int) {
                Some(b) => r matches Ok(Some(b2)) && binding_view(b2) == b && final(self).index == old(self).index + 1 && final(self).index <= final(self).toks().len(),
                None => r matches Ok(None) && final(self).index == old(self).index,
            },
    {
        match self.peek() {
            Token::Identifier(key) => {
                self.advance();
                Ok(Some(Binding::Identifier(key)))
            },
            _ => Ok(None),
        }
    }

    /// A handler parameter.
    fn param(&mut self) -> (r: Parse<Binding>)
        requires
            old(self).index <= old(self).toks().len(),
        ensures
            final(self).toks() == old(self).toks(),
            match param_at(old(self).toks(), old(self).index as int) {
                Parsed::Done(b, q) => r matches Ok(b2) && binding_view(b2) == b && final(self).index == q
                    && old(self).index < q <= final(self).toks().len(),
                Parsed::Failed(e) => r matches Err(e2) && parse_error_view(e2) == e,
                Parsed::Fault => false,
            },
    {
        match self.peek() {
            Token::Var => {
                self.advance();
                if let Token::Identifier(key) = self.peek() {
                    self.advance();
                    return Ok(Binding::VarIdentifier(key));
                }
                Err(ParseError::Expected(string_from_str("var param")))
            },
            Token::Do => {
                self.advance();
                if let Token::Identifier(key) = self.peek() {
                    self.advance();
                    return Ok(Binding::DoIdentifier(key));
                }
                Err(ParseError::Expected(string_from_str("do param")))
            },
            _ => expect("param", self.binding()),
        }
    }

    /// The keyed parameters of a handler head.
    fn params_body(&mut self) -> (r: Parse<SelectorBuilderResult<Binding>>)
        requires
            old(self).index <= old(self).toks().len(),
        ensures
            final(self).toks() == old(self).toks(),
            match params_loop(old(self).toks(), old(self).index as int, Seq::empty()) {
                Parsed::Done((sel, items), q) => r matches Ok(res) && res.selector@ == sel && map_entries(
                    keyed(res.items@),
                    binding_view_fn(),
                ) == items && final(self).index == q && old(self).index <= q <= final(self).toks().len(),
                Parsed::Failed(e) => r matches Err(e2) && parse_error_view(e2) == e,
                Parsed::Fault => false,
            },
    {
        let ghost ts = self.toks();
        let ghost p0 = self.index as int;
        let mut builder: SelectorBuilder<Binding> = SelectorBuilder::new();
        assert(map_entries(keyed(builder.items@), binding_view_fn()) =~= Seq::<(Seq<char>, BindingV)>::empty());
        loop
            invariant
                self.toks() == ts,
                old(self).toks() == ts,
                old(self).index == p0,
                p0 <= self.index <= ts.len(),
                builder.wf(),
                params_loop(ts, p0, Seq::empty()) == params_loop(
                    ts,
                    self.index as int,
                    map_entries(keyed(builder.items@), binding_view_fn()),
                ),
            decreases ts.len() - self.index,
        {
            let ghost i = self.index as int;
            let ghost items = map_entries(keyed(builder.items@), binding_view_fn());
            let key = self.key()?;
            if self.expect_token(Token::Colon).is_ok() {
                let param = self.param()?;
                let ghost pv = binding_view(param);
                let ghost old_keyed = keyed(builder.items@);
                proof {
                    lemma_lookup_map_entries(old_keyed, key@, binding_view_fn());
                    lemma_add_sorted_map(old_keyed, key@, param, binding_view_fn());
                }
                builder.add(key, param)?;
            } else {
                let ghost k = keyed(builder.items@);
                proof {
                    lemma_selector_of_map(k, binding_view_fn());
                    if k.len() == 0 {
                        assert(map_entries(keyed(Seq::<(String, Binding)>::empty()), binding_view_fn()) =~= Seq::<(Seq<char>, BindingV)>::empty());
                    }
                }
                let r = builder.resolve(key);
                proof {
                    if r is Ok && k.len() == 0 {
                        assert(map_entries(keyed(r->Ok_0.items@), binding_view_fn()) =~= Seq::<(Seq<char>, BindingV)>::empty());
                    }
                }
                return r;
            }
        }
    }

    /// A handler after its `on`, added to `object`.
    fn handler(&mut self, object: &mut Object) -> (r: Parse<()>)
        requires
            old(self).index <= old(self).toks().len(),
            old(object).wf(),
            !(handler_at(old(self).toks(), old(self).index as int, object_view(*old(object))) is Fault),
        ensures
            final(self).toks() == old(self).toks(),
            final(object).wf(),
            match handler_at(old(self).toks(), old(self).index as int, object_view(*old(object))) {
                Parsed::Done(obj2, q) => r is Ok && object_view(*final(object)) == obj2 && final(self).index
                    == q && old(self).index < q <= final(self).toks().len(),
                Parsed::Failed(e) => r matches Err(e2) && parse_error_view(e2) == e,
                Parsed::Fault => false,
            },
        decreases old(self).toks().len() - old(self).index, 0nat,
    {
        self.expect_token(Token::OpenBrace)?;
        let result = self.params_body()?;
        self.expect_token(Token::CloseBrace)?;
        let body = self.body()?;
        let ghost items = result.items@;
        let params = part_values_of(result.items);
        if object.has_handler(&result.selector) {
            vstd::pervasive::unreached::<()>();
        }
        proof {
            assert(bindings_view(params@) =~= part_values(map_entries(keyed(items), binding_view_fn())));
        }
        let _ = object.add_handler(result.selector, params, body);
        Ok(())
    }

    /// The handlers of an object literal.
    fn object_body(&mut self) -> (r: Parse<Object>)
        requires
            old(self).index <= old(self).toks().len(),
            !(object_loop(old(self).toks(), old(self).index as int, ObjectV { handlers: Seq::empty() }) is Fault),
        ensures
            final(self).toks() == old(self).toks(),
            match object_loop(old(self).toks(), old(self).index as int, ObjectV { handlers: Seq::empty() }) {
                Parsed::Done(obj, q) => r matches Ok(o) && o.wf() && object_view(o) == obj && final(self).index
                    == q && old(self).index <= q <= final(self).toks().len() && (tok(old(self).toks(), old(self).index as int) == TokenV::On ==> old(self).index < q),
                Parsed::Failed(e) => r matches Err(e2) && parse_error_view(e2) == e,
                Parsed::Fault => false,
            },
        decreases old(self).toks().len() - old(self).index, 1nat,
    {
        let ghost ts = self.toks();
        let ghost p0 = self.index as int;
        let mut object = Object::new();
        loop
            invariant
                self.toks() == ts,
                old(self).toks() == ts,
                old(self).index == p0,
                p0 <= self.index <= ts.len(),
                object.wf(),
                object_loop(ts, p0, ObjectV { handlers: Seq::empty() }) == object_loop(
                    ts,
                    self.index as int,
                    object_view(object),
                ),
                self.index == p0 || (tok(ts, p0) == TokenV::On && p0 < self.index),
                !(object_loop(ts, self.index as int, object_view(object)) is Fault),
            decreases ts.len() - self.index,
        {
            match self.peek() {
                Token::On => {
                    self.advance();
                    self.handler(&mut object)?;
                },
                _ => {
                    return Ok(object);
                },
            }
        }
    }

    /// The keyed arguments of a frame.
    fn frame(&mut self) -> (r: Parse<SelectorBuilderResult<Expr>>)
        requires
            old(self).index <= old(self).toks().len(),
            !(pairs_loop(old(self).toks(), old(self).index as int, Seq::empty()) is Fault),
        ensures
            final(self).toks() == old(self).toks(),
            pairs_ok(
                pairs_loop(old(self).toks(), old(self).index as int, Seq::empty()),
                r,
                old(self).index as int,
                final(self).index as int,
                final(self).toks().len() as int,
            ),
        decreases old(self).toks().len() - old(self).index, 1nat,
    {
        self.pairs()
    }

    /// The keyed arguments of a send.
    fn send_body(&mut self) -> (r: Parse<SelectorBuilderResult<Expr>>)
        requires
            old(self).index <= old(self).toks().len(),
            !(pairs_loop(old(self).toks(), old(self).index as int, Seq::empty()) is Fault),
        ensures
            final(self).toks() == old(self).toks(),
            pairs_ok(
                pairs_loop(old(self).toks(), old(self).index as int, Seq::empty()),
                r,
                old(self).index as int,
                final(self).index as int,
                final(self).toks().len() as int,
            ),
        decreases old(self).toks().len() - old(self).index, 1nat,
    {
        self.pairs()
    }

    /// Keyed arguments: `key: arg` pairs, or a lone key.
    fn pairs(&mut self) -> (r: Parse<SelectorBuilderResult<Expr>>)
        requires
            old(self).index <= old(self).toks().len(),
            !(pairs_loop(old(self).toks(), old(self).index as int, Seq::empty()) is Fault),
        ensures
            final(self).toks() == old(self).toks(),
            pairs_ok(
                pairs_loop(old(self).toks(), old(self).index as int, Seq::empty()),
                r,
                old(self).index as int,
                final(self).index as int,
                final(self).toks().len() as int,
            ),
        decreases old(self).toks().len() - old(self).index, 0nat,
    {
        let ghost ts = self.toks();
        let ghost p0 = self.index as int;
        let mut builder: SelectorBuilder<Expr> = SelectorBuilder::new();
        assert(map_entries(keyed(builder.items@), expr_view_fn()) =~= Seq::<(Seq<char>, ExprV)>::empty());
        loop
            invariant
                self.toks() == ts,
                old(self).toks() == ts,
                old(self).index == p0,
                p0 <= self.index <= ts.len(),
                builder.wf(),
                pairs_loop(ts, p0, Seq::empty()) == pairs_loop(
                    ts,
                    self.index as int,
                    map_entries(keyed(builder.items@), expr_view_fn()),
                ),
                !(pairs_loop(ts, self.index as int, map_entries(keyed(builder.items@), expr_view_fn())) is Fault),
            decreases ts.len() - self.index,
        {
            let ghost i = self.index as int;
            proof {
                lemma_key_words(ts, i);
            }
            let key = self.key()?;
            if self.expect_token(Token::Colon).is_ok() {
                let arg = self.arg()?;
                let ghost old_keyed = keyed(builder.items@);
                proof {
                    lemma_lookup_map_entries(old_keyed, key@, expr_view_fn());
                    lemma_add_sorted_map(old_keyed, key@, arg, expr_view_fn());
                }
                builder.add(key, arg)?;
            } else {
                let ghost k = keyed(builder.items@);
                proof {
                    lemma_selector_of_map(k, expr_view_fn());
                }
                let r = builder.resolve(key);
                proof {
                    if r is Ok && k.len() == 0 {
                        assert(map_entries(keyed(r->Ok_0.items@), expr_view_fn()) =~= Seq::<(Seq<char>, ExprV)>::empty());
                    }
                }
                return r;
            }
        }
    }

    /// A literal, a name, an object literal or a frame.
    fn base_expr(&mut self) -> (r: ParseOpt<Expr>)
        requires
            old(self).index <= old(self).toks().len(),
            !(base_expr_at(old(self).toks(), old(self).index as int) is Fault),
        ensures
            final(self).toks() == old(self).toks(),
            opt_expr_ok(
                base_expr_at(old(self).toks(), old(self).index as int),
                r,
                old(self).index as int,
                final(self).index as int,
                final(self).toks().len() as int,
            ),
        decreases old(self).toks().len() - old(self).index, 1nat,
    {
        match self.peek() {
            Token::Integer(value) => {
                self.advance();
                Ok(Some(Expr::Integer(value)))
            },
            Token::Identifier(value) => {
                self.advance();
                Ok(Some(Expr::Identifier(value)))
            },
            Token::OpenBracket => {
                self.advance();
                match self.peek() {
                    Token::On => {
                        let object = self.object_body()?;
                        self.expect_token(Token::CloseBracket)?;
                        Ok(Some(Expr::Object(object)))
                    },
                    _ => {
                        let frame = self.frame()?;
                        self.expect_token(Token::CloseBracket)?;
                        proof {
                            lemma_pairs_view(frame.items@);
                        }
                        Ok(Some(Expr::Frame(frame.selector, frame.items)))
                    },
                }
            },
            _ => Ok(None),
        }
    }

    /// A base expression and the sends that follow it.
    fn send_expr(&mut self) -> (r: ParseOpt<Expr>)
        requires
            old(self).index <= old(self).toks().len(),
            !(send_expr_at(old(self).toks(), old(self).index as int) is Fault),
        ensures
            final(self).toks() == old(self).toks(),
            opt_expr_ok(
                send_expr_at(old(self).toks(), old(self).index as int),
                r,
                old(self).index as int,
                final(self).index as int,
                final(self).toks().len() as int,
            ),
        decreases old(self).toks().len() - old(self).index, 2nat,
    {
        let ghost ts = self.toks();
        let ghost p0 = self.index as int;
        if let Some(first) = self.base_expr()? {
            let mut left = first;
            loop
                invariant
                    self.toks() == ts,
                    old(self).toks() == ts,
                    old(self).index == p0,
                    p0 < self.index <= ts.len(),
                    send_expr_at(ts, p0) == send_loop(ts, self.index as int, expr_view(left)),
                    !(send_loop(ts, self.index as int, expr_view(left)) is Fault),
                decreases ts.len() - self.index,
            {
                match self.peek() {
                    Token::OpenBrace => {
                        self.advance();
                        let result = self.send_body()?;
                        let ghost items = result.items@;
                        let args = part_values_of(result.items);
                        proof {
                            lemma_exprs_view(args@);
                            assert(exprs_view(args@) =~= part_values(map_entries(keyed(items), expr_view_fn())));
                        }
                        left = Expr::Send(result.selector, Box::new(left), args);
                        self.expect_token(Token::CloseBrace)?;
                    },
                    _ => {
                        return Ok(Some(left));
                    },
                }
            }
        }
        Ok(None)
    }

    /// A prefix operator applied to a send expression, or a send expression.
    fn unary_op_expr(&mut self) -> (r: ParseOpt<Expr>)
        requires
            old(self).index <= old(self).toks().len(),
            !(unary_at(old(self).toks(), old(self).index as int) is Fault),
        ensures
            final(self).toks() == old(self).toks(),
            opt_expr_ok(
                unary_at(old(self).toks(), old(self).index as int),
                r,
                old(self).index as int,
                final(self).index as int,
                final(self).toks().len() as int,
            ),
        decreases old(self).toks().len() - old(self).index, 3nat,
    {
        match self.peek() {
            Token::Operator(op) => {
                self.advance();
                let expr = expect("expr", self.send_expr())?;
                let args: Vec<Expr> = vec![];
                proof {
                    assert(exprs_view(args@) =~= Seq::<ExprV>::empty());
                }
                Ok(Some(Expr::Send(op, Box::new(expr), args)))
            },
            _ => self.send_expr(),
        }
    }

    /// An expression: binary operators over prefix expressions, left to right.
    #[verifier::rlimit(100)]
    #[verifier::spinoff_prover]
    fn expr(&mut self) -> (r: ParseOpt<Expr>)
        requires
            old(self).index <= old(self).toks().len(),
            !(expr_at(old(self).toks(), old(self).index as int) is Fault),
        ensures
            final(self).toks() == old(self).toks(),
            opt_expr_ok(
                expr_at(old(self).toks(), old(self).index as int),
                r,
                old(self).index as int,
                final(self).index as int,
                final(self).toks().len() as int,
            ),
        decreases old(self).toks().len() - old(self).index, 4nat,
    {
        let ghost ts = self.toks();
        let ghost p0 = self.index as int;
        if let Some(first) = self.unary_op_expr()? {
            let mut left = first;
            loop
                invariant
                    self.toks() == ts,
                    old(self).toks() == ts,
                    old(self).index == p0,
                    p0 < self.index <= ts.len(),
                    expr_at(ts, p0) == binary_loop(ts, self.index as int, expr_view(left)),
                    !(binary_loop(ts, self.index as int, expr_view(left)) is Fault),
                decreases ts.len() - self.index,
            {
                let ghost i = self.index as int;
                match self.peek() {
                    Token::Operator(op) => {
                        self.advance();
                        let expr = expect("expr", self.unary_op_expr())?;
                        let ghost opv = op@;
                        let mut selector = op;
                        string_push(&mut selector, ':');
                        assert(selector@ =~= opv + seq![':']);
                        let args = vec![expr];
                        proof {
                            lemma_exprs_view(args@);
                            assert(exprs_view(args@) =~= seq![expr_view(args@[0])]);
                        }
                        let ghost lv = expr_view(left);
                        left = Expr::Send(selector, Box::new(left), args);
                        assert(binary_loop(ts, i, lv) == binary_loop(ts, self.index as int, expr_view(left)));
                    },
                    _ => {
                        return Ok(Some(left));
                    },
                }
            }
        }
        Ok(None)
    }

    /// An argument: `var name`, a do-block or an expression.
    fn arg(&mut self) -> (r: Parse<Expr>)
        requires
            old(self).index <= old(self).toks().len(),
            !(arg_at(old(self).toks(), old(self).index as int) is Fault),
        ensures
            final(self).toks() == old(self).toks(),
            expr_ok(
                arg_at(old(self).toks(), old(self).index as int),
                r,
                old(self).index as int,
                final(self).index as int,
                final(self).toks().len() as int,
            ),
        decreases old(self).toks().len() - old(self).index, 5nat,
    {
        match self.peek() {
            Token::Var => {
                self.advance();
                if let Token::Identifier(key) = self.peek() {
                    self.advance();
                    return Ok(Expr::VarArg(key));
                }
                Err(ParseError::Expected(string_from_str("var")))
            },
            Token::On => {
                let object = self.object_body()?;
                Ok(Expr::DoArg(object))
            },
            _ => expect("arg", self.expr()),
        }
    }
}

} // verus!
