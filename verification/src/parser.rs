//! The parser: a single left-to-right pass that reduces a token sequence to
//! a sequence of parse-tree nodes, maintaining an output stack.
//!
//! The mathematical model is `parse_spec`, a fold over the token values;
//! `parse` is the executable reducer, proved to return exactly its nodes.
//! Chained operators fold strictly left to right: there is no precedence.

use vstd::prelude::*;
use vstd::string::StrSliceExecFns;
use crate::ast::BinaryOp;
use crate::ast::BinaryOpV;
use crate::ast::Node;
use crate::ast::NodeV;
use crate::ast::node_view;
use crate::ast::node_views;
use crate::lexer::SpecToken;
use crate::lexer::Token;
use crate::lexer::TokenKind;
use crate::lexer::is_digit_char;
use crate::lexer::token_views;

verus! {

/// The numeric value of a run of decimal digits, most significant first.
pub open spec fn digits_val(s: Seq<char>) -> int
    decreases s.len(),
{
    if s.len() == 0 {
        0
    } else {
        digits_val(s.drop_last()) * 10 + (s.last() as u32 - '0' as u32)
    }
}

proof fn lemma_digits_val_nonneg(s: Seq<char>)
    requires
        forall|i: int| 0 <= i < s.len() ==> is_digit_char(s[i]),
    ensures
        digits_val(s) >= 0,
    decreases s.len(),
{
    if s.len() > 0 {
        assert(forall|i: int| 0 <= i < s.drop_last().len() ==> is_digit_char(s.drop_last()[i]));
        lemma_digits_val_nonneg(s.drop_last());
        assert(is_digit_char(s.last()));
    }
}

/// The digit part of an integer text: everything after an optional leading
/// sign.
pub open spec fn int_text_digits(s: Seq<char>) -> Seq<char> {
    if s.len() > 0 && (s[0] == '+' || s[0] == '-') {
        s.skip(1)
    } else {
        s
    }
}

/// Whether `s` is a well-formed decimal integer text: an optional `+` or
/// `-` sign followed by one or more decimal digits and nothing else.
pub open spec fn is_int_text(s: Seq<char>) -> bool {
    let d = int_text_digits(s);
    d.len() > 0 && (forall|i: int| 0 <= i < d.len() ==> is_digit_char(d[i]))
}

/// The mathematical value of a well-formed integer text.
pub open spec fn int_text_val(s: Seq<char>) -> int {
    if s.len() > 0 && s[0] == '-' {
        -digits_val(int_text_digits(s))
    } else {
        digits_val(int_text_digits(s))
    }
}

/// What parsing `s` as an `i64` yields: its value when `s` is a well-formed
/// decimal integer text whose value fits, `None` otherwise.
pub open spec fn spec_parse_i64(s: Seq<char>) -> Option<i64> {
    if is_int_text(s) && i64::MIN as int <= int_text_val(s) <= i64::MAX as int {
        Some(int_text_val(s) as i64)
    } else {
        None
    }
}

/// Parses a decimal integer, exactly as `spec_parse_i64` says: an optional
/// sign, one or more digits, and a value within the bounds of `i64`.
pub fn parse_i64(s: &str) -> (r: Option<i64>)
    ensures
        r == spec_parse_i64(s@),
{
    let n = s.unicode_len();
    if n == 0 {
        return None;
    }
    let c0 = s.get_char(0);
    let neg = c0 == '-';
    let start: usize = if c0 == '-' || c0 == '+' {
        1
    } else {
        0
    };
    if n == start {
        return None;
    }
    let ghost d = int_text_digits(s@);
    proof {
        assert(d == s@.skip(start as int));
    }
    let bound: u64 = if neg {
        9223372036854775808u64
    } else {
        9223372036854775807u64
    };
    let mut mag: u64 = 0;
    let mut over: bool = false;
    let mut i: usize = start;
    while i < n
        invariant
            start <= i <= n,
            n == s@.len(),
            start == 0 || start == 1,
            start == 1 ==> s@.len() > 0 && (s@[0] == '+' || s@[0] == '-'),
            start == 0 ==> s@.len() == 0 || (s@[0] != '+' && s@[0] != '-'),
            neg == (s@.len() > 0 && s@[0] == '-'),
            d == s@.skip(start as int),
            bound == if neg {
                9223372036854775808u64
            } else {
                9223372036854775807u64
            },
            forall|j: int| 0 <= j < i - start ==> is_digit_char(d[j]),
            !over ==> mag as int == digits_val(d.take(i - start)) && mag <= bound,
            over ==> digits_val(d.take(i - start)) > bound as int,
        decreases n - i,
    {
        let c = s.get_char(i);
        proof {
            assert(d[i - start] == s@[i as int]);
        }
        if !('0' <= c && c <= '9') {
            proof {
                assert(!is_digit_char(d[i - start]));
                assert(!is_int_text(s@));
            }
            return None;
        }
        let dv = (c as u32 - '0' as u32) as u64;
        let ghost k = i - start;
        proof {
            assert(d.take(k + 1).drop_last() =~= d.take(k as int));
            assert(d.take(k + 1).last() == d[k as int]);
            assert(digits_val(d.take(k + 1)) == digits_val(d.take(k as int)) * 10 + dv as int);
        }
        if !over {
            if mag > (bound - dv) / 10 {
                proof {
                    let q = ((bound - dv) / 10) as int;
                    assert((bound - dv) as int == 10 * q + ((bound - dv) % 10) as int);
                    assert(10 * (mag as int) >= 10 * (q + 1));
                    assert(mag as int * 10 + dv as int > bound as int);
                }
                over = true;
            } else {
                proof {
                    let q = ((bound - dv) / 10) as int;
                    assert((bound - dv) as int == 10 * q + ((bound - dv) % 10) as int);
                    assert(10 * (mag as int) <= 10 * q);
                    assert(mag as int * 10 + dv as int <= bound as int);
                }
                mag = mag * 10 + dv;
            }
        } else {
            proof {
                assert(forall|j: int| 0 <= j < d.take(k as int).len() ==> is_digit_char(
                    d.take(k as int)[j],
                ));
                lemma_digits_val_nonneg(d.take(k as int));
                assert(digits_val(d.take(k + 1)) > bound as int);
            }
        }
        i = i + 1;
    }
    proof {
        assert(d.take(n - start) =~= d);
        assert(d.len() > 0);
        assert(is_int_text(s@));
    }
    if over {
        return None;
    }
    if neg {
        if mag == 9223372036854775808u64 {
            Some(i64::MIN)
        } else {
            Some(-(mag as i64))
        }
    } else {
        Some(mag as i64)
    }
}

/// The value a `Literal` text parses to, with `0` for a text that does not
/// parse.
pub open spec fn parse_i64_or_zero(s: Seq<char>) -> i64 {
    match spec_parse_i64(s) {
        Some(v) => v,
        None => 0,
    }
}

/// The node an operator takes as its right operand, built from the token
/// that follows it: a number for a `Literal` (defaulting to `0` when its
/// text does not parse), an identifier for an `Ident`, and `0` for anything
/// else.
pub open spec fn right_operand(t: SpecToken) -> NodeV {
    match t.kind {
        TokenKind::Literal => NodeV::Number(parse_i64_or_zero(t.text)),
        TokenKind::Ident => NodeV::Ident(t.text),
        _ => NodeV::Number(0),
    }
}

/// The parser's reduction from position `i` of `ts` onward, starting from
/// the output stack `acc`: a `Literal` that parses pushes a number, an
/// `Ident` pushes an identifier, and an operator pops the newest node and
/// consumes the following token to build a binary operation. An operator
/// with no node to pop still consumes the following token, and one with no
/// following token still discards the popped node; every other token is
/// ignored.
pub open spec fn parse_from(ts: Seq<SpecToken>, i: int, acc: Seq<NodeV>) -> Seq<NodeV>
    decreases ts.len() - i,
{
    if i < 0 || i >= ts.len() {
        acc
    } else {
        let t = ts[i];
        match t.kind {
            TokenKind::Literal => {
                if spec_parse_i64(t.text) is Some {
                    parse_from(ts, i + 1, acc.push(NodeV::Number(spec_parse_i64(t.text)->0)))
                } else {
                    parse_from(ts, i + 1, acc)
                }
            },
            TokenKind::Ident => parse_from(ts, i + 1, acc.push(NodeV::Ident(t.text))),
            TokenKind::Plus | TokenKind::Minus | TokenKind::Star | TokenKind::Slash => {
                if acc.len() > 0 && i + 1 < ts.len() {
                    let node = NodeV::BinaryOp(
                        Box::new(
                            BinaryOpV {
                                left: acc.last(),
                                operator: t,
                                right: right_operand(ts[i + 1]),
                            },
                        ),
                    );
                    parse_from(ts, i + 2, acc.drop_last().push(node))
                } else if acc.len() > 0 {
                    parse_from(ts, i + 1, acc.drop_last())
                } else if i + 1 < ts.len() {
                    parse_from(ts, i + 2, acc)
                } else {
                    parse_from(ts, i + 1, acc)
                }
            },
            _ => parse_from(ts, i + 1, acc),
        }
    }
}

/// The nodes the parser's single left-to-right pass reduces `ts` to.
pub open spec fn parse_spec(ts: Seq<SpecToken>) -> Seq<NodeV> {
    parse_from(ts, 0, Seq::empty())
}

/// Reduces a token sequence to parse-tree nodes in a single left-to-right
/// pass, returning exactly the nodes of the model `parse_spec`. It never
/// fails: tokens that fit no production are ignored.
pub fn parse(tokens: &[Token]) -> (nodes: Vec<Node>)
    ensures
        node_views(nodes@) == parse_spec(token_views(tokens@)),
{
    let ghost ts = token_views(tokens@);
    let mut nodes: Vec<Node> = Vec::new();
    let mut i: usize = 0;
    proof {
        assert(node_views(nodes@) =~= Seq::<NodeV>::empty());
    }
    while i < tokens.len()
        invariant
            i <= tokens@.len(),
            ts == token_views(tokens@),
            parse_spec(ts) == parse_from(ts, i as int, node_views(nodes@)),
        decreases tokens@.len() - i,
    {
        let ghost acc0 = node_views(nodes@);
        proof {
            assert(ts[i as int] == tokens@[i as int]@);
        }
        let t = &tokens[i];
        match t.kind {
            TokenKind::Literal => {
                match parse_i64(t.text.as_str()) {
                    Some(v) => {
                        nodes.push(Node::Number(v));
                        proof {
                            assert(node_views(nodes@) =~= acc0.push(NodeV::Number(v)));
                        }
                    },
                    None => {},
                }
                i = i + 1;
            },
            TokenKind::Ident => {
                nodes.push(Node::Ident(t.text.clone()));
                proof {
                    assert(node_views(nodes@) =~= acc0.push(NodeV::Ident(t.text@)));
                }
                i = i + 1;
            },
            TokenKind::Plus | TokenKind::Minus | TokenKind::Star | TokenKind::Slash => {
                let left_opt = nodes.pop();
                proof {
                    if acc0.len() > 0 {
                        assert(node_views(nodes@) =~= acc0.drop_last());
                    }
                }
                if i + 1 < tokens.len() {
                    let right_tok = &tokens[i + 1];
                    proof {
                        assert(ts[i as int + 1] == tokens@[i as int + 1]@);
                    }
                    if let Some(left) = left_opt {
                        proof {
                            assert(acc0.len() > 0);
                            assert(node_view(left) == acc0.last());
                        }
                        let right: Node = match right_tok.kind {
                            TokenKind::Literal => {
                                match parse_i64(right_tok.text.as_str()) {
                                    Some(v) => Node::Number(v),
                                    None => Node::Number(0),
                                }
                            },
                            TokenKind::Ident => Node::Ident(right_tok.text.clone()),
                            _ => Node::Number(0),
                        };
                        proof {
                            assert(node_view(right) == right_operand(ts[i as int + 1]));
                        }
                        let ghost lv = node_view(left);
                        let node = Node::BinaryOp(
                            Box::new(BinaryOp { left, operator: t.clone(), right }),
                        );
                        proof {
                            assert(node_view(node) == NodeV::BinaryOp(
                                Box::new(
                                    BinaryOpV {
                                        left: acc0.last(),
                                        operator: ts[i as int],
                                        right: right_operand(ts[i as int + 1]),
                                    },
                                ),
                            ));
                        }
                        nodes.push(node);
                        proof {
                            assert(node_views(nodes@) =~= acc0.drop_last().push(node_view(node)));
                        }
                    }
                    i = i + 2;
                } else {
                    i = i + 1;
                }
            },
            _ => {
                i = i + 1;
            },
        }
    }
    nodes
}

} // verus!
