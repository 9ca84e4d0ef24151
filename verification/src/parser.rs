//! From a raw tree of tokens to an expression whose binders are unique.
//!
//! A raw tree mirrors the token stream: each node is one token, split into its
//! indicator character and its body, with the sub-expressions that follow the
//! token as its children. Parsing decodes the bodies and renames every binder
//! to a fresh identifier taken from a counter that only moves down, so that no
//! two functions of a program bind the same identifier and the evaluator can
//! keep all bindings in one flat environment.

use vstd::prelude::*;
use std::collections::BTreeMap;
use crate::ast::{Binary, BinaryOp, Expr, ExprView, If, Lambda, Unary, UnaryOp, Value, ValueView, Variable};
use crate::codec::{decode_integer, decode_text};
use crate::error::ParseError;

pub use crate::reader::ICFPParser;

verus! {

/// One token of the program with the sub-expressions that belong to it.
#[derive(Debug, PartialEq, Eq)]
pub struct RawNode {
    /// The token's first character, which tells what kind of node this is.
    pub indicator: char,
    /// The rest of the token.
    pub body: String,
    /// The sub-expressions, in the order in which they were written.
    pub children: Vec<RawNode>,
}

/// The mathematical content of a [`RawNode`].
pub struct RawNodeView {
    pub indicator: char,
    pub body: Seq<char>,
    pub children: Seq<RawNodeView>,
}

impl RawNode {
    pub open spec fn model(&self) -> RawNodeView
        decreases self,
    {
        RawNodeView {
            indicator: self.indicator,
            body: self.body@,
            children: Seq::new(
                self.children@.len(),
                |i: int|
                    if 0 <= i < self.children@.len() {
                        self.children@[i].model()
                    } else {
                        arbitrary()
                    },
            ),
        }
    }
}

impl View for RawNode {
    type V = RawNodeView;

    open spec fn view(&self) -> RawNodeView {
        self.model()
    }
}

/// The raw-to-fresh identifier mapping in force at some point of the tree.
pub type Renames = Map<i64, i64>;

/// The identifier a variable written as `raw` refers to: the fresh identifier
/// of the nearest enclosing binder of `raw`, or `raw` itself if there is none.
pub open spec fn resolve(renames: Renames, raw: i64) -> i64 {
    if renames.contains_key(raw) {
        renames[raw]
    } else {
        raw
    }
}

/// Puts a parsed operand under its unary operator.
pub open spec fn under_unary(op: UnaryOp, r: Result<ExprView, ParseError>) -> Result<
    ExprView,
    ParseError,
> {
    match r {
        Ok(e) => Ok(ExprView::Unary(op, Box::new(e))),
        Err(x) => Err(x),
    }
}

/// Puts a parsed body under its binder.
pub open spec fn under_lambda(binder: i64, r: Result<ExprView, ParseError>) -> Result<
    ExprView,
    ParseError,
> {
    match r {
        Ok(e) => Ok(ExprView::Lambda(binder, Box::new(e))),
        Err(x) => Err(x),
    }
}

/// What parsing `node` yields, and where it leaves the counter, when `renames`
/// is in force and `counter` is the next fresh identifier.
///
/// * `T` and `F` are the booleans; `S` deciphers its body; `I` decodes its body.
/// * `U`, `B` and `?` parse their one, two or three children in order, each
///   under the same `renames`.
/// * `L` decodes its body as the raw identifier, takes `counter` as the fresh
///   one, and parses its child with the raw identifier mapped to the fresh one
///   and the counter one lower.
/// * `v` decodes its body as a raw identifier and resolves it.
///
/// The first failure met in that order is the result.
pub open spec fn renamed(node: RawNodeView, renames: Renames, counter: i64) -> (Result<
    ExprView,
    ParseError,
>, i64)
    decreases node,
{
    let arity = node.children.len();
    if node.indicator == 'T' || node.indicator == 'F' {
        if arity != 0 || node.body.len() != 0 {
            (Err(ParseError::MalformedNode), counter)
        } else {
            (Ok(ExprView::Value(ValueView::Bool(node.indicator == 'T'))), counter)
        }
    } else if node.indicator == 'S' {
        if arity != 0 {
            (Err(ParseError::MalformedNode), counter)
        } else {
            (Ok(ExprView::Value(ValueView::Str(decode_text(node.body)))), counter)
        }
    } else if node.indicator == 'I' {
        if arity != 0 {
            (Err(ParseError::MalformedNode), counter)
        } else {
            match decode_integer(node.body) {
                Ok(n) => (Ok(ExprView::Value(ValueView::Int(n))), counter),
                Err(x) => (Err(ParseError::InvalidDigit(x.0)), counter),
            }
        }
    } else if node.indicator == 'U' {
        if arity != 1 {
            (Err(ParseError::MalformedNode), counter)
        } else {
            match UnaryOp::of_text(node.body) {
                None => (Err(ParseError::UnknownOperator), counter),
                Some(op) => {
                    let (r, c1) = renamed(node.children[0], renames, counter);
                    (under_unary(op, r), c1)
                },
            }
        }
    } else if node.indicator == 'B' {
        if arity != 2 {
            (Err(ParseError::MalformedNode), counter)
        } else {
            match BinaryOp::of_text(node.body) {
                None => (Err(ParseError::UnknownOperator), counter),
                Some(op) => {
                    let (r1, c1) = renamed(node.children[0], renames, counter);
                    match r1 {
                        Err(x) => (Err(x), c1),
                        Ok(first) => {
                            let (r2, c2) = renamed(node.children[1], renames, c1);
                            match r2 {
                                Err(x) => (Err(x), c2),
                                Ok(second) => (
                                    Ok(ExprView::Binary(op, Box::new(first), Box::new(second))),
                                    c2,
                                ),
                            }
                        },
                    }
                },
            }
        }
    } else if node.indicator == '?' {
        if arity != 3 || node.body.len() != 0 {
            (Err(ParseError::MalformedNode), counter)
        } else {
            let (r1, c1) = renamed(node.children[0], renames, counter);
            match r1 {
                Err(x) => (Err(x), c1),
                Ok(condition) => {
                    let (r2, c2) = renamed(node.children[1], renames, c1);
                    match r2 {
                        Err(x) => (Err(x), c2),
                        Ok(if_true) => {
                            let (r3, c3) = renamed(node.children[2], renames, c2);
                            match r3 {
                                Err(x) => (Err(x), c3),
                                Ok(if_false) => (
                                    Ok(
                                        ExprView::If(
                                            Box::new(condition),
                                            Box::new(if_true),
                                            Box::new(if_false),
                                        ),
                                    ),
                                    c3,
                                ),
                            }
                        },
                    }
                },
            }
        }
    } else if node.indicator == 'L' {
        if arity != 1 {
            (Err(ParseError::MalformedNode), counter)
        } else {
            match decode_integer(node.body) {
                Err(x) => (Err(ParseError::InvalidDigit(x.0)), counter),
                Ok(raw) => if counter == i64::MIN {
                    (Err(ParseError::IdentifiersExhausted), counter)
                } else {
                    let (r, c1) = renamed(
                        node.children[0],
                        renames.insert(raw as i64, counter),
                        (counter - 1) as i64,
                    );
                    (under_lambda(counter, r), c1)
                },
            }
        }
    } else if node.indicator == 'v' {
        if arity != 0 {
            (Err(ParseError::MalformedNode), counter)
        } else {
            match decode_integer(node.body) {
                Ok(raw) => (Ok(ExprView::Variable(resolve(renames, raw as i64))), counter),
                Err(x) => (Err(ParseError::InvalidDigit(x.0)), counter),
            }
        }
    } else {
        (Err(ParseError::UnrecognizedGrammarRule(node.indicator)), counter)
    }
}

/// The mathematical content of the outcome of parsing.
pub open spec fn parse_result(r: Result<Expr, ParseError>) -> Result<ExprView, ParseError> {
    match r {
        Ok(e) => Ok(e@),
        Err(x) => Err(x),
    }
}

/// Parses `parse_tree` into an expression, renaming binders as it goes.
///
/// `scope_rewrites` maps each raw identifier that an enclosing binder
/// introduced to the fresh identifier that replaced it. `unique_scope` is the
/// next fresh identifier; every binder met takes it and lowers it by one.
pub fn parse(parse_tree: &RawNode, scope_rewrites: &BTreeMap<i64, i64>, unique_scope: &mut i64) -> (r:
    Result<Expr, ParseError>)
    ensures
        (parse_result(r), *final(unique_scope)) == renamed(
            parse_tree@,
            scope_rewrites@,
            *old(unique_scope),
        ),
    decreases parse_tree,
{
    let arity: usize = parse_tree.children.len();
    let tag = parse_tree.indicator;
    if tag == 'T' || tag == 'F' {
        if arity != 0 || parse_tree.body.as_str().unicode_len() != 0 {
            return Err(ParseError::MalformedNode);
        }
        Ok(Expr::Value(Value::Bool(tag == 'T')))
    } else if tag == 'S' {
        if arity != 0 {
            return Err(ParseError::MalformedNode);
        }
        Ok(Expr::Value(Value::decode_string(parse_tree.body.as_str())))
    } else if tag == 'I' {
        if arity != 0 {
            return Err(ParseError::MalformedNode);
        }
        match Value::decode_integer(parse_tree.body.as_str()) {
            Ok(v) => Ok(Expr::Value(v)),
            Err(x) => Err(ParseError::InvalidDigit(x.0)),
        }
    } else if tag == 'U' {
        if arity != 1 {
            return Err(ParseError::MalformedNode);
        }
        match UnaryOp::lookup(parse_tree.body.as_str()) {
            None => Err(ParseError::UnknownOperator),
            Some(op) => {
                let val = parse(&parse_tree.children[0], scope_rewrites, unique_scope)?;
                Ok(Expr::Unary(Unary { op, val: Box::new(val) }))
            },
        }
    } else if tag == 'B' {
        if arity != 2 {
            return Err(ParseError::MalformedNode);
        }
        match BinaryOp::lookup(parse_tree.body.as_str()) {
            None => Err(ParseError::UnknownOperator),
            Some(op) => {
                let first = parse(&parse_tree.children[0], scope_rewrites, unique_scope)?;
                let second = parse(&parse_tree.children[1], scope_rewrites, unique_scope)?;
                Ok(Expr::Binary(Binary { op, first: Box::new(first), second: Box::new(second) }))
            },
        }
    } else if tag == '?' {
        if arity != 3 || parse_tree.body.as_str().unicode_len() != 0 {
            return Err(ParseError::MalformedNode);
        }
        let condition = parse(&parse_tree.children[0], scope_rewrites, unique_scope)?;
        let if_true = parse(&parse_tree.children[1], scope_rewrites, unique_scope)?;
        let if_false = parse(&parse_tree.children[2], scope_rewrites, unique_scope)?;
        Ok(
            Expr::If(
                If {
                    condition: Box::new(condition),
                    if_true: Box::new(if_true),
                    if_false: Box::new(if_false),
                },
            ),
        )
    } else if tag == 'L' {
        if arity != 1 {
            return Err(ParseError::MalformedNode);
        }
        match Value::decode_integer_body(parse_tree.body.as_str()) {
            Err(x) => Err(ParseError::InvalidDigit(x.0)),
            Ok(id) => {
                let rewrite_id: i64 = *unique_scope;
                if rewrite_id == i64::MIN {
                    return Err(ParseError::IdentifiersExhausted);
                }
                *unique_scope = rewrite_id - 1;
                let mut rewrites = scope_rewrites.clone();
                rewrites.insert(id, rewrite_id);
                let arg = parse(&parse_tree.children[0], &rewrites, unique_scope)?;
                Ok(Expr::Lambda(Lambda { body: rewrite_id, arg: Box::new(arg) }))
            },
        }
    } else if tag == 'v' {
        if arity != 0 {
            return Err(ParseError::MalformedNode);
        }
        match Value::decode_integer_body(parse_tree.body.as_str()) {
            Err(x) => Err(ParseError::InvalidDigit(x.0)),
            Ok(source_id) => {
                let id: i64 = match scope_rewrites.get(&source_id) {
                    Some(fresh) => *fresh,
                    None => source_id,
                };
                Ok(Expr::Variable(Variable(id)))
            },
        }
    } else {
        Err(ParseError::UnrecognizedGrammarRule(tag))
    }
}

/// The identifiers bound by the functions of `e`, in the order in which the
/// functions are written.
pub open spec fn binders(e: ExprView) -> Seq<i64>
    decreases e,
{
    match e {
        ExprView::Value(_) => Seq::empty(),
        ExprView::Variable(_) => Seq::empty(),
        ExprView::Unary(_, operand) => binders(*operand),
        ExprView::Binary(_, first, second) => binders(*first) + binders(*second),
        ExprView::If(condition, if_true, if_false) => binders(*condition) + binders(*if_true)
            + binders(*if_false),
        ExprView::Lambda(binder, body) => seq![binder] + binders(*body),
    }
}

/// The identifiers `from`, `from - 1`, and so on down to `to + 1`.
pub open spec fn countdown(from: i64, to: i64) -> Seq<i64> {
    Seq::new((from - to) as nat, |k: int| (from - k) as i64)
}

/// Parsing never raises the counter, and the binders of a parsed expression
/// are, in the order written, exactly the identifiers the counter passed over.
pub proof fn lemma_binders_fresh(node: RawNodeView, renames: Renames, counter: i64)
    ensures
        renamed(node, renames, counter).1 <= counter,
        renamed(node, renames, counter).0 matches Ok(e) ==> binders(e) == countdown(
            counter,
            renamed(node, renames, counter).1,
        ),
    decreases node,
{
    let (r, after) = renamed(node, renames, counter);
    let arity = node.children.len();
    if node.indicator == 'U' && arity == 1 && UnaryOp::of_text(node.body) is Some {
        lemma_binders_fresh(node.children[0], renames, counter);
    } else if node.indicator == 'B' && arity == 2 && BinaryOp::of_text(node.body) is Some {
        lemma_binders_fresh(node.children[0], renames, counter);
        let (r1, c1) = renamed(node.children[0], renames, counter);
        if r1 is Ok {
            lemma_binders_fresh(node.children[1], renames, c1);
            let (r2, c2) = renamed(node.children[1], renames, c1);
            if r2 is Ok {
                assert(countdown(counter, c1) + countdown(c1, c2) =~= countdown(counter, c2));
            }
        }
    } else if node.indicator == '?' && arity == 3 && node.body.len() == 0 {
        lemma_binders_fresh(node.children[0], renames, counter);
        let (r1, c1) = renamed(node.children[0], renames, counter);
        if r1 is Ok {
            lemma_binders_fresh(node.children[1], renames, c1);
            let (r2, c2) = renamed(node.children[1], renames, c1);
            if r2 is Ok {
                lemma_binders_fresh(node.children[2], renames, c2);
                let (r3, c3) = renamed(node.children[2], renames, c2);
                if r3 is Ok {
                    assert(countdown(counter, c1) + countdown(c1, c2) + countdown(c2, c3)
                        =~= countdown(counter, c3));
                }
            }
        }
    } else if node.indicator == 'L' && arity == 1 && decode_integer(node.body) is Ok && counter
        != i64::MIN {
        let raw = decode_integer(node.body)->Ok_0;
        let inner = renames.insert(raw as i64, counter);
        let lower = (counter - 1) as i64;
        lemma_binders_fresh(node.children[0], inner, lower);
        let (rb, c1) = renamed(node.children[0], inner, lower);
        if rb is Ok {
            assert(seq![counter] + countdown(lower, c1) =~= countdown(counter, c1));
        }
    } else if r is Ok {
        assert(binders(r->Ok_0) =~= countdown(counter, after));
    }
}

/// No two functions of a parsed expression bind the same identifier, and every
/// binder is one of the identifiers that the counter passed over: at most the
/// counter's value before parsing and above its value after. With a counter
/// that starts below zero every binder is therefore negative.
pub proof fn lemma_binders_unique(node: RawNodeView, renames: Renames, counter: i64)
    ensures
        renamed(node, renames, counter).0 matches Ok(e) ==> {
            &&& binders(e).no_duplicates()
            &&& forall|i: int|
                0 <= i < binders(e).len() ==> renamed(node, renames, counter).1
                    < #[trigger] binders(e)[i] <= counter
        },
{
    lemma_binders_fresh(node, renames, counter);
}

/// Whether every variable token of `node` is written under a binder token of
/// the same raw identifier, or has its raw identifier among `bound`.
pub open spec fn raw_closed(node: RawNodeView, bound: Set<i64>) -> bool
    decreases node,
{
    let arity = node.children.len();
    if node.indicator == 'v' {
        decode_integer(node.body) matches Ok(raw) ==> bound.contains(raw as i64)
    } else if node.indicator == 'L' && arity == 1 {
        decode_integer(node.body) matches Ok(raw) ==> raw_closed(
            node.children[0],
            bound.insert(raw as i64),
        )
    } else if node.indicator == 'U' && arity == 1 {
        raw_closed(node.children[0], bound)
    } else if node.indicator == 'B' && arity == 2 {
        raw_closed(node.children[0], bound) && raw_closed(node.children[1], bound)
    } else if node.indicator == '?' && arity == 3 {
        raw_closed(node.children[0], bound) && raw_closed(node.children[1], bound) && raw_closed(
            node.children[2],
            bound,
        )
    } else {
        true
    }
}

/// Whether every variable of `e` refers to a function of `e` that encloses
/// it, or to an identifier in `scope`.
pub open spec fn closed(e: ExprView, scope: Set<i64>) -> bool
    decreases e,
{
    match e {
        ExprView::Value(_) => true,
        ExprView::Variable(id) => scope.contains(id),
        ExprView::Unary(_, operand) => closed(*operand, scope),
        ExprView::Binary(_, first, second) => closed(*first, scope) && closed(*second, scope),
        ExprView::If(condition, if_true, if_false) => closed(*condition, scope) && closed(
            *if_true,
            scope,
        ) && closed(*if_false, scope),
        ExprView::Lambda(binder, body) => closed(*body, scope.insert(binder)),
    }
}

/// An expression closed in a scope is closed in every larger scope.
pub proof fn lemma_closed_in_larger_scope(e: ExprView, small: Set<i64>, large: Set<i64>)
    requires
        closed(e, small),
        small.subset_of(large),
    ensures
        closed(e, large),
    decreases e,
{
    match e {
        ExprView::Value(_) => {},
        ExprView::Variable(_) => {},
        ExprView::Unary(_, operand) => {
            lemma_closed_in_larger_scope(*operand, small, large);
        },
        ExprView::Binary(_, first, second) => {
            lemma_closed_in_larger_scope(*first, small, large);
            lemma_closed_in_larger_scope(*second, small, large);
        },
        ExprView::If(condition, if_true, if_false) => {
            lemma_closed_in_larger_scope(*condition, small, large);
            lemma_closed_in_larger_scope(*if_true, small, large);
            lemma_closed_in_larger_scope(*if_false, small, large);
        },
        ExprView::Lambda(binder, body) => {
            lemma_closed_in_larger_scope(*body, small.insert(binder), large.insert(binder));
        },
    }
}

/// If every variable of a raw tree is written under a binder of its raw
/// identifier (or its raw identifier is among those being renamed), then
/// every variable of the parsed expression refers to a function that
/// encloses it (or to one of the fresh identifiers in force). Together with
/// the uniqueness of binders this means that a variable never refers to a
/// function beside or outside its own scope.
pub proof fn lemma_bound_variables_stay_in_scope(
    node: RawNodeView,
    renames: Renames,
    counter: i64,
)
    requires
        raw_closed(node, renames.dom()),
    ensures
        renamed(node, renames, counter).0 matches Ok(e) ==> closed(e, renames.values()),
    decreases node,
{
    let arity = node.children.len();
    if node.indicator == 'v' && arity == 0 {
        if decode_integer(node.body) is Ok {
            let raw = decode_integer(node.body)->Ok_0 as i64;
            assert(renames.contains_key(raw));
            assert(renames.values().contains(renames[raw]));
        }
    } else if node.indicator == 'U' && arity == 1 {
        lemma_bound_variables_stay_in_scope(node.children[0], renames, counter);
    } else if node.indicator == 'B' && arity == 2 {
        lemma_bound_variables_stay_in_scope(node.children[0], renames, counter);
        let c1 = renamed(node.children[0], renames, counter).1;
        lemma_bound_variables_stay_in_scope(node.children[1], renames, c1);
    } else if node.indicator == '?' && arity == 3 {
        lemma_bound_variables_stay_in_scope(node.children[0], renames, counter);
        let c1 = renamed(node.children[0], renames, counter).1;
        lemma_bound_variables_stay_in_scope(node.children[1], renames, c1);
        let c2 = renamed(node.children[1], renames, c1).1;
        lemma_bound_variables_stay_in_scope(node.children[2], renames, c2);
    } else if node.indicator == 'L' && arity == 1 && decode_integer(node.body) is Ok && counter
        != i64::MIN {
        let raw = decode_integer(node.body)->Ok_0 as i64;
        let inner = renames.insert(raw, counter);
        let lower = (counter - 1) as i64;
        assert(inner.dom() =~= renames.dom().insert(raw));
        lemma_bound_variables_stay_in_scope(node.children[0], inner, lower);
        let rb = renamed(node.children[0], inner, lower).0;
        if rb is Ok {
            assert forall|id: i64| inner.values().contains(id) implies renames.values().insert(
                counter,
            ).contains(id) by {
                let k = choose|k: i64| inner.contains_key(k) && inner[k] == id;
                if k != raw {
                    assert(renames.contains_key(k) && renames[k] == id);
                }
            }
            lemma_closed_in_larger_scope(
                rb->Ok_0,
                inner.values(),
                renames.values().insert(counter),
            );
        }
    }
}

} // verus!
