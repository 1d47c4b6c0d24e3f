//! Recursive-descent parsing of a token sequence into an expression
//! tree.
//!
//! The grammar, lowest to highest precedence, all binary layers
//! left-associative:
//!
//! ```text
//! expr   := term ( ('+' | '-') term )*
//! term   := power ( ('*' | '/' | '%') power )*
//! power  := factor ( '^' factor )*
//! factor := NUMBER
//!         | ('+' | '-' | '√') factor
//!         | '(' expr ')'
//! ```
//!
//! The whole behaviour of [`Parser::parse`] is pinned down by the spec
//! function [`spec_parse`], which is the grammar above written as
//! mathematics over the token sequence.

use vstd::prelude::*;
use crate::lexer::{Token, TokenView};

verus! {

/// The operation an expression-tree node applies.
#[derive(Debug, Clone, Copy, PartialEq, Eq)]
pub enum Operator {
    Plus,
    Minus,
    Multiply,
    Divide,
    Modulo,
    Power,
    SquareRoot,
}

/// An expression tree.  Each node exclusively owns its children; a tree
/// is built fresh from one input line and dropped after evaluation.
#[derive(Debug, PartialEq)]
pub enum Node {
    Number(String),
    Unary { op: Operator, node: Box<Node> },
    Binary { op: Operator, left: Box<Node>, right: Box<Node> },
}

/// The mathematical model of a [`Node`]: the numeral is a sequence of
/// characters instead of a `String`.
pub enum NodeView {
    Number(Seq<char>),
    Unary { op: Operator, node: Box<NodeView> },
    Binary { op: Operator, left: Box<NodeView>, right: Box<NodeView> },
}

/// The model of a [`Node`], computed recursively.
pub open spec fn node_view(n: Node) -> NodeView
    decreases n,
{
    match n {
        Node::Number(s) => NodeView::Number(s@),
        Node::Unary { op, node } => NodeView::Unary { op, node: Box::new(node_view(*node)) },
        Node::Binary { op, left, right } => NodeView::Binary {
            op,
            left: Box::new(node_view(*left)),
            right: Box::new(node_view(*right)),
        },
    }
}

impl DeepView for Node {
    type V = NodeView;

    open spec fn deep_view(&self) -> NodeView {
        node_view(*self)
    }
}

impl View for Node {
    type V = NodeView;

    open spec fn view(&self) -> NodeView {
        self.deep_view()
    }
}

/// Every tree the parser produces satisfies this shape invariant: a
/// unary node applies plus, minus or square root, and a binary node
/// applies one of the six infix operators.
pub open spec fn wf_node(n: NodeView) -> bool
    decreases n,
{
    match n {
        NodeView::Number(_) => true,
        NodeView::Unary { op, node } => (op == Operator::Plus || op == Operator::Minus
            || op == Operator::SquareRoot) && wf_node(*node),
        NodeView::Binary { op, left, right } => (op == Operator::Plus || op == Operator::Minus
            || op == Operator::Multiply || op == Operator::Divide || op == Operator::Modulo
            || op == Operator::Power) && wf_node(*left) && wf_node(*right),
    }
}

/// How parsing a token sequence can fail.
#[derive(Debug, Clone, Copy, PartialEq, Eq)]
pub enum SyntaxError {
    /// A factor was expected but the input ended.
    UnexpectedEnd,
    /// A factor was expected but the next token fits no factor.
    UnexpectedToken,
    /// A parenthesized sub-expression misses its `)`.
    ExpectedCloseParen,
    /// A full expression was parsed but tokens remain.
    TrailingTokens,
}

/// The model of a token slice: its tokens' views, in order.
pub open spec fn toks_of(ts: Seq<Token>) -> Seq<TokenView> {
    Seq::new(ts.len(), |i: int| ts[i].deep_view())
}

/// The position a grammar layer hands to the next step of its loop,
/// clamped so that it always advances and stays inside the sequence.
/// Every layer in fact returns a position in `from < _ <= s.len()`, so
/// the clamp never changes anything; it only makes the recursion of the
/// spec functions visibly terminating.
pub open spec fn step_pos(s: Seq<TokenView>, from: int, to: int) -> int {
    if to > s.len() {
        s.len() as int
    } else if to < from + 1 {
        from + 1
    } else {
        to
    }
}

/// `factor := NUMBER | ('+' | '-' | '√') factor | '(' expr ')'`
pub open spec fn spec_factor(s: Seq<TokenView>, pos: int) -> Result<(NodeView, int), SyntaxError>
    decreases s.len() - pos, 0int,
{
    if !(0 <= pos < s.len()) {
        Err(SyntaxError::UnexpectedEnd)
    } else {
        match s[pos] {
            TokenView::Number(t) => Ok((NodeView::Number(t), pos + 1)),
            TokenView::Plus => spec_unary(Operator::Plus, spec_factor(s, pos + 1)),
            TokenView::Minus => spec_unary(Operator::Minus, spec_factor(s, pos + 1)),
            TokenView::SquareRoot => spec_unary(Operator::SquareRoot, spec_factor(s, pos + 1)),
            TokenView::LeftParenthesis => match spec_expr(s, pos + 1) {
                Ok((inner, p)) => if 0 <= p < s.len() && s[p] is RightParenthesis {
                    Ok((inner, p + 1))
                } else {
                    Err(SyntaxError::ExpectedCloseParen)
                },
                Err(e) => Err(e),
            },
            _ => Err(SyntaxError::UnexpectedToken),
        }
    }
}

/// Wraps the outcome of the operand of a unary prefix operator.
pub open spec fn spec_unary(
    op: Operator,
    r: Result<(NodeView, int), SyntaxError>,
) -> Result<(NodeView, int), SyntaxError> {
    match r {
        Ok((child, p)) => Ok((NodeView::Unary { op, node: Box::new(child) }, p)),
        Err(e) => Err(e),
    }
}

/// `power := factor ( '^' factor )*`, folded to the left.
pub open spec fn spec_power(s: Seq<TokenView>, pos: int) -> Result<(NodeView, int), SyntaxError>
    decreases s.len() - pos, 2int,
{
    if !(0 <= pos < s.len()) {
        Err(SyntaxError::UnexpectedEnd)
    } else {
        match spec_factor(s, pos) {
            Ok((n, p)) => spec_power_rest(s, n, step_pos(s, pos, p)),
            Err(e) => Err(e),
        }
    }
}

pub open spec fn spec_power_rest(s: Seq<TokenView>, acc: NodeView, pos: int) -> Result<
    (NodeView, int),
    SyntaxError,
>
    decreases s.len() - pos, 1int,
{
    if 0 <= pos < s.len() && s[pos] is Power {
        match spec_factor(s, pos + 1) {
            Ok((rhs, p)) => spec_power_rest(
                s,
                NodeView::Binary {
                    op: Operator::Power,
                    left: Box::new(acc),
                    right: Box::new(rhs),
                },
                step_pos(s, pos, p),
            ),
            Err(e) => Err(e),
        }
    } else {
        Ok((acc, pos))
    }
}

/// The binary operator a term-layer token stands for, if any.
pub open spec fn term_op(t: TokenView) -> Option<Operator> {
    match t {
        TokenView::Multiply => Some(Operator::Multiply),
        TokenView::Divide => Some(Operator::Divide),
        TokenView::Modulo => Some(Operator::Modulo),
        _ => None,
    }
}

/// `term := power ( ('*' | '/' | '%') power )*`, folded to the left.
pub open spec fn spec_term(s: Seq<TokenView>, pos: int) -> Result<(NodeView, int), SyntaxError>
    decreases s.len() - pos, 4int,
{
    if !(0 <= pos < s.len()) {
        Err(SyntaxError::UnexpectedEnd)
    } else {
        match spec_power(s, pos) {
            Ok((n, p)) => spec_term_rest(s, n, step_pos(s, pos, p)),
            Err(e) => Err(e),
        }
    }
}

pub open spec fn spec_term_rest(s: Seq<TokenView>, acc: NodeView, pos: int) -> Result<
    (NodeView, int),
    SyntaxError,
>
    decreases s.len() - pos, 3int,
{
    if 0 <= pos < s.len() && term_op(s[pos]) is Some {
        let op = term_op(s[pos])->Some_0;
        match spec_power(s, pos + 1) {
            Ok((rhs, p)) => spec_term_rest(
                s,
                NodeView::Binary { op, left: Box::new(acc), right: Box::new(rhs) },
                step_pos(s, pos, p),
            ),
            Err(e) => Err(e),
        }
    } else {
        Ok((acc, pos))
    }
}

/// The binary operator an expr-layer token stands for, if any.
pub open spec fn expr_op(t: TokenView) -> Option<Operator> {
    match t {
        TokenView::Plus => Some(Operator::Plus),
        TokenView::Minus => Some(Operator::Minus),
        _ => None,
    }
}

/// `expr := term ( ('+' | '-') term )*`, folded to the left.
pub open spec fn spec_expr(s: Seq<TokenView>, pos: int) -> Result<(NodeView, int), SyntaxError>
    decreases s.len() - pos, 6int,
{
    if !(0 <= pos < s.len()) {
        Err(SyntaxError::UnexpectedEnd)
    } else {
        match spec_term(s, pos) {
            Ok((n, p)) => spec_expr_rest(s, n, step_pos(s, pos, p)),
            Err(e) => Err(e),
        }
    }
}

pub open spec fn spec_expr_rest(s: Seq<TokenView>, acc: NodeView, pos: int) -> Result<
    (NodeView, int),
    SyntaxError,
>
    decreases s.len() - pos, 5int,
{
    if 0 <= pos < s.len() && expr_op(s[pos]) is Some {
        let op = expr_op(s[pos])->Some_0;
        match spec_term(s, pos + 1) {
            Ok((rhs, p)) => spec_expr_rest(
                s,
                NodeView::Binary { op, left: Box::new(acc), right: Box::new(rhs) },
                step_pos(s, pos, p),
            ),
            Err(e) => Err(e),
        }
    } else {
        Ok((acc, pos))
    }
}

/// What parsing from position `pos` yields: no expression at all when
/// the tokens are exhausted, the tree of one full expression when it
/// consumes every remaining token, and an error otherwise.
pub open spec fn spec_parse(s: Seq<TokenView>, pos: int) -> Result<
    Option<NodeView>,
    SyntaxError,
> {
    if !(0 <= pos < s.len()) {
        Ok(None)
    } else {
        match spec_expr(s, pos) {
            Ok((n, p)) => if p == s.len() {
                Ok(Some(n))
            } else {
                Err(SyntaxError::TrailingTokens)
            },
            Err(e) => Err(e),
        }
    }
}

proof fn lemma_factor_sound(s: Seq<TokenView>, pos: int)
    ensures
        spec_factor(s, pos) matches Ok((n, p)) ==> wf_node(n) && pos < p <= s.len(),
    decreases s.len() - pos, 0int,
{
    if 0 <= pos < s.len() {
        match s[pos] {
            TokenView::Plus => {
                lemma_factor_sound(s, pos + 1);
            },
            TokenView::Minus => {
                lemma_factor_sound(s, pos + 1);
            },
            TokenView::SquareRoot => {
                lemma_factor_sound(s, pos + 1);
            },
            TokenView::LeftParenthesis => {
                lemma_expr_sound(s, pos + 1);
            },
            _ => {},
        }
    }
}

proof fn lemma_power_rest_sound(s: Seq<TokenView>, acc: NodeView, pos: int)
    requires
        wf_node(acc),
        0 <= pos <= s.len(),
    ensures
        spec_power_rest(s, acc, pos) matches Ok((n, p)) ==> wf_node(n) && pos <= p <= s.len(),
    decreases s.len() - pos, 1int,
{
    if 0 <= pos < s.len() && s[pos] is Power {
        lemma_factor_sound(s, pos + 1);
        match spec_factor(s, pos + 1) {
            Ok((rhs, p)) => {
                lemma_power_rest_sound(
                    s,
                    NodeView::Binary {
                        op: Operator::Power,
                        left: Box::new(acc),
                        right: Box::new(rhs),
                    },
                    p,
                );
            },
            Err(_) => {},
        }
    }
}

proof fn lemma_power_sound(s: Seq<TokenView>, pos: int)
    ensures
        spec_power(s, pos) matches Ok((n, p)) ==> wf_node(n) && pos < p <= s.len(),
    decreases s.len() - pos, 2int,
{
    if 0 <= pos < s.len() {
        lemma_factor_sound(s, pos);
        match spec_factor(s, pos) {
            Ok((n, p)) => {
                lemma_power_rest_sound(s, n, p);
            },
            Err(_) => {},
        }
    }
}

proof fn lemma_term_rest_sound(s: Seq<TokenView>, acc: NodeView, pos: int)
    requires
        wf_node(acc),
        0 <= pos <= s.len(),
    ensures
        spec_term_rest(s, acc, pos) matches Ok((n, p)) ==> wf_node(n) && pos <= p <= s.len(),
    decreases s.len() - pos, 3int,
{
    if 0 <= pos < s.len() && term_op(s[pos]) is Some {
        let op = term_op(s[pos])->Some_0;
        lemma_power_sound(s, pos + 1);
        match spec_power(s, pos + 1) {
            Ok((rhs, p)) => {
                lemma_term_rest_sound(
                    s,
                    NodeView::Binary { op, left: Box::new(acc), right: Box::new(rhs) },
                    p,
                );
            },
            Err(_) => {},
        }
    }
}

proof fn lemma_term_sound(s: Seq<TokenView>, pos: int)
    ensures
        spec_term(s, pos) matches Ok((n, p)) ==> wf_node(n) && pos < p <= s.len(),
    decreases s.len() - pos, 4int,
{
    if 0 <= pos < s.len() {
        lemma_power_sound(s, pos);
        match spec_power(s, pos) {
            Ok((n, p)) => {
                lemma_term_rest_sound(s, n, p);
            },
            Err(_) => {},
        }
    }
}

proof fn lemma_expr_rest_sound(s: Seq<TokenView>, acc: NodeView, pos: int)
    requires
        wf_node(acc),
        0 <= pos <= s.len(),
    ensures
        spec_expr_rest(s, acc, pos) matches Ok((n, p)) ==> wf_node(n) && pos <= p <= s.len(),
    decreases s.len() - pos, 5int,
{
    if 0 <= pos < s.len() && expr_op(s[pos]) is Some {
        let op = expr_op(s[pos])->Some_0;
        lemma_term_sound(s, pos + 1);
        match spec_term(s, pos + 1) {
            Ok((rhs, p)) => {
                lemma_expr_rest_sound(
                    s,
                    NodeView::Binary { op, left: Box::new(acc), right: Box::new(rhs) },
                    p,
                );
            },
            Err(_) => {},
        }
    }
}

proof fn lemma_expr_sound(s: Seq<TokenView>, pos: int)
    ensures
        spec_expr(s, pos) matches Ok((n, p)) ==> wf_node(n) && pos < p <= s.len(),
    decreases s.len() - pos, 6int,
{
    if 0 <= pos < s.len() {
        lemma_term_sound(s, pos);
        match spec_term(s, pos) {
            Ok((n, p)) => {
                lemma_expr_rest_sound(s, n, p);
            },
            Err(_) => {},
        }
    }
}

/// Every tree the grammar yields is well formed in the sense of
/// [`wf_node`].  The parser is the sole producer of trees, so a unary
/// or binary node carrying an operator outside its kind can never
/// reach the evaluator.  Along the way this shows that every grammar
/// layer leaves the cursor strictly advanced and inside the sequence,
/// so the clamp in [`step_pos`] indeed never changes anything.
pub proof fn lemma_parse_wf(s: Seq<TokenView>, pos: int)
    ensures
        spec_parse(s, pos) matches Ok(Some(n)) ==> wf_node(n),
{
    if 0 <= pos < s.len() {
        lemma_expr_sound(s, pos);
    }
}

/// A cursor over a lexed token slice.
pub struct Parser<'a> {
    pub tokens: &'a [Token],
    pub pos: usize,
}

impl<'a> Parser<'a> {
    /// The token sequence under the cursor, as its model.
    pub open spec fn toks(&self) -> Seq<TokenView> {
        toks_of(self.tokens@)
    }

    pub open spec fn wf(&self) -> bool {
        self.pos <= self.tokens@.len()
    }

    pub fn new(tokens: &'a [Token]) -> (p: Parser<'a>)
        ensures
            p.wf(),
            p.tokens == tokens,
            p.pos == 0,
    {
        Parser { tokens, pos: 0 }
    }

    /// Parses the whole token slice, exactly as [`spec_parse`] says;
    /// a tree that comes back is well formed in the sense of
    /// [`wf_node`].
    pub fn parse(&mut self) -> (r: Result<Option<Node>, SyntaxError>)
        requires
            old(self).wf(),
        ensures
            final(self).wf(),
            final(self).tokens == old(self).tokens,
            match r {
                Ok(opt) => match opt {
                    Some(n) => spec_parse(old(self).toks(), old(self).pos as int)
                        == Ok::<Option<NodeView>, SyntaxError>(Some(n.deep_view()))
                        && wf_node(n.deep_view()),
                    None => spec_parse(old(self).toks(), old(self).pos as int)
                        == Ok::<Option<NodeView>, SyntaxError>(None),
                },
                Err(e) => spec_parse(old(self).toks(), old(self).pos as int)
                    == Err::<Option<NodeView>, SyntaxError>(e),
            },
    {
        if self.pos >= self.tokens.len() {
            return Ok(None);
        }
        match self.expr() {
            Ok(n) => {
                if self.pos < self.tokens.len() {
                    Err(SyntaxError::TrailingTokens)
                } else {
                    Ok(Some(n))
                }
            },
            Err(e) => Err(e),
        }
    }

    fn expr(&mut self) -> (r: Result<Node, SyntaxError>)
        requires
            old(self).wf(),
        ensures
            final(self).wf(),
            final(self).tokens == old(self).tokens,
            match r {
                Ok(n) => ({
                    &&& spec_expr(old(self).toks(), old(self).pos as int)
                        == Ok::<(NodeView, int), SyntaxError>((n.deep_view(), final(self).pos as int))
                    &&& old(self).pos < final(self).pos
                    &&& wf_node(n.deep_view())
                }),
                Err(e) => spec_expr(old(self).toks(), old(self).pos as int)
                    == Err::<(NodeView, int), SyntaxError>(e),
            },
        decreases old(self).tokens@.len() - old(self).pos, 6int,
    {
        let ghost s = self.toks();
        let ghost p0 = self.pos as int;
        let ghost tokens0 = self.tokens;
        let mut result = match self.term() {
            Ok(n) => n,
            Err(e) => {
                return Err(e);
            },
        };
        proof {
            assert(step_pos(s, p0, self.pos as int) == self.pos as int);
        }
        loop
            invariant
                self.wf(),
                tokens0 == old(self).tokens,
                p0 == old(self).pos as int,
                self.tokens == tokens0,
                s == self.toks(),
                p0 < self.pos <= s.len(),
                wf_node(result.deep_view()),
                spec_expr(s, p0) == spec_expr_rest(s, result.deep_view(), self.pos as int),
            ensures
                self.wf(),
                self.tokens == tokens0,
                p0 < self.pos <= s.len(),
                wf_node(result.deep_view()),
                spec_expr(s, p0) == Ok::<(NodeView, int), SyntaxError>((
                    result.deep_view(),
                    self.pos as int,
                )),
            decreases s.len() - self.pos,
        {
            if self.pos >= self.tokens.len() {
                break;
            }
            let toks = self.tokens;
            let op = match &toks[self.pos] {
                Token::Plus => Operator::Plus,
                Token::Minus => Operator::Minus,
                _ => {
                    break;
                },
            };
            let ghost p1 = self.pos as int;
            self.pos = self.pos + 1;
            let rhs = match self.term() {
                Ok(n) => n,
                Err(e) => {
                    return Err(e);
                },
            };
            proof {
                assert(step_pos(s, p1, self.pos as int) == self.pos as int);
            }
            result = Node::Binary { op, left: Box::new(result), right: Box::new(rhs) };
        }
        Ok(result)
    }

    fn term(&mut self) -> (r: Result<Node, SyntaxError>)
        requires
            old(self).wf(),
        ensures
            final(self).wf(),
            final(self).tokens == old(self).tokens,
            match r {
                Ok(n) => ({
                    &&& spec_term(old(self).toks(), old(self).pos as int)
                        == Ok::<(NodeView, int), SyntaxError>((n.deep_view(), final(self).pos as int))
                    &&& old(self).pos < final(self).pos
                    &&& wf_node(n.deep_view())
                }),
                Err(e) => spec_term(old(self).toks(), old(self).pos as int)
                    == Err::<(NodeView, int), SyntaxError>(e),
            },
        decreases old(self).tokens@.len() - old(self).pos, 4int,
    {
        let ghost s = self.toks();
        let ghost p0 = self.pos as int;
        let ghost tokens0 = self.tokens;
        let mut result = match self.power() {
            Ok(n) => n,
            Err(e) => {
                return Err(e);
            },
        };
        proof {
            assert(step_pos(s, p0, self.pos as int) == self.pos as int);
        }
        loop
            invariant
                self.wf(),
                tokens0 == old(self).tokens,
                p0 == old(self).pos as int,
                self.tokens == tokens0,
                s == self.toks(),
                p0 < self.pos <= s.len(),
                wf_node(result.deep_view()),
                spec_term(s, p0) == spec_term_rest(s, result.deep_view(), self.pos as int),
            ensures
                self.wf(),
                self.tokens == tokens0,
                p0 < self.pos <= s.len(),
                wf_node(result.deep_view()),
                spec_term(s, p0) == Ok::<(NodeView, int), SyntaxError>((
                    result.deep_view(),
                    self.pos as int,
                )),
            decreases s.len() - self.pos,
        {
            if self.pos >= self.tokens.len() {
                break;
            }
            let toks = self.tokens;
            let op = match &toks[self.pos] {
                Token::Multiply => Operator::Multiply,
                Token::Divide => Operator::Divide,
                Token::Modulo => Operator::Modulo,
                _ => {
                    break;
                },
            };
            let ghost p1 = self.pos as int;
            self.pos = self.pos + 1;
            let rhs = match self.power() {
                Ok(n) => n,
                Err(e) => {
                    return Err(e);
                },
            };
            proof {
                assert(step_pos(s, p1, self.pos as int) == self.pos as int);
            }
            result = Node::Binary { op, left: Box::new(result), right: Box::new(rhs) };
        }
        Ok(result)
    }

    fn power(&mut self) -> (r: Result<Node, SyntaxError>)
        requires
            old(self).wf(),
        ensures
            final(self).wf(),
            final(self).tokens == old(self).tokens,
            match r {
                Ok(n) => ({
                    &&& spec_power(old(self).toks(), old(self).pos as int)
                        == Ok::<(NodeView, int), SyntaxError>((n.deep_view(), final(self).pos as int))
                    &&& old(self).pos < final(self).pos
                    &&& wf_node(n.deep_view())
                }),
                Err(e) => spec_power(old(self).toks(), old(self).pos as int)
                    == Err::<(NodeView, int), SyntaxError>(e),
            },
        decreases old(self).tokens@.len() - old(self).pos, 2int,
    {
        let ghost s = self.toks();
        let ghost p0 = self.pos as int;
        let ghost tokens0 = self.tokens;
        let mut result = match self.factor() {
            Ok(n) => n,
            Err(e) => {
                return Err(e);
            },
        };
        proof {
            assert(step_pos(s, p0, self.pos as int) == self.pos as int);
        }
        loop
            invariant
                self.wf(),
                tokens0 == old(self).tokens,
                p0 == old(self).pos as int,
                self.tokens == tokens0,
                s == self.toks(),
                p0 < self.pos <= s.len(),
                wf_node(result.deep_view()),
                spec_power(s, p0) == spec_power_rest(s, result.deep_view(), self.pos as int),
            ensures
                self.wf(),
                self.tokens == tokens0,
                p0 < self.pos <= s.len(),
                wf_node(result.deep_view()),
                spec_power(s, p0) == Ok::<(NodeView, int), SyntaxError>((
                    result.deep_view(),
                    self.pos as int,
                )),
            decreases s.len() - self.pos,
        {
            if self.pos >= self.tokens.len() {
                break;
            }
            let toks = self.tokens;
            match &toks[self.pos] {
                Token::Power => {},
                _ => {
                    break;
                },
            }
            let ghost p1 = self.pos as int;
            self.pos = self.pos + 1;
            let rhs = match self.factor() {
                Ok(n) => n,
                Err(e) => {
                    return Err(e);
                },
            };
            proof {
                assert(step_pos(s, p1, self.pos as int) == self.pos as int);
            }
            result = Node::Binary {
                op: Operator::Power,
                left: Box::new(result),
                right: Box::new(rhs),
            };
        }
        Ok(result)
    }

    fn factor(&mut self) -> (r: Result<Node, SyntaxError>)
        requires
            old(self).wf(),
        ensures
            final(self).wf(),
            final(self).tokens == old(self).tokens,
            match r {
                Ok(n) => ({
                    &&& spec_factor(old(self).toks(), old(self).pos as int)
                        == Ok::<(NodeView, int), SyntaxError>((n.deep_view(), final(self).pos as int))
                    &&& old(self).pos < final(self).pos
                    &&& wf_node(n.deep_view())
                }),
                Err(e) => spec_factor(old(self).toks(), old(self).pos as int)
                    == Err::<(NodeView, int), SyntaxError>(e),
            },
        decreases old(self).tokens@.len() - old(self).pos, 0int,
    {
        if self.pos >= self.tokens.len() {
            return Err(SyntaxError::UnexpectedEnd);
        }
        let toks = self.tokens;
        match &toks[self.pos] {
            Token::Number(lit) => {
                let node = Node::Number(lit.clone());
                self.pos = self.pos + 1;
                Ok(node)
            },
            Token::Plus => {
                self.pos = self.pos + 1;
                match self.factor() {
                    Ok(child) => Ok(Node::Unary { op: Operator::Plus, node: Box::new(child) }),
                    Err(e) => Err(e),
                }
            },
            Token::Minus => {
                self.pos = self.pos + 1;
                match self.factor() {
                    Ok(child) => Ok(Node::Unary { op: Operator::Minus, node: Box::new(child) }),
                    Err(e) => Err(e),
                }
            },
            Token::SquareRoot => {
                self.pos = self.pos + 1;
                match self.factor() {
                    Ok(child) => Ok(
                        Node::Unary { op: Operator::SquareRoot, node: Box::new(child) },
                    ),
                    Err(e) => Err(e),
                }
            },
            Token::LeftParenthesis => {
                self.pos = self.pos + 1;
                match self.expr() {
                    Ok(inner) => {
                        if self.pos < self.tokens.len() {
                            let toks2 = self.tokens;
                            match &toks2[self.pos] {
                                Token::RightParenthesis => {
                                    self.pos = self.pos + 1;
                                    Ok(inner)
                                },
                                _ => Err(SyntaxError::ExpectedCloseParen),
                            }
                        } else {
                            Err(SyntaxError::ExpectedCloseParen)
                        }
                    },
                    Err(e) => Err(e),
                }
            },
            _ => Err(SyntaxError::UnexpectedToken),
        }
    }
}

} // verus!
