use vstd::prelude::*;
use crate::lex::{lex, tokens_of, views, LexError, Tok, TokenKind};

verus! {

broadcast use vstd::std_specs::vec::axiom_vec_index_decreases;

/// The mathematical model of an expression tree.
pub struct Tree {
    pub children: Seq<Tree>,
    pub entry: Tok,
}

/// A node of an expression tree: a leaf value, or an operator over its children.
#[derive(Debug, PartialEq)]
pub struct Node {
    pub children: Vec<Node>,
    pub entry: TokenKind,
}

/// The tree that a node stands for.
pub open spec fn tree_of(n: Node) -> Tree
    decreases n,
{
    Tree {
        children: Seq::new(
            n.children@.len(),
            |i: int|
                if 0 <= i < n.children@.len() {
                    tree_of(n.children@[i])
                } else {
                    Tree { children: Seq::empty(), entry: Tok::Lparen }
                },
        ),
        entry: n.entry@,
    }
}

impl View for Node {
    type V = Tree;

    open spec fn view(&self) -> Tree {
        tree_of(*self)
    }
}

impl Node {
    pub proof fn lemma_view(&self)
        ensures
            self@.children.len() == self.children@.len(),
            forall|i: int| 0 <= i < self.children@.len() ==> #[trigger] self@.children[i] == self.children@[i]@,
            self@.entry == self.entry@,
    {
        reveal_with_fuel(tree_of, 2);
    }

    /// A node with no children, tagged `(`.
    pub fn new() -> (r: Node)
        ensures
            r@.children.len() == 0,
            r@.entry == Tok::Lparen,
    {
        Node { children: Vec::new(), entry: TokenKind::Lparen }
    }
}

/// Why a text is not an expression.
#[derive(Debug, PartialEq)]
#[allow(inconsistent_fields)]
pub enum ParseError {
    /// The text could not be split into tokens.
    Lex(LexError),
    /// A term was expected at `position`; `found` is what stands there.
    UnexpectedToken { found: Option<TokenKind>, position: usize },
    /// A `)` was expected at `position`; `found` is what stands there.
    MissingRparen { found: Option<TokenKind>, position: usize },
    /// A complete expression is followed by `found` at `position`.
    TrailingTokens { found: TokenKind, position: usize },
}

/// The mathematical model of a parse error.
#[allow(inconsistent_fields)]
pub enum SyntaxFault {
    Lex(LexError),
    UnexpectedToken { found: Option<Tok>, position: int },
    MissingRparen { found: Option<Tok>, position: int },
    TrailingTokens { found: Tok, position: int },
}

pub open spec fn opt_view(t: Option<TokenKind>) -> Option<Tok> {
    match t {
        Some(k) => Some(k@),
        None => None,
    }
}

impl View for ParseError {
    type V = SyntaxFault;

    open spec fn view(&self) -> SyntaxFault {
        match self {
            ParseError::Lex(e) => SyntaxFault::Lex(*e),
            ParseError::UnexpectedToken { found, position } => SyntaxFault::UnexpectedToken {
                found: opt_view(*found),
                position: *position as int,
            },
            ParseError::MissingRparen { found, position } => SyntaxFault::MissingRparen {
                found: opt_view(*found),
                position: *position as int,
            },
            ParseError::TrailingTokens { found, position } => SyntaxFault::TrailingTokens {
                found: found@,
                position: *position as int,
            },
        }
    }
}

pub type Parsed = Result<(Tree, int), SyntaxFault>;

pub open spec fn leaf(t: Tok) -> Tree {
    Tree { children: Seq::empty(), entry: t }
}

pub open spec fn branch(op: Tok, lhs: Tree, rhs: Tree) -> Tree {
    Tree { children: seq![lhs, rhs], entry: op }
}

pub open spec fn token_get(t: Seq<Tok>, i: int) -> Option<Tok> {
    if 0 <= i < t.len() {
        Some(t[i])
    } else {
        None
    }
}

pub open spec fn is_sum_op(t: Tok) -> bool {
    t is Plus || t is Minus || t is Assign
}

pub open spec fn is_product_op(t: Tok) -> bool {
    t is Asterisk || t is ForwardSlash
}

/// `expr := summand ( ('+' | '-' | '=') expr )?`, read from position `p`.
pub open spec fn expr_at(t: Seq<Tok>, p: int) -> Parsed
    decreases t.len() - p, 2nat,
{
    match summand_at(t, p) {
        Err(e) => Err(e),
        Ok((lhs, q)) => if p <= q < t.len() && is_sum_op(t[q]) {
            match expr_at(t, q + 1) {
                Err(e) => Err(e),
                Ok((rhs, k)) => Ok((branch(t[q], lhs, rhs), k)),
            }
        } else {
            Ok((lhs, q))
        },
    }
}

/// `summand := term ( ('*' | '/') summand )?`, read from position `p`.
pub open spec fn summand_at(t: Seq<Tok>, p: int) -> Parsed
    decreases t.len() - p, 1nat,
{
    match term_at(t, p) {
        Err(e) => Err(e),
        Ok((lhs, q)) => if p <= q < t.len() && is_product_op(t[q]) {
            match summand_at(t, q + 1) {
                Err(e) => Err(e),
                Ok((rhs, k)) => Ok((branch(t[q], lhs, rhs), k)),
            }
        } else {
            Ok((lhs, q))
        },
    }
}

/// `term`, read from position `p`: a literal or identifier, a parenthesised
/// expression, `+ expr` as `0 + expr`, or `- summand` as `0 - summand`.
pub open spec fn term_at(t: Seq<Tok>, p: int) -> Parsed
    decreases t.len() - p, 0nat,
{
    if p < 0 || p >= t.len() {
        Err(SyntaxFault::UnexpectedToken { found: None, position: p })
    } else {
        match t[p] {
            Tok::Integer(_) | Tok::Decimal(_) | Tok::QuotedString(_) | Tok::Identifier(_) => Ok(
                (leaf(t[p]), p + 1),
            ),
            Tok::Lparen => match expr_at(t, p + 1) {
                Err(e) => Err(e),
                Ok((inner, q)) => if 0 <= q < t.len() && t[q] is Rparen {
                    Ok((inner, q + 1))
                } else {
                    Err(SyntaxFault::MissingRparen { found: token_get(t, q), position: q })
                },
            },
            Tok::Plus => match expr_at(t, p + 1) {
                Err(e) => Err(e),
                Ok((operand, q)) => Ok((branch(Tok::Plus, leaf(Tok::Integer(0)), operand), q)),
            },
            Tok::Minus => match summand_at(t, p + 1) {
                Err(e) => Err(e),
                Ok((operand, q)) => Ok((branch(Tok::Minus, leaf(Tok::Integer(0)), operand), q)),
            },
            _ => Err(SyntaxFault::UnexpectedToken { found: Some(t[p]), position: p }),
        }
    }
}

/// The tree of a whole token sequence: one expression and nothing after it.
pub open spec fn tree_of_tokens(t: Seq<Tok>) -> Result<Tree, SyntaxFault> {
    match expr_at(t, 0) {
        Err(e) => Err(e),
        Ok((n, k)) => if k >= t.len() {
            Ok(n)
        } else {
            Err(SyntaxFault::TrailingTokens { found: t[k], position: k })
        },
    }
}

/// The tree of a text.
pub open spec fn tree_of_text(s: Seq<char>) -> Result<Tree, SyntaxFault> {
    match tokens_of(s) {
        Err(e) => Err(SyntaxFault::Lex(e)),
        Ok(t) => tree_of_tokens(t),
    }
}

pub open spec fn parsed_as(r: Result<(Node, usize), ParseError>, spec: Parsed, p: int, len: int) -> bool {
    match r {
        Ok((n, k)) => spec == Ok::<(Tree, int), SyntaxFault>((n@, k as int)) && p < k <= len,
        Err(e) => spec == Err::<(Tree, int), SyntaxFault>(e@),
    }
}

fn make_branch(op: TokenKind, lhs: Node, rhs: Node) -> (r: Node)
    ensures
        r@ == branch(op@, lhs@, rhs@),
{
    let r = Node { children: vec![lhs, rhs], entry: op };
    assert(r@.children =~= seq![lhs@, rhs@]);
    r
}

fn make_leaf(t: TokenKind) -> (r: Node)
    ensures
        r@ == leaf(t@),
{
    let r = Node { children: Vec::new(), entry: t };
    assert(r@.children =~= Seq::<Tree>::empty());
    r
}

fn token_at_pos(tokens: &Vec<TokenKind>, i: usize) -> (r: Option<TokenKind>)
    ensures
        opt_view(r) == token_get(views(tokens@), i as int),
{
    if i < tokens.len() {
        Some(tokens[i].copy())
    } else {
        None
    }
}

fn parse_expr(tokens: &Vec<TokenKind>, pos: usize) -> (r: Result<(Node, usize), ParseError>)
    requires
        pos <= tokens@.len(),
    ensures
        parsed_as(r, expr_at(views(tokens@), pos as int), pos as int, tokens@.len() as int),
    decreases tokens@.len() - pos, 2nat,
{
    let (lhs, next) = parse_summand(tokens, pos)?;
    if next < tokens.len() {
        let op = match &tokens[next] {
            TokenKind::Plus => TokenKind::Plus,
            TokenKind::Minus => TokenKind::Minus,
            TokenKind::Assign => TokenKind::Assign,
            _ => {
                return Ok((lhs, next));
            },
        };
        let (rhs, end) = parse_expr(tokens, next + 1)?;
        Ok((make_branch(op, lhs, rhs), end))
    } else {
        Ok((lhs, next))
    }
}

fn parse_summand(tokens: &Vec<TokenKind>, pos: usize) -> (r: Result<(Node, usize), ParseError>)
    requires
        pos <= tokens@.len(),
    ensures
        parsed_as(r, summand_at(views(tokens@), pos as int), pos as int, tokens@.len() as int),
    decreases tokens@.len() - pos, 1nat,
{
    let (lhs, next) = parse_term(tokens, pos)?;
    if next < tokens.len() {
        let op = match &tokens[next] {
            TokenKind::Asterisk => TokenKind::Asterisk,
            TokenKind::ForwardSlash => TokenKind::ForwardSlash,
            _ => {
                return Ok((lhs, next));
            },
        };
        let (rhs, end) = parse_summand(tokens, next + 1)?;
        Ok((make_branch(op, lhs, rhs), end))
    } else {
        Ok((lhs, next))
    }
}

fn parse_term(tokens: &Vec<TokenKind>, pos: usize) -> (r: Result<(Node, usize), ParseError>)
    requires
        pos <= tokens@.len(),
    ensures
        parsed_as(r, term_at(views(tokens@), pos as int), pos as int, tokens@.len() as int),
    decreases tokens@.len() - pos, 0nat,
{
    if pos >= tokens.len() {
        return Err(ParseError::UnexpectedToken { found: None, position: pos });
    }
    let t = &tokens[pos];
    match t {
        TokenKind::Integer(_) | TokenKind::Decimal(_) | TokenKind::QuotedString(_)
        | TokenKind::Identifier(_) => Ok((make_leaf(t.copy()), pos + 1)),
        TokenKind::Lparen => {
            let (inner, next) = parse_expr(tokens, pos + 1)?;
            if next < tokens.len() {
                if let TokenKind::Rparen = &tokens[next] {
                    return Ok((inner, next + 1));
                }
            }
            Err(ParseError::MissingRparen { found: token_at_pos(tokens, next), position: next })
        },
        TokenKind::Plus => {
            let (operand, next) = parse_expr(tokens, pos + 1)?;
            Ok((make_branch(TokenKind::Plus, make_leaf(TokenKind::Integer(0)), operand), next))
        },
        TokenKind::Minus => {
            let (operand, next) = parse_summand(tokens, pos + 1)?;
            Ok((make_branch(TokenKind::Minus, make_leaf(TokenKind::Integer(0)), operand), next))
        },
        _ => Err(ParseError::UnexpectedToken { found: Some(t.copy()), position: pos }),
    }
}

/// Reads a whole token sequence as one expression.
pub fn parse_tokens(tokens: &Vec<TokenKind>) -> (r: Result<Node, ParseError>)
    ensures
        match r {
            Ok(n) => tree_of_tokens(views(tokens@)) == Ok::<Tree, SyntaxFault>(n@),
            Err(e) => tree_of_tokens(views(tokens@)) == Err::<Tree, SyntaxFault>(e@),
        },
{
    let (n, end) = parse_expr(tokens, 0)?;
    if end >= tokens.len() {
        Ok(n)
    } else {
        Err(ParseError::TrailingTokens { found: tokens[end].copy(), position: end })
    }
}

/// Reads a text as one expression.
pub fn parse(src: &str) -> (r: Result<Node, ParseError>)
    ensures
        match r {
            Ok(n) => tree_of_text(src@) == Ok::<Tree, SyntaxFault>(n@),
            Err(e) => tree_of_text(src@) == Err::<Tree, SyntaxFault>(e@),
        },
{
    match lex(src) {
        Err(e) => Err(ParseError::Lex(e)),
        Ok(tokens) => parse_tokens(&tokens),
    }
}

} // verus!
