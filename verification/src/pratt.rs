//! The precedence-climbing engine: rule registries, the token cursor, and
//! the recursive `expression(min_precedence)` parse.

use vstd::prelude::*;
use crate::token::{Token, TokenKind};

verus! {

/// A failure surfaced by the engine; parsing aborts with no partial tree.
#[derive(Eq, Copy, Clone, Debug, PartialEq)]
pub enum ParserError {
    /// A rule was invoked on a token shape it does not accept: the kind
    /// found, then the kind the rule expected.
    InvalidRule(TokenKind, TokenKind),
    /// The cursor was exhausted where a token was required.
    EndOfStream,
    /// No prefix rule is registered for the kind that opened an expression.
    NoPrefixRule(TokenKind),
    /// No infix rule is registered for a consumed operator; unreachable
    /// through `expression`, whose loop looks the rule up before consuming.
    NoInfixRule(TokenKind),
}

/// The abstract syntax tree an expression parses to.
#[derive(Debug, PartialEq, Eq)]
pub enum AST {
    Prefix(TokenKind, Box<AST>),
    Infix(TokenKind, Box<AST>, Box<AST>),
    Value(i16),
}

impl Clone for AST {
    fn clone(&self) -> (r: AST)
        ensures
            r == *self,
        decreases *self,
    {
        match self {
            AST::Value(v) => AST::Value(*v),
            AST::Prefix(k, operand) => AST::Prefix(*k, Box::new((**operand).clone())),
            AST::Infix(k, left, right) => AST::Infix(
                *k,
                Box::new((**left).clone()),
                Box::new((**right).clone()),
            ),
        }
    }
}

/// What a prefix rule does with the token that triggered it.
#[derive(Eq, Copy, Clone, Debug, PartialEq)]
pub enum PrefixAction {
    /// Yield the literal token's value as a leaf; defensively fail on an
    /// operator token.
    LiteralValue,
    /// Parse the operand as a sub-expression at the given minimum
    /// precedence and wrap it under the triggering token's kind.
    SubExpression(usize),
}

/// A prefix rule: invoked with the consumed token that opened an
/// expression.
#[derive(Eq, Copy, Clone, Debug, PartialEq)]
pub struct PrefixRule {
    pub action: PrefixAction,
}

/// What an infix rule does with the already-parsed left operand and the
/// consumed operator token.
#[derive(Eq, Copy, Clone, Debug, PartialEq)]
pub enum InfixAction {
    /// Parse the right operand at the given minimum precedence and join
    /// both operands under the operator's kind. Restarting at the rule's
    /// own precedence chains left-associatively; restarting lower makes
    /// the operator right-associative.
    Binary(usize),
}

/// An infix rule paired with its binding strength: the climbing loop only
/// consumes its operator while this precedence strictly exceeds the
/// minimum in force.
#[derive(Eq, Copy, Clone, Debug, PartialEq)]
pub struct InfixRule {
    pub action: InfixAction,
    pub precedence: usize,
}

impl PrefixRule {
    /// The generic prefix-operator rule: parse the operand at `precedence`
    /// and wrap it.
    pub fn generic(precedence: usize) -> (r: PrefixRule)
        ensures
            r == (PrefixRule { action: PrefixAction::SubExpression(precedence) }),
    {
        PrefixRule { action: PrefixAction::SubExpression(precedence) }
    }

    pub fn new(action: PrefixAction) -> (r: PrefixRule)
        ensures
            r == (PrefixRule { action }),
    {
        PrefixRule { action }
    }

    /// Invokes this rule on the consumed `token` that opened an
    /// expression; the grammar and the token sequence are untouched, and
    /// the cursor only ever advances.
    pub fn parse(&self, parser: &mut Parser, token: Token) -> (r: Result<AST, ParserError>)
        ensures
            final(parser).tokens@ == old(parser).tokens@,
            final(parser).prefix_map() == old(parser).prefix_map(),
            final(parser).infix_map() == old(parser).infix_map(),
            old(parser).index <= final(parser).index,
            (r is Ok && old(parser).index <= old(parser).tokens@.len())
                ==> final(parser).index <= old(parser).tokens@.len(),
            match r {
                Ok(node) => spec_apply_prefix(
                    old(parser).prefix_map(),
                    old(parser).infix_map(),
                    *self,
                    token,
                    old(parser).tokens@,
                    old(parser).index as int,
                ) == Ok::<(AST, int), ParserError>((node, final(parser).index as int)),
                Err(e) => spec_apply_prefix(
                    old(parser).prefix_map(),
                    old(parser).infix_map(),
                    *self,
                    token,
                    old(parser).tokens@,
                    old(parser).index as int,
                ) == Err::<(AST, int), ParserError>(e),
            },
        decreases parser.tokens@.len() - parser.index, 1int,
    {
        match self.action {
            PrefixAction::LiteralValue => match token {
                Token::Digit(v) => Ok(AST::Value(v)),
                Token::Op(_) => Err(ParserError::InvalidRule(token.kind(), TokenKind::Value)),
            },
            PrefixAction::SubExpression(p) => match parser.expression(p) {
                Ok(operand) => Ok(AST::Prefix(token.kind(), Box::new(operand))),
                Err(e) => Err(e),
            },
        }
    }
}

impl InfixRule {
    pub fn new(action: InfixAction, precedence: usize) -> (r: InfixRule)
        ensures
            r == (InfixRule { action, precedence }),
    {
        InfixRule { action, precedence }
    }

    /// Invokes this rule on the already-parsed left operand `node` and the
    /// consumed operator `token`; the grammar and the token sequence are
    /// untouched, and the cursor only ever advances.
    pub fn parse(&self, parser: &mut Parser, node: AST, token: Token) -> (r: Result<
        AST,
        ParserError,
    >)
        ensures
            final(parser).tokens@ == old(parser).tokens@,
            final(parser).prefix_map() == old(parser).prefix_map(),
            final(parser).infix_map() == old(parser).infix_map(),
            old(parser).index <= final(parser).index,
            (r is Ok && old(parser).index <= old(parser).tokens@.len())
                ==> final(parser).index <= old(parser).tokens@.len(),
            match r {
                Ok(folded) => spec_apply_infix(
                    old(parser).prefix_map(),
                    old(parser).infix_map(),
                    *self,
                    node,
                    token,
                    old(parser).tokens@,
                    old(parser).index as int,
                ) == Ok::<(AST, int), ParserError>((folded, final(parser).index as int)),
                Err(e) => spec_apply_infix(
                    old(parser).prefix_map(),
                    old(parser).infix_map(),
                    *self,
                    node,
                    token,
                    old(parser).tokens@,
                    old(parser).index as int,
                ) == Err::<(AST, int), ParserError>(e),
            },
        decreases parser.tokens@.len() - parser.index, 1int,
    {
        match self.action {
            InfixAction::Binary(rp) => match parser.expression(rp) {
                Ok(right) => Ok(AST::Infix(token.kind(), Box::new(node), Box::new(right))),
                Err(e) => Err(e),
            },
        }
    }
}

/// A mapping from token kind to a rule, with at most one rule per kind;
/// inserting for a kind that already has a rule replaces it.
pub struct Registry<R> {
    value: Option<R>,
    plus: Option<R>,
    times: Option<R>,
    hyphen: Option<R>,
    bang: Option<R>,
}

impl<R> Registry<R> {
    spec fn entry(self, k: TokenKind) -> Option<R> {
        match k {
            TokenKind::Value => self.value,
            TokenKind::Plus => self.plus,
            TokenKind::Times => self.times,
            TokenKind::Hyphen => self.hyphen,
            TokenKind::Bang => self.bang,
        }
    }
}

impl<R> View for Registry<R> {
    type V = Map<TokenKind, R>;

    closed spec fn view(&self) -> Map<TokenKind, R> {
        Map::new(|k: TokenKind| self.entry(k) is Some, |k: TokenKind| self.entry(k)->Some_0)
    }
}

impl<R: Copy> Registry<R> {
    pub(crate) fn empty() -> (r: Registry<R>)
        ensures
            r@ == Map::<TokenKind, R>::empty(),
    {
        let r = Registry { value: None, plus: None, times: None, hyphen: None, bang: None };
        proof {
            assert(r@ =~= Map::<TokenKind, R>::empty());
        }
        r
    }

    pub(crate) fn insert(&mut self, kind: TokenKind, rule: R)
        ensures
            final(self)@ == old(self)@.insert(kind, rule),
    {
        match kind {
            TokenKind::Value => self.value = Some(rule),
            TokenKind::Plus => self.plus = Some(rule),
            TokenKind::Times => self.times = Some(rule),
            TokenKind::Hyphen => self.hyphen = Some(rule),
            TokenKind::Bang => self.bang = Some(rule),
        }
        proof {
            assert(self@ =~= old(self)@.insert(kind, rule));
        }
    }

    pub(crate) fn get(&self, kind: TokenKind) -> (r: Option<R>)
        ensures
            r == (if self@.contains_key(kind) {
                Some(self@[kind])
            } else {
                None::<R>
            }),
    {
        match kind {
            TokenKind::Value => self.value,
            TokenKind::Plus => self.plus,
            TokenKind::Times => self.times,
            TokenKind::Hyphen => self.hyphen,
            TokenKind::Bang => self.bang,
        }
    }
}

/// What one parse step yields: the node built so far together with the
/// cursor position after it, or the failure that aborted the parse.
pub type SpecParseResult = Result<(AST, int), ParserError>;

/// The result of `expression(min)` run on `toks` with the cursor at `i`,
/// against the prefix rules `pm` and infix rules `im`: consume one token,
/// apply its prefix rule, then climb while following operators bind
/// strictly tighter than `min`.
pub open spec fn spec_expression(
    pm: Map<TokenKind, PrefixRule>,
    im: Map<TokenKind, InfixRule>,
    toks: Seq<Token>,
    i: int,
    min: int,
) -> SpecParseResult
    decreases toks.len() - i, 2int,
{
    if i < 0 || i >= toks.len() {
        Err(ParserError::EndOfStream)
    } else {
        let t = toks[i];
        if !pm.contains_key(t.spec_kind()) {
            Err(ParserError::NoPrefixRule(t.spec_kind()))
        } else {
            match spec_apply_prefix(pm, im, pm[t.spec_kind()], t, toks, i + 1) {
                Err(e) => Err(e),
                // the bound on `j` carries the termination measure into the
                // climb; a successful rule never leaves it (see
                // lemma_apply_prefix_progress), so the other arm describes
                // no real parse
                Ok((left, j)) => if i < j && j <= toks.len() {
                    spec_climb(pm, im, toks, j, left, min)
                } else {
                    Err(ParserError::EndOfStream)
                },
            }
        }
    }
}

/// The result of a prefix rule invoked on the consumed `token`, with the
/// cursor already past it at `j`.
pub open spec fn spec_apply_prefix(
    pm: Map<TokenKind, PrefixRule>,
    im: Map<TokenKind, InfixRule>,
    rule: PrefixRule,
    token: Token,
    toks: Seq<Token>,
    j: int,
) -> SpecParseResult
    decreases toks.len() - j + 1, 0int,
{
    match rule.action {
        PrefixAction::LiteralValue => match token {
            Token::Digit(v) => Ok((AST::Value(v), j)),
            Token::Op(_) => Err(ParserError::InvalidRule(token.spec_kind(), TokenKind::Value)),
        },
        // out of range, the recursion's termination measure is lost; the
        // sub-parse below would fail with the same error at once
        PrefixAction::SubExpression(p) => if j < 0 || j > toks.len() {
            Err(ParserError::EndOfStream)
        } else {
            match spec_expression(pm, im, toks, j, p as int) {
                Err(e) => Err(e),
                Ok((operand, j2)) => Ok((AST::Prefix(token.spec_kind(), Box::new(operand)), j2)),
            }
        },
    }
}

/// The climbing loop: with `left` parsed and the cursor at `j`, keep
/// consuming operators whose infix rule binds strictly tighter than `min`,
/// folding `left` into larger nodes; stop, leaving the next token
/// unconsumed, at end of stream, at a kind with no infix rule, or at a
/// precedence not above `min`.
pub open spec fn spec_climb(
    pm: Map<TokenKind, PrefixRule>,
    im: Map<TokenKind, InfixRule>,
    toks: Seq<Token>,
    j: int,
    left: AST,
    min: int,
) -> SpecParseResult
    decreases toks.len() - j, 1int,
{
    if j < 0 || j >= toks.len() {
        Ok((left, j))
    } else {
        let k = toks[j].spec_kind();
        if !im.contains_key(k) {
            Ok((left, j))
        } else if im[k].precedence <= min {
            Ok((left, j))
        } else {
            match spec_apply_infix(pm, im, im[k], left, toks[j], toks, j + 1) {
                Err(e) => Err(e),
                // the bound on `j2` carries the termination measure into the
                // next round; a successful rule never leaves it (see
                // lemma_apply_infix_progress), so the other arm describes
                // no real parse
                Ok((folded, j2)) => if j < j2 && j2 <= toks.len() {
                    spec_climb(pm, im, toks, j2, folded, min)
                } else {
                    Err(ParserError::EndOfStream)
                },
            }
        }
    }
}

/// The result of an infix rule invoked on the parsed `left` operand and the
/// consumed operator `token`, with the cursor already past it at `j`.
pub open spec fn spec_apply_infix(
    pm: Map<TokenKind, PrefixRule>,
    im: Map<TokenKind, InfixRule>,
    rule: InfixRule,
    left: AST,
    token: Token,
    toks: Seq<Token>,
    j: int,
) -> SpecParseResult
    decreases toks.len() - j + 1, 0int,
{
    match rule.action {
        // out of range, the recursion's termination measure is lost; the
        // sub-parse below would fail with the same error at once
        InfixAction::Binary(rp) => if j < 0 || j > toks.len() {
            Err(ParserError::EndOfStream)
        } else {
            match spec_expression(pm, im, toks, j, rp as int) {
                Err(e) => Err(e),
                Ok((right, j2)) => Ok(
                    (AST::Infix(token.spec_kind(), Box::new(left), Box::new(right)), j2),
                ),
            }
        },
    }
}

/// The precedence the climbing loop compares against: the precedence of
/// the infix rule for the token under the cursor, and 0 when the stream is
/// exhausted or the token's kind has no infix rule.
pub open spec fn spec_next_precedence(
    im: Map<TokenKind, InfixRule>,
    toks: Seq<Token>,
    i: int,
) -> usize {
    if 0 <= i < toks.len() && im.contains_key(toks[i].spec_kind()) {
        im[toks[i].spec_kind()].precedence
    } else {
        0
    }
}

/// The parsing engine: the token sequence under parse, the cursor into it,
/// and the two rule registries the grammar was loaded into.
pub struct Parser {
    pub tokens: Vec<Token>,
    pub index: usize,
    pub prefix_rules: Registry<PrefixRule>,
    pub infix_rules: Registry<InfixRule>,
}

impl Parser {
    /// The prefix rules by the kind that triggers them.
    pub closed spec fn prefix_map(&self) -> Map<TokenKind, PrefixRule> {
        self.prefix_rules@
    }

    /// The infix rules by the kind that triggers them.
    pub closed spec fn infix_map(&self) -> Map<TokenKind, InfixRule> {
        self.infix_rules@
    }

    /// Replaces the token sequence and rewinds the cursor for a fresh
    /// parse; the grammar is kept, so one engine can serve many inputs.
    pub fn load_input(&mut self, tokens: Vec<Token>)
        ensures
            final(self).tokens == tokens,
            final(self).index == 0,
            final(self).prefix_map() == old(self).prefix_map(),
            final(self).infix_map() == old(self).infix_map(),
    {
        self.tokens = tokens;
        self.index = 0
    }

    /// Registers the prefix rule for a kind; a rule already registered for
    /// that kind is replaced, the last registration winning.
    pub fn register_prefix(&mut self, kind: TokenKind, rule: PrefixRule)
        ensures
            final(self).prefix_map() == old(self).prefix_map().insert(kind, rule),
            final(self).infix_map() == old(self).infix_map(),
            final(self).tokens@ == old(self).tokens@,
            final(self).index == old(self).index,
    {
        self.prefix_rules.insert(kind, rule);
    }

    /// Registers the infix rule for a kind; a rule already registered for
    /// that kind is replaced, the last registration winning.
    pub fn register_infix(&mut self, kind: TokenKind, rule: InfixRule)
        ensures
            final(self).infix_map() == old(self).infix_map().insert(kind, rule),
            final(self).prefix_map() == old(self).prefix_map(),
            final(self).tokens@ == old(self).tokens@,
            final(self).index == old(self).index,
    {
        self.infix_rules.insert(kind, rule);
    }

    /// Returns the token under the cursor and advances past it, or
    /// `EndOfStream` with the cursor unmoved when none remains.
    pub fn consume(&mut self) -> (r: Result<Token, ParserError>)
        ensures
            final(self).tokens@ == old(self).tokens@,
            final(self).prefix_map() == old(self).prefix_map(),
            final(self).infix_map() == old(self).infix_map(),
            match r {
                Ok(t) => old(self).index < old(self).tokens@.len()
                    && t == old(self).tokens@[old(self).index as int]
                    && final(self).index == old(self).index + 1,
                Err(e) => e == ParserError::EndOfStream
                    && old(self).index >= old(self).tokens@.len()
                    && final(self).index == old(self).index,
            },
    {
        if self.index < self.tokens.len() {
            let token = self.tokens[self.index];
            self.index += 1;
            Ok(token)
        } else {
            Err(ParserError::EndOfStream)
        }
    }

    /// Returns the token under the cursor without consuming it, or
    /// `EndOfStream` when none remains.
    pub fn look_ahead(&mut self) -> (r: Result<Token, ParserError>)
        ensures
            *final(self) == *old(self),
            match r {
                Ok(t) => old(self).index < old(self).tokens@.len()
                    && t == old(self).tokens@[old(self).index as int],
                Err(e) => e == ParserError::EndOfStream
                    && old(self).index >= old(self).tokens@.len(),
            },
    {
        match self.tokens.get(self.index) {
            Some(t) => Ok(*t),
            None => Err(ParserError::EndOfStream),
        }
    }

    /// Parses one expression by precedence climbing: consumes a token,
    /// applies its prefix rule, then keeps consuming operators whose infix
    /// rule binds strictly tighter than `precedence`, leaving the first
    /// token that does not — or has no infix rule — unconsumed. The result
    /// and the residual cursor are exactly those of `spec_expression` on
    /// the engine's state at the call, so the same tokens against the same
    /// grammar always parse to the same tree or the same failure.
    #[verifier::loop_isolation(false)]
    pub fn expression(&mut self, precedence: usize) -> (r: Result<AST, ParserError>)
        ensures
            final(self).tokens@ == old(self).tokens@,
            final(self).prefix_map() == old(self).prefix_map(),
            final(self).infix_map() == old(self).infix_map(),
            old(self).index <= final(self).index,
            r is Ok ==> old(self).index < final(self).index
                && final(self).index <= old(self).tokens@.len(),
            match r {
                Ok(node) => spec_expression(
                    old(self).prefix_map(),
                    old(self).infix_map(),
                    old(self).tokens@,
                    old(self).index as int,
                    precedence as int,
                ) == Ok::<(AST, int), ParserError>((node, final(self).index as int)),
                Err(e) => spec_expression(
                    old(self).prefix_map(),
                    old(self).infix_map(),
                    old(self).tokens@,
                    old(self).index as int,
                    precedence as int,
                ) == Err::<(AST, int), ParserError>(e),
            },
        decreases self.tokens@.len() - self.index, 0int,
    {
        let ghost pm = self.prefix_map();
        let ghost im = self.infix_map();
        let ghost toks = self.tokens@;
        let ghost entry = self.index as int;

        let token = match self.consume() {
            Ok(t) => t,
            Err(e) => {
                return Err(e);
            },
        };
        let prefix = match self.prefix_rules.get(token.kind()) {
            Some(p) => p,
            None => {
                return Err(ParserError::NoPrefixRule(token.kind()));
            },
        };
        let mut left = match prefix.parse(self, token) {
            Ok(node) => node,
            Err(e) => {
                return Err(e);
            },
        };
        while precedence < self.next_token_precedence()
            invariant
                self.tokens@ == toks,
                self.prefix_map() == pm,
                self.infix_map() == im,
                entry < self.index <= toks.len(),
                spec_expression(pm, im, toks, entry, precedence as int) == spec_climb(
                    pm,
                    im,
                    toks,
                    self.index as int,
                    left,
                    precedence as int,
                ),
            decreases toks.len() - self.index,
        {
            let token = match self.consume() {
                Ok(t) => t,
                Err(e) => {
                    return Err(e);
                },
            };
            let infix = match self.infix_rules.get(token.kind()) {
                Some(rule) => rule,
                None => {
                    return Err(ParserError::NoInfixRule(token.kind()));
                },
            };
            left = match infix.parse(self, left, token) {
                Ok(node) => node,
                Err(e) => {
                    return Err(e);
                },
            };
        }
        Ok(left)
    }

    /// The precedence of the infix rule for the token under the cursor,
    /// defaulting to 0 at end of stream or for a kind with no infix rule.
    fn next_token_precedence(&self) -> (p: usize)
        ensures
            p == spec_next_precedence(self.infix_map(), self.tokens@, self.index as int),
    {
        if self.index < self.tokens.len() {
            let kind = self.tokens[self.index].kind();
            match self.infix_rules.get(kind) {
                Some(rule) => rule.precedence,
                None => 0,
            }
        } else {
            0
        }
    }
}

impl Default for Parser {
    /// An engine with no tokens loaded and no rules registered.
    fn default() -> (p: Parser)
        ensures
            p.tokens@ == Seq::<Token>::empty(),
            p.index == 0,
            p.prefix_map() == Map::<TokenKind, PrefixRule>::empty(),
            p.infix_map() == Map::<TokenKind, InfixRule>::empty(),
    {
        Parser {
            tokens: Vec::new(),
            index: 0,
            prefix_rules: Registry::empty(),
            infix_rules: Registry::empty(),
        }
    }
}

/// The demonstration grammar: a literal rule for `Value`, the generic
/// prefix rule at precedence 10 for `Plus` and `Hyphen` and at 5 for
/// `Bang`, and one infix rule for `Plus` at precedence 2 whose right side
/// restarts at minimum precedence 0 — which makes the sample `+`
/// right-associative, unlike the prefix rules, which recurse at their own
/// precedence.
pub fn sample_parser() -> (p: Parser)
    ensures
        p.tokens@ == Seq::<Token>::empty(),
        p.index == 0,
        p.prefix_map() == Map::<TokenKind, PrefixRule>::empty().insert(
            TokenKind::Value,
            PrefixRule { action: PrefixAction::LiteralValue },
        ).insert(TokenKind::Plus, PrefixRule { action: PrefixAction::SubExpression(10) }).insert(
            TokenKind::Hyphen,
            PrefixRule { action: PrefixAction::SubExpression(10) },
        ).insert(TokenKind::Bang, PrefixRule { action: PrefixAction::SubExpression(5) }),
        p.infix_map() == Map::<TokenKind, InfixRule>::empty().insert(
            TokenKind::Plus,
            InfixRule { action: InfixAction::Binary(0), precedence: 2 },
        ),
{
    let mut parser = Parser::default();
    parser.register_prefix(TokenKind::Value, PrefixRule::new(PrefixAction::LiteralValue));
    parser.register_prefix(TokenKind::Plus, PrefixRule::generic(10));
    parser.register_prefix(TokenKind::Hyphen, PrefixRule::generic(10));
    parser.register_prefix(TokenKind::Bang, PrefixRule::generic(5));
    parser.register_infix(TokenKind::Plus, InfixRule::new(InfixAction::Binary(0), 2));
    parser
}

/// Determinism: the same token sequence, parsed against the same grammar
/// from the same cursor position with the same minimum precedence, yields
/// an identical tree and residual cursor, or an identical failure.
pub proof fn lemma_expression_deterministic(
    pm1: Map<TokenKind, PrefixRule>,
    im1: Map<TokenKind, InfixRule>,
    toks1: Seq<Token>,
    i1: int,
    min1: int,
    pm2: Map<TokenKind, PrefixRule>,
    im2: Map<TokenKind, InfixRule>,
    toks2: Seq<Token>,
    i2: int,
    min2: int,
)
    requires
        pm1 == pm2,
        im1 == im2,
        toks1 == toks2,
        i1 == i2,
        min1 == min2,
    ensures
        spec_expression(pm1, im1, toks1, i1, min1) == spec_expression(pm2, im2, toks2, i2, min2),
{
}

/// Progress: a successful parse consumes at least the token that
/// triggered its prefix rule — the cursor strictly advances — and the
/// residual cursor never runs past the end of the sequence.
pub proof fn lemma_expression_progress(
    pm: Map<TokenKind, PrefixRule>,
    im: Map<TokenKind, InfixRule>,
    toks: Seq<Token>,
    i: int,
    min: int,
)
    ensures
        spec_expression(pm, im, toks, i, min) matches Ok(done) ==> i < done.1 <= toks.len(),
    decreases toks.len() - i, 2int,
{
    if 0 <= i < toks.len() && pm.contains_key(toks[i].spec_kind()) {
        let rule = pm[toks[i].spec_kind()];
        lemma_apply_prefix_progress(pm, im, rule, toks[i], toks, i + 1);
        match spec_apply_prefix(pm, im, rule, toks[i], toks, i + 1) {
            Ok(opened) => {
                if i < opened.1 && opened.1 <= toks.len() {
                    lemma_climb_progress(pm, im, toks, opened.1, opened.0, min);
                }
            },
            Err(_) => {},
        }
    }
}

/// Progress of a prefix rule invocation: the cursor never moves backwards
/// and, started in range, stays in range.
pub proof fn lemma_apply_prefix_progress(
    pm: Map<TokenKind, PrefixRule>,
    im: Map<TokenKind, InfixRule>,
    rule: PrefixRule,
    token: Token,
    toks: Seq<Token>,
    j: int,
)
    ensures
        spec_apply_prefix(pm, im, rule, token, toks, j) matches Ok(done) ==> j <= done.1 && (j
            <= toks.len() ==> done.1 <= toks.len()),
    decreases toks.len() - j + 1, 0int,
{
    match rule.action {
        PrefixAction::LiteralValue => {},
        PrefixAction::SubExpression(p) => {
            if 0 <= j <= toks.len() {
                lemma_expression_progress(pm, im, toks, j, p as int);
            }
        },
    }
}

/// Progress of the climbing loop: the cursor never moves backwards and,
/// started in range, stays in range.
pub proof fn lemma_climb_progress(
    pm: Map<TokenKind, PrefixRule>,
    im: Map<TokenKind, InfixRule>,
    toks: Seq<Token>,
    j: int,
    left: AST,
    min: int,
)
    ensures
        spec_climb(pm, im, toks, j, left, min) matches Ok(done) ==> j <= done.1 && (j
            <= toks.len() ==> done.1 <= toks.len()),
    decreases toks.len() - j, 1int,
{
    if 0 <= j < toks.len() {
        let k = toks[j].spec_kind();
        if im.contains_key(k) && im[k].precedence > min {
            lemma_apply_infix_progress(pm, im, im[k], left, toks[j], toks, j + 1);
            match spec_apply_infix(pm, im, im[k], left, toks[j], toks, j + 1) {
                Ok(folded) => {
                    if j < folded.1 && folded.1 <= toks.len() {
                        lemma_climb_progress(pm, im, toks, folded.1, folded.0, min);
                    }
                },
                Err(_) => {},
            }
        }
    }
}

/// Progress of an infix rule invocation: the cursor never moves backwards
/// and, started in range, stays in range.
pub proof fn lemma_apply_infix_progress(
    pm: Map<TokenKind, PrefixRule>,
    im: Map<TokenKind, InfixRule>,
    rule: InfixRule,
    left: AST,
    token: Token,
    toks: Seq<Token>,
    j: int,
)
    ensures
        spec_apply_infix(pm, im, rule, left, token, toks, j) matches Ok(done) ==> j <= done.1 && (j
            <= toks.len() ==> done.1 <= toks.len()),
    decreases toks.len() - j + 1, 0int,
{
    match rule.action {
        InfixAction::Binary(rp) => {
            if 0 <= j <= toks.len() {
                lemma_expression_progress(pm, im, toks, j, rp as int);
            }
        },
    }
}

/// Precedence ordering: with an infix rule of precedence `p` registered
/// for the token under the cursor, the climbing loop stops there — the
/// node and the cursor come back untouched — if and only if `p` does not
/// strictly exceed the minimum precedence in force; in particular it
/// stops at `p == min`.
pub proof fn lemma_precedence_boundary(
    pm: Map<TokenKind, PrefixRule>,
    im: Map<TokenKind, InfixRule>,
    toks: Seq<Token>,
    j: int,
    left: AST,
    min: int,
)
    requires
        0 <= j < toks.len(),
        im.contains_key(toks[j].spec_kind()),
    ensures
        im[toks[j].spec_kind()].precedence <= min <==> spec_climb(pm, im, toks, j, left, min)
            == Ok::<(AST, int), ParserError>((left, j)),
{
    let k = toks[j].spec_kind();
    if im[k].precedence > min {
        match spec_apply_infix(pm, im, im[k], left, toks[j], toks, j + 1) {
            Ok(folded) => {
                if j < folded.1 && folded.1 <= toks.len() {
                    lemma_climb_progress(pm, im, toks, folded.1, folded.0, min);
                }
            },
            Err(_) => {},
        }
    }
}

/// `NoInfixRule` is unreachable through the engine: the climbing loop
/// looks an operator's rule up before consuming the operator, so no parse
/// outcome ever carries that error.
pub proof fn lemma_no_infix_rule_unreachable(
    pm: Map<TokenKind, PrefixRule>,
    im: Map<TokenKind, InfixRule>,
    toks: Seq<Token>,
    i: int,
    min: int,
)
    ensures
        !(spec_expression(pm, im, toks, i, min) matches Err(ParserError::NoInfixRule(_))),
    decreases toks.len() - i, 2int,
{
    if 0 <= i < toks.len() && pm.contains_key(toks[i].spec_kind()) {
        let rule = pm[toks[i].spec_kind()];
        lemma_apply_prefix_no_infix_rule(pm, im, rule, toks[i], toks, i + 1);
        match spec_apply_prefix(pm, im, rule, toks[i], toks, i + 1) {
            Ok(opened) => {
                if i < opened.1 && opened.1 <= toks.len() {
                    lemma_climb_no_infix_rule(pm, im, toks, opened.1, opened.0, min);
                }
            },
            Err(_) => {},
        }
    }
}

proof fn lemma_apply_prefix_no_infix_rule(
    pm: Map<TokenKind, PrefixRule>,
    im: Map<TokenKind, InfixRule>,
    rule: PrefixRule,
    token: Token,
    toks: Seq<Token>,
    j: int,
)
    ensures
        !(spec_apply_prefix(pm, im, rule, token, toks, j) matches Err(
            ParserError::NoInfixRule(_),
        )),
    decreases toks.len() - j + 1, 0int,
{
    match rule.action {
        PrefixAction::LiteralValue => {},
        PrefixAction::SubExpression(p) => {
            if 0 <= j <= toks.len() {
                lemma_no_infix_rule_unreachable(pm, im, toks, j, p as int);
            }
        },
    }
}

proof fn lemma_climb_no_infix_rule(
    pm: Map<TokenKind, PrefixRule>,
    im: Map<TokenKind, InfixRule>,
    toks: Seq<Token>,
    j: int,
    left: AST,
    min: int,
)
    ensures
        !(spec_climb(pm, im, toks, j, left, min) matches Err(ParserError::NoInfixRule(_))),
    decreases toks.len() - j, 1int,
{
    if 0 <= j < toks.len() {
        let k = toks[j].spec_kind();
        if im.contains_key(k) && im[k].precedence > min {
            lemma_apply_infix_no_infix_rule(pm, im, im[k], left, toks[j], toks, j + 1);
            match spec_apply_infix(pm, im, im[k], left, toks[j], toks, j + 1) {
                Ok(folded) => {
                    if j < folded.1 && folded.1 <= toks.len() {
                        lemma_climb_no_infix_rule(pm, im, toks, folded.1, folded.0, min);
                    }
                },
                Err(_) => {},
            }
        }
    }
}

proof fn lemma_apply_infix_no_infix_rule(
    pm: Map<TokenKind, PrefixRule>,
    im: Map<TokenKind, InfixRule>,
    rule: InfixRule,
    left: AST,
    token: Token,
    toks: Seq<Token>,
    j: int,
)
    ensures
        !(spec_apply_infix(pm, im, rule, left, token, toks, j) matches Err(
            ParserError::NoInfixRule(_),
        )),
    decreases toks.len() - j + 1, 0int,
{
    match rule.action {
        InfixAction::Binary(rp) => {
            if 0 <= j <= toks.len() {
                lemma_no_infix_rule_unreachable(pm, im, toks, j, rp as int);
            }
        },
    }
}

} // verus!
