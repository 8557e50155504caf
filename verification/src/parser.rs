use vstd::prelude::*;

use crate::lexer::{Token, TokenView};
use crate::span::Span;

verus! {

/// A token narrowed to integer literals: the only kind that may stand as an
/// operand.
#[derive(Debug, PartialEq)]
pub enum LeafToken {
    Int(String, Span),
}

/// The mathematical value of a `LeafToken`.
pub struct LeafTokenView {
    pub lit: Seq<char>,
    pub start: int,
    pub len: int,
}

impl View for LeafToken {
    type V = LeafTokenView;

    open spec fn view(&self) -> LeafTokenView {
        match self {
            LeafToken::Int(lit, span) => LeafTokenView {
                lit: lit@,
                start: span.start as int,
                len: span.len as int,
            },
        }
    }
}

/// A token was not an integer literal; a local matching failure, not an
/// error of the stage.
#[derive(Debug, PartialEq)]
pub struct NotLeafToken;

/// A token narrowed to operator symbols.
#[derive(Debug, PartialEq)]
pub enum OperatorToken {
    Plus(String, Span),
}

/// The mathematical value of an `OperatorToken`.
pub struct OperatorTokenView {
    pub lit: Seq<char>,
    pub start: int,
    pub len: int,
}

impl View for OperatorToken {
    type V = OperatorTokenView;

    open spec fn view(&self) -> OperatorTokenView {
        match self {
            OperatorToken::Plus(lit, span) => OperatorTokenView {
                lit: lit@,
                start: span.start as int,
                len: span.len as int,
            },
        }
    }
}

/// A token was not an operator; a local matching failure, not an error of
/// the stage.
#[derive(Debug, PartialEq)]
pub struct NotOperatorToken;

impl LeafToken {
    pub fn integer(literal: &str, span: Span) -> (t: LeafToken)
        ensures
            t@ == (LeafTokenView {
                lit: literal@,
                start: span.start as int,
                len: span.len as int,
            }),
    {
        LeafToken::Int(literal.to_owned(), span)
    }

    /// Narrows a token to a leaf: succeeds exactly on integer literals.
    pub fn try_from(value: Token) -> (r: Result<LeafToken, NotLeafToken>)
        ensures
            value@ matches TokenView::Int { lit, start, len } ==> (r matches Ok(l) && l@ == (
            LeafTokenView { lit, start, len })),
            value@ matches TokenView::Operator { .. } ==> r is Err,
    {
        match value {
            Token::Int(lit, span) => Ok(LeafToken::Int(lit, span)),
            Token::Operator(_, _) => Err(NotLeafToken),
        }
    }
}

impl OperatorToken {
    pub fn operation(literal: &str, span: Span) -> (t: OperatorToken)
        ensures
            t@ == (OperatorTokenView {
                lit: literal@,
                start: span.start as int,
                len: span.len as int,
            }),
    {
        OperatorToken::Plus(literal.to_owned(), span)
    }

    /// Narrows a token to an operator: succeeds exactly on operator tokens.
    pub fn try_from(value: Token) -> (r: Result<OperatorToken, NotOperatorToken>)
        ensures
            value@ matches TokenView::Operator { lit, start, len } ==> (r matches Ok(o) && o@ == (
            OperatorTokenView { lit, start, len })),
            value@ matches TokenView::Int { .. } ==> r is Err,
    {
        match value {
            Token::Int(_, _) => Err(NotOperatorToken),
            Token::Operator(lit, span) => Ok(OperatorToken::Plus(lit, span)),
        }
    }
}

/// One parsed expression: a bare integer leaf, or one operator over two
/// owned subtrees.
#[derive(Debug, PartialEq)]
pub enum SyntaxTree {
    Leaf(LeafToken),
    Operation { operator: OperatorToken, left: Box<SyntaxTree>, right: Box<SyntaxTree> },
}

/// The mathematical value of a syntax tree.
pub enum TreeView {
    Leaf(LeafTokenView),
    Operation { op: OperatorTokenView, left: Box<TreeView>, right: Box<TreeView> },
}

/// The mathematical value of a syntax tree: the same shape over the token
/// values.
pub open spec fn tree_view(t: SyntaxTree) -> TreeView
    decreases t,
{
    match t {
        SyntaxTree::Leaf(l) => TreeView::Leaf(l@),
        SyntaxTree::Operation { operator, left, right } => TreeView::Operation {
            op: operator@,
            left: Box::new(tree_view(*left)),
            right: Box::new(tree_view(*right)),
        },
    }
}

impl View for SyntaxTree {
    type V = TreeView;

    open spec fn view(&self) -> TreeView {
        tree_view(*self)
    }
}

/// The tree builder met a token in a position the grammar forbids. The
/// span is the offending token's; the source text is a placeholder until
/// the builder is handed the original text.
#[derive(Debug, PartialEq)]
pub struct UnexpectedToken {
    pub src_name: String,
    pub src_text: String,
    pub span: Span,
}

/// The tree builder ran out of tokens in the middle of an expression. The
/// span is the operator's that lacks its right operand; the source text is
/// a placeholder until the builder is handed the original text.
#[derive(Debug, PartialEq)]
pub struct UnexpectedEof {
    pub src_name: String,
    pub src_text: String,
    pub span: Span,
}

/// Either way the tree builder can fail.
#[derive(Debug, PartialEq)]
pub enum ParseError {
    UnexpectedToken(UnexpectedToken),
    UnexpectedEof(UnexpectedEof),
}

/// The mathematical value of a tree-builder error: its kind and the byte
/// span it points at.
pub enum ParseFailView {
    UnexpectedToken { start: int, len: int },
    UnexpectedEof { start: int, len: int },
}

impl View for ParseError {
    type V = ParseFailView;

    open spec fn view(&self) -> ParseFailView {
        match self {
            ParseError::UnexpectedToken(e) => ParseFailView::UnexpectedToken {
                start: e.span.start as int,
                len: e.span.len as int,
            },
            ParseError::UnexpectedEof(e) => ParseFailView::UnexpectedEof {
                start: e.span.start as int,
                len: e.span.len as int,
            },
        }
    }
}

impl ParseError {
    /// The source fields of the error: the fixed name, and an empty text
    /// standing in until the builder is handed the original text.
    pub open spec fn src_is_placeholder(&self) -> bool {
        match self {
            ParseError::UnexpectedToken(e) => e.src_name@ == "stdin"@ && e.src_text@ == Seq::<
                char,
            >::empty(),
            ParseError::UnexpectedEof(e) => e.src_name@ == "stdin"@ && e.src_text@ == Seq::<
                char,
            >::empty(),
        }
    }
}

/// The literal text of a token, whichever kind it is.
pub open spec fn token_text(t: TokenView) -> Seq<char> {
    match t {
        TokenView::Int { lit, .. } => lit,
        TokenView::Operator { lit, .. } => lit,
    }
}

/// The byte offset a token starts at.
pub open spec fn token_start(t: TokenView) -> int {
    match t {
        TokenView::Int { start, .. } => start,
        TokenView::Operator { start, .. } => start,
    }
}

/// The byte width of a token.
pub open spec fn token_len(t: TokenView) -> int {
    match t {
        TokenView::Int { len, .. } => len,
        TokenView::Operator { len, .. } => len,
    }
}

/// The leaf made of an integer token.
pub open spec fn leaf_of(t: TokenView) -> LeafTokenView
    recommends
        t is Int,
{
    LeafTokenView { lit: token_text(t), start: token_start(t), len: token_len(t) }
}

/// The operator made of an operator token.
pub open spec fn op_of(t: TokenView) -> OperatorTokenView
    recommends
        t is Operator,
{
    OperatorTokenView { lit: token_text(t), start: token_start(t), len: token_len(t) }
}

/// One pull of the tree builder: the tokens are exhausted, or one tree
/// comes out, or the grammar is violated.
pub enum ParseStep {
    End,
    Tree { t: TreeView, next: int },
    Fail { e: ParseFailView, next: int },
}

/// What one pull of the tree builder yields when it starts at token index
/// `i`: a leaf must come first; alone at the end of input it stands as a
/// bare expression; followed by an operator it demands a second leaf; any
/// token of the wrong kind is an `UnexpectedToken` at that token's span,
/// and input ending after the operator is an `UnexpectedEof` at the
/// operator's span. `next` counts the tokens consumed, errors included.
pub open spec fn parse_step(toks: Seq<TokenView>, i: int) -> ParseStep {
    if i >= toks.len() {
        ParseStep::End
    } else if !(toks[i] is Int) {
        ParseStep::Fail {
            e: ParseFailView::UnexpectedToken {
                start: token_start(toks[i]),
                len: token_len(toks[i]),
            },
            next: i + 1,
        }
    } else if i + 1 >= toks.len() {
        ParseStep::Tree { t: TreeView::Leaf(leaf_of(toks[i])), next: i + 1 }
    } else if toks[i + 1] is Int {
        ParseStep::Fail {
            e: ParseFailView::UnexpectedToken {
                start: token_start(toks[i + 1]),
                len: token_len(toks[i + 1]),
            },
            next: i + 2,
        }
    } else if i + 2 >= toks.len() {
        ParseStep::Fail {
            e: ParseFailView::UnexpectedEof {
                start: token_start(toks[i + 1]),
                len: token_len(toks[i + 1]),
            },
            next: i + 2,
        }
    } else if !(toks[i + 2] is Int) {
        ParseStep::Fail {
            e: ParseFailView::UnexpectedToken {
                start: token_start(toks[i + 2]),
                len: token_len(toks[i + 2]),
            },
            next: i + 3,
        }
    } else {
        ParseStep::Tree {
            t: TreeView::Operation {
                op: op_of(toks[i + 1]),
                left: Box::new(TreeView::Leaf(leaf_of(toks[i]))),
                right: Box::new(TreeView::Leaf(leaf_of(toks[i + 2]))),
            },
            next: i + 3,
        }
    }
}

pub proof fn lemma_parse_step_props(toks: Seq<TokenView>, i: int)
    requires
        0 <= i <= toks.len(),
    ensures
        parse_step(toks, i) matches ParseStep::Tree { t, next } ==> i < next <= toks.len(),
        parse_step(toks, i) matches ParseStep::Fail { e, next } ==> i < next <= toks.len(),
{
}

/// What the tree builder yields over a whole run: the trees in source
/// order, and the first grammar violation if one stopped it. After the
/// first error nothing more comes.
pub struct ParseOut {
    pub trees: Seq<TreeView>,
    pub err: Option<ParseFailView>,
}

pub open spec fn parse_all(toks: Seq<TokenView>, i: int) -> ParseOut
    decreases toks.len() - i
        when 0 <= i <= toks.len()
        via parse_all_decreases
{
    match parse_step(toks, i) {
        ParseStep::End => ParseOut { trees: seq![], err: None },
        ParseStep::Tree { t, next } => {
            let rest = parse_all(toks, next);
            ParseOut { trees: seq![t] + rest.trees, err: rest.err }
        },
        ParseStep::Fail { e, next: _ } => ParseOut { trees: seq![], err: Some(e) },
    }
}

#[via_fn]
proof fn parse_all_decreases(toks: Seq<TokenView>, i: int) {
    lemma_parse_step_props(toks, i);
}

/// Starts a tree builder over the given tokens. Trees come out of `next`,
/// one per pull, until the tokens end or the grammar is violated.
pub fn parse(input: Vec<Token>) -> (r: Parse)
    ensures
        r.wf(),
        r.toks() == input@.map_values(|t: Token| t@),
        r.pos() == 0,
        !r.halted(),
{
    Parse { input, index: 0, hit_error: false }
}

/// The tree builder: a pull-based stage over a token sequence. After it
/// reports an error once, it yields nothing more.
pub struct Parse {
    input: Vec<Token>,
    index: usize,
    hit_error: bool,
}

impl Parse {
    /// The token values this builder walks over.
    pub closed spec fn toks(&self) -> Seq<TokenView> {
        self.input@.map_values(|t: Token| t@)
    }

    /// The index of the next token to be examined.
    pub closed spec fn pos(&self) -> int {
        self.index as int
    }

    /// Whether an error has been reported; a halted builder stays silent.
    pub closed spec fn halted(&self) -> bool {
        self.hit_error
    }

    pub open spec fn wf(&self) -> bool {
        0 <= self.pos() <= self.toks().len()
    }

    /// One pull: the next syntax tree, an error at the first token the
    /// grammar forbids, or nothing once the tokens are exhausted or the
    /// builder has halted.
    pub fn next(&mut self) -> (r: Option<Result<SyntaxTree, ParseError>>)
        requires
            old(self).wf(),
        ensures
            final(self).wf(),
            final(self).toks() == old(self).toks(),
            old(self).halted() ==> {
                &&& r is None
                &&& final(self).halted()
                &&& final(self).pos() == old(self).pos()
            },
            !old(self).halted() ==> match parse_step(old(self).toks(), old(self).pos()) {
                ParseStep::End => {
                    &&& r is None
                    &&& !final(self).halted()
                    &&& final(self).pos() == old(self).pos()
                },
                ParseStep::Tree { t, next } => {
                    &&& (r matches Some(Ok(tree)) && tree@ == t)
                    &&& !final(self).halted()
                    &&& final(self).pos() == next
                },
                ParseStep::Fail { e, next } => {
                    &&& (r matches Some(Err(pe)) && pe@ == e && pe.src_is_placeholder())
                    &&& final(self).halted()
                    &&& final(self).pos() == next
                },
            },
    {
        self.parse_next()
    }

    /// Pulls the first token of one expression and dispatches on it.
    fn parse_next(&mut self) -> (r: Option<Result<SyntaxTree, ParseError>>)
        requires
            old(self).wf(),
        ensures
            final(self).wf(),
            final(self).toks() == old(self).toks(),
            old(self).halted() ==> {
                &&& r is None
                &&& final(self).halted()
                &&& final(self).pos() == old(self).pos()
            },
            !old(self).halted() ==> match parse_step(old(self).toks(), old(self).pos()) {
                ParseStep::End => {
                    &&& r is None
                    &&& !final(self).halted()
                    &&& final(self).pos() == old(self).pos()
                },
                ParseStep::Tree { t, next } => {
                    &&& (r matches Some(Ok(tree)) && tree@ == t)
                    &&& !final(self).halted()
                    &&& final(self).pos() == next
                },
                ParseStep::Fail { e, next } => {
                    &&& (r matches Some(Err(pe)) && pe@ == e && pe.src_is_placeholder())
                    &&& final(self).halted()
                    &&& final(self).pos() == next
                },
            },
    {
        if self.hit_error {
            return None;
        }
        if self.index == self.input.len() {
            return None;
        }
        match &self.input[self.index] {
            Token::Int(lit, span) => {
                let leaf = LeafToken::Int(lit.clone(), *span);
                self.index = self.index + 1;
                Some(self.leaf_or_operation(leaf))
            },
            Token::Operator(_, span) => {
                let sp = *span;
                self.index = self.index + 1;
                self.hit_error = true;
                Some(
                    Err(
                        ParseError::UnexpectedToken(
                            UnexpectedToken {
                                src_name: "stdin".to_owned(),
                                src_text: String::new(),
                                span: sp,
                            },
                        ),
                    ),
                )
            },
        }
    }

    /// After one leaf: either the input ends and the leaf stands alone, or
    /// an operator follows and a right operand is demanded; a second
    /// literal in a row is refused.
    fn leaf_or_operation(&mut self, leaf_token: LeafToken) -> (r: Result<SyntaxTree, ParseError>)
        requires
            old(self).wf(),
            !old(self).halted(),
            1 <= old(self).pos() <= old(self).toks().len(),
            old(self).toks()[old(self).pos() - 1] is Int,
            leaf_token@ == leaf_of(old(self).toks()[old(self).pos() - 1]),
        ensures
            final(self).wf(),
            final(self).toks() == old(self).toks(),
            match parse_step(old(self).toks(), old(self).pos() - 1) {
                ParseStep::End => false,
                ParseStep::Tree { t, next } => {
                    &&& (r matches Ok(tree) && tree@ == t)
                    &&& !final(self).halted()
                    &&& final(self).pos() == next
                },
                ParseStep::Fail { e, next } => {
                    &&& (r matches Err(pe) && pe@ == e && pe.src_is_placeholder())
                    &&& final(self).halted()
                    &&& final(self).pos() == next
                },
            },
    {
        if self.index == self.input.len() {
            return Ok(SyntaxTree::Leaf(leaf_token));
        }
        match &self.input[self.index] {
            Token::Operator(lit, span) => {
                let op = OperatorToken::Plus(lit.clone(), *span);
                self.index = self.index + 1;
                self.operation_right_operand(leaf_token, op)
            },
            Token::Int(_, span) => {
                let sp = *span;
                self.index = self.index + 1;
                self.hit_error = true;
                Err(
                    ParseError::UnexpectedToken(
                        UnexpectedToken {
                            src_name: "stdin".to_owned(),
                            src_text: String::new(),
                            span: sp,
                        },
                    ),
                )
            },
        }
    }

    /// After a leaf and an operator: a second leaf completes the
    /// operation; the end of input or another operator is refused.
    fn operation_right_operand(&mut self, left: LeafToken, operator: OperatorToken) -> (r: Result<
        SyntaxTree,
        ParseError,
    >)
        requires
            old(self).wf(),
            !old(self).halted(),
            2 <= old(self).pos() <= old(self).toks().len(),
            old(self).toks()[old(self).pos() - 2] is Int,
            left@ == leaf_of(old(self).toks()[old(self).pos() - 2]),
            old(self).toks()[old(self).pos() - 1] is Operator,
            operator@ == op_of(old(self).toks()[old(self).pos() - 1]),
        ensures
            final(self).wf(),
            final(self).toks() == old(self).toks(),
            match parse_step(old(self).toks(), old(self).pos() - 2) {
                ParseStep::End => false,
                ParseStep::Tree { t, next } => {
                    &&& (r matches Ok(tree) && tree@ == t)
                    &&& !final(self).halted()
                    &&& final(self).pos() == next
                },
                ParseStep::Fail { e, next } => {
                    &&& (r matches Err(pe) && pe@ == e && pe.src_is_placeholder())
                    &&& final(self).halted()
                    &&& final(self).pos() == next
                },
            },
    {
        if self.index == self.input.len() {
            let sp = match &operator {
                OperatorToken::Plus(_, span) => *span,
            };
            self.hit_error = true;
            return Err(
                ParseError::UnexpectedEof(
                    UnexpectedEof {
                        src_name: "stdin".to_owned(),
                        src_text: String::new(),
                        span: sp,
                    },
                ),
            );
        }
        match &self.input[self.index] {
            Token::Int(lit, span) => {
                let ghost lv = left@;
                let ghost ov = operator@;
                let right = LeafToken::Int(lit.clone(), *span);
                let ghost rv = right@;
                self.index = self.index + 1;
                let tree = SyntaxTree::Operation {
                    operator,
                    left: Box::new(SyntaxTree::Leaf(left)),
                    right: Box::new(SyntaxTree::Leaf(right)),
                };
                proof {
                    assert(tree matches SyntaxTree::Operation { operator: o2, left: l2, right: r2 }
                        && o2@ == ov && tree_view(*l2) == TreeView::Leaf(lv) && tree_view(*r2)
                        == TreeView::Leaf(rv));
                }
                Ok(tree)
            },
            Token::Operator(_, span) => {
                let sp = *span;
                self.index = self.index + 1;
                self.hit_error = true;
                Err(
                    ParseError::UnexpectedToken(
                        UnexpectedToken {
                            src_name: "stdin".to_owned(),
                            src_text: String::new(),
                            span: sp,
                        },
                    ),
                )
            },
        }
    }

    /// Pulls trees until the tokens are exhausted or the grammar is
    /// violated: all the trees of the token sequence in order, or the
    /// first error.
    #[verifier::loop_isolation(false)]
    pub fn trees(self) -> (r: Result<Vec<SyntaxTree>, ParseError>)
        requires
            self.wf(),
            !self.halted(),
        ensures
            ({
                let out = parse_all(self.toks(), self.pos());
                match r {
                    Ok(v) => {
                        &&& out.err is None
                        &&& v@.map_values(|t: SyntaxTree| t@) == out.trees
                    },
                    Err(e) => {
                        &&& out.err == Some(e@)
                        &&& e.src_is_placeholder()
                    },
                }
            }),
    {
        let ghost toks = self.toks();
        let ghost p0 = self.pos();
        let mut pr = self;
        let mut trees: Vec<SyntaxTree> = Vec::new();
        proof {
            assert(trees@.map_values(|t: SyntaxTree| t@) =~= Seq::<TreeView>::empty());
        }
        loop
            invariant
                pr.wf(),
                !pr.halted(),
                pr.toks() == toks,
                0 <= p0 <= pr.pos() <= toks.len(),
                parse_all(toks, p0).err == parse_all(toks, pr.pos()).err,
                parse_all(toks, p0).trees == trees@.map_values(|t: SyntaxTree| t@) + parse_all(
                    toks,
                    pr.pos(),
                ).trees,
            decreases toks.len() - pr.pos(),
        {
            let ghost i = pr.pos();
            let ghost prev = trees@;
            proof {
                lemma_parse_step_props(toks, i);
            }
            match pr.next() {
                None => {
                    proof {
                        assert(parse_all(toks, i).trees =~= Seq::<TreeView>::empty());
                        assert(parse_all(toks, p0).trees =~= trees@.map_values(
                            |t: SyntaxTree| t@,
                        ));
                    }
                    return Ok(trees);
                },
                Some(Ok(t)) => {
                    trees.push(t);
                    proof {
                        assert(trees@ =~= prev.push(t));
                        assert(trees@.map_values(|t: SyntaxTree| t@) =~= prev.map_values(
                            |t: SyntaxTree| t@,
                        ).push(t@));
                        assert(parse_all(toks, p0).trees =~= trees@.map_values(|t: SyntaxTree| t@)
                            + parse_all(toks, pr.pos()).trees);
                    }
                },
                Some(Err(e)) => {
                    return Err(e);
                },
            }
        }
    }
}

} // verus!
