use vstd::prelude::*;

use crate::lexer::is_ascii_digit;
use crate::parser::{LeafToken, LeafTokenView, OperatorToken, OperatorTokenView, SyntaxTree, TreeView};
use crate::span::Span;

verus! {

use vstd::string::StrSliceExecFns;

/// A computed value: currently one variant, a signed 32-bit integer.
#[derive(Clone, Copy, Debug, PartialEq, Eq, Structural)]
pub enum Value {
    I32(i32),
}

/// The reducer could not read an integer literal's text as a signed 32-bit
/// value: the text holds a non-digit, is empty, or its value is too large.
/// The span is the literal's; the source text is a placeholder until the
/// reducer is handed the original text.
#[derive(Debug, PartialEq)]
pub struct InvalidNumber {
    pub src_name: String,
    pub src_text: String,
    pub span: Span,
}

/// The checked 32-bit addition of two operand values overflowed. The span
/// is the operator's; the source text is a placeholder until the reducer is
/// handed the original text.
#[derive(Debug, PartialEq)]
pub struct ArithmeticOverflow {
    pub src_name: String,
    pub src_text: String,
    pub span: Span,
}

/// Either way the tree reducer can fail.
#[derive(Debug, PartialEq)]
pub enum EvalError {
    InvalidNumber(InvalidNumber),
    ArithmeticOverflow(ArithmeticOverflow),
}

/// The mathematical value of a reducer error: its kind and the byte span
/// it points at.
pub enum EvalFailView {
    InvalidNumber { start: int, len: int },
    ArithmeticOverflow { start: int, len: int },
}

impl View for EvalError {
    type V = EvalFailView;

    open spec fn view(&self) -> EvalFailView {
        match self {
            EvalError::InvalidNumber(e) => EvalFailView::InvalidNumber {
                start: e.span.start as int,
                len: e.span.len as int,
            },
            EvalError::ArithmeticOverflow(e) => EvalFailView::ArithmeticOverflow {
                start: e.span.start as int,
                len: e.span.len as int,
            },
        }
    }
}

impl EvalError {
    /// The source fields of the error: the fixed name, and an empty text
    /// standing in until the reducer is handed the original text.
    pub open spec fn src_is_placeholder(&self) -> bool {
        match self {
            EvalError::InvalidNumber(e) => e.src_name@ == "stdin"@ && e.src_text@ == Seq::<
                char,
            >::empty(),
            EvalError::ArithmeticOverflow(e) => e.src_name@ == "stdin"@ && e.src_text@ == Seq::<
                char,
            >::empty(),
        }
    }
}

/// The numeric value of one ASCII digit character.
pub open spec fn digit_val(c: char) -> int {
    c as u32 - 48
}

/// The number a digit string denotes in base ten.
pub open spec fn digits_value(s: Seq<char>) -> int
    decreases s.len(),
{
    if s.len() == 0 {
        0
    } else {
        digits_value(s.drop_last()) * 10 + digit_val(s.last())
    }
}

/// A well-formed integer literal: non-empty and nothing but ASCII digits.
pub open spec fn is_int_literal(s: Seq<char>) -> bool {
    s.len() > 0 && forall|i: int| 0 <= i < s.len() ==> is_ascii_digit(s[i])
}

pub proof fn lemma_digits_value_nonneg(s: Seq<char>)
    requires
        forall|i: int| 0 <= i < s.len() ==> is_ascii_digit(s[i]),
    ensures
        digits_value(s) >= 0,
    decreases s.len(),
{
    if s.len() > 0 {
        lemma_digits_value_nonneg(s.drop_last());
    }
}

/// Reading more digits never makes the denoted number smaller.
pub proof fn lemma_digits_value_take_le(s: Seq<char>, i: int)
    requires
        forall|k: int| 0 <= k < s.len() ==> is_ascii_digit(s[k]),
        0 <= i <= s.len(),
    ensures
        digits_value(s.take(i)) <= digits_value(s),
    decreases s.len() - i,
{
    if i == s.len() {
        assert(s.take(i) =~= s);
    } else {
        assert(s.take(i + 1).drop_last() =~= s.take(i));
        assert(s.take(i + 1).last() == s[i]);
        lemma_digits_value_nonneg(s.take(i));
        lemma_digits_value_take_le(s, i + 1);
    }
}

/// What reducing a leaf yields or why it fails.
pub enum Reduction {
    Val(Value),
    Fail(EvalFailView),
}

/// Reducing one leaf: its literal read as a signed 32-bit integer, or
/// `InvalidNumber` at the literal's span when the text is no well-formed
/// literal or its value exceeds the type.
pub open spec fn leaf_value(l: LeafTokenView) -> Reduction {
    if is_int_literal(l.lit) && digits_value(l.lit) <= i32::MAX {
        Reduction::Val(Value::I32(digits_value(l.lit) as i32))
    } else {
        Reduction::Fail(EvalFailView::InvalidNumber { start: l.start, len: l.len })
    }
}

/// Combining two operand values under the one operator: their checked
/// 32-bit sum, or `ArithmeticOverflow` at the operator's span.
pub open spec fn add_values(op: OperatorTokenView, a: Value, b: Value) -> Reduction {
    match (a, b) {
        (Value::I32(x), Value::I32(y)) => if i32::MIN <= x + y <= i32::MAX {
            Reduction::Val(Value::I32((x + y) as i32))
        } else {
            Reduction::Fail(EvalFailView::ArithmeticOverflow { start: op.start, len: op.len })
        },
    }
}

/// Reducing one tree: a leaf by `leaf_value`; an operation by reducing the
/// left operand, then the right, then combining — the first failure wins.
pub open spec fn tree_value(t: TreeView) -> Reduction
    decreases t,
{
    match t {
        TreeView::Leaf(l) => leaf_value(l),
        TreeView::Operation { op, left, right } => match tree_value(*left) {
            Reduction::Fail(e) => Reduction::Fail(e),
            Reduction::Val(a) => match tree_value(*right) {
                Reduction::Fail(e) => Reduction::Fail(e),
                Reduction::Val(b) => add_values(op, a, b),
            },
        },
    }
}

/// What the reducer yields over a whole run: one value per tree in order
/// until the first failing tree, whose error ends the run.
pub struct EvalOut {
    pub vals: Seq<Value>,
    pub err: Option<EvalFailView>,
}

pub open spec fn eval_all(trees: Seq<TreeView>, i: int) -> EvalOut
    decreases trees.len() - i
        when 0 <= i <= trees.len()
{
    if i >= trees.len() {
        EvalOut { vals: seq![], err: None }
    } else {
        match tree_value(trees[i]) {
            Reduction::Val(v) => {
                let rest = eval_all(trees, i + 1);
                EvalOut { vals: seq![v] + rest.vals, err: rest.err }
            },
            Reduction::Fail(e) => EvalOut { vals: seq![], err: Some(e) },
        }
    }
}

/// Starts a tree reducer over the given trees. Values come out of `next`,
/// one per pull, until the trees end or one fails to reduce.
pub fn eval(input: Vec<SyntaxTree>) -> (r: Values)
    ensures
        r.wf(),
        r.trees() == input@.map_values(|t: SyntaxTree| t@),
        r.pos() == 0,
        !r.halted(),
{
    Values { input, index: 0, hit_error: false }
}

/// The tree reducer: a pull-based stage over a tree sequence. After it
/// reports an error once, it yields nothing more.
pub struct Values {
    input: Vec<SyntaxTree>,
    index: usize,
    hit_error: bool,
}

impl Values {
    /// The tree values this reducer walks over.
    pub closed spec fn trees(&self) -> Seq<TreeView> {
        self.input@.map_values(|t: SyntaxTree| t@)
    }

    /// The index of the next tree to be reduced.
    pub closed spec fn pos(&self) -> int {
        self.index as int
    }

    /// Whether an error has been reported; a halted reducer stays silent.
    pub closed spec fn halted(&self) -> bool {
        self.hit_error
    }

    pub open spec fn wf(&self) -> bool {
        0 <= self.pos() <= self.trees().len()
    }

    /// One pull: the next tree's value, the error it fails with, or
    /// nothing once the trees are exhausted or the reducer has halted.
    pub fn next(&mut self) -> (r: Option<Result<Value, EvalError>>)
        requires
            old(self).wf(),
        ensures
            final(self).wf(),
            final(self).trees() == old(self).trees(),
            old(self).halted() ==> {
                &&& r is None
                &&& final(self).halted()
                &&& final(self).pos() == old(self).pos()
            },
            !old(self).halted() && old(self).pos() >= old(self).trees().len() ==> {
                &&& r is None
                &&& !final(self).halted()
                &&& final(self).pos() == old(self).pos()
            },
            !old(self).halted() && old(self).pos() < old(self).trees().len() ==> match tree_value(
                old(self).trees()[old(self).pos()],
            ) {
                Reduction::Val(v) => {
                    &&& r == Some(Ok::<Value, EvalError>(v))
                    &&& !final(self).halted()
                    &&& final(self).pos() == old(self).pos() + 1
                },
                Reduction::Fail(e) => {
                    &&& (r matches Some(Err(err)) && err@ == e && err.src_is_placeholder())
                    &&& final(self).halted()
                    &&& final(self).pos() == old(self).pos() + 1
                },
            },
    {
        self.eval_next()
    }

    /// Pulls the next tree, if any, and reduces it.
    fn eval_next(&mut self) -> (r: Option<Result<Value, EvalError>>)
        requires
            old(self).wf(),
        ensures
            final(self).wf(),
            final(self).trees() == old(self).trees(),
            old(self).halted() ==> {
                &&& r is None
                &&& final(self).halted()
                &&& final(self).pos() == old(self).pos()
            },
            !old(self).halted() && old(self).pos() >= old(self).trees().len() ==> {
                &&& r is None
                &&& !final(self).halted()
                &&& final(self).pos() == old(self).pos()
            },
            !old(self).halted() && old(self).pos() < old(self).trees().len() ==> match tree_value(
                old(self).trees()[old(self).pos()],
            ) {
                Reduction::Val(v) => {
                    &&& r == Some(Ok::<Value, EvalError>(v))
                    &&& !final(self).halted()
                    &&& final(self).pos() == old(self).pos() + 1
                },
                Reduction::Fail(e) => {
                    &&& (r matches Some(Err(err)) && err@ == e && err.src_is_placeholder())
                    &&& final(self).halted()
                    &&& final(self).pos() == old(self).pos() + 1
                },
            },
    {
        if self.hit_error {
            return None;
        }
        if self.index == self.input.len() {
            return None;
        }
        let res = Self::eval_tree(&self.input[self.index]);
        self.index = self.index + 1;
        match res {
            Ok(v) => Some(Ok(v)),
            Err(e) => {
                self.hit_error = true;
                Some(Err(e))
            },
        }
    }

    /// Reduces one tree, leaves through `leaf` and operations through
    /// `operation`, left operand before right.
    fn eval_tree(tree: &SyntaxTree) -> (r: Result<Value, EvalError>)
        ensures
            match tree_value(tree@) {
                Reduction::Val(v) => r == Ok::<Value, EvalError>(v),
                Reduction::Fail(e) => r matches Err(err) && err@ == e && err.src_is_placeholder(),
            },
        decreases tree,
    {
        match tree {
            SyntaxTree::Leaf(leaf) => Self::leaf(leaf),
            SyntaxTree::Operation { operator, left, right } => {
                let a = match Self::eval_tree(left) {
                    Ok(v) => v,
                    Err(e) => {
                        return Err(e);
                    },
                };
                let b = match Self::eval_tree(right) {
                    Ok(v) => v,
                    Err(e) => {
                        return Err(e);
                    },
                };
                Self::operation(operator, a, b)
            },
        }
    }

    /// Reads a leaf's literal text as a signed 32-bit integer: refuses an
    /// empty text, any non-digit, and any value above the type's maximum.
    #[verifier::loop_isolation(false)]
    fn leaf(leaf: &LeafToken) -> (r: Result<Value, EvalError>)
        ensures
            match leaf_value(leaf@) {
                Reduction::Val(v) => r == Ok::<Value, EvalError>(v),
                Reduction::Fail(e) => r matches Err(err) && err@ == e && err.src_is_placeholder(),
            },
    {
        match leaf {
            LeafToken::Int(literal, span) => {
                let s = literal.as_str();
                let n = s.unicode_len();
                if n == 0 {
                    return Err(
                        EvalError::InvalidNumber(
                            InvalidNumber {
                                src_name: "stdin".to_owned(),
                                src_text: String::new(),
                                span: *span,
                            },
                        ),
                    );
                }
                let mut acc: i32 = 0;
                let mut i: usize = 0;
                while i < n
                    invariant
                        0 <= i <= n,
                        n == literal@.len(),
                        s@ == literal@,
                        forall|k: int| 0 <= k < i ==> is_ascii_digit(literal@[k]),
                        0 <= acc,
                        acc == digits_value(literal@.take(i as int)),
                    decreases n - i,
                {
                    let c = s.get_char(i);
                    let u = c as u32;
                    if u < 48 || 57 < u {
                        // a non-digit: the text is no well-formed literal
                        proof {
                            assert(!is_ascii_digit(literal@[i as int]));
                            assert(!is_int_literal(literal@));
                        }
                        return Err(
                            EvalError::InvalidNumber(
                                InvalidNumber {
                                    src_name: "stdin".to_owned(),
                                    src_text: String::new(),
                                    span: *span,
                                },
                            ),
                        );
                    }
                    let d = (u - 48) as i32;
                    proof {
                        assert(literal@.take(i + 1).drop_last() =~= literal@.take(i as int));
                        assert(literal@.take(i + 1).last() == literal@[i as int]);
                    }
                    if acc > (i32::MAX - d) / 10 {
                        // every further digit only grows the value: overflow
                        proof {
                            let y = i32::MAX - d;
                            assert(10 * (y / 10) <= y);
                            assert(acc * 10 + d > i32::MAX);
                            assert(digits_value(literal@.take(i + 1)) == acc * 10 + d);
                            if is_int_literal(literal@) {
                                lemma_digits_value_take_le(literal@, i + 1);
                                assert(digits_value(literal@) > i32::MAX);
                            }
                        }
                        return Err(
                            EvalError::InvalidNumber(
                                InvalidNumber {
                                    src_name: "stdin".to_owned(),
                                    src_text: String::new(),
                                    span: *span,
                                },
                            ),
                        );
                    }
                    acc = acc * 10 + d;
                    i = i + 1;
                }
                proof {
                    assert(literal@.take(n as int) =~= literal@);
                }
                Ok(Value::I32(acc))
            },
        }
    }

    /// Combines two operand values under the operator: the one operator is
    /// `+`, computed as a checked 32-bit addition.
    fn operation(operator: &OperatorToken, left: Value, right: Value) -> (r: Result<
        Value,
        EvalError,
    >)
        ensures
            match add_values(operator@, left, right) {
                Reduction::Val(v) => r == Ok::<Value, EvalError>(v),
                Reduction::Fail(e) => r matches Err(err) && err@ == e && err.src_is_placeholder(),
            },
    {
        match (left, right) {
            (Value::I32(a), Value::I32(b)) => match a.checked_add(b) {
                Some(v) => Ok(Value::I32(v)),
                None => {
                    let sp = match operator {
                        OperatorToken::Plus(_, span) => *span,
                    };
                    Err(
                        EvalError::ArithmeticOverflow(
                            ArithmeticOverflow {
                                src_name: "stdin".to_owned(),
                                src_text: String::new(),
                                span: sp,
                            },
                        ),
                    )
                },
            },
        }
    }

    /// Pulls values until the trees are exhausted or one fails to reduce:
    /// every value produced before the end or the first error, and that
    /// error if one came.
    #[verifier::loop_isolation(false)]
    pub fn values(self) -> (r: (Vec<Value>, Option<EvalError>))
        requires
            self.wf(),
            !self.halted(),
        ensures
            ({
                let out = eval_all(self.trees(), self.pos());
                &&& r.0@ == out.vals
                &&& match r.1 {
                    None => out.err is None,
                    Some(e) => out.err == Some(e@) && e.src_is_placeholder(),
                }
            }),
    {
        let ghost trees = self.trees();
        let ghost p0 = self.pos();
        let mut ev = self;
        let mut vals: Vec<Value> = Vec::new();
        loop
            invariant
                ev.wf(),
                !ev.halted(),
                ev.trees() == trees,
                0 <= p0 <= ev.pos() <= trees.len(),
                eval_all(trees, p0).err == eval_all(trees, ev.pos()).err,
                eval_all(trees, p0).vals == vals@ + eval_all(trees, ev.pos()).vals,
            decreases trees.len() - ev.pos(),
        {
            let ghost i = ev.pos();
            let ghost prev = vals@;
            match ev.next() {
                None => {
                    proof {
                        assert(eval_all(trees, p0).vals =~= vals@);
                    }
                    return (vals, None);
                },
                Some(Ok(v)) => {
                    vals.push(v);
                    proof {
                        assert(vals@ =~= prev.push(v));
                        assert(eval_all(trees, p0).vals =~= vals@ + eval_all(trees, ev.pos()).vals);
                    }
                },
                Some(Err(e)) => {
                    return (vals, Some(e));
                },
            }
        }
    }
}

} // verus!
