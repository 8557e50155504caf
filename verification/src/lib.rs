//! A minimal expression-evaluation pipeline: a position tracker over the
//! characters of a source text, a tokenizer, a tree builder and a tree
//! reducer, each a pull-based stage that stops for good after its first
//! error.
//!
//! The laws below tie the three stages together: what the whole pipeline
//! makes of an empty input and of a well-formed sum.

use vstd::prelude::*;

pub mod byte_chars;
pub mod evaluator;
pub mod lexer;
pub mod parser;
pub mod span;

verus! {

use crate::byte_chars::byte_offset;
use crate::evaluator::{
    digits_value,
    eval_all,
    is_int_literal,
    lemma_digits_value_nonneg,
    tree_value,
    EvalOut,
    Reduction,
    Value,
};
use crate::lexer::{
    is_ascii_digit,
    lemma_digit_run_end_is,
    lemma_lex_all_skips_spaces,
    lex_all,
    lex_step,
    LexOut,
    LexStep,
    TokenView,
};
use crate::parser::{leaf_of, op_of, parse_all, ParseOut, TreeView};

/// Law: empty input yields an empty sequence at every stage, and no error.
pub proof fn lemma_empty_input()
    ensures
        lex_all(Seq::<char>::empty(), 0) == (LexOut { toks: seq![], err: None }),
        parse_all(Seq::<TokenView>::empty(), 0) == (ParseOut { trees: seq![], err: None }),
        eval_all(Seq::<TreeView>::empty(), 0) == (EvalOut { vals: seq![], err: None }),
{
    assert(lex_step(Seq::<char>::empty(), 0) == LexStep::End);
    assert(lex_all(Seq::<char>::empty(), 0).toks =~= Seq::<TokenView>::empty());
    assert(parse_all(Seq::<TokenView>::empty(), 0).trees =~= Seq::<TreeView>::empty());
    assert(eval_all(Seq::<TreeView>::empty(), 0).vals =~= Seq::<Value>::empty());
}

/// Law: an input of the form `<digits> + <digits>` — with spaces around
/// the operator, at least one before it — runs through tokenizer, tree
/// builder and tree reducer to exactly one value: the sum of the two digit
/// groups, provided both groups and their sum fit the value type. A space
/// must separate the first group from the operator, because the character
/// that ends a digit run is consumed silently with the run: without one
/// the operator itself would be swallowed.
pub proof fn lemma_sum_pipeline(d1: Seq<char>, sp1: Seq<char>, sp2: Seq<char>, d2: Seq<char>)
    requires
        is_int_literal(d1),
        is_int_literal(d2),
        sp1.len() >= 1,
        forall|i: int| 0 <= i < sp1.len() ==> sp1[i] == ' ',
        forall|i: int| 0 <= i < sp2.len() ==> sp2[i] == ' ',
        digits_value(d1) <= i32::MAX,
        digits_value(d2) <= i32::MAX,
        digits_value(d1) + digits_value(d2) <= i32::MAX,
    ensures
        ({
            let s = d1 + sp1 + seq!['+'] + sp2 + d2;
            let lx = lex_all(s, 0);
            let pr = parse_all(lx.toks, 0);
            let ev = eval_all(pr.trees, 0);
            &&& lx.err is None
            &&& pr.err is None
            &&& ev.err is None
            &&& ev.vals == seq![Value::I32((digits_value(d1) + digits_value(d2)) as i32)]
        }),
{
    let s = d1 + sp1 + seq!['+'] + sp2 + d2;
    let n1 = d1.len() as int;
    let p = n1 + sp1.len() as int;
    let q = p + 1 + sp2.len() as int;
    let n = s.len() as int;
    assert(n == q + d2.len());

    // What each region of the concatenation holds.
    assert(forall|k: int| 0 <= k < n1 ==> s[k] == d1[k]);
    assert(forall|k: int| n1 <= k < p ==> s[k] == sp1[k - n1]);
    assert(s[p] == '+');
    assert(forall|k: int| p + 1 <= k < q ==> s[k] == sp2[k - (p + 1)]);
    assert(forall|k: int| q <= k < n ==> s[k] == d2[k - q]);

    // The tokenizer: integer, operator, integer, clean end.
    let t1 = TokenView::Int { lit: d1, start: 0, len: n1 };
    let t2 = TokenView::Operator { lit: seq!['+'], start: byte_offset(s, p), len: 1 };
    let t3 = TokenView::Int { lit: d2, start: byte_offset(s, q), len: d2.len() as int };

    assert(is_ascii_digit(s[0]));
    lemma_digit_run_end_is(s, 0, n1);
    assert(s.take(0) =~= Seq::<char>::empty());
    assert(s.subrange(0, n1) =~= d1);
    // the run's terminator, the first of the spaces, is swallowed with it
    assert(lex_step(s, 0) == (LexStep::Tok { t: t1, next: n1 + 1 }));

    lemma_lex_all_skips_spaces(s, n1 + 1, p);
    assert(s.subrange(p, p + 1) =~= seq!['+']);
    assert(lex_step(s, p) == (LexStep::Tok { t: t2, next: p + 1 }));

    lemma_lex_all_skips_spaces(s, p + 1, q);
    assert(is_ascii_digit(s[q]));
    lemma_digit_run_end_is(s, q, n);
    assert(s.subrange(q, n) =~= d2);
    assert(lex_step(s, q) == (LexStep::Tok { t: t3, next: n }));

    assert(lex_step(s, n) == LexStep::End);
    assert(lex_all(s, n) == (LexOut { toks: seq![], err: None }));
    assert(lex_all(s, q).toks =~= seq![t3]);
    assert(lex_all(s, p).toks =~= seq![t2, t3]);
    assert(lex_all(s, 0).toks =~= seq![t1, t2, t3]);
    assert(lex_all(s, 0).err is None);

    // The tree builder: one operation over the two leaves.
    let toks = lex_all(s, 0).toks;
    let tv = TreeView::Operation {
        op: op_of(t2),
        left: Box::new(TreeView::Leaf(leaf_of(t1))),
        right: Box::new(TreeView::Leaf(leaf_of(t3))),
    };
    assert(parse_all(toks, 3).trees =~= Seq::<TreeView>::empty());
    assert(parse_all(toks, 0).trees =~= seq![tv]);
    assert(parse_all(toks, 0).err is None);

    // The tree reducer: both leaves hold their groups' values; the checked
    // addition stays in range.
    lemma_digits_value_nonneg(d1);
    lemma_digits_value_nonneg(d2);
    let v1 = Value::I32(digits_value(d1) as i32);
    let v2 = Value::I32(digits_value(d2) as i32);
    assert(tree_value(TreeView::Leaf(leaf_of(t1))) == Reduction::Val(v1));
    assert(tree_value(TreeView::Leaf(leaf_of(t3))) == Reduction::Val(v2));
    let sum = Value::I32((digits_value(d1) + digits_value(d2)) as i32);
    assert(tree_value(tv) == Reduction::Val(sum));
    assert(eval_all(parse_all(toks, 0).trees, 1).vals =~= Seq::<Value>::empty());
    assert(eval_all(parse_all(toks, 0).trees, 0).vals =~= seq![sum]);
}

} // verus!
