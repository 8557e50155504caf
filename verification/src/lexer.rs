use vstd::prelude::*;

use crate::byte_chars::{byte_offset, bytes_len, char_width, ByteChars};
use crate::span::Span;

verus! {

use crate::byte_chars::{
    lemma_bytes_len_ascii,
    lemma_bytes_len_concat,
    lemma_bytes_len_nonneg,
    lemma_bytes_len_take_succ,
};

/// An ASCII decimal digit, `'0'` to `'9'`.
pub open spec fn is_ascii_digit(c: char) -> bool {
    48 <= c as u32 <= 57
}

/// A character the tokenizer accepts: a digit, the operator `+`, or a space.
pub open spec fn is_input_char(c: char) -> bool {
    is_ascii_digit(c) || c == '+' || c == ' '
}

/// The smallest lexical unit: an integer literal or an operator symbol,
/// together with the byte span it was read from.
#[derive(Debug, PartialEq)]
pub enum Token {
    Int(String, Span),
    Operator(String, Span),
}

/// The mathematical value of a token: its text as a character sequence and
/// its span as plain integers.
pub enum TokenView {
    Int { lit: Seq<char>, start: int, len: int },
    Operator { lit: Seq<char>, start: int, len: int },
}

impl View for Token {
    type V = TokenView;

    open spec fn view(&self) -> TokenView {
        match self {
            Token::Int(lit, span) => TokenView::Int {
                lit: lit@,
                start: span.start as int,
                len: span.len as int,
            },
            Token::Operator(lit, span) => TokenView::Operator {
                lit: lit@,
                start: span.start as int,
                len: span.len as int,
            },
        }
    }
}

impl Token {
    pub fn integer(literal: &str, span: Span) -> (t: Token)
        ensures
            t@ == (TokenView::Int { lit: literal@, start: span.start as int, len: span.len as int }),
    {
        Token::Int(literal.to_owned(), span)
    }

    pub fn operation(literal: &str, span: Span) -> (t: Token)
        ensures
            t@ == (TokenView::Operator {
                lit: literal@,
                start: span.start as int,
                len: span.len as int,
            }),
    {
        Token::Operator(literal.to_owned(), span)
    }
}

/// The tokenizer met a character outside the grammar. Carries the source
/// name, the full source text and the byte span of the offending character.
#[derive(Debug, PartialEq)]
pub struct UnexpectedCharacter {
    pub src_name: String,
    pub src_text: String,
    pub span: Span,
}

/// End of the run of consecutive ASCII digits that starts at index `i`:
/// the first index at or after `i` holding no digit.
pub open spec fn digit_run_end(s: Seq<char>, i: int) -> int
    decreases s.len() - i
        when 0 <= i <= s.len()
{
    if i >= s.len() || !is_ascii_digit(s[i]) {
        i
    } else {
        digit_run_end(s, i + 1)
    }
}

pub proof fn lemma_digit_run_end(s: Seq<char>, i: int)
    requires
        0 <= i <= s.len(),
    ensures
        i <= digit_run_end(s, i) <= s.len(),
        forall|k: int| i <= k < digit_run_end(s, i) ==> is_ascii_digit(s[k]),
        digit_run_end(s, i) < s.len() ==> !is_ascii_digit(s[digit_run_end(s, i)]),
    decreases s.len() - i,
{
    if i < s.len() && is_ascii_digit(s[i]) {
        lemma_digit_run_end(s, i + 1);
    }
}

/// The run end is the one index after `i` whose prefix is all digits and
/// which itself holds no digit.
pub proof fn lemma_digit_run_end_is(s: Seq<char>, i: int, j: int)
    requires
        0 <= i <= j <= s.len(),
        forall|k: int| i <= k < j ==> is_ascii_digit(s[k]),
        j == s.len() || !is_ascii_digit(s[j]),
    ensures
        digit_run_end(s, i) == j,
    decreases j - i,
{
    if i < j {
        lemma_digit_run_end_is(s, i + 1, j);
    }
}

/// One pull of the tokenizer: either the input is exhausted, or one token
/// comes out, or the character at hand is refused.
pub enum LexStep {
    End,
    Tok { t: TokenView, next: int },
    Fail { off: int, next: int },
}

/// What one pull of the tokenizer yields when it starts at character index
/// `i`: spaces are skipped; a digit opens a greedy run that becomes one
/// `Int` token, and the one character that ends the run — never part of the
/// literal — is consumed silently with it; `+` becomes an `Operator` token;
/// anything else is refused at its byte offset, with a span one byte wide.
pub open spec fn lex_step(s: Seq<char>, i: int) -> LexStep
    decreases s.len() - i
        when 0 <= i <= s.len()
{
    if i >= s.len() {
        LexStep::End
    } else if s[i] == ' ' {
        lex_step(s, i + 1)
    } else if is_ascii_digit(s[i]) {
        let j = digit_run_end(s, i);
        LexStep::Tok {
            t: TokenView::Int { lit: s.subrange(i, j), start: byte_offset(s, i), len: j - i },
            next: if j < s.len() {
                j + 1
            } else {
                j
            },
        }
    } else if s[i] == '+' {
        LexStep::Tok {
            t: TokenView::Operator {
                lit: s.subrange(i, i + 1),
                start: byte_offset(s, i),
                len: 1,
            },
            next: i + 1,
        }
    } else {
        LexStep::Fail { off: byte_offset(s, i), next: i + 1 }
    }
}

pub proof fn lemma_lex_step_props(s: Seq<char>, i: int)
    requires
        0 <= i <= s.len(),
    ensures
        lex_step(s, i) matches LexStep::Tok { t, next } ==> i < next <= s.len(),
        lex_step(s, i) matches LexStep::Fail { off, next } ==> i < next <= s.len(),
    decreases s.len() - i,
{
    if i < s.len() {
        if s[i] == ' ' {
            lemma_lex_step_props(s, i + 1);
        } else if is_ascii_digit(s[i]) {
            lemma_digit_run_end(s, i);
        }
    }
}

/// What the tokenizer yields over a whole run: the tokens in source order,
/// and, if it was stopped by a character outside the grammar, that
/// character's byte offset. After the first refusal nothing more comes.
pub struct LexOut {
    pub toks: Seq<TokenView>,
    pub err: Option<int>,
}

pub open spec fn lex_all(s: Seq<char>, i: int) -> LexOut
    decreases s.len() - i
        when 0 <= i <= s.len()
        via lex_all_decreases
{
    match lex_step(s, i) {
        LexStep::End => LexOut { toks: seq![], err: None },
        LexStep::Tok { t, next } => {
            let rest = lex_all(s, next);
            LexOut { toks: seq![t] + rest.toks, err: rest.err }
        },
        LexStep::Fail { off, next: _ } => LexOut { toks: seq![], err: Some(off) },
    }
}

#[via_fn]
proof fn lex_all_decreases(s: Seq<char>, i: int) {
    lemma_lex_step_props(s, i);
}

/// Law: of an input that consists solely of ASCII digits the tokenizer
/// yields exactly one integer token, equal to the whole input text, and no
/// error.
pub proof fn lemma_lex_all_digits(s: Seq<char>)
    requires
        s.len() > 0,
        forall|i: int| 0 <= i < s.len() ==> is_ascii_digit(s[i]),
    ensures
        lex_all(s, 0) == (LexOut {
            toks: seq![TokenView::Int { lit: s, start: 0, len: s.len() as int }],
            err: None,
        }),
{
    lemma_digit_run_end_is(s, 0, s.len() as int);
    assert(s.take(0) =~= Seq::<char>::empty());
    assert(bytes_len(Seq::<char>::empty()) == 0);
    assert(s.subrange(0, s.len() as int) =~= s);
    assert(s[0] != ' ' && is_ascii_digit(s[0]));
    assert(lex_step(s, 0) == (LexStep::Tok {
        t: TokenView::Int { lit: s, start: 0, len: s.len() as int },
        next: s.len() as int,
    }));
    assert(lex_step(s, s.len() as int) == LexStep::End);
    assert(lex_all(s, s.len() as int) == (LexOut { toks: seq![], err: None::<int> }));
    assert(lex_all(s, 0).toks =~= seq![
        TokenView::Int { lit: s, start: 0, len: s.len() as int },
    ]);
}

/// Helper for the law below: from any position at or before the first
/// refused character, the tokenizer errors at that character's byte offset
/// and yields exactly the tokens of the good prefix before it.
proof fn lemma_lex_all_prefix(s: Seq<char>, k: int, i: int)
    requires
        0 <= i <= k < s.len(),
        !is_input_char(s[k]),
        forall|m: int| 0 <= m < k ==> is_input_char(s[m]),
        k == 0 || !is_ascii_digit(s[k - 1]),
    ensures
        lex_all(s, i).err == Some(byte_offset(s, k)),
        lex_all(s, i).toks == lex_all(s.take(k), i).toks,
        lex_all(s.take(k), i).err is None,
    decreases k - i,
{
    let p = s.take(k);
    if i == k {
        assert(lex_all(s, k).toks =~= Seq::<TokenView>::empty());
        assert(lex_all(p, k).toks =~= Seq::<TokenView>::empty());
    } else if s[i] == ' ' {
        assert(lex_step(s, i) == lex_step(s, i + 1));
        assert(lex_step(p, i) == lex_step(p, i + 1));
        lemma_lex_all_prefix(s, k, i + 1);
    } else if is_ascii_digit(s[i]) {
        let j = digit_run_end(s, i);
        lemma_digit_run_end(s, i);
        assert(j <= k) by {
            if j > k {
                assert(is_ascii_digit(s[k]));
            }
        }
        // were the run to end right at the refused character, that
        // character would be swallowed as its terminator; the law's guard
        // rules that out
        assert(j < k) by {
            if j == k {
                assert(is_ascii_digit(s[k - 1]));
            }
        }
        lemma_digit_run_end_is(p, i, j);
        assert(p.subrange(i, j) =~= s.subrange(i, j));
        assert(p.take(i) =~= s.take(i));
        lemma_lex_all_prefix(s, k, j + 1);
        assert(lex_all(s, i).toks =~= lex_all(p, i).toks);
    } else {
        assert(s[i] == '+');
        assert(p.subrange(i, i + 1) =~= s.subrange(i, i + 1));
        assert(p.take(i) =~= s.take(i));
        lemma_lex_all_prefix(s, k, i + 1);
        assert(lex_all(s, i).toks =~= lex_all(p, i).toks);
    }
}

/// Spaces are skipped silently: a run of them changes no outcome of the
/// tokenizer.
pub proof fn lemma_lex_all_skips_spaces(s: Seq<char>, i: int, j: int)
    requires
        0 <= i <= j <= s.len(),
        forall|k: int| i <= k < j ==> s[k] == ' ',
    ensures
        lex_all(s, i) == lex_all(s, j),
    decreases j - i,
{
    if i < j {
        assert(lex_step(s, i) == lex_step(s, i + 1));
        assert(lex_all(s, i) == lex_all(s, i + 1));
        lemma_lex_all_skips_spaces(s, i + 1, j);
    }
}

/// Law: an input holding a character outside the set of digits, `+` and
/// space makes the tokenizer stop with exactly one error, whose offset is
/// the byte offset of the first such character; no token is emitted for the
/// text at or after it, and the good prefix alone lexes without error.
/// The one exception is a refused character standing directly after a digit
/// run: that one is swallowed silently as the run's terminator, so the law
/// asks that the first refused character not follow a digit.
pub proof fn lemma_lex_stops_at_first_bad_char(s: Seq<char>, k: int)
    requires
        0 <= k < s.len(),
        !is_input_char(s[k]),
        forall|m: int| 0 <= m < k ==> is_input_char(s[m]),
        k == 0 || !is_ascii_digit(s[k - 1]),
    ensures
        lex_all(s, 0).err == Some(byte_offset(s, k)),
        lex_all(s, 0).toks == lex_all(s.take(k), 0).toks,
        lex_all(s.take(k), 0).err is None,
{
    lemma_lex_all_prefix(s, k, 0);
}

/// Starts a tokenizer over `input`. Tokens come out of `next`, one per
/// pull, until the input ends or a character is refused.
pub fn lex<'a>(input: &'a str) -> (r: Lex<'a>)
    ensures
        r.wf(),
        r.source() == input@,
        r.pos() == 0,
        !r.halted(),
{
    Lex::new(input)
}

/// The tokenizer: a pull-based stage over the characters of one source
/// text. After it reports an error once, it yields nothing more.
pub struct Lex<'a> {
    input: &'a str,
    chars: ByteChars<'a>,
    hit_error: bool,
}

impl<'a> Lex<'a> {
    /// The characters of the source text being tokenized.
    pub closed spec fn source(&self) -> Seq<char> {
        self.input@
    }

    /// The index of the next character to be examined.
    pub closed spec fn pos(&self) -> int {
        self.chars.consumed()
    }

    /// Whether an error has been reported; a halted tokenizer stays silent.
    pub closed spec fn halted(&self) -> bool {
        self.hit_error
    }

    pub closed spec fn inv(&self) -> bool {
        &&& self.chars.wf()
        &&& self.chars.all_chars() == self.input@
    }

    pub open spec fn wf(&self) -> bool {
        &&& self.inv()
        &&& 0 <= self.pos() <= self.source().len()
    }

    fn new(input: &'a str) -> (r: Lex<'a>)
        ensures
            r.wf(),
            r.source() == input@,
            r.pos() == 0,
            !r.halted(),
    {
        Lex { input, chars: ByteChars::new(input), hit_error: false }
    }

    /// One pull: the next token, an error at the first refused character,
    /// or nothing once the input is exhausted or the tokenizer has halted.
    #[verifier::loop_isolation(false)]
    pub fn next(&mut self) -> (r: Option<Result<Token, UnexpectedCharacter>>)
        requires
            old(self).wf(),
        ensures
            final(self).wf(),
            final(self).source() == old(self).source(),
            old(self).halted() ==> {
                &&& r is None
                &&& final(self).halted()
                &&& final(self).pos() == old(self).pos()
            },
            !old(self).halted() ==> match lex_step(old(self).source(), old(self).pos()) {
                LexStep::End => {
                    &&& r is None
                    &&& !final(self).halted()
                    &&& final(self).pos() == old(self).source().len()
                },
                LexStep::Tok { t, next } => {
                    &&& (r matches Some(Ok(tok)) && tok@ == t)
                    &&& !final(self).halted()
                    &&& final(self).pos() == next
                },
                LexStep::Fail { off, next } => {
                    &&& (r matches Some(Err(e)) && {
                        &&& e.span.start as int == off
                        &&& e.span.len == 1
                        &&& e.src_text@ == old(self).source()
                        &&& e.src_name@ == "stdin"@
                    })
                    &&& final(self).halted()
                    &&& final(self).pos() == next
                },
            },
    {
        if self.hit_error {
            return None;
        }
        loop
            invariant
                self.wf(),
                !self.halted(),
                self.source() == old(self).source(),
                0 <= self.pos() <= self.source().len(),
                lex_step(self.source(), old(self).pos()) == lex_step(self.source(), self.pos()),
            decreases self.source().len() - self.pos(),
        {
            let ghost s = self.source();
            let ghost i = self.pos();
            match self.chars.next() {
                None => {
                    return None;
                },
                Some(ch) => {
                    let u = ch as u32;
                    if 48 <= u && u <= 57 {
                        proof {
                            assert(digit_run_end(s, i) == digit_run_end(s, i + 1));
                        }
                        let t = self.integer(ch);
                        return Some(Ok(t));
                    } else if ch == '+' {
                        proof {
                            lemma_bytes_len_take_succ(s, i);
                            lemma_bytes_len_nonneg(s.take(i));
                        }
                        let here = self.chars.index();
                        let b = self.chars.bytes();
                        let lit = self.input.substring_char(here - 1, here).to_owned();
                        let t = Token::Operator(lit, Span { start: b - 1, len: 1 });
                        return Some(Ok(t));
                    } else if ch == ' ' {
                        // space: skip it and go on with the next character
                        proof {
                            assert(lex_step(s, i) == lex_step(s, i + 1));
                        }
                    } else {
                        proof {
                            lemma_bytes_len_take_succ(s, i);
                            lemma_bytes_len_nonneg(s.take(i));
                        }
                        let w = char_width(ch);
                        let b = self.chars.bytes();
                        self.hit_error = true;
                        let e = UnexpectedCharacter {
                            src_name: "stdin".to_owned(),
                            src_text: self.input.to_owned(),
                            span: Span { start: b - w, len: 1 },
                        };
                        return Some(Err(e));
                    }
                },
            }
        }
    }

    /// Consumes the digits that immediately follow the already-consumed
    /// `first_digit` and forms the one `Int` token of that greedy run; the
    /// one character that ends the run, if any, is consumed with it and
    /// dropped.
    #[verifier::loop_isolation(false)]
    fn integer(&mut self, first_digit: char) -> (t: Token)
        requires
            old(self).wf(),
            0 < old(self).pos() <= old(self).source().len(),
            old(self).source()[old(self).pos() - 1] == first_digit,
            is_ascii_digit(first_digit),
        ensures
            final(self).wf(),
            final(self).source() == old(self).source(),
            final(self).halted() == old(self).halted(),
            final(self).pos() == ({
                let j = digit_run_end(old(self).source(), old(self).pos());
                if j < old(self).source().len() {
                    j + 1
                } else {
                    j
                }
            }),
            t@ == (TokenView::Int {
                lit: old(self).source().subrange(
                    old(self).pos() - 1,
                    digit_run_end(old(self).source(), old(self).pos()),
                ),
                start: byte_offset(old(self).source(), old(self).pos() - 1),
                len: digit_run_end(old(self).source(), old(self).pos()) - (old(self).pos() - 1),
            }),
    {
        let ghost s = self.source();
        let ghost p0 = self.pos();
        let start_index = self.chars.index() - 1;
        proof {
            lemma_bytes_len_take_succ(s, p0 - 1);
            lemma_bytes_len_nonneg(s.take(p0 - 1));
        }
        let start_byte = self.chars.bytes() - 1;
        loop
            invariant
                self.wf(),
                self.source() == s,
                self.halted() == old(self).halted(),
                p0 <= self.pos() <= s.len(),
                forall|k: int| p0 <= k < self.pos() ==> is_ascii_digit(s[k]),
                digit_run_end(s, p0) == digit_run_end(s, self.pos()),
            decreases s.len() - self.pos(),
        {
            match self.chars.peek() {
                Some(c) => {
                    let u = c as u32;
                    if 48 <= u && u <= 57 {
                        let ghost before = self.pos();
                        self.chars.next();
                        proof {
                            assert(is_ascii_digit(s[before]));
                            assert(digit_run_end(s, before) == digit_run_end(s, before + 1));
                        }
                    } else {
                        break;
                    }
                },
                None => {
                    break;
                },
            }
        }
        let end_index = self.chars.index();
        let end_byte = self.chars.bytes();
        proof {
            let i0 = p0 - 1;
            let j = self.pos();
            assert(s.take(j) =~= s.take(i0) + s.subrange(i0, j));
            lemma_bytes_len_concat(s.take(i0), s.subrange(i0, j));
            lemma_bytes_len_ascii(s.subrange(i0, j));
        }
        // the character that ended the run is dropped with it
        self.chars.next();
        let lit = self.input.substring_char(start_index, end_index).to_owned();
        Token::Int(lit, Span { start: start_byte, len: end_byte - start_byte })
    }

    /// Pulls tokens until the input is exhausted or one is refused: all the
    /// tokens of the source in order, or the first error.
    #[verifier::loop_isolation(false)]
    pub fn tokens(self) -> (r: Result<Vec<Token>, UnexpectedCharacter>)
        requires
            self.wf(),
            !self.halted(),
        ensures
            ({
                let out = lex_all(self.source(), self.pos());
                match r {
                    Ok(v) => {
                        &&& out.err is None
                        &&& v@.map_values(|t: Token| t@) == out.toks
                    },
                    Err(e) => {
                        &&& out.err == Some(e.span.start as int)
                        &&& e.span.len == 1
                        &&& e.src_text@ == self.source()
                        &&& e.src_name@ == "stdin"@
                    },
                }
            }),
    {
        let ghost s = self.source();
        let ghost p0 = self.pos();
        let mut lx = self;
        let mut toks: Vec<Token> = Vec::new();
        proof {
            assert(toks@.map_values(|t: Token| t@) =~= Seq::<TokenView>::empty());
        }
        loop
            invariant
                lx.wf(),
                !lx.halted(),
                lx.source() == s,
                0 <= p0 <= lx.pos() <= s.len(),
                lex_all(s, p0).err == lex_all(s, lx.pos()).err,
                lex_all(s, p0).toks == toks@.map_values(|t: Token| t@) + lex_all(s, lx.pos()).toks,
            decreases s.len() - lx.pos(),
        {
            let ghost i = lx.pos();
            let ghost prev = toks@;
            proof {
                lemma_lex_step_props(s, i);
            }
            match lx.next() {
                None => {
                    proof {
                        assert(lex_all(s, i).toks =~= Seq::<TokenView>::empty());
                        assert(lex_all(s, p0).toks =~= toks@.map_values(|t: Token| t@));
                    }
                    return Ok(toks);
                },
                Some(Ok(t)) => {
                    toks.push(t);
                    proof {
                        assert(toks@ =~= prev.push(t));
                        assert(toks@.map_values(|t: Token| t@) =~= prev.map_values(
                            |t: Token| t@,
                        ).push(t@));
                        assert(lex_all(s, p0).toks =~= toks@.map_values(|t: Token| t@) + lex_all(
                            s,
                            lx.pos(),
                        ).toks);
                    }
                },
                Some(Err(e)) => {
                    return Err(e);
                },
            }
        }
    }
}

} // verus!
