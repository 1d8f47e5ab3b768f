//! The working set: a committed base of blocks plus a delta of blocks
//! built during one parse. A speculative parse leaves the base untouched;
//! a committed parse merges its delta into the base.

use vstd::prelude::*;

use crate::ast::{
    block_ids_below, exprs_ids_below, stmt_exprs, stmts_exprs, Block, BlockId, Expr, Expression,
    Operator, Pipeline, Statement,
};
use crate::span::Span;

verus! {

/// A parse diagnostic: where the trouble is, and a word about it. A
/// diagnostic never aborts tree construction; the tree carries a garbage
/// node at the same span instead.
#[derive(Debug, PartialEq)]
pub struct ParseError {
    pub span: Span,
    pub message: String,
}

/// Construction discipline of the arena: every block references only
/// blocks created strictly before it, so references are well-founded and
/// resolution terminates.
pub open spec fn arena_wf(blocks: Seq<Block>) -> bool {
    forall|i: int| 0 <= i < blocks.len() ==> block_ids_below(#[trigger] blocks[i], i)
}

/// The committed parser state: the arena of blocks that earlier,
/// non-speculative parses have produced.
#[derive(Debug)]
pub struct ParserState {
    pub blocks: Vec<Block>,
}

impl View for ParserState {
    type V = Seq<Block>;

    open spec fn view(&self) -> Seq<Block> {
        self.blocks@
    }
}

impl ParserState {
    pub open spec fn wf(&self) -> bool {
        arena_wf(self@)
    }

    pub fn new() -> (s: ParserState)
        ensures
            s@ == Seq::<Block>::empty(),
            s.wf(),
    {
        let s = ParserState { blocks: Vec::new() };
        proof {
            assert(s@ =~= Seq::<Block>::empty());
        }
        s
    }

    pub fn num_blocks(&self) -> (n: usize)
        ensures
            n == self@.len(),
    {
        self.blocks.len()
    }
}

/// A working set layered over a committed base: new blocks accumulate in
/// the delta, and only an explicit commit moves them into the base. Blocks
/// are addressed by one id space: first the base, then the delta.
#[derive(Debug)]
pub struct StateWorkingSet {
    pub permanent: ParserState,
    pub delta: Vec<Block>,
}

impl View for StateWorkingSet {
    type V = Seq<Block>;

    open spec fn view(&self) -> Seq<Block> {
        self.permanent@ + self.delta@
    }
}

impl StateWorkingSet {
    /// Well-formed: references are well-founded, and the arena's size
    /// stays addressable.
    pub open spec fn wf(&self) -> bool {
        arena_wf(self@) && self@.len() <= usize::MAX
    }

    pub fn new(permanent: ParserState) -> (s: StateWorkingSet)
        ensures
            s@ == permanent@,
            s.permanent == permanent,
            s.delta@ == Seq::<Block>::empty(),
    {
        let s = StateWorkingSet { permanent, delta: Vec::new() };
        proof {
            assert(s@ =~= s.permanent@);
        }
        s
    }

    pub fn num_blocks(&self) -> (n: usize)
        requires
            self@.len() <= usize::MAX,
        ensures
            n == self@.len(),
    {
        self.permanent.blocks.len() + self.delta.len()
    }

    /// Resolves a block id. Ids are handed out by `add_block`, so a
    /// well-formed caller always holds a valid one; a dangling id would be
    /// an internal-consistency violation, which the precondition excludes.
    pub fn get_block(&self, block_id: BlockId) -> (b: &Block)
        requires
            block_id < self@.len(),
        ensures
            *b == self@[block_id as int],
    {
        if block_id < self.permanent.blocks.len() {
            &self.permanent.blocks[block_id]
        } else {
            &self.delta[block_id - self.permanent.blocks.len()]
        }
    }

    /// Adds a freshly built block to the delta and hands back its id.
    pub fn add_block(&mut self, block: Block) -> (id: BlockId)
        requires
            old(self)@.len() < usize::MAX,
        ensures
            id == old(self)@.len(),
            final(self)@ == old(self)@ + seq![block],
            final(self).permanent == old(self).permanent,
    {
        let id = self.num_blocks();
        self.delta.push(block);
        proof {
            assert(self@ =~= old(self)@ + seq![block]);
        }
        id
    }

    /// Moves every delta block into the committed base. Ids are stable:
    /// the arena reads the same before and after.
    pub fn commit(&mut self)
        ensures
            final(self)@ == old(self)@,
            final(self).permanent@ == old(self)@,
            final(self).delta@ == Seq::<Block>::empty(),
    {
        self.permanent.blocks.append(&mut self.delta);
        proof {
            assert(self@ =~= old(self)@);
        }
    }
}


/// The first statement separator of `cs` at or after `i`, or `end`.
pub open spec fn spec_next_sep(cs: Seq<char>, i: int, end: int) -> int
    decreases end - i,
    when 0 <= i <= end
{
    if i >= end {
        end
    } else if cs[i] == ';' || cs[i] == '\n' {
        i
    } else {
        spec_next_sep(cs, i + 1, end)
    }
}

/// The next separator lies between `i` and `end`.
pub proof fn lemma_next_sep_bounds(cs: Seq<char>, i: int, end: int)
    requires
        0 <= i <= end,
    ensures
        i <= spec_next_sep(cs, i, end) <= end,
    decreases end - i,
{
    if i < end && !(cs[i] == ';' || cs[i] == '\n') {
        lemma_next_sep_bounds(cs, i + 1, end);
    }
}

/// A statement segment that yields a statement: it holds something
/// besides spaces (a pipe counts).
pub open spec fn seg_active(cs: Seq<char>, a: int, b: int) -> bool {
    exists|j: int| a <= j < b && cs[j] != ' '
}

#[via_fn]
proof fn stmt_count_decreases(cs: Seq<char>, i: int, end: int) {
    lemma_next_sep_bounds(cs, i, end);
}

/// How many statements the text between `i` and `end` parses to: one per
/// separator-delimited segment that holds more than spaces.
pub open spec fn spec_stmt_count(cs: Seq<char>, i: int, end: int) -> int
    decreases end - i,
    when 0 <= i <= end
    via stmt_count_decreases
{
    if i >= end {
        0
    } else {
        let e = spec_next_sep(cs, i, end);
        (if seg_active(cs, i, e) {
            1int
        } else {
            0int
        }) + (if e < end {
            spec_stmt_count(cs, e + 1, end)
        } else {
            0int
        })
    }
}

/// The first statement separator in `[start, end)`, or `end`.
fn scan_stmt_end(cs: &Vec<char>, start: usize, end: usize) -> (r: usize)
    requires
        start <= end <= cs@.len(),
    ensures
        start <= r <= end,
        r == spec_next_sep(cs@, start as int, end as int),
{
    let mut i: usize = start;
    while i < end
        invariant
            start <= i <= end,
            end <= cs@.len(),
            spec_next_sep(cs@, start as int, end as int) == spec_next_sep(
                cs@,
                i as int,
                end as int,
            ),
        decreases end - i,
    {
        if cs[i] == ';' || cs[i] == '\n' {
            return i;
        }
        i = i + 1;
    }
    end
}

/// The first pipe in `[start, end)`, or `end`.
fn scan_pipe_end(cs: &Vec<char>, start: usize, end: usize) -> (r: usize)
    requires
        start <= end <= cs@.len(),
    ensures
        start <= r <= end,
        r < end ==> cs@[r as int] == '|',
{
    let mut i: usize = start;
    while i < end
        invariant
            start <= i <= end,
            end <= cs@.len(),
        decreases end - i,
    {
        if cs[i] == '|' {
            return i;
        }
        i = i + 1;
    }
    end
}

/// The range with the surrounding spaces removed. It is nonempty exactly
/// when the range held something besides spaces.
#[verifier::loop_isolation(false)]
fn trim_range(cs: &Vec<char>, start: usize, end: usize) -> (r: (usize, usize))
    requires
        start <= end <= cs@.len(),
    ensures
        start <= r.0 <= r.1 <= end,
        (r.0 < r.1) <==> seg_active(cs@, start as int, end as int),
        r.0 < r.1 ==> cs@[r.0 as int] != ' ',
{
    let mut a: usize = start;
    let mut b: usize = end;
    let mut hit = false;
    while a < b
        invariant
            start <= a <= b <= end,
            b == end,
            forall|m: int| start <= m < a ==> cs@[m] == ' ',
            hit ==> (a < end && cs@[a as int] != ' '),
            !hit ==> forall|m: int| start <= m < a ==> cs@[m] == ' ',
        decreases b - a,
    {
        if cs[a] == ' ' {
            a = a + 1;
        } else {
            hit = true;
            break;
        }
    }
    while b > a
        invariant
            start <= a <= b <= end,
            forall|m: int| start <= m < a ==> cs@[m] == ' ',
            hit ==> (a < end && cs@[a as int] != ' '),
            forall|m: int| b <= m < end ==> cs@[m] == ' ',
        decreases b - a,
    {
        if cs[b - 1] == ' ' {
            b = b - 1;
        } else {
            break;
        }
    }
    proof {
        if a < b {
            assert(cs@[a as int] != ' ');
            assert(seg_active(cs@, start as int, end as int));
        } else {
            assert forall|j: int| start <= j < end implies cs@[j] == ' ' by {
                if j < a {
                } else {
                    assert(b <= j);
                }
            }
        }
    }
    (a, b)
}

/// The space-separated tokens of a range, as subranges.
fn gather_tokens(cs: &Vec<char>, start: usize, end: usize) -> (r: Vec<(usize, usize)>)
    requires
        start <= end <= cs@.len(),
    ensures
        forall|i: int|
            0 <= i < r@.len() ==> start <= (#[trigger] r@[i]).0 < r@[i].1 <= end,
{
    let mut out: Vec<(usize, usize)> = Vec::new();
    let mut i: usize = start;
    while i < end
        invariant
            start <= i <= end,
            end <= cs@.len(),
            forall|k: int|
                0 <= k < out@.len() ==> start <= (#[trigger] out@[k]).0 < out@[k].1 <= end,
        decreases end - i,
    {
        if cs[i] == ' ' {
            i = i + 1;
        } else {
            let t0 = i;
            let mut j: usize = i + 1;
            while j < end
                invariant
                    i < j <= end,
                    end <= cs@.len(),
                decreases end - j,
            {
                if cs[j] == ' ' {
                    break;
                }
                j = j + 1;
            }
            out.push((t0, j));
            if j < end {
                i = j + 1;
            } else {
                i = end;
            }
        }
    }
    out
}

/// Whether the token is all decimal digits.
fn is_digits(cs: &Vec<char>, t0: usize, t1: usize) -> bool
    requires
        t0 < t1 <= cs@.len(),
{
    let mut i: usize = t0;
    while i < t1
        invariant
            t0 <= i <= t1 <= cs@.len(),
        decreases t1 - i,
    {
        let c = cs[i];
        let u = c as u32;
        if u < 48 || u > 57 {
            return false;
        }
        i = i + 1;
    }
    true
}

/// The token's value as an integer literal, unless it does not fit.
fn parse_int_value(cs: &Vec<char>, t0: usize, t1: usize) -> (r: Option<i64>)
    requires
        t0 < t1 <= cs@.len(),
{
    let mut acc: u64 = 0;
    let mut i: usize = t0;
    while i < t1
        invariant
            t0 <= i <= t1 <= cs@.len(),
            acc <= 0x7fff_ffff_ffff_ffff,
        decreases t1 - i,
    {
        let c = cs[i];
        let u = c as u32;
        if u < 48 || u > 57 {
            return None;
        }
        let d = (u - 48) as u64;
        if acc > (0x7fff_ffff_ffff_ffffu64 - 9) / 10 {
            return None;
        }
        acc = acc * 10 + d;
        i = i + 1;
    }
    Some(acc as i64)
}

/// Whether the token is exactly this word.
fn token_eq_lit(cs: &Vec<char>, t0: usize, t1: usize, lit: &str) -> bool
    requires
        t0 <= t1 <= cs@.len(),
{
    let n = lit.unicode_len();
    if t1 - t0 != n {
        return false;
    }
    let mut i: usize = 0;
    while i < n
        invariant
            i <= n,
            n == lit@.len(),
            t0 + n <= cs@.len(),
            t1 - t0 == n,
        decreases n - i,
    {
        if cs[t0 + i] != lit.get_char(i) {
            return false;
        }
        i = i + 1;
    }
    true
}

/// The operator a token spells, if any.
fn classify_op(cs: &Vec<char>, t0: usize, t1: usize) -> (r: Option<Operator>)
    requires
        t0 < t1 <= cs@.len(),
{
    if t1 - t0 == 1 {
        let c = cs[t0];
        if c == '+' {
            Some(Operator::Plus)
        } else if c == '-' {
            Some(Operator::Minus)
        } else if c == '*' {
            Some(Operator::Multiply)
        } else if c == '/' {
            Some(Operator::Divide)
        } else if c == '<' {
            Some(Operator::LessThan)
        } else if c == '>' {
            Some(Operator::GreaterThan)
        } else {
            None
        }
    } else if t1 - t0 == 2 {
        let a = cs[t0];
        let b = cs[t0 + 1];
        if a == '=' && b == '=' {
            Some(Operator::Equal)
        } else if a == '!' && b == '=' {
            Some(Operator::NotEqual)
        } else {
            None
        }
    } else {
        None
    }
}

/// Whether the token is quoted with matching single or double quotes.
fn is_quoted(cs: &Vec<char>, t0: usize, t1: usize) -> (r: bool)
    requires
        t0 < t1 <= cs@.len(),
    ensures
        r ==> t1 - t0 >= 2,
{
    t1 - t0 >= 2 && ((cs[t0] == '\'' && cs[t1 - 1] == '\'') || (cs[t0] == '"' && cs[t1 - 1]
        == '"'))
}

/// Whether the token is a bare command word: no literal, no operator, no
/// quote, no variable sigil.
fn is_bare(cs: &Vec<char>, t0: usize, t1: usize) -> bool
    requires
        t0 < t1 <= cs@.len(),
{
    if is_digits(cs, t0, t1) {
        return false;
    }
    if token_eq_lit(cs, t0, t1, "true") || token_eq_lit(cs, t0, t1, "false") {
        return false;
    }
    if classify_op(cs, t0, t1).is_some() {
        return false;
    }
    if is_quoted(cs, t0, t1) {
        return false;
    }
    if cs[t0] == '$' {
        return false;
    }
    true
}

/// Diagnostics are only ever appended, and each new one cites a source
/// range inside the text of length `n`.
pub open spec fn errors_extended(pre: Seq<ParseError>, post: Seq<ParseError>, n: int) -> bool {
    &&& post.len() >= pre.len()
    &&& forall|k: int| 0 <= k < pre.len() ==> post[k] == pre[k]
    &&& forall|k: int| pre.len() <= k < post.len() ==> (#[trigger] post[k]).span.end <= n
}

/// Classifies one argument token as a leaf expression. Malformed input
/// becomes a garbage node plus a diagnostic; it never aborts the parse.
fn classify_arg(
    cs: &Vec<char>,
    src: &str,
    t0: usize,
    t1: usize,
    errors: &mut Vec<ParseError>,
) -> (e: Expression)
    requires
        t0 < t1 <= cs@.len(),
        cs@.len() <= u32::MAX,
        cs@ == src@,
    ensures
        forall|b: int| crate::ast::expr_ids_below(e, b),
        crate::ast::expr_spans_below(e, cs@.len() as int),
        errors_extended(old(errors)@, final (errors)@, cs@.len() as int),
{
    let span = Span::new(t0 as u32, t1 as u32);
    if is_digits(cs, t0, t1) {
        match parse_int_value(cs, t0, t1) {
            Some(v) => Expression { expr: Expr::Int(v), span },
            None => {
                errors.push(
                    ParseError {
                        span,
                        message: String::from_str("integer literal does not fit"),
                    },
                );
                Expression { expr: Expr::Garbage, span }
            },
        }
    } else if token_eq_lit(cs, t0, t1, "true") {
        Expression { expr: Expr::Bool(true), span }
    } else if token_eq_lit(cs, t0, t1, "false") {
        Expression { expr: Expr::Bool(false), span }
    } else {
        match classify_op(cs, t0, t1) {
            Some(op) => Expression { expr: Expr::Operator(op), span },
            None => {
                if is_quoted(cs, t0, t1) {
                    let inner = String::from_str(src.substring_char(t0 + 1, t1 - 1));
                    Expression { expr: Expr::String(inner), span }
                } else if cs[t0] == '$' {
                    errors.push(
                        ParseError {
                            span,
                            message: String::from_str("variable resolution is out of scope here"),
                        },
                    );
                    Expression { expr: Expr::Garbage, span }
                } else {
                    let word = String::from_str(src.substring_char(t0, t1));
                    Expression { expr: Expr::String(word), span }
                }
            },
        }
    }
}

impl StateWorkingSet {
    /// Parses one pipeline stage: a parenthesized subexpression, a binary
    /// operation, a call headed by a bare word, or a single literal.
    fn parse_stage(
        &mut self,
        cs: &Vec<char>,
        src: &str,
        st0: usize,
        st1: usize,
        errors: &mut Vec<ParseError>,
    ) -> (e: Expression)
        requires
            old(self).wf(),
            st0 < st1 <= cs@.len(),
            cs@.len() <= u32::MAX,
            cs@ == src@,
            old(self)@.len() + (st1 - st0) <= usize::MAX,
        ensures
            final (self).wf(),
            final (self).permanent == old(self).permanent,
            old(self)@.len() <= final (self)@.len(),
            final (self)@.len() <= old(self)@.len() + (st1 - st0),
            forall|id: int|
                0 <= id < old(self)@.len() ==> final (self)@[id] == old(self)@[id],
            crate::ast::expr_ids_below(e, final (self)@.len() as int),
            crate::ast::expr_spans_below(e, cs@.len() as int),
            errors_extended(old(errors)@, final (errors)@, cs@.len() as int),
        decreases st1 - st0, 0int,
    {
        let span = Span::new(st0 as u32, st1 as u32);
        if cs[st0] == '(' && cs[st1 - 1] == ')' {
            if st1 - st0 < 3 {
                errors.push(
                    ParseError { span, message: String::from_str("empty subexpression") },
                );
                return Expression { expr: Expr::Garbage, span };
            }
            let inner = self.parse_block_range(cs, src, st0 + 1, st1 - 1, errors);
            let ghost pre = self@;
            let id = self.add_block(inner);
            proof {
                assert(self@.len() == pre.len() + 1);
                assert forall|i: int| 0 <= i < self@.len() implies block_ids_below(
                    #[trigger] self@[i],
                    i,
                ) by {
                    if i < pre.len() {
                        assert(self@[i] == pre[i]);
                        assert(block_ids_below(pre[i], i));
                    } else {
                        assert(self@[i] == inner);
                    }
                }
            }
            return Expression { expr: Expr::Subexpression(id), span };
        }
        let tokens = gather_tokens(cs, st0, st1);
        if tokens.len() == 3 {
            let mid = tokens[1];
            match classify_op(cs, mid.0, mid.1) {
                Some(op) => {
                    let lhs = classify_arg(cs, src, tokens[0].0, tokens[0].1, errors);
                    let ops = Expression {
                        expr: Expr::Operator(op),
                        span: Span::new(mid.0 as u32, mid.1 as u32),
                    };
                    let rhs = classify_arg(cs, src, tokens[2].0, tokens[2].1, errors);
                    proof {
                        assert(crate::ast::expr_ids_below(lhs, self@.len() as int));
                        assert(crate::ast::expr_ids_below(ops, self@.len() as int));
                        assert(crate::ast::expr_ids_below(rhs, self@.len() as int));
                        assert(crate::ast::expr_spans_below(lhs, cs@.len() as int));
                        assert(crate::ast::expr_spans_below(ops, cs@.len() as int));
                        assert(crate::ast::expr_spans_below(rhs, cs@.len() as int));
                    }
                    let e = Expression {
                        expr: Expr::BinaryOp(Box::new(lhs), Box::new(ops), Box::new(rhs)),
                        span,
                    };
                    return e;
                },
                None => {},
            }
        }
        if tokens.len() == 0 {
            errors.push(ParseError { span, message: String::from_str("empty pipeline stage") });
            return Expression { expr: Expr::Garbage, span };
        }
        let head = tokens[0];
        if is_bare(cs, head.0, head.1) {
            let head_span = Span::new(head.0 as u32, head.1 as u32);
            let mut positional: Vec<Expression> = Vec::new();
            let mut i: usize = 1;
            while i < tokens.len()
                invariant
                    errors_extended(old(errors)@, errors@, cs@.len() as int),
                    1 <= i <= tokens@.len(),
                    cs@.len() <= u32::MAX,
                    cs@ == src@,
                    forall|k: int|
                        0 <= k < tokens@.len() ==> st0 <= (#[trigger] tokens@[k]).0 < tokens@[
                            k
                        ].1 <= st1,
                    st1 <= cs@.len(),
                    forall|k: int, b: int|
                        0 <= k < positional@.len() ==> #[trigger] crate::ast::expr_ids_below(
                            positional@[k],
                            b,
                        ),
                    forall|k: int|
                        0 <= k < positional@.len() ==> crate::ast::expr_spans_below(
                            #[trigger] positional@[k],
                            cs@.len() as int,
                        ),
                decreases tokens@.len() - i,
            {
                let a = classify_arg(cs, src, tokens[i].0, tokens[i].1, errors);
                positional.push(a);
                i = i + 1;
            }
            proof {
                crate::ast::lemma_exprs_ids_below(positional@, self@.len() as int);
                crate::ast::lemma_exprs_spans_below(positional@, cs@.len() as int);
            }
            return Expression {
                expr: Expr::Call(
                    Box::new(crate::ast::Call { head: head_span, positional }),
                ),
                span,
            };
        }
        if tokens.len() == 1 {
            let e = classify_arg(cs, src, head.0, head.1, errors);
            return e;
        }
        errors.push(
            ParseError {
                span,
                message: String::from_str("a stage must be a call, a literal or an operation"),
            },
        );
        Expression { expr: Expr::Garbage, span }
    }

    /// Parses a range of source as a block: statements split on
    /// separators, stages split on pipes. Malformed pieces become garbage
    /// nodes with diagnostics; the parse always yields a block.
    fn parse_block_range(
        &mut self,
        cs: &Vec<char>,
        src: &str,
        start: usize,
        end: usize,
        errors: &mut Vec<ParseError>,
    ) -> (b: Block)
        requires
            old(self).wf(),
            start <= end <= cs@.len(),
            cs@.len() <= u32::MAX,
            cs@ == src@,
            old(self)@.len() + (end - start) <= usize::MAX,
        ensures
            final (self).wf(),
            final (self).permanent == old(self).permanent,
            old(self)@.len() <= final (self)@.len(),
            final (self)@.len() <= old(self)@.len() + (end - start),
            forall|id: int|
                0 <= id < old(self)@.len() ==> final (self)@[id] == old(self)@[id],
            block_ids_below(b, final (self)@.len() as int),
            b.stmts@.len() == spec_stmt_count(cs@, start as int, end as int),
            forall|i: int|
                0 <= i < b.stmts@.len() ==> ((#[trigger] b.stmts@[i]) matches Statement::Pipeline(
                    p,
                ) && p.expressions@.len() >= 1),
            crate::ast::block_spans_below(b, cs@.len() as int),
            errors_extended(old(errors)@, final (errors)@, cs@.len() as int),
        decreases end - start, 1int,
    {
        let ghost orig = self@;
        let mut stmts: Vec<Statement> = Vec::new();
        let mut pos: usize = start;
        proof {
            assert(stmts_exprs(stmts@) =~= Seq::<Expression>::empty());
        }
        while pos < end
            invariant
                start <= pos <= end <= cs@.len(),
                cs@.len() <= u32::MAX,
                cs@ == src@,
                self.wf(),
                self.permanent == old(self).permanent,
                orig == old(self)@,
                orig.len() <= self@.len(),
                self@.len() <= orig.len() + (pos - start),
                orig.len() + (end - start) <= usize::MAX,
                forall|id: int| 0 <= id < orig.len() ==> self@[id] == orig[id],
                exprs_ids_below(stmts_exprs(stmts@), self@.len() as int),
                spec_stmt_count(cs@, start as int, end as int) == stmts@.len()
                    + spec_stmt_count(cs@, pos as int, end as int),
                forall|i: int|
                    0 <= i < stmts@.len() ==> ((#[trigger] stmts@[i]) matches
                        Statement::Pipeline(p) && p.expressions@.len() >= 1),
                crate::ast::exprs_spans_below(stmts_exprs(stmts@), cs@.len() as int),
                errors_extended(old(errors)@, errors@, cs@.len() as int),
            decreases end - pos,
        {
            let stmt_end = scan_stmt_end(cs, pos, end);
            let mut exprs: Vec<Expression> = Vec::new();
            let mut st: usize = pos;
            while st < stmt_end
                invariant
                    pos <= st <= stmt_end <= end <= cs@.len(),
                    start <= pos,
                    cs@.len() <= u32::MAX,
                    cs@ == src@,
                    self.wf(),
                    self.permanent == old(self).permanent,
                    orig == old(self)@,
                    orig.len() <= self@.len(),
                    self@.len() <= orig.len() + (st - start),
                    orig.len() + (end - start) <= usize::MAX,
                    forall|id: int| 0 <= id < orig.len() ==> self@[id] == orig[id],
                    exprs_ids_below(stmts_exprs(stmts@), self@.len() as int),
                    exprs_ids_below(exprs@, self@.len() as int),
                    (exprs@.len() > 0) <==> seg_active(cs@, pos as int, st as int),
                    st > pos && st < stmt_end ==> exprs@.len() > 0,
                    crate::ast::exprs_spans_below(exprs@, cs@.len() as int),
                    errors_extended(old(errors)@, errors@, cs@.len() as int),
                decreases stmt_end - st,
            {
                let stage_end = scan_pipe_end(cs, st, stmt_end);
                let trimmed = trim_range(cs, st, stage_end);
                let ghost before = self@;
                if trimmed.0 < trimmed.1 {
                    let e = self.parse_stage(cs, src, trimmed.0, trimmed.1, errors);
                    proof {
                        crate::ast::lemma_exprs_ids_below(exprs@, before.len() as int);
                        crate::ast::lemma_exprs_ids_below(exprs@, self@.len() as int);
                        assert forall|k: int| 0 <= k < exprs@.len() implies
                            crate::ast::expr_ids_below(#[trigger] exprs@[k], self@.len() as int) by {
                            crate::ast::lemma_expr_ids_below_widen(
                                exprs@[k],
                                before.len() as int,
                                self@.len() as int,
                            );
                        }
                        crate::ast::lemma_exprs_ids_below(
                            stmts_exprs(stmts@),
                            before.len() as int,
                        );
                        crate::ast::lemma_exprs_ids_below(
                            stmts_exprs(stmts@),
                            self@.len() as int,
                        );
                        assert forall|k: int| 0 <= k < stmts_exprs(stmts@).len() implies
                            crate::ast::expr_ids_below(
                            #[trigger] stmts_exprs(stmts@)[k],
                            self@.len() as int,
                        ) by {
                            crate::ast::lemma_expr_ids_below_widen(
                                stmts_exprs(stmts@)[k],
                                before.len() as int,
                                self@.len() as int,
                            );
                        }
                    }
                    let ghost old_exprs = exprs@;
                    exprs.push(e);
                    proof {
                        crate::ast::lemma_exprs_ids_below(exprs@, self@.len() as int);
                        assert forall|k: int| 0 <= k < exprs@.len() implies
                            crate::ast::expr_ids_below(#[trigger] exprs@[k], self@.len() as int) by {
                            if k < old_exprs.len() {
                                assert(exprs@[k] == old_exprs[k]);
                            }
                        }
                        crate::ast::lemma_exprs_spans_below(old_exprs, cs@.len() as int);
                        crate::ast::lemma_exprs_spans_below(exprs@, cs@.len() as int);
                        assert forall|k: int| 0 <= k < exprs@.len() implies
                            crate::ast::expr_spans_below(
                            #[trigger] exprs@[k],
                            cs@.len() as int,
                        ) by {
                            if k < old_exprs.len() {
                                assert(exprs@[k] == old_exprs[k]);
                            }
                        }
                    }
                } else if stage_end < stmt_end || st > pos {
                    let gspan = Span::new(st as u32, stage_end as u32);
                    errors.push(
                        ParseError {
                            span: gspan,
                            message: String::from_str("empty pipeline stage"),
                        },
                    );
                    let ghost old_exprs = exprs@;
                    exprs.push(Expression { expr: Expr::Garbage, span: gspan });
                    proof {
                        crate::ast::lemma_exprs_ids_below(old_exprs, self@.len() as int);
                        crate::ast::lemma_exprs_ids_below(exprs@, self@.len() as int);
                        assert forall|k: int| 0 <= k < exprs@.len() implies
                            crate::ast::expr_ids_below(#[trigger] exprs@[k], self@.len() as int) by {
                            if k < old_exprs.len() {
                                assert(exprs@[k] == old_exprs[k]);
                            }
                        }
                        crate::ast::lemma_exprs_spans_below(old_exprs, cs@.len() as int);
                        crate::ast::lemma_exprs_spans_below(exprs@, cs@.len() as int);
                        assert forall|k: int| 0 <= k < exprs@.len() implies
                            crate::ast::expr_spans_below(
                            #[trigger] exprs@[k],
                            cs@.len() as int,
                        ) by {
                            if k < old_exprs.len() {
                                assert(exprs@[k] == old_exprs[k]);
                            }
                        }
                    }
                }
                let next_st: usize = if stage_end < stmt_end {
                    stage_end + 1
                } else {
                    stmt_end
                };
                proof {
                    if trimmed.0 < trimmed.1 {
                        assert(cs@[trimmed.0 as int] != ' ');
                        assert(seg_active(cs@, pos as int, next_st as int));
                    } else if stage_end < stmt_end {
                        assert(cs@[stage_end as int] != ' ');
                        assert(seg_active(cs@, pos as int, next_st as int));
                    } else if st > pos {
                        assert(seg_active(cs@, pos as int, st as int));
                        let j = choose|j: int| pos <= j < st && cs@[j] != ' ';
                        assert(cs@[j] != ' ');
                        assert(seg_active(cs@, pos as int, next_st as int));
                    } else {
                        assert(!seg_active(cs@, st as int, stage_end as int));
                        assert forall|j: int| pos <= j < next_st implies cs@[j] == ' ' by {}
                    }
                }
                st = next_st;
            }
            if exprs.len() > 0 {
                let ghost old_stmts = stmts@;
                let ghost gexprs = exprs;
                stmts.push(Statement::Pipeline(Pipeline { expressions: exprs }));
                proof {
                    crate::ast::lemma_stmts_exprs_snoc(
                        old_stmts,
                        Statement::Pipeline(Pipeline { expressions: gexprs }),
                    );
                    assert(stmts@ =~= old_stmts + seq![
                        Statement::Pipeline(Pipeline { expressions: gexprs }),
                    ]);
                    assert(stmt_exprs(
                        Statement::Pipeline(Pipeline { expressions: gexprs }),
                    ) == gexprs@);
                    crate::ast::lemma_exprs_ids_below(stmts_exprs(old_stmts), self@.len() as int);
                    crate::ast::lemma_exprs_ids_below(gexprs@, self@.len() as int);
                    crate::ast::lemma_exprs_ids_below(
                        stmts_exprs(stmts@),
                        self@.len() as int,
                    );
                    assert forall|k: int| 0 <= k < stmts_exprs(stmts@).len() implies
                        crate::ast::expr_ids_below(
                        #[trigger] stmts_exprs(stmts@)[k],
                        self@.len() as int,
                    ) by {
                        assert(stmts_exprs(stmts@) == stmts_exprs(old_stmts) + gexprs@);
                        if k < stmts_exprs(old_stmts).len() {
                            assert(stmts_exprs(stmts@)[k] == stmts_exprs(old_stmts)[k]);
                        } else {
                            assert(stmts_exprs(stmts@)[k] == gexprs@[k - stmts_exprs(
                                old_stmts,
                            ).len()]);
                        }
                    }
                    crate::ast::lemma_exprs_spans_below(stmts_exprs(old_stmts), cs@.len() as int);
                    crate::ast::lemma_exprs_spans_below(gexprs@, cs@.len() as int);
                    crate::ast::lemma_exprs_spans_below(stmts_exprs(stmts@), cs@.len() as int);
                    assert forall|k: int| 0 <= k < stmts_exprs(stmts@).len() implies
                        crate::ast::expr_spans_below(
                        #[trigger] stmts_exprs(stmts@)[k],
                        cs@.len() as int,
                    ) by {
                        assert(stmts_exprs(stmts@) == stmts_exprs(old_stmts) + gexprs@);
                        if k < stmts_exprs(old_stmts).len() {
                            assert(stmts_exprs(stmts@)[k] == stmts_exprs(old_stmts)[k]);
                        } else {
                            assert(stmts_exprs(stmts@)[k] == gexprs@[k - stmts_exprs(
                                old_stmts,
                            ).len()]);
                        }
                    }
                }
            }
            proof {
                assert(st == stmt_end);
                assert(spec_next_sep(cs@, pos as int, end as int) == stmt_end as int);
                assert(spec_stmt_count(cs@, pos as int, end as int) == (if seg_active(
                    cs@,
                    pos as int,
                    stmt_end as int,
                ) {
                    1int
                } else {
                    0int
                }) + (if (stmt_end as int) < end as int {
                    spec_stmt_count(cs@, stmt_end as int + 1, end as int)
                } else {
                    0int
                }));
            }
            if stmt_end < end {
                pos = stmt_end + 1;
            } else {
                pos = end;
            }
        }
        proof {
            assert(spec_stmt_count(cs@, pos as int, end as int) == 0);
        }
        Block { stmts }
    }

    /// Parses source text into a block of pipelines. New blocks (for
    /// subexpressions) accumulate in the delta; a non-speculative parse
    /// then merges the delta into the committed base, a speculative parse
    /// leaves the base exactly as it was, whatever the input looked like.
    /// Committed blocks never move: an id handed out earlier still
    /// resolves to the same block afterwards.
    pub fn parse_source(&mut self, input: &str, speculative: bool) -> (r: (
        Block,
        Vec<ParseError>,
    ))
        requires
            old(self).wf(),
            input@.len() <= u32::MAX,
            old(self)@.len() + input@.len() <= usize::MAX,
        ensures
            final (self).wf(),
            old(self)@.len() <= final (self)@.len(),
            forall|id: int|
                0 <= id < old(self)@.len() ==> final (self)@[id] == old(self)@[id],
            speculative ==> final (self).permanent == old(self).permanent,
            !speculative ==> final (self).permanent@ == final (self)@ && final (self).delta@.len()
                == 0,
            block_ids_below(r.0, final (self)@.len() as int),
            r.0.stmts@.len() == spec_stmt_count(input@, 0, input@.len() as int),
            forall|i: int|
                0 <= i < r.0.stmts@.len() ==> ((#[trigger] r.0.stmts@[i]) matches
                    Statement::Pipeline(p) && p.expressions@.len() >= 1),
            crate::ast::block_spans_below(r.0, input@.len() as int),
            forall|k: int|
                0 <= k < r.1@.len() ==> (#[trigger] r.1@[k]).span.end <= input@.len(),
    {
        let cs = crate::strutil::to_chars(input);
        let mut errors: Vec<ParseError> = Vec::new();
        let block = self.parse_block_range(&cs, input, 0, cs.len(), &mut errors);
        if !speculative {
            self.commit();
        }
        (block, errors)
    }
}

} // verus!
