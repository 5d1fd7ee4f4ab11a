//! Tree-walking evaluation.
//!
//! The environment is an append-only list of bindings from a name to an
//! *unevaluated* expression; a later binding shadows an earlier one.
//! Looking a name up re-evaluates the stored expression on every
//! reference, against the current environment, so a binding's value can
//! change when the names it mentions are rebound. The one restriction is
//! on the name being resolved itself: while the binding of `x` at index
//! `i` is re-evaluated, `x` inside it resolves below `i`, so a rebinding
//! such as `let x = x + 1;` reads the previous `x` and re-evaluation
//! cannot loop. Evaluation errors are fatal: the first one stops the run.

use crate::ast::{BinaryExpr, Expression, ExpressionM, LiteralKind, LiteralKindM, Statement,
    StatementM, UnaryExpr};
use crate::decimal::{dec_add_m, dec_div_m, dec_eq_m, dec_fits, dec_le_m, dec_lt_m, dec_mul_m,
    dec_neg_m, dec_rem_m, dec_render, dec_sub_m, Dec, DecM};
use crate::error::LoxError;
use crate::lexer::{TokenKind, TokenKindM, TokenM};
use crate::parser::{is_comparison_op, kind_name, kind_name_exec};
use crate::text::{append_i64, dec_digits, int_digits};
use vstd::prelude::*;
use vstd::string::StringExecFns;

verus! {

/// One binding: a name and the unevaluated expression stored under it.
#[derive(Debug)]
pub struct Binding {
    pub name: String,
    pub expr: Expression,
}

/// The mathematical content of a binding.
pub struct BindingM {
    pub name: Seq<char>,
    pub expr: ExpressionM,
}

impl View for Binding {
    type V = BindingM;

    open spec fn view(&self) -> BindingM {
        BindingM { name: self.name@, expr: self.expr@ }
    }
}

/// The binding table: append-only, later bindings shadow earlier ones.
#[derive(Debug)]
pub struct Environment {
    pub bindings: Vec<Binding>,
}

impl View for Environment {
    type V = Seq<BindingM>;

    open spec fn view(&self) -> Seq<BindingM> {
        self.bindings@.map_values(|b: Binding| b@)
    }
}

/// A found index carries the looked-up name and lies in range.
proof fn lemma_lookup_found(env: Seq<BindingM>, n: int, name: Seq<char>)
    requires
        0 <= n <= env.len(),
    ensures
        lookup(env, n, name) == -1 || (0 <= lookup(env, n, name) < n && env[lookup(
            env,
            n,
            name,
        )].name == name),
    decreases n,
{
    if n > 0 && !(env[n - 1].name == name) {
        lemma_lookup_found(env, n - 1, name);
    }
}

/// The chain of bindings currently being re-evaluated, outermost first:
/// distinct indices into the environment.
pub open spec fn chain_wf(env: Seq<BindingM>, chain: Seq<int>) -> bool {
    &&& chain.no_duplicates()
    &&& forall|k: int| 0 <= k < chain.len() ==> 0 <= #[trigger] chain[k] < env.len()
}

/// The lookup bound for `name`: the lowest chain entry bound to that
/// name — the binding of `name` currently being re-evaluated — or the
/// whole environment when no binding of `name` is on the chain.
pub open spec fn name_cap(env: Seq<BindingM>, chain: Seq<int>, name: Seq<char>) -> int
    decreases chain.len(),
{
    if chain.len() == 0 {
        env.len() as int
    } else {
        let rest = name_cap(env, chain.drop_first(), name);
        if 0 <= chain.first() < env.len() && env[chain.first()].name == name && chain.first()
            < rest {
            chain.first()
        } else {
            rest
        }
    }
}

proof fn lemma_name_cap_range(env: Seq<BindingM>, chain: Seq<int>, name: Seq<char>)
    ensures
        0 <= name_cap(env, chain, name) <= env.len(),
    decreases chain.len(),
{
    if chain.len() > 0 {
        lemma_name_cap_range(env, chain.drop_first(), name);
    }
}

/// The cap lies at or below every chain entry bound to the name.
proof fn lemma_name_cap_min(env: Seq<BindingM>, chain: Seq<int>, name: Seq<char>)
    ensures
        forall|k: int|
            0 <= k < chain.len() && 0 <= #[trigger] chain[k] < env.len() && env[chain[k]].name
                == name ==> name_cap(env, chain, name) <= chain[k],
    decreases chain.len(),
{
    if chain.len() > 0 {
        lemma_name_cap_min(env, chain.drop_first(), name);
        assert(forall|k: int|
            1 <= k < chain.len() ==> #[trigger] chain[k] == chain.drop_first()[k - 1]);
    }
}

/// A fresh binding index extends the chain: it stays duplicate-free and
/// cannot outgrow the environment.
proof fn lemma_chain_extend(env: Seq<BindingM>, chain: Seq<int>, i: int)
    requires
        chain_wf(env, chain),
        0 <= i < env.len(),
        forall|k: int| 0 <= k < chain.len() ==> #[trigger] chain[k] != i,
    ensures
        chain_wf(env, chain.push(i)),
        chain.push(i).len() <= env.len(),
{
    let longer = chain.push(i);
    assert(forall|p: int, q: int|
        0 <= p < longer.len() && 0 <= q < longer.len() && p != q ==> longer[p] != longer[q]) by {
        assert(forall|k: int| 0 <= k < chain.len() ==> #[trigger] longer[k] == chain[k]);
    }
    longer.unique_seq_to_set();
    let range = vstd::set_lib::set_int_range(0, env.len() as int);
    vstd::set_lib::lemma_int_range(0, env.len() as int);
    assert(longer.to_set().subset_of(range));
    vstd::set_lib::lemma_len_subset(longer.to_set(), range);
}

/// Index of the latest binding of `name` among the first `n`, or -1.
pub open spec fn lookup(env: Seq<BindingM>, n: int, name: Seq<char>) -> int
    decreases n,
        when 0 <= n <= env.len()
{
    if n <= 0 {
        -1
    } else if env[n - 1].name == name {
        n - 1
    } else {
        lookup(env, n - 1, name)
    }
}

pub open spec fn unbound_msg(name: Seq<char>) -> Seq<char> {
    "Unbound name "@ + name
}

/// The name of a value's kind, as runtime diagnostics print it.
pub open spec fn value_kind_name(v: LiteralKindM) -> Seq<char> {
    match v {
        LiteralKindM::Integer(_) => "Integer"@,
        LiteralKindM::Decimal(_) => "Decimal"@,
        LiteralKindM::QuotedString(_) => "QuotedString"@,
        LiteralKindM::Boolean(_) => "Boolean"@,
        LiteralKindM::Identifier(_) => "Identifier"@,
        LiteralKindM::Nil => "None"@,
    }
}

pub open spec fn binary_types_msg(a: LiteralKindM, b: LiteralKindM) -> Seq<char> {
    "Binary expression not allowed between those two types "@ + value_kind_name(a) + " and "@
        + value_kind_name(b)
}

pub open spec fn comparison_types_msg(a: LiteralKindM, b: LiteralKindM) -> Seq<char> {
    "Comparison expression not allowed between those two types "@ + value_kind_name(a) + " and "@
        + value_kind_name(b)
}

pub open spec fn unary_operand_msg(k: TokenKindM, v: LiteralKindM, line: int) -> Seq<char> {
    "Unary expression "@ + kind_name(k) + " not allowed with operand "@ + value_kind_name(v)
        + " at line "@ + dec_digits(line as nat)
}

pub open spec fn binary_bad_op_msg(k: TokenKindM) -> Seq<char> {
    "Binary expression should not contain operator "@ + kind_name(k)
}

pub open spec fn unary_bad_op_msg(k: TokenKindM) -> Seq<char> {
    "Unary expression should not contain operator "@ + kind_name(k)
}

pub open spec fn overflow_msg() -> Seq<char> {
    "Arithmetic overflow"@
}

pub open spec fn div_zero_msg() -> Seq<char> {
    "Division by zero"@
}

/// What evaluating an expression yields: a value or a fatal diagnostic.
pub enum EvalR {
    Val(LiteralKindM),
    Fault(Seq<char>),
}

pub open spec fn int_fits(x: int) -> bool {
    i64::MIN <= x <= i64::MAX
}

/// Division truncated toward zero, `None` outside the representable
/// range (Rust's checked signed division).
pub open spec fn trunc_div_checked(x: int, d: int) -> Option<int> {
    let output = if x == 0 {
        0
    } else if x > 0 && d > 0 {
        x / d
    } else if x < 0 && d < 0 {
        (x * -1) / (d * -1)
    } else if x < 0 {
        ((x * -1) / d) * -1
    } else {
        (x / (d * -1)) * -1
    };
    if int_fits(output) {
        Option::Some(output)
    } else {
        Option::None
    }
}

/// Remainder with the dividend's sign (Rust's checked signed remainder).
pub open spec fn trunc_rem_checked(x: int, d: int) -> Option<int> {
    let output = if x == 0 {
        0
    } else if x > 0 && d > 0 {
        x % d
    } else if x < 0 && d < 0 {
        ((x * -1) % (d * -1)) * -1
    } else if x < 0 {
        ((x * -1) % d) * -1
    } else {
        x % (d * -1)
    };
    if int_fits(output) {
        Option::Some(output)
    } else {
        Option::None
    }
}

/// Arithmetic over two integers: exact, with division truncating toward
/// zero; a result outside the 64-bit range or a zero divisor is an error.
pub open spec fn eval_int_arith(k: TokenKindM, x: int, y: int) -> EvalR {
    if k is Plus {
        if int_fits(x + y) {
            EvalR::Val(LiteralKindM::Integer(x + y))
        } else {
            EvalR::Fault(overflow_msg())
        }
    } else if k is Minus {
        if int_fits(x - y) {
            EvalR::Val(LiteralKindM::Integer(x - y))
        } else {
            EvalR::Fault(overflow_msg())
        }
    } else if k is Asterisk {
        if int_fits(x * y) {
            EvalR::Val(LiteralKindM::Integer(x * y))
        } else {
            EvalR::Fault(overflow_msg())
        }
    } else if k is ForwardSlash {
        if y == 0 {
            EvalR::Fault(div_zero_msg())
        } else {
            match trunc_div_checked(x, y) {
                Option::Some(q) => EvalR::Val(LiteralKindM::Integer(q)),
                Option::None => EvalR::Fault(overflow_msg()),
            }
        }
    } else {
        if y == 0 {
            EvalR::Fault(div_zero_msg())
        } else if x == i64::MIN && y == -1 {
            EvalR::Fault(overflow_msg())
        } else {
            match trunc_rem_checked(x, y) {
                Option::Some(q) => EvalR::Val(LiteralKindM::Integer(q)),
                Option::None => EvalR::Fault(overflow_msg()),
            }
        }
    }
}

/// Arithmetic over two decimals: exact sums, differences and products;
/// quotients truncated to [`crate::decimal::DIV_SCALE`] fraction digits.
pub open spec fn eval_dec_arith(k: TokenKindM, a: DecM, b: DecM) -> EvalR {
    if k is Plus {
        if dec_fits(dec_add_m(a, b)) {
            EvalR::Val(LiteralKindM::Decimal(dec_add_m(a, b)))
        } else {
            EvalR::Fault(overflow_msg())
        }
    } else if k is Minus {
        if dec_fits(dec_sub_m(a, b)) {
            EvalR::Val(LiteralKindM::Decimal(dec_sub_m(a, b)))
        } else {
            EvalR::Fault(overflow_msg())
        }
    } else if k is Asterisk {
        if dec_fits(dec_mul_m(a, b)) {
            EvalR::Val(LiteralKindM::Decimal(dec_mul_m(a, b)))
        } else {
            EvalR::Fault(overflow_msg())
        }
    } else if k is ForwardSlash {
        if b.m == 0 {
            EvalR::Fault(div_zero_msg())
        } else if dec_fits(dec_div_m(a, b)) {
            EvalR::Val(LiteralKindM::Decimal(dec_div_m(a, b)))
        } else {
            EvalR::Fault(overflow_msg())
        }
    } else {
        if b.m == 0 {
            EvalR::Fault(div_zero_msg())
        } else if dec_fits(dec_rem_m(a, b)) {
            EvalR::Val(LiteralKindM::Decimal(dec_rem_m(a, b)))
        } else {
            EvalR::Fault(overflow_msg())
        }
    }
}

/// Arithmetic with numeric promotion: an integer beside a decimal is
/// promoted, integer pairs stay integers; any other pairing is an error.
pub open spec fn eval_arith(k: TokenKindM, a: LiteralKindM, b: LiteralKindM) -> EvalR {
    match (a, b) {
        (LiteralKindM::Integer(x), LiteralKindM::Integer(y)) => eval_int_arith(k, x, y),
        (LiteralKindM::Integer(x), LiteralKindM::Decimal(d)) => eval_dec_arith(
            k,
            DecM { m: x, s: 0 },
            d,
        ),
        (LiteralKindM::Decimal(c), LiteralKindM::Integer(y)) => eval_dec_arith(
            k,
            c,
            DecM { m: y, s: 0 },
        ),
        (LiteralKindM::Decimal(c), LiteralKindM::Decimal(d)) => eval_dec_arith(k, c, d),
        _ => EvalR::Fault(binary_types_msg(a, b)),
    }
}

pub open spec fn int_cmp(k: TokenKindM, x: int, y: int) -> bool {
    if k is GreaterThan {
        x > y
    } else if k is GreaterEqual {
        x >= y
    } else if k is LessThan {
        x < y
    } else {
        x <= y
    }
}

pub open spec fn dec_cmp(k: TokenKindM, a: DecM, b: DecM) -> bool {
    if k is GreaterThan {
        dec_lt_m(b, a)
    } else if k is GreaterEqual {
        dec_le_m(b, a)
    } else if k is LessThan {
        dec_lt_m(a, b)
    } else {
        dec_le_m(a, b)
    }
}

pub open spec fn bool_cmp(k: TokenKindM, p: bool, q: bool) -> bool {
    if k is GreaterThan {
        p && !q
    } else if k is GreaterEqual {
        p || !q
    } else if k is LessThan {
        !p && q
    } else {
        !p || q
    }
}

/// Ordering with numeric promotion, also defined on two booleans.
pub open spec fn eval_cmp(k: TokenKindM, a: LiteralKindM, b: LiteralKindM) -> EvalR {
    match (a, b) {
        (LiteralKindM::Integer(x), LiteralKindM::Integer(y)) => EvalR::Val(
            LiteralKindM::Boolean(int_cmp(k, x, y)),
        ),
        (LiteralKindM::Integer(x), LiteralKindM::Decimal(d)) => EvalR::Val(
            LiteralKindM::Boolean(dec_cmp(k, DecM { m: x, s: 0 }, d)),
        ),
        (LiteralKindM::Decimal(c), LiteralKindM::Integer(y)) => EvalR::Val(
            LiteralKindM::Boolean(dec_cmp(k, c, DecM { m: y, s: 0 })),
        ),
        (LiteralKindM::Decimal(c), LiteralKindM::Decimal(d)) => EvalR::Val(
            LiteralKindM::Boolean(dec_cmp(k, c, d)),
        ),
        (LiteralKindM::Boolean(p), LiteralKindM::Boolean(q)) => EvalR::Val(
            LiteralKindM::Boolean(bool_cmp(k, p, q)),
        ),
        _ => EvalR::Fault(comparison_types_msg(a, b)),
    }
}

/// `==`: `None` equals only `None`; numbers compare with promotion,
/// booleans by value; any other pairing is an error.
pub open spec fn eval_eq_vals(a: LiteralKindM, b: LiteralKindM) -> EvalR {
    if a is Nil && b is Nil {
        EvalR::Val(LiteralKindM::Boolean(true))
    } else if a is Nil || b is Nil {
        EvalR::Val(LiteralKindM::Boolean(false))
    } else {
        match (a, b) {
            (LiteralKindM::Integer(x), LiteralKindM::Integer(y)) => EvalR::Val(
                LiteralKindM::Boolean(x == y),
            ),
            (LiteralKindM::Integer(x), LiteralKindM::Decimal(d)) => EvalR::Val(
                LiteralKindM::Boolean(dec_eq_m(DecM { m: x, s: 0 }, d)),
            ),
            (LiteralKindM::Decimal(c), LiteralKindM::Integer(y)) => EvalR::Val(
                LiteralKindM::Boolean(dec_eq_m(c, DecM { m: y, s: 0 })),
            ),
            (LiteralKindM::Decimal(c), LiteralKindM::Decimal(d)) => EvalR::Val(
                LiteralKindM::Boolean(dec_eq_m(c, d)),
            ),
            (LiteralKindM::Boolean(p), LiteralKindM::Boolean(q)) => EvalR::Val(
                LiteralKindM::Boolean(p == q),
            ),
            _ => EvalR::Fault(comparison_types_msg(a, b)),
        }
    }
}

/// `!=`: the negation of `==` wherever `==` is defined.
pub open spec fn eval_neq_vals(a: LiteralKindM, b: LiteralKindM) -> EvalR {
    match eval_eq_vals(a, b) {
        EvalR::Val(v) => match v {
            LiteralKindM::Boolean(e) => EvalR::Val(LiteralKindM::Boolean(!e)),
            _ => EvalR::Fault(comparison_types_msg(a, b)),
        },
        EvalR::Fault(m) => EvalR::Fault(m),
    }
}

/// One binary operator applied to two evaluated operands.
pub open spec fn eval_binary(op: TokenM, a: LiteralKindM, b: LiteralKindM) -> EvalR {
    let k = op.kind;
    if k is Plus || k is Minus || k is Asterisk || k is ForwardSlash || k is Percentage {
        eval_arith(k, a, b)
    } else if is_comparison_op(k) {
        eval_cmp(k, a, b)
    } else if k is Equal {
        eval_eq_vals(a, b)
    } else if k is NotEqual {
        eval_neq_vals(a, b)
    } else {
        EvalR::Fault(binary_bad_op_msg(k))
    }
}

/// One unary operator applied to an evaluated operand: `-` negates a
/// number, `!` negates a boolean and sends `None` to `true`.
pub open spec fn eval_unary(op: TokenM, v: LiteralKindM) -> EvalR {
    if op.kind is Minus {
        match v {
            LiteralKindM::Integer(x) => if int_fits(-x) {
                EvalR::Val(LiteralKindM::Integer(-x))
            } else {
                EvalR::Fault(overflow_msg())
            },
            LiteralKindM::Decimal(d) => if dec_fits(dec_neg_m(d)) {
                EvalR::Val(LiteralKindM::Decimal(dec_neg_m(d)))
            } else {
                EvalR::Fault(overflow_msg())
            },
            _ => EvalR::Fault(unary_operand_msg(op.kind, v, op.line)),
        }
    } else if op.kind is Bang {
        match v {
            LiteralKindM::Boolean(b) => EvalR::Val(LiteralKindM::Boolean(!b)),
            LiteralKindM::Nil => EvalR::Val(LiteralKindM::Boolean(true)),
            _ => EvalR::Fault(unary_operand_msg(op.kind, v, op.line)),
        }
    } else {
        EvalR::Fault(unary_bad_op_msg(op.kind))
    }
}

/// Evaluation of an expression against the current environment. A name
/// resolves to its latest binding and the stored expression is
/// re-evaluated on the spot; only a name already on the chain of
/// bindings being re-evaluated — the name's own binding — is resolved
/// below that binding, so re-evaluation always terminates.
pub open spec fn eval_expr(env: Seq<BindingM>, chain: Seq<int>, e: ExpressionM) -> EvalR
    decreases env.len() - chain.len(), e,
        when chain_wf(env, chain)
        via eval_expr_decreases
{
    match e {
        ExpressionM::Literal(l) => match l {
            LiteralKindM::Identifier(name) => {
                let c = name_cap(env, chain, name);
                let i = lookup(env, c, name);
                if 0 <= i < c {
                    eval_expr(env, chain.push(i), env[i].expr)
                } else {
                    EvalR::Fault(unbound_msg(name))
                }
            },
            _ => EvalR::Val(l),
        },
        ExpressionM::Grouping(inner) => eval_expr(env, chain, *inner),
        ExpressionM::Unary(op, rhs) => match eval_expr(env, chain, *rhs) {
            EvalR::Fault(m) => EvalR::Fault(m),
            EvalR::Val(v) => eval_unary(op, v),
        },
        ExpressionM::Binary(op, lhs, rhs) => match eval_expr(env, chain, *lhs) {
            EvalR::Fault(m) => EvalR::Fault(m),
            EvalR::Val(a) => match eval_expr(env, chain, *rhs) {
                EvalR::Fault(m) => EvalR::Fault(m),
                EvalR::Val(b) => eval_binary(op, a, b),
            },
        },
    }
}

#[via_fn]
proof fn eval_expr_decreases(env: Seq<BindingM>, chain: Seq<int>, e: ExpressionM) {
    if chain_wf(env, chain) {
        match e {
            ExpressionM::Literal(l) => match l {
                LiteralKindM::Identifier(name) => {
                    let c = name_cap(env, chain, name);
                    let i = lookup(env, c, name);
                    if 0 <= i < c {
                        lemma_name_cap_range(env, chain, name);
                        lemma_lookup_found(env, c, name);
                        lemma_name_cap_min(env, chain, name);
                        assert(forall|k: int| 0 <= k < chain.len() ==> #[trigger] chain[k] != i);
                        lemma_chain_extend(env, chain, i);
                    }
                },
                _ => {},
            },
            _ => {},
        }
    }
}

/// The textual form of an evaluated value, as `print` writes it.
pub open spec fn render_value_m(v: LiteralKindM) -> Seq<char> {
    match v {
        LiteralKindM::Integer(i) => int_digits(i),
        LiteralKindM::Decimal(d) => dec_render(d),
        LiteralKindM::QuotedString(s) => s,
        LiteralKindM::Boolean(b) => if b {
            "true"@
        } else {
            "false"@
        },
        LiteralKindM::Identifier(s) => s,
        LiteralKindM::Nil => "None"@,
    }
}

/// What one statement does: the environment afterwards, the line it
/// prints, and the error that stops the run, if any.
pub struct StepS {
    pub env: Seq<BindingM>,
    pub line: Option<Seq<char>>,
    pub err: Option<Seq<char>>,
}

pub open spec fn exec_stmt(env: Seq<BindingM>, st: StatementM) -> StepS {
    match st {
        StatementM::Print(e) => match eval_expr(env, Seq::empty(), *e) {
            EvalR::Val(v) => StepS { env: env, line: Option::Some(render_value_m(v)), err: Option::None },
            EvalR::Fault(m) => StepS { env: env, line: Option::None, err: Option::Some(m) },
        },
        StatementM::Let(n, e) => StepS {
            env: env.push(BindingM { name: n, expr: *e }),
            line: Option::None,
            err: Option::None,
        },
        StatementM::Assign(n, e) => StepS {
            env: env.push(BindingM { name: n, expr: *e }),
            line: Option::None,
            err: Option::None,
        },
        StatementM::Expr(e) => match eval_expr(env, Seq::empty(), *e) {
            EvalR::Val(v) => StepS { env: env, line: Option::None, err: Option::None },
            EvalR::Fault(m) => StepS { env: env, line: Option::None, err: Option::Some(m) },
        },
    }
}

pub open spec fn lines_of(l: Option<Seq<char>>) -> Seq<Seq<char>> {
    match l {
        Option::None => Seq::empty(),
        Option::Some(x) => seq![x],
    }
}

/// What a statement sequence does: the lines printed in order and the
/// final environment; the first evaluation error stops the run, and the
/// failing statement prints nothing.
pub struct RunR {
    pub env: Seq<BindingM>,
    pub lines: Seq<Seq<char>>,
    pub err: Option<Seq<char>>,
}

pub open spec fn run_stmts(env: Seq<BindingM>, stmts: Seq<StatementM>) -> RunR
    decreases stmts.len(),
{
    if stmts.len() == 0 {
        RunR { env: env, lines: Seq::empty(), err: Option::None }
    } else {
        let s1 = exec_stmt(env, stmts.first());
        match s1.err {
            Option::Some(m) => RunR { env: s1.env, lines: Seq::empty(), err: Option::Some(m) },
            Option::None => {
                let rest = run_stmts(s1.env, stmts.drop_first());
                RunR { env: rest.env, lines: lines_of(s1.line) + rest.lines, err: rest.err }
            },
        }
    }
}


fn value_kind_name_exec(v: &LiteralKind) -> (n: String)
    ensures
        n@ == value_kind_name(v@),
{
    proof {
        reveal_strlit("Integer");
        reveal_strlit("Decimal");
        reveal_strlit("QuotedString");
        reveal_strlit("Boolean");
        reveal_strlit("Identifier");
        reveal_strlit("None");
    }
    match v {
        LiteralKind::Integer(_) => String::from_str("Integer"),
        LiteralKind::Decimal(_) => String::from_str("Decimal"),
        LiteralKind::QuotedString(_) => String::from_str("QuotedString"),
        LiteralKind::Boolean(_) => String::from_str("Boolean"),
        LiteralKind::Identifier(_) => String::from_str("Identifier"),
        LiteralKind::Nil => String::from_str("None"),
    }
}

fn unbound_message(name: &String) -> (m: String)
    ensures
        m@ == unbound_msg(name@),
{
    proof {
        reveal_strlit("Unbound name ");
    }
    let mut m = String::from_str("Unbound name ");
    m.append(name.as_str());
    proof {
        assert(m@ =~= unbound_msg(name@));
    }
    m
}

fn binary_types_message(a: &LiteralKind, b: &LiteralKind) -> (m: String)
    ensures
        m@ == binary_types_msg(a@, b@),
{
    proof {
        reveal_strlit("Binary expression not allowed between those two types ");
        reveal_strlit(" and ");
    }
    let mut m = String::from_str("Binary expression not allowed between those two types ");
    let na = value_kind_name_exec(a);
    m.append(na.as_str());
    m.append(" and ");
    let nb = value_kind_name_exec(b);
    m.append(nb.as_str());
    proof {
        assert(m@ =~= binary_types_msg(a@, b@));
    }
    m
}

fn comparison_types_message(a: &LiteralKind, b: &LiteralKind) -> (m: String)
    ensures
        m@ == comparison_types_msg(a@, b@),
{
    proof {
        reveal_strlit("Comparison expression not allowed between those two types ");
        reveal_strlit(" and ");
    }
    let mut m = String::from_str("Comparison expression not allowed between those two types ");
    let na = value_kind_name_exec(a);
    m.append(na.as_str());
    m.append(" and ");
    let nb = value_kind_name_exec(b);
    m.append(nb.as_str());
    proof {
        assert(m@ =~= comparison_types_msg(a@, b@));
    }
    m
}

fn unary_operand_message(k: &TokenKind, v: &LiteralKind, line: usize) -> (m: String)
    ensures
        m@ == unary_operand_msg(k@, v@, line as int),
{
    proof {
        reveal_strlit("Unary expression ");
        reveal_strlit(" not allowed with operand ");
        reveal_strlit(" at line ");
    }
    let mut m = String::from_str("Unary expression ");
    let nk = kind_name_exec(k);
    m.append(nk.as_str());
    m.append(" not allowed with operand ");
    let nv = value_kind_name_exec(v);
    m.append(nv.as_str());
    m.append(" at line ");
    crate::text::append_u64(&mut m, line as u64);
    proof {
        assert(m@ =~= unary_operand_msg(k@, v@, line as int));
    }
    m
}

fn binary_bad_op_message(k: &TokenKind) -> (m: String)
    ensures
        m@ == binary_bad_op_msg(k@),
{
    proof {
        reveal_strlit("Binary expression should not contain operator ");
    }
    let mut m = String::from_str("Binary expression should not contain operator ");
    let nk = kind_name_exec(k);
    m.append(nk.as_str());
    proof {
        assert(m@ =~= binary_bad_op_msg(k@));
    }
    m
}

fn unary_bad_op_message(k: &TokenKind) -> (m: String)
    ensures
        m@ == unary_bad_op_msg(k@),
{
    proof {
        reveal_strlit("Unary expression should not contain operator ");
    }
    let mut m = String::from_str("Unary expression should not contain operator ");
    let nk = kind_name_exec(k);
    m.append(nk.as_str());
    proof {
        assert(m@ =~= unary_bad_op_msg(k@));
    }
    m
}

fn overflow_message() -> (m: String)
    ensures
        m@ == overflow_msg(),
{
    proof {
        reveal_strlit("Arithmetic overflow");
    }
    String::from_str("Arithmetic overflow")
}

fn div_zero_message() -> (m: String)
    ensures
        m@ == div_zero_msg(),
{
    proof {
        reveal_strlit("Division by zero");
    }
    String::from_str("Division by zero")
}

/// A value's textual form, as `print` writes it.
pub fn render_value(v: &LiteralKind) -> (s: String)
    ensures
        s@ == render_value_m(v@),
{
    proof {
        reveal_strlit("true");
        reveal_strlit("false");
        reveal_strlit("None");
    }
    match v {
        LiteralKind::Integer(i) => {
            let mut s = String::new();
            append_i64(&mut s, *i);
            proof {
                assert(s@ =~= render_value_m(v@));
            }
            s
        },
        LiteralKind::Decimal(d) => d.to_text(),
        LiteralKind::QuotedString(t) => t.clone(),
        LiteralKind::Boolean(b) => if *b {
            String::from_str("true")
        } else {
            String::from_str("false")
        },
        LiteralKind::Identifier(t) => t.clone(),
        LiteralKind::Nil => String::from_str("None"),
    }
}

/// An owned copy of a value, for handing a literal out of a tree.
fn clone_literal(l: &LiteralKind) -> (r: LiteralKind)
    ensures
        r@ == l@,
{
    match l {
        LiteralKind::Integer(i) => LiteralKind::Integer(*i),
        LiteralKind::Decimal(d) => LiteralKind::Decimal(*d),
        LiteralKind::QuotedString(s) => LiteralKind::QuotedString(s.clone()),
        LiteralKind::Boolean(b) => LiteralKind::Boolean(*b),
        LiteralKind::Identifier(s) => LiteralKind::Identifier(s.clone()),
        LiteralKind::Nil => LiteralKind::Nil,
    }
}

/// Finds the latest binding of `name` among the first `n`.
fn lookup_exec(env: &Environment, n: usize, name: &String) -> (r: Option<usize>)
    requires
        n <= env@.len(),
    ensures
        match r {
            Option::Some(i) => lookup(env@, n as int, name@) == i && i < n,
            Option::None => lookup(env@, n as int, name@) == -1,
        },
{
    let mut j: usize = n;
    while j > 0
        invariant
            j <= n <= env@.len(),
            env@.len() == env.bindings@.len(),
            lookup(env@, n as int, name@) == lookup(env@, j as int, name@),
        decreases j,
    {
        j = j - 1;
        if self_name_eq(&env.bindings[j].name, name) {
            return Option::Some(j);
        }
    }
    Option::None
}

fn self_name_eq(a: &String, b: &String) -> (r: bool)
    ensures
        r == (a@ == b@),
{
    a.eq(b)
}

/// Integer arithmetic for one operator.
fn int_arith_exec(k: &TokenKind, x: i64, y: i64) -> (r: Result<LiteralKind, LoxError>)
    requires
        k@ is Plus || k@ is Minus || k@ is Asterisk || k@ is ForwardSlash || k@ is Percentage,
    ensures
        match r {
            Result::Ok(v) => eval_int_arith(k@, x as int, y as int) == EvalR::Val(v@),
            Result::Err(le) => (le matches LoxError::RuntimeError(pm) && eval_int_arith(
                k@,
                x as int,
                y as int,
            ) == EvalR::Fault(pm@)),
        },
{
    let res: Option<i64> = match k {
        TokenKind::Plus => x.checked_add(y),
        TokenKind::Minus => x.checked_sub(y),
        TokenKind::Asterisk => x.checked_mul(y),
        TokenKind::ForwardSlash => {
            if y == 0 {
                return Result::Err(LoxError::RuntimeError(div_zero_message()));
            }
            x.checked_div(y)
        },
        _ => {
            if y == 0 {
                return Result::Err(LoxError::RuntimeError(div_zero_message()));
            }
            x.checked_rem(y)
        },
    };
    match res {
        Option::Some(v) => Result::Ok(LiteralKind::Integer(v)),
        Option::None => Result::Err(LoxError::RuntimeError(overflow_message())),
    }
}

/// Decimal arithmetic for one operator.
fn dec_arith_exec(k: &TokenKind, a: Dec, b: Dec) -> (r: Result<LiteralKind, LoxError>)
    requires
        k@ is Plus || k@ is Minus || k@ is Asterisk || k@ is ForwardSlash || k@ is Percentage,
    ensures
        match r {
            Result::Ok(v) => eval_dec_arith(k@, a@, b@) == EvalR::Val(v@),
            Result::Err(le) => (le matches LoxError::RuntimeError(pm) && eval_dec_arith(
                k@,
                a@,
                b@,
            ) == EvalR::Fault(pm@)),
        },
{
    let res: Option<Dec> = match k {
        TokenKind::Plus => a.checked_add(&b),
        TokenKind::Minus => a.checked_sub(&b),
        TokenKind::Asterisk => a.checked_mul(&b),
        TokenKind::ForwardSlash => {
            if b.mantissa() == 0 {
                return Result::Err(LoxError::RuntimeError(div_zero_message()));
            }
            a.checked_div(&b)
        },
        _ => {
            if b.mantissa() == 0 {
                return Result::Err(LoxError::RuntimeError(div_zero_message()));
            }
            a.checked_rem(&b)
        },
    };
    match res {
        Option::Some(v) => Result::Ok(LiteralKind::Decimal(v)),
        Option::None => Result::Err(LoxError::RuntimeError(overflow_message())),
    }
}

/// Arithmetic with numeric promotion.
fn arith_exec(k: &TokenKind, a: LiteralKind, b: LiteralKind) -> (r: Result<LiteralKind, LoxError>)
    requires
        k@ is Plus || k@ is Minus || k@ is Asterisk || k@ is ForwardSlash || k@ is Percentage,
    ensures
        match r {
            Result::Ok(v) => eval_arith(k@, a@, b@) == EvalR::Val(v@),
            Result::Err(le) => (le matches LoxError::RuntimeError(pm) && eval_arith(k@, a@, b@)
                == EvalR::Fault(pm@)),
        },
{
    match (&a, &b) {
        (LiteralKind::Integer(x), LiteralKind::Integer(y)) => int_arith_exec(k, *x, *y),
        (LiteralKind::Integer(x), LiteralKind::Decimal(d)) => dec_arith_exec(
            k,
            Dec::from_int(*x),
            *d,
        ),
        (LiteralKind::Decimal(c), LiteralKind::Integer(y)) => dec_arith_exec(
            k,
            *c,
            Dec::from_int(*y),
        ),
        (LiteralKind::Decimal(c), LiteralKind::Decimal(d)) => dec_arith_exec(k, *c, *d),
        _ => Result::Err(LoxError::RuntimeError(binary_types_message(&a, &b))),
    }
}

/// Decimal ordering for one operator.
fn dec_cmp_exec(k: &TokenKind, a: Dec, b: Dec) -> (r: bool)
    requires
        is_comparison_op(k@),
    ensures
        r == dec_cmp(k@, a@, b@),
{
    match k {
        TokenKind::GreaterThan => b.lt_val(&a),
        TokenKind::GreaterEqual => b.le_val(&a),
        TokenKind::LessThan => a.lt_val(&b),
        _ => a.le_val(&b),
    }
}

/// Ordering with numeric promotion, also defined on two booleans.
fn cmp_exec(k: &TokenKind, a: LiteralKind, b: LiteralKind) -> (r: Result<LiteralKind, LoxError>)
    requires
        is_comparison_op(k@),
    ensures
        match r {
            Result::Ok(v) => eval_cmp(k@, a@, b@) == EvalR::Val(v@),
            Result::Err(le) => (le matches LoxError::RuntimeError(pm) && eval_cmp(k@, a@, b@)
                == EvalR::Fault(pm@)),
        },
{
    match (&a, &b) {
        (LiteralKind::Integer(x), LiteralKind::Integer(y)) => {
            let c = match k {
                TokenKind::GreaterThan => *x > *y,
                TokenKind::GreaterEqual => *x >= *y,
                TokenKind::LessThan => *x < *y,
                _ => *x <= *y,
            };
            Result::Ok(LiteralKind::Boolean(c))
        },
        (LiteralKind::Integer(x), LiteralKind::Decimal(d)) => Result::Ok(
            LiteralKind::Boolean(dec_cmp_exec(k, Dec::from_int(*x), *d)),
        ),
        (LiteralKind::Decimal(c), LiteralKind::Integer(y)) => Result::Ok(
            LiteralKind::Boolean(dec_cmp_exec(k, *c, Dec::from_int(*y))),
        ),
        (LiteralKind::Decimal(c), LiteralKind::Decimal(d)) => Result::Ok(
            LiteralKind::Boolean(dec_cmp_exec(k, *c, *d)),
        ),
        (LiteralKind::Boolean(p), LiteralKind::Boolean(q)) => {
            let c = match k {
                TokenKind::GreaterThan => *p && !*q,
                TokenKind::GreaterEqual => *p || !*q,
                TokenKind::LessThan => !*p && *q,
                _ => !*p || *q,
            };
            Result::Ok(LiteralKind::Boolean(c))
        },
        _ => Result::Err(LoxError::RuntimeError(comparison_types_message(&a, &b))),
    }
}

/// Equality with its `None` special case.
fn eq_exec(a: LiteralKind, b: LiteralKind) -> (r: Result<LiteralKind, LoxError>)
    ensures
        match r {
            Result::Ok(v) => eval_eq_vals(a@, b@) == EvalR::Val(v@),
            Result::Err(le) => (le matches LoxError::RuntimeError(pm) && eval_eq_vals(a@, b@)
                == EvalR::Fault(pm@)),
        },
{
    let a_nil = matches!(a, LiteralKind::Nil);
    let b_nil = matches!(b, LiteralKind::Nil);
    if a_nil && b_nil {
        Result::Ok(LiteralKind::Boolean(true))
    } else if a_nil || b_nil {
        Result::Ok(LiteralKind::Boolean(false))
    } else {
        match (&a, &b) {
            (LiteralKind::Integer(x), LiteralKind::Integer(y)) => Result::Ok(
                LiteralKind::Boolean(*x == *y),
            ),
            (LiteralKind::Integer(x), LiteralKind::Decimal(d)) => Result::Ok(
                LiteralKind::Boolean(Dec::from_int(*x).eq_val(d)),
            ),
            (LiteralKind::Decimal(c), LiteralKind::Integer(y)) => Result::Ok(
                LiteralKind::Boolean(c.eq_val(&Dec::from_int(*y))),
            ),
            (LiteralKind::Decimal(c), LiteralKind::Decimal(d)) => Result::Ok(
                LiteralKind::Boolean(c.eq_val(d)),
            ),
            (LiteralKind::Boolean(p), LiteralKind::Boolean(q)) => Result::Ok(
                LiteralKind::Boolean(*p == *q),
            ),
            _ => Result::Err(LoxError::RuntimeError(comparison_types_message(&a, &b))),
        }
    }
}

/// Inequality: the negation of equality wherever it is defined.
fn neq_exec(a: LiteralKind, b: LiteralKind) -> (r: Result<LiteralKind, LoxError>)
    ensures
        match r {
            Result::Ok(v) => eval_neq_vals(a@, b@) == EvalR::Val(v@),
            Result::Err(le) => (le matches LoxError::RuntimeError(pm) && eval_neq_vals(a@, b@)
                == EvalR::Fault(pm@)),
        },
{
    match eq_exec(a, b) {
        Result::Err(e) => Result::Err(e),
        Result::Ok(v) => match v {
            LiteralKind::Boolean(e) => Result::Ok(LiteralKind::Boolean(!e)),
            _ => Result::Ok(v),
        },
    }
}


/// The evaluation stack's entries as chain indices.
pub open spec fn chain_of(stack: Seq<usize>) -> Seq<int> {
    stack.map_values(|u: usize| u as int)
}

/// The lookup bound for `name` given the bindings on the stack: the
/// lowest stack entry bound to that name, or the whole environment.
fn name_cap_exec(env: &Environment, stack: &Vec<usize>, name: &String) -> (c: usize)
    ensures
        c == name_cap(env@, chain_of(stack@), name@),
        c <= env@.len(),
{
    let ghost chain = chain_of(stack@);
    let mut c: usize = env.bindings.len();
    let mut k: usize = stack.len();
    proof {
        assert(chain.skip(k as int) =~= Seq::<int>::empty());
        assert(env@.len() == env.bindings@.len());
    }
    while k > 0
        invariant
            k <= stack@.len(),
            chain == chain_of(stack@),
            c <= env@.len(),
            env@.len() == env.bindings@.len(),
            c as int == name_cap(env@, chain.skip(k as int), name@),
        decreases k,
    {
        k = k - 1;
        proof {
            assert(chain.skip(k as int).first() == chain[k as int]);
            assert(chain.skip(k as int).drop_first() =~= chain.skip(k as int + 1));
        }
        let idx = stack[k];
        if idx < env.bindings.len() && idx < c && self_name_eq(&env.bindings[idx].name, name) {
            c = idx;
        }
    }
    proof {
        assert(chain.skip(0) =~= chain);
    }
    c
}

impl Expression {
    /// Evaluates against the whole environment.
    pub fn eval(&self, env: &Environment) -> (r: Result<LiteralKind, LoxError>)
        ensures
            match r {
                Result::Ok(v) => eval_expr(env@, Seq::empty(), self@) == EvalR::Val(v@),
                Result::Err(le) => (le matches LoxError::RuntimeError(pm) && eval_expr(
                    env@,
                    Seq::empty(),
                    self@,
                ) == EvalR::Fault(pm@)),
            },
    {
        let mut stack: Vec<usize> = Vec::new();
        proof {
            assert(chain_of(stack@) =~= Seq::<int>::empty());
        }
        self.eval_scoped(env, &mut stack)
    }

    /// Evaluates with the bindings on `stack` under re-evaluation: names
    /// they bind resolve below them. The stack is handed back as it was.
    pub fn eval_scoped(&self, env: &Environment, stack: &mut Vec<usize>) -> (r: Result<
        LiteralKind,
        LoxError,
    >)
        requires
            chain_wf(env@, chain_of(old(stack)@)),
        ensures
            final(stack)@ == old(stack)@,
            match r {
                Result::Ok(v) => eval_expr(env@, chain_of(old(stack)@), self@) == EvalR::Val(v@),
                Result::Err(le) => (le matches LoxError::RuntimeError(pm) && eval_expr(
                    env@,
                    chain_of(old(stack)@),
                    self@,
                ) == EvalR::Fault(pm@)),
            },
        decreases env@.len() - stack@.len(), self,
    {
        let ghost chain = chain_of(stack@);
        match self {
            Expression::Literal(l) => match l {
                LiteralKind::Identifier(name) => {
                    let c = name_cap_exec(env, stack, name);
                    match lookup_exec(env, c, name) {
                        Option::Some(i) => {
                            proof {
                                assert(env@[i as int] == env.bindings@.map_values(|b: Binding| b@)[
                                    i as int
                                ]);
                                lemma_name_cap_range(env@, chain, name@);
                                lemma_lookup_found(env@, c as int, name@);
                                lemma_name_cap_min(env@, chain, name@);
                                assert(forall|k: int|
                                    0 <= k < chain.len() ==> #[trigger] chain[k] != i as int);
                                lemma_chain_extend(env@, chain, i as int);
                            }
                            let ghost stack0 = stack@;
                            stack.push(i);
                            proof {
                                assert(chain_of(stack@) =~= chain.push(i as int));
                            }
                            let res = env.bindings[i].expr.eval_scoped(env, stack);
                            stack.pop();
                            proof {
                                assert(stack@ =~= stack0);
                            }
                            res
                        },
                        Option::None => Result::Err(
                            LoxError::RuntimeError(unbound_message(name)),
                        ),
                    }
                },
                _ => Result::Ok(clone_literal(l)),
            },
            Expression::Grouping(inner) => inner.eval_scoped(env, stack),
            Expression::Unary(u) => u.eval(env, stack),
            Expression::Binary(b) => b.eval(env, stack),
        }
    }
}

impl BinaryExpr {
    /// Evaluates both sides, then applies the operator.
    pub fn eval(&self, env: &Environment, stack: &mut Vec<usize>) -> (r: Result<
        LiteralKind,
        LoxError,
    >)
        requires
            chain_wf(env@, chain_of(old(stack)@)),
        ensures
            final(stack)@ == old(stack)@,
            ({
                let sp = eval_expr(
                    env@,
                    chain_of(old(stack)@),
                    ExpressionM::Binary(
                        self.operator@,
                        Box::new(self.lhs@),
                        Box::new(self.rhs@),
                    ),
                );
                match r {
                    Result::Ok(v) => sp == EvalR::Val(v@),
                    Result::Err(le) => (le matches LoxError::RuntimeError(pm) && sp
                        == EvalR::Fault(pm@)),
                }
            }),
        decreases env@.len() - stack@.len(), self,
    {
        let lhs = match self.lhs.eval_scoped(env, stack) {
            Result::Err(e) => {
                return Result::Err(e);
            },
            Result::Ok(v) => v,
        };
        let rhs = match self.rhs.eval_scoped(env, stack) {
            Result::Err(e) => {
                return Result::Err(e);
            },
            Result::Ok(v) => v,
        };
        match &self.operator.kind {
            TokenKind::Plus | TokenKind::Minus | TokenKind::Asterisk | TokenKind::ForwardSlash
                | TokenKind::Percentage => arith_exec(&self.operator.kind, lhs, rhs),
            TokenKind::GreaterThan | TokenKind::GreaterEqual | TokenKind::LessThan
                | TokenKind::LessEqual => cmp_exec(&self.operator.kind, lhs, rhs),
            TokenKind::Equal => eq_exec(lhs, rhs),
            TokenKind::NotEqual => neq_exec(lhs, rhs),
            _ => Result::Err(
                LoxError::RuntimeError(binary_bad_op_message(&self.operator.kind)),
            ),
        }
    }
}

impl UnaryExpr {
    /// Evaluates the operand, then applies the prefix operator.
    pub fn eval(&self, env: &Environment, stack: &mut Vec<usize>) -> (r: Result<
        LiteralKind,
        LoxError,
    >)
        requires
            chain_wf(env@, chain_of(old(stack)@)),
        ensures
            final(stack)@ == old(stack)@,
            ({
                let sp = eval_expr(
                    env@,
                    chain_of(old(stack)@),
                    ExpressionM::Unary(self.operator@, Box::new(self.rhs@)),
                );
                match r {
                    Result::Ok(v) => sp == EvalR::Val(v@),
                    Result::Err(le) => (le matches LoxError::RuntimeError(pm) && sp
                        == EvalR::Fault(pm@)),
                }
            }),
        decreases env@.len() - stack@.len(), self,
    {
        let rhs = match self.rhs.eval_scoped(env, stack) {
            Result::Err(e) => {
                return Result::Err(e);
            },
            Result::Ok(v) => v,
        };
        match &self.operator.kind {
            TokenKind::Minus => match &rhs {
                LiteralKind::Integer(x) => match (0i64).checked_sub(*x) {
                    Option::Some(v) => Result::Ok(LiteralKind::Integer(v)),
                    Option::None => Result::Err(LoxError::RuntimeError(overflow_message())),
                },
                LiteralKind::Decimal(d) => match d.checked_neg() {
                    Option::Some(v) => Result::Ok(LiteralKind::Decimal(v)),
                    Option::None => Result::Err(LoxError::RuntimeError(overflow_message())),
                },
                _ => Result::Err(
                    LoxError::RuntimeError(
                        unary_operand_message(&self.operator.kind, &rhs, self.operator.span.line),
                    ),
                ),
            },
            TokenKind::Bang => match &rhs {
                LiteralKind::Boolean(b) => Result::Ok(LiteralKind::Boolean(!*b)),
                LiteralKind::Nil => Result::Ok(LiteralKind::Boolean(true)),
                _ => Result::Err(
                    LoxError::RuntimeError(
                        unary_operand_message(&self.operator.kind, &rhs, self.operator.span.line),
                    ),
                ),
            },
            _ => Result::Err(
                LoxError::RuntimeError(unary_bad_op_message(&self.operator.kind)),
            ),
        }
    }
}


/// Walks a statement sequence for effect: printed lines and bindings.
pub struct Interpreter {
    env: Environment,
}

impl View for Interpreter {
    type V = Seq<BindingM>;

    closed spec fn view(&self) -> Seq<BindingM> {
        self.env@
    }
}

impl Interpreter {
    /// A fresh interpreter with an empty environment.
    pub fn new() -> (it: Interpreter)
        ensures
            it@ == Seq::<BindingM>::empty(),
    {
        let it = Interpreter { env: Environment { bindings: Vec::new() } };
        proof {
            assert(it@ =~= Seq::<BindingM>::empty());
        }
        it
    }

    /// Executes the statements in order. Each `print` appends its line to
    /// `output`; the first evaluation error stops the run and is handed
    /// back, with every earlier line already in `output`.
    #[verifier::loop_isolation(false)]
    pub fn execute(&mut self, statements: Vec<Statement>, output: &mut Vec<String>) -> (r: Result<
        (),
        LoxError,
    >)
        ensures
            ({
                let run = run_stmts(old(self)@, statements@.map_values(|s: Statement| s@));
                &&& final(self)@ == run.env
                &&& final(output)@.map_values(|l: String| l@) == old(output)@.map_values(
                    |l: String| l@,
                ) + run.lines
                &&& match r {
                    Result::Ok(u) => run.err is None,
                    Result::Err(le) => (le matches LoxError::RuntimeError(pm) && run.err
                        == Option::Some(pm@)),
                }
            }),
    {
        let ghost all = statements@.map_values(|s: Statement| s@);
        let ghost run = run_stmts(old(self)@, all);
        let ghost out0 = output@.map_values(|l: String| l@);
        let mut statements = statements;
        while statements.len() > 0
            invariant
                ({
                    let rem = statements@.map_values(|s: Statement| s@);
                    let here = run_stmts(self@, rem);
                    &&& here.env == run.env || here.err is Some
                    &&& (here.err is Some ==> run.err == here.err && run.env == here.env)
                    &&& (here.err is None ==> run.err is None && run.env == here.env)
                    &&& output@.map_values(|l: String| l@) + here.lines == out0 + run.lines
                }),
            decreases statements@.len(),
        {
            let ghost rem_pre = statements@.map_values(|s: Statement| s@);
            let ghost env_pre = self@;
            let st = statements.remove(0);
            proof {
                assert(statements@.map_values(|s: Statement| s@) =~= rem_pre.drop_first());
                assert(st@ == rem_pre.first());
            }
            let ghost step = exec_stmt(env_pre, st@);
            match st {
                Statement::Print(e) => {
                    match e.eval(&self.env) {
                        Result::Err(le) => {
                            return Result::Err(le);
                        },
                        Result::Ok(v) => {
                            let line = render_value(&v);
                            output.push(line);
                        },
                    }
                },
                Statement::Let(name, e) => {
                    self.env.bindings.push(Binding { name: name, expr: *e });
                    proof {
                        assert(self@ =~= env_pre.push(step.env.last()));
                    }
                },
                Statement::Assign(name, e) => {
                    self.env.bindings.push(Binding { name: name, expr: *e });
                    proof {
                        assert(self@ =~= env_pre.push(step.env.last()));
                    }
                },
                Statement::Expr(e) => {
                    match e.eval(&self.env) {
                        Result::Err(le) => {
                            return Result::Err(le);
                        },
                        Result::Ok(v) => {},
                    }
                },
            }
            proof {
                let rem = statements@.map_values(|s: Statement| s@);
                let here = run_stmts(self@, rem);
                assert(output@.map_values(|l: String| l@) + here.lines =~= out0 + run.lines);
            }
        }
        proof {
            assert(output@.map_values(|l: String| l@) =~= output@.map_values(|l: String| l@)
                + Seq::<Seq<char>>::empty());
        }
        Result::Ok(())
    }
}


/// Round-trip arithmetic: for any two integers, `+`, `-` and `*`
/// evaluate to the exact sum, difference and product whenever it is
/// representable, and `/` with a non-zero divisor is truncating integer
/// division — the result is again an integer, never a decimal.
pub proof fn lemma_round_trip_arithmetic(
    env: Seq<BindingM>,
    chain: Seq<int>,
    op: TokenM,
    a: int,
    b: int,
)
    requires
        chain_wf(env, chain),
        int_fits(a),
        int_fits(b),
    ensures
        ({
            let e = ExpressionM::Binary(
                op,
                Box::new(ExpressionM::Literal(LiteralKindM::Integer(a))),
                Box::new(ExpressionM::Literal(LiteralKindM::Integer(b))),
            );
            &&& (op.kind is Plus && int_fits(a + b) ==> eval_expr(env, chain, e) == EvalR::Val(
                LiteralKindM::Integer(a + b),
            ))
            &&& (op.kind is Minus && int_fits(a - b) ==> eval_expr(env, chain, e) == EvalR::Val(
                LiteralKindM::Integer(a - b),
            ))
            &&& (op.kind is Asterisk && int_fits(a * b) ==> eval_expr(env, chain, e) == EvalR::Val(
                LiteralKindM::Integer(a * b),
            ))
            &&& (op.kind is ForwardSlash && b != 0 && !(a == i64::MIN && b == -1) ==> eval_expr(
                env,
                chain,
                e,
            ) == EvalR::Val(LiteralKindM::Integer(trunc_div_checked(a, b)->0)) && trunc_div_checked(
                a,
                b,
            ) is Some)
        }),
{
    let la = ExpressionM::Literal(LiteralKindM::Integer(a));
    let lb = ExpressionM::Literal(LiteralKindM::Integer(b));
    assert(eval_expr(env, chain, la) == EvalR::Val(LiteralKindM::Integer(a)));
    assert(eval_expr(env, chain, lb) == EvalR::Val(LiteralKindM::Integer(b)));
    if op.kind is ForwardSlash && b != 0 && !(a == i64::MIN && b == -1) {
        lemma_trunc_div_fits(a, b);
    }
}

/// Truncating division of two 64-bit integers stays within 64 bits,
/// except for the lone overflowing pair.
proof fn lemma_trunc_div_fits(a: int, b: int)
    requires
        int_fits(a),
        int_fits(b),
        b != 0,
        !(a == i64::MIN && b == -1),
    ensures
        trunc_div_checked(a, b) is Some,
{
    if a == 0 {
    } else if a > 0 && b > 0 {
        vstd::arithmetic::div_mod::lemma_div_nonincreasing(a, b);
        vstd::arithmetic::div_mod::lemma_div_pos_is_pos(a, b);
    } else if a < 0 && b < 0 {
        vstd::arithmetic::div_mod::lemma_div_pos_is_pos(a * -1, b * -1);
        if b == -1 {
            vstd::arithmetic::div_mod::lemma_div_nonincreasing(a * -1, b * -1);
        } else {
            vstd::arithmetic::div_mod::lemma_div_is_ordered_by_denominator(a * -1, 2, b * -1);
            vstd::arithmetic::div_mod::lemma_div_nonincreasing(a * -1, 2);
            assert((a * -1) / 2 <= 0x8000_0000_0000_0000int / 2) by {
                vstd::arithmetic::div_mod::lemma_div_is_ordered(a * -1, 0x8000_0000_0000_0000int, 2);
            }
        }
    } else if a < 0 {
        vstd::arithmetic::div_mod::lemma_div_nonincreasing(a * -1, b);
        vstd::arithmetic::div_mod::lemma_div_pos_is_pos(a * -1, b);
    } else {
        vstd::arithmetic::div_mod::lemma_div_nonincreasing(a, b * -1);
        vstd::arithmetic::div_mod::lemma_div_pos_is_pos(a, b * -1);
    }
}

/// Equality special-casing: `None` compares equal to `None` and nothing
/// else, under `==` and `!=` alike, whatever the other operand.
pub proof fn lemma_equality_special_case(v: LiteralKindM)
    ensures
        eval_eq_vals(LiteralKindM::Nil, v) == EvalR::Val(LiteralKindM::Boolean(v is Nil)),
        eval_eq_vals(v, LiteralKindM::Nil) == EvalR::Val(LiteralKindM::Boolean(v is Nil)),
        eval_neq_vals(LiteralKindM::Nil, v) == EvalR::Val(LiteralKindM::Boolean(!(v is Nil))),
        eval_neq_vals(v, LiteralKindM::Nil) == EvalR::Val(LiteralKindM::Boolean(!(v is Nil))),
{
}

} // verus!
