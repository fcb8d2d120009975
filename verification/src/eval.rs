use vstd::prelude::*;

use vstd::string::StrSliceExecFns;
use vstd::string::StringExecFns;

use crate::numbers::{fits_i64, int_str, int_text_val, is_int_text};
use crate::parser::{ASTNode, AstV, LiteralToken, LiteralV, OpOrExpr, OpOrExprV};
use crate::proc::ProcessOptions;
use crate::syntax_err::{ErrV, SyntaxError};
use crate::tokeniser::{precedence_spec, OperatorType};

verus! {

// ---------------------------------------------------------------------------
// Byte streams: the value type all evaluation converges to.  Today a
// stream holds a single chunk built from a string.
// ---------------------------------------------------------------------------

#[derive(Debug, Clone)]
pub struct ByteStream {
    from_string: String,
}

impl View for ByteStream {
    type V = Seq<char>;

    closed spec fn view(&self) -> Seq<char> {
        self.from_string@
    }
}

impl ByteStream {
    /// A stream producing exactly the given text, once.
    pub fn from_string(s: &str) -> (r: ByteStream)
        ensures
            r@ == s@,
    {
        ByteStream { from_string: s.to_owned() }
    }

    /// Drains the stream eagerly into one concatenated byte buffer.
    pub fn merge(self) -> (r: Vec<u8>)
        ensures
            r@ == vstd::utf8::encode_utf8(self@),
    {
        self.from_string.as_str().as_bytes_vec()
    }
}

// ---------------------------------------------------------------------------
// The environment the evaluator reads: a snapshot of the variable table
// and of the executables found on the search path, handed in as data so
// that evaluation itself performs no lookups outside it.
// ---------------------------------------------------------------------------

/// Mathematical model of an `Environment`: two association lists from
/// names to values, first match winning.
pub struct EnvV {
    pub variables: Seq<(Seq<char>, Seq<char>)>,
    pub executables: Seq<(Seq<char>, Seq<char>)>,
}

pub open spec fn pairs_view(s: Seq<(String, String)>) -> Seq<(Seq<char>, Seq<char>)> {
    Seq::new(s.len(), |i: int| (s[i].0@, s[i].1@))
}

/// Name-to-value snapshots consulted by symbol resolution: `variables`
/// mirrors the process environment, `executables` maps command names to
/// the absolute paths found for them on the search path.
#[derive(Debug, Clone)]
pub struct Environment {
    pub variables: Vec<(String, String)>,
    pub executables: Vec<(String, String)>,
}

impl DeepView for Environment {
    type V = EnvV;

    open spec fn deep_view(&self) -> EnvV {
        EnvV { variables: pairs_view(self.variables@), executables: pairs_view(self.executables@) }
    }
}

impl Environment {
    /// An environment with nothing in scope.
    pub fn new() -> (r: Environment)
        ensures
            r.deep_view().variables.len() == 0,
            r.deep_view().executables.len() == 0,
    {
        Environment { variables: Vec::new(), executables: Vec::new() }
    }
}

/// First value bound to `name`, scanning in list order.
pub open spec fn lookup(pairs: Seq<(Seq<char>, Seq<char>)>, name: Seq<char>) -> Option<Seq<char>>
    decreases pairs.len(),
{
    if pairs.len() == 0 {
        None
    } else if pairs[0].0 == name {
        Some(pairs[0].1)
    } else {
        lookup(pairs.subrange(1, pairs.len() as int), name)
    }
}

fn lookup_from(list: &Vec<(String, String)>, i: usize, name: &String) -> (r: Option<String>)
    requires
        i <= list@.len(),
    ensures
        match r {
            Some(v) => lookup(pairs_view(list@).subrange(i as int, list@.len() as int), name@)
                == Some(v@),
            None => lookup(pairs_view(list@).subrange(i as int, list@.len() as int), name@)
                is None,
        },
    decreases list@.len() - i,
{
    let ghost whole = pairs_view(list@).subrange(i as int, list@.len() as int);
    if i == list.len() {
        assert(whole =~= Seq::<(Seq<char>, Seq<char>)>::empty());
        return None;
    }
    let p = &list[i];
    proof {
        assert(whole[0] == pairs_view(list@)[i as int]);
        assert(whole.subrange(1, whole.len() as int) =~= pairs_view(list@).subrange(
            i + 1,
            list@.len() as int,
        ));
    }
    if p.0 == *name {
        Some(p.1.clone())
    } else {
        lookup_from(list, i + 1, name)
    }
}

// ---------------------------------------------------------------------------
// Symbol and literal resolution.
// ---------------------------------------------------------------------------

/// In executable mode a name resolves against the search-path snapshot;
/// otherwise against the variable table.  An unbound name is `NoValue`.
pub open spec fn resolve_symbol_spec(name: Seq<char>, opts: ProcessOptions, env: EnvV) -> Result<
    Seq<char>,
    ErrV,
> {
    let table = if opts.resolve_names_to_executables {
        env.executables
    } else {
        env.variables
    };
    match lookup(table, name) {
        Some(v) => Ok(v),
        None => Err(ErrV::NoValue(name)),
    }
}

pub open spec fn bool_str(b: bool) -> Seq<char> {
    if b {
        seq!['t', 'r', 'u', 'e']
    } else {
        seq!['f', 'a', 'l', 's', 'e']
    }
}

/// A number whose text is an integer in decimal, hexadecimal or binary
/// form reduces to its canonical decimal text; any other number text
/// stands as written.
pub open spec fn canon_num(t: Seq<char>) -> Seq<char> {
    if is_int_text(t) && fits_i64(int_text_val(t)) {
        int_str(int_text_val(t))
    } else {
        t
    }
}

/// The text a literal reduces to: strings verbatim, booleans as their
/// names, numbers in canonical decimal form, symbols via the resolver.
pub open spec fn resolve_literal_spec(l: LiteralV, opts: ProcessOptions, env: EnvV) -> Result<
    Seq<char>,
    ErrV,
> {
    match l {
        LiteralV::Symbol(name) => resolve_symbol_spec(name, opts, env),
        LiteralV::String(t) => Ok(t),
        LiteralV::Number(t) => Ok(canon_num(t)),
        LiteralV::Boolean(b) => Ok(bool_str(b)),
    }
}

fn resolve_symbol(name: &String, options: ProcessOptions, env: &Environment) -> (r: Result<
    String,
    SyntaxError,
>)
    ensures
        match r {
            Ok(v) => resolve_symbol_spec(name@, options, env.deep_view()) == Ok::<Seq<char>, ErrV>(
                v@,
            ),
            Err(e) => resolve_symbol_spec(name@, options, env.deep_view()) == Err::<
                Seq<char>,
                ErrV,
            >(e.deep_view()),
        },
{
    let table = if options.resolve_names_to_executables {
        &env.executables
    } else {
        &env.variables
    };
    proof {
        assert(pairs_view(table@).subrange(0, table@.len() as int) =~= pairs_view(table@));
    }
    match lookup_from(table, 0, name) {
        Some(v) => Ok(v),
        None => Err(SyntaxError::NoValue(name.clone())),
    }
}

fn resolve_literal(l: &LiteralToken, options: ProcessOptions, env: &Environment) -> (r: Result<
    String,
    SyntaxError,
>)
    ensures
        match r {
            Ok(v) => resolve_literal_spec(l.deep_view(), options, env.deep_view()) == Ok::<
                Seq<char>,
                ErrV,
            >(v@),
            Err(e) => resolve_literal_spec(l.deep_view(), options, env.deep_view()) == Err::<
                Seq<char>,
                ErrV,
            >(e.deep_view()),
        },
{
    match l {
        LiteralToken::Symbol(name) => resolve_symbol(name, options, env),
        LiteralToken::String(t) => Ok(t.clone()),
        LiteralToken::Number(t) => match crate::numbers::parse_int_text(t.as_str()) {
            Some(v) => Ok(crate::numbers::fmt_i64(v)),
            None => Ok(t.clone()),
        },
        LiteralToken::Boolean(b) => {
            if *b {
                let r = String::from_str("true");
                proof {
                    reveal_strlit("true");
                    assert(r@ =~= bool_str(true));
                }
                Ok(r)
            } else {
                let r = String::from_str("false");
                proof {
                    reveal_strlit("false");
                    assert(r@ =~= bool_str(false));
                }
                Ok(r)
            }
        },
    }
}

// ---------------------------------------------------------------------------
// Shunting-Yard reordering over resolved operands.
// ---------------------------------------------------------------------------

/// A resolved expression element: a value ready for reduction, or an
/// operator awaiting precedence ordering.
enum Reduced {
    Val(String),
    Op(OperatorType),
}

pub enum ReducedV {
    Val(Seq<char>),
    Op(OperatorType),
}

impl DeepView for Reduced {
    type V = ReducedV;

    closed spec fn deep_view(&self) -> ReducedV {
        match self {
            Reduced::Val(s) => ReducedV::Val(s@),
            Reduced::Op(op) => ReducedV::Op(*op),
        }
    }
}

/// Splits a stack into the operators popped before pushing `op` (top
/// first) and what remains: operators of equal or higher precedence pop,
/// so a chain of equal-precedence operators groups left-associatively.
pub open spec fn pop_higher(stack: Seq<OperatorType>, op: OperatorType) -> (
    Seq<OperatorType>,
    Seq<OperatorType>,
)
    decreases stack.len(),
{
    if stack.len() == 0 || precedence_spec(stack.last()) < precedence_spec(op) {
        (Seq::empty(), stack)
    } else {
        let rest = pop_higher(stack.drop_last(), op);
        (seq![stack.last()] + rest.0, rest.1)
    }
}

pub open spec fn ops_of(s: Seq<OperatorType>) -> Seq<ReducedV> {
    Seq::new(s.len(), |i: int| ReducedV::Op(s[i]))
}

/// Draining the operator stack appends its operators top first.
pub open spec fn rev_ops(stack: Seq<OperatorType>) -> Seq<ReducedV>
    decreases stack.len(),
{
    if stack.len() == 0 {
        Seq::empty()
    } else {
        seq![ReducedV::Op(stack.last())] + rev_ops(stack.drop_last())
    }
}

/// One pass of the Shunting-Yard reordering: values go straight to the
/// output, each operator first pops those of equal or higher precedence,
/// and the stack drains at the end in reverse push order.
pub open spec fn sy(items: Seq<ReducedV>, stack: Seq<OperatorType>, out: Seq<ReducedV>) -> Seq<
    ReducedV,
>
    decreases items.len(),
{
    if items.len() == 0 {
        out + rev_ops(stack)
    } else {
        match items[0] {
            ReducedV::Val(v) => sy(
                items.subrange(1, items.len() as int),
                stack,
                out.push(ReducedV::Val(v)),
            ),
            ReducedV::Op(op) => {
                let popped = pop_higher(stack, op);
                sy(items.subrange(1, items.len() as int), popped.1.push(op), out + ops_of(popped.0))
            },
        }
    }
}

/// The precedence-ordered postfix form of a resolved item sequence.
pub open spec fn shunting_yard(items: Seq<ReducedV>) -> Seq<ReducedV> {
    sy(items, Seq::empty(), Seq::empty())
}

fn prec_of(op: OperatorType) -> (p: u32)
    ensures
        p as int == precedence_spec(op),
{
    op.precedence()
}

#[verifier::loop_isolation(false)]
fn sy_x(items: Vec<Reduced>, stack: Vec<OperatorType>, out: Vec<Reduced>) -> (r: Vec<Reduced>)
    ensures
        r.deep_view() == sy(items.deep_view(), stack@, out.deep_view()),
    decreases items@.len(),
{
    let ghost items0 = items.deep_view();
    let ghost stack0 = stack@;
    let ghost out0 = out.deep_view();
    let mut items = items;
    let mut stack = stack;
    let mut out = out;
    if items.len() == 0 {
        assert(items0 =~= Seq::<ReducedV>::empty());
        return drain_x(stack, out);
    }
    let it = items.remove(0);
    proof {
        assert(items.deep_view() =~= items0.subrange(1, items0.len() as int));
        assert(it.deep_view() == items0[0]);
    }
    match it {
        Reduced::Val(v) => {
            out.push(Reduced::Val(v));
            proof {
                assert(out.deep_view() =~= out0.push(items0[0]));
            }
            sy_x(items, stack, out)
        },
        Reduced::Op(op) => {
            let opp = prec_of(op);
            let ghost mut popped: Seq<OperatorType> = Seq::empty();
            while stack.len() > 0 && prec_of(stack[stack.len() - 1]) >= opp
                invariant
                    pop_higher(stack0, op).0 =~= popped + pop_higher(stack@, op).0,
                    pop_higher(stack0, op).1 == pop_higher(stack@, op).1,
                    out.deep_view() =~= out0 + ops_of(popped),
                decreases stack@.len(),
            {
                let top = stack[stack.len() - 1];
                proof {
                    assert(stack@.last() == top);
                }
                match stack.pop() {
                    _ => {},
                }
                let ghost out_pre = out.deep_view();
                let ghost prev = popped;
                out.push(Reduced::Op(top));
                proof {
                    popped = popped.push(top);
                    assert(out.deep_view() =~= out_pre.push(ReducedV::Op(top)));
                    assert(ops_of(popped) =~= ops_of(prev) + seq![ReducedV::Op(top)]);
                    assert((out0 + ops_of(prev)).push(ReducedV::Op(top)) =~= out0 + (ops_of(prev)
                        + seq![ReducedV::Op(top)]));
                    assert(out.deep_view() =~= out0 + ops_of(popped));
                }
            }
            proof {
                assert(pop_higher(stack@, op).0 =~= Seq::<OperatorType>::empty());
                assert(pop_higher(stack@, op).1 == stack@);
                assert(pop_higher(stack0, op).0 =~= popped);
            }
            stack.push(op);
            proof {
                assert(stack@ =~= pop_higher(stack0, op).1.push(op));
                assert(out.deep_view() =~= out0 + ops_of(pop_higher(stack0, op).0));
            }
            sy_x(items, stack, out)
        },
    }
}

#[verifier::loop_isolation(false)]
fn drain_x(stack: Vec<OperatorType>, out: Vec<Reduced>) -> (r: Vec<Reduced>)
    ensures
        r.deep_view() == out.deep_view() + rev_ops(stack@),
    decreases stack@.len(),
{
    let ghost stack0 = stack@;
    let ghost out0 = out.deep_view();
    let mut stack = stack;
    let mut out = out;
    match stack.pop() {
        None => {
            proof {
                assert(out.deep_view() =~= out0 + rev_ops(stack0));
            }
            out
        },
        Some(op) => {
            out.push(Reduced::Op(op));
            proof {
                assert(op == stack0.last());
                assert(stack@ =~= stack0.drop_last());
                assert(out.deep_view() =~= out0.push(ReducedV::Op(op)));
            }
            let r = drain_x(stack, out);
            proof {
                assert(out0.push(ReducedV::Op(op)) + rev_ops(stack0.drop_last()) =~= out0
                    + rev_ops(stack0));
            }
            r
        },
    }
}

// ---------------------------------------------------------------------------
// Postfix reduction.
// ---------------------------------------------------------------------------

/// What one binary operator yields on two already-reduced texts.  `Add`
/// sums two exact integers and otherwise concatenates; `Subtract` and
/// `Multiply` are defined on exact integers only; every other operator,
/// and any overflow, has no byte-stream semantics.
pub open spec fn apply_op(op: OperatorType, a: Seq<char>, b: Seq<char>) -> Result<Seq<char>, ErrV> {
    let numeric = is_int_text(a) && fits_i64(int_text_val(a)) && is_int_text(b) && fits_i64(
        int_text_val(b),
    );
    match op {
        OperatorType::Add => if numeric {
            if fits_i64(int_text_val(a) + int_text_val(b)) {
                Ok(int_str(int_text_val(a) + int_text_val(b)))
            } else {
                Err(ErrV::UnsupportedOperator)
            }
        } else {
            Ok(a + b)
        },
        OperatorType::Subtract => if numeric && fits_i64(int_text_val(a) - int_text_val(b)) {
            Ok(int_str(int_text_val(a) - int_text_val(b)))
        } else {
            Err(ErrV::UnsupportedOperator)
        },
        OperatorType::Multiply => if numeric && fits_i64(int_text_val(a) * int_text_val(b)) {
            Ok(int_str(int_text_val(a) * int_text_val(b)))
        } else {
            Err(ErrV::UnsupportedOperator)
        },
        _ => Err(ErrV::UnsupportedOperator),
    }
}

fn apply_op_x(op: OperatorType, a: String, b: String) -> (r: Result<String, SyntaxError>)
    ensures
        match r {
            Ok(v) => apply_op(op, a@, b@) == Ok::<Seq<char>, ErrV>(v@),
            Err(e) => apply_op(op, a@, b@) == Err::<Seq<char>, ErrV>(e.deep_view()) && e
                is UnsupportedOperator,
        },
{
    let av = crate::numbers::parse_int_text(a.as_str());
    let bv = crate::numbers::parse_int_text(b.as_str());
    match op {
        OperatorType::Add => match (av, bv) {
            (Some(x), Some(y)) => {
                let wide: i128 = x as i128 + y as i128;
                if -0x8000_0000_0000_0000i128 <= wide && wide <= 0x7fff_ffff_ffff_ffffi128 {
                    Ok(crate::numbers::fmt_i64(wide as i64))
                } else {
                    Err(SyntaxError::UnsupportedOperator())
                }
            },
            _ => Ok(a.concat(b.as_str())),
        },
        OperatorType::Subtract => match (av, bv) {
            (Some(x), Some(y)) => {
                let wide: i128 = x as i128 - y as i128;
                if -0x8000_0000_0000_0000i128 <= wide && wide <= 0x7fff_ffff_ffff_ffffi128 {
                    Ok(crate::numbers::fmt_i64(wide as i64))
                } else {
                    Err(SyntaxError::UnsupportedOperator())
                }
            },
            _ => Err(SyntaxError::UnsupportedOperator()),
        },
        OperatorType::Multiply => match (av, bv) {
            (Some(x), Some(y)) => {
                proof {
                    assert((x as i128) * (y as i128)
                        <= 0x4000_0000_0000_0000_0000_0000_0000_0000int && (x as i128) * (
                    y as i128) >= -0x4000_0000_0000_0000_0000_0000_0000_0000int)
                        by (nonlinear_arith)
                        requires
                            -0x8000_0000_0000_0000 <= x as i128 <= 0x7fff_ffff_ffff_ffff,
                            -0x8000_0000_0000_0000 <= y as i128 <= 0x7fff_ffff_ffff_ffff,
                    ;
                }
                let wide: i128 = x as i128 * y as i128;
                if -0x8000_0000_0000_0000i128 <= wide && wide <= 0x7fff_ffff_ffff_ffffi128 {
                    Ok(crate::numbers::fmt_i64(wide as i64))
                } else {
                    Err(SyntaxError::UnsupportedOperator())
                }
            },
            _ => Err(SyntaxError::UnsupportedOperator()),
        },
        _ => Err(SyntaxError::UnsupportedOperator()),
    }
}

/// Reduces a postfix sequence left to right over a value stack; a final
/// stack of exactly one value is the result, anything else leaves the
/// expression unsupported.
pub open spec fn reduce(post: Seq<ReducedV>, vals: Seq<Seq<char>>, ast: AstV) -> Result<
    Seq<char>,
    ErrV,
>
    decreases post.len(),
{
    if post.len() == 0 {
        if vals.len() == 1 {
            Ok(vals[0])
        } else {
            Err(ErrV::UnsupportedExpression(ast))
        }
    } else {
        match post[0] {
            ReducedV::Val(v) => reduce(post.subrange(1, post.len() as int), vals.push(v), ast),
            ReducedV::Op(op) => if vals.len() < 2 {
                Err(ErrV::UnsupportedExpression(ast))
            } else {
                match apply_op(op, vals[vals.len() - 2], vals[vals.len() - 1]) {
                    Ok(v) => reduce(
                        post.subrange(1, post.len() as int),
                        vals.drop_last().drop_last().push(v),
                        ast,
                    ),
                    Err(e) => Err(e),
                }
            },
        }
    }
}

fn reduce_x(post: Vec<Reduced>, vals: Vec<String>, ast: &ASTNode) -> (r: Result<
    String,
    SyntaxError,
>)
    ensures
        match r {
            Ok(v) => reduce(post.deep_view(), vals.deep_view(), ast.deep_view()) == Ok::<
                Seq<char>,
                ErrV,
            >(v@),
            Err(e) => reduce(post.deep_view(), vals.deep_view(), ast.deep_view()) == Err::<
                Seq<char>,
                ErrV,
            >(e.deep_view()),
        },
    decreases post@.len(),
{
    let ghost post0 = post.deep_view();
    let ghost vals0 = vals.deep_view();
    let mut post = post;
    let mut vals = vals;
    if post.len() == 0 {
        assert(post0 =~= Seq::<ReducedV>::empty());
        if vals.len() == 1 {
            match vals.pop() {
                Some(v) => {
                    assert(v@ == vals0[0]);
                    return Ok(v);
                },
                None => {
                    return Err(SyntaxError::UnsupportedExpression(ast.duplicate()));
                },
            }
        } else {
            return Err(SyntaxError::UnsupportedExpression(ast.duplicate()));
        }
    }
    let it = post.remove(0);
    proof {
        assert(post.deep_view() =~= post0.subrange(1, post0.len() as int));
        assert(it.deep_view() == post0[0]);
    }
    match it {
        Reduced::Val(v) => {
            vals.push(v);
            proof {
                assert(vals.deep_view() =~= vals0.push(post0[0]->Val_0));
            }
            reduce_x(post, vals, ast)
        },
        Reduced::Op(op) => {
            if vals.len() < 2 {
                return Err(SyntaxError::UnsupportedExpression(ast.duplicate()));
            }
            let b = match vals.pop() {
                Some(x) => x,
                None => {
                    return Err(SyntaxError::UnsupportedExpression(ast.duplicate()));
                },
            };
            let a = match vals.pop() {
                Some(x) => x,
                None => {
                    return Err(SyntaxError::UnsupportedExpression(ast.duplicate()));
                },
            };
            proof {
                assert(a@ == vals0[vals0.len() - 2]);
                assert(b@ == vals0[vals0.len() - 1]);
                assert(vals.deep_view() =~= vals0.drop_last().drop_last());
            }
            match apply_op_x(op, a, b) {
                Err(e) => Err(e),
                Ok(v) => {
                    vals.push(v);
                    proof {
                        assert(vals.deep_view() =~= vals0.drop_last().drop_last().push(
                            apply_op(op, vals0[vals0.len() - 2], vals0[vals0.len() - 1])->Ok_0,
                        ));
                    }
                    reduce_x(post, vals, ast)
                },
            }
        },
    }
}

// ---------------------------------------------------------------------------
// The evaluator.
// ---------------------------------------------------------------------------

/// What one expression item resolves to before reordering: operators pass
/// through; literals resolve; sub-expressions evaluate recursively.
pub open spec fn resolve_item_spec(it: OpOrExprV, opts: ProcessOptions, env: EnvV) -> Result<
    ReducedV,
    ErrV,
>
    decreases it, 0int,
{
    match it {
        OpOrExprV::Operator(op) => Ok(ReducedV::Op(op)),
        OpOrExprV::Literal(l) => match resolve_literal_spec(l, opts, env) {
            Ok(v) => Ok(ReducedV::Val(v)),
            Err(e) => Err(e),
        },
        OpOrExprV::Expr(b) => match eval_spec(*b, opts, env) {
            Ok(v) => Ok(ReducedV::Val(v)),
            Err(e) => Err(e),
        },
    }
}

/// Resolves the items of a flat expression left to right; the first
/// failure wins.
pub open spec fn resolve_items_spec(
    items: Seq<OpOrExprV>,
    i: int,
    opts: ProcessOptions,
    env: EnvV,
) -> Result<Seq<ReducedV>, ErrV>
    decreases items, items.len() - i,
{
    if i < 0 || i >= items.len() {
        Ok(Seq::empty())
    } else {
        match resolve_item_spec(items[i], opts, env) {
            Err(e) => Err(e),
            Ok(v) => match resolve_items_spec(items, i + 1, opts, env) {
                Ok(rest) => Ok(seq![v] + rest),
                Err(e) => Err(e),
            },
        }
    }
}

/// What evaluation returns, as text.  An `Expression` resolves its
/// operands, reorders by precedence and reduces; a `Call` resolves its
/// callee in executable mode and then stops, since process execution is
/// the collaborator's job; every other node is unsupported.
pub open spec fn eval_spec(ast: AstV, opts: ProcessOptions, env: EnvV) -> Result<Seq<char>, ErrV>
    decreases ast, 1int,
{
    match ast {
        AstV::Expression(items) => match resolve_items_spec(items, 0, opts, env) {
            Err(e) => Err(e),
            Ok(vals) => reduce(shunting_yard(vals), Seq::empty(), ast),
        },
        AstV::Call(callee, args) => {
            let exec_opts = ProcessOptions { resolve_names_to_executables: true, ..opts };
            match eval_spec(*callee, exec_opts, env) {
                Ok(_) => Err(ErrV::UnsupportedExpression(ast)),
                Err(e) => Err(e),
            }
        },
        _ => Err(ErrV::UnsupportedExpression(ast)),
    }
}

fn resolve_items_x(
    items: &Vec<OpOrExpr>,
    i: usize,
    options: ProcessOptions,
    env: &Environment,
) -> (r: Result<Vec<Reduced>, SyntaxError>)
    requires
        i <= items@.len(),
    ensures
        match r {
            Ok(v) => resolve_items_spec(items.deep_view(), i as int, options, env.deep_view())
                == Ok::<Seq<ReducedV>, ErrV>(v.deep_view()),
            Err(e) => resolve_items_spec(items.deep_view(), i as int, options, env.deep_view())
                == Err::<Seq<ReducedV>, ErrV>(e.deep_view()),
        },
    decreases *items, items@.len() - i,
{
    if i == items.len() {
        let v: Vec<Reduced> = Vec::new();
        assert(v.deep_view() =~= Seq::<ReducedV>::empty());
        return Ok(v);
    }
    let it = &items[i];
    proof {
        assert(it.deep_view() == items.deep_view()[i as int]);
    }
    let head: Reduced = match it {
        OpOrExpr::Operator(op) => Reduced::Op(*op),
        OpOrExpr::Literal(l) => match resolve_literal(l, options, env) {
            Ok(v) => Reduced::Val(v),
            Err(e) => {
                proof {
                    assert(resolve_item_spec(items.deep_view()[i as int], options, env.deep_view())
                        == Err::<ReducedV, ErrV>(e.deep_view()));
                }
                return Err(e);
            },
        },
        OpOrExpr::Expr(b) => {
            proof {
                assert(decreases_to!(*items => items@));
                assert(decreases_to!(items@ => items@[i as int]));
                assert(decreases_to!(items@[i as int] => *b));
            }
            match eval(b, options, env) {
                Ok(bs) => Reduced::Val(bs.from_string),
                Err(e) => {
                    proof {
                        assert(resolve_item_spec(
                            items.deep_view()[i as int],
                            options,
                            env.deep_view(),
                        ) == Err::<ReducedV, ErrV>(e.deep_view()));
                    }
                    return Err(e);
                },
            }
        },
    };
    match resolve_items_x(items, i + 1, options, env) {
        Err(e) => Err(e),
        Ok(mut rest) => {
            let ghost old_rest = rest.deep_view();
            rest.insert(0, head);
            proof {
                assert(rest.deep_view() =~= seq![rest@[0].deep_view()] + old_rest);
            }
            Ok(rest)
        },
    }
}

/// Evaluates one node to a byte stream under the given options and
/// environment snapshot.
pub fn eval(ast: &ASTNode, options: ProcessOptions, env: &Environment) -> (r: Result<
    ByteStream,
    SyntaxError,
>)
    ensures
        match r {
            Ok(bs) => eval_spec(ast.deep_view(), options, env.deep_view()) == Ok::<
                Seq<char>,
                ErrV,
            >(bs@),
            Err(e) => eval_spec(ast.deep_view(), options, env.deep_view()) == Err::<
                Seq<char>,
                ErrV,
            >(e.deep_view()),
        },
    decreases *ast, 2int,
{
    match ast {
        ASTNode::Expression(items) => {
            proof {
                assert(decreases_to!(*ast => *items));
                crate::parser::lemma_items_view(items@);
                assert(items.deep_view() =~= crate::parser::items_view(items@));
                assert(ast.deep_view() == AstV::Expression(crate::parser::items_view(items@)));
            }
            match resolve_items_x(items, 0, options, env) {
                Err(e) => Err(e),
                Ok(vals) => {
                    let empty_stack: Vec<OperatorType> = Vec::new();
                    let empty_out: Vec<Reduced> = Vec::new();
                    proof {
                        assert(empty_stack@ =~= Seq::<OperatorType>::empty());
                        assert(empty_out.deep_view() =~= Seq::<ReducedV>::empty());
                    }
                    let post = sy_x(vals, empty_stack, empty_out);
                    let empty_vals: Vec<String> = Vec::new();
                    proof {
                        assert(empty_vals.deep_view() =~= Seq::<Seq<char>>::empty());
                    }
                    proof {
                        assert(post.deep_view() == shunting_yard(
                            resolve_items_spec(
                                items.deep_view(),
                                0,
                                options,
                                env.deep_view(),
                            )->Ok_0,
                        ));
                    }
                    match reduce_x(post, empty_vals, ast) {
                        Ok(v) => Ok(ByteStream::from_string(v.as_str())),
                        Err(e) => Err(e),
                    }
                },
            }
        },
        ASTNode::Call(callee, _args) => {
            proof {
                assert(decreases_to!(*ast => *callee));
            }
            let exec_opts = ProcessOptions { resolve_names_to_executables: true, ..options };
            match eval(callee, exec_opts, env) {
                Ok(bs) => {
                    let _data = bs.merge();
                    Err(SyntaxError::UnsupportedExpression(ast.duplicate()))
                },
                Err(e) => Err(e),
            }
        },
        _ => Err(SyntaxError::UnsupportedExpression(ast.duplicate())),
    }
}


// ---------------------------------------------------------------------------
// Search-path arithmetic: the pure part of locating a binary.  Probing
// the filesystem for the candidates is the caller's business.
// ---------------------------------------------------------------------------

/// Index of the first `:` at or after `i`, or the length when none.
pub open spec fn colon_at(s: Seq<char>, i: int) -> int
    decreases s.len() - i,
{
    if i < 0 || i >= s.len() {
        s.len() as int
    } else if s[i] == ':' {
        i
    } else {
        colon_at(s, i + 1)
    }
}

/// The colon-separated sections of a search path, in order; empty
/// sections are kept.
pub open spec fn split_colons(s: Seq<char>, i: int) -> Seq<Seq<char>>
    decreases s.len() - i,
    via split_colons_dec
{
    if i < 0 || i > s.len() {
        Seq::empty()
    } else {
        let c = colon_at(s, i);
        if c >= s.len() {
            seq![s.subrange(i, s.len() as int)]
        } else {
            seq![s.subrange(i, c)] + split_colons(s, c + 1)
        }
    }
}

#[via_fn]
proof fn split_colons_dec(s: Seq<char>, i: int) {
    if 0 <= i <= s.len() {
        lemma_colon_at_bounds(s, i);
    }
}

proof fn lemma_colon_at_bounds(s: Seq<char>, i: int)
    requires
        0 <= i <= s.len(),
    ensures
        i <= colon_at(s, i) <= s.len(),
        colon_at(s, i) < s.len() ==> s[colon_at(s, i)] == ':',
    decreases s.len() - i,
{
    if i < s.len() && s[i] != ':' {
        lemma_colon_at_bounds(s, i + 1);
    }
}

fn colon_at_x(s: &str, i: usize) -> (r: usize)
    requires
        i <= s@.len(),
    ensures
        r as int == colon_at(s@, i as int),
        i <= r <= s@.len(),
    decreases s@.len() - i,
{
    let n = s.unicode_len();
    if i >= n {
        n
    } else if s.get_char(i) == ':' {
        i
    } else {
        colon_at_x(s, i + 1)
    }
}

fn search_dirs_from(path: &str, i: usize) -> (r: Vec<String>)
    requires
        i <= path@.len(),
    ensures
        r.deep_view() == split_colons(path@, i as int),
    decreases path@.len() - i,
{
    let n = path.unicode_len();
    let c = colon_at_x(path, i);
    if c >= n {
        let sec = path.substring_char(i, n).to_owned();
        let v = vec![sec];
        assert(v.deep_view() =~= seq![path@.subrange(i as int, path@.len() as int)]);
        v
    } else {
        let sec = path.substring_char(i, c).to_owned();
        let mut rest = search_dirs_from(path, c + 1);
        let ghost old_rest = rest.deep_view();
        rest.insert(0, sec);
        proof {
            assert(rest.deep_view() =~= seq![path@.subrange(i as int, c as int)] + old_rest);
        }
        rest
    }
}

/// The directories of a colon-separated search path, in search order.
pub fn search_dirs(path: &str) -> (r: Vec<String>)
    ensures
        r.deep_view() == split_colons(path@, 0),
{
    search_dirs_from(path, 0)
}

/// The candidate file a directory contributes for a command name.
pub fn candidate_path(dir: &str, hint: &str) -> (r: String)
    ensures
        r@ == dir@ + seq!['/'] + hint@,
{
    let mut s = dir.to_owned();
    s.append("/");
    s.append(hint);
    proof {
        reveal_strlit("/");
        assert(s@ =~= dir@ + seq!['/'] + hint@);
    }
    s
}


/// First match wins: the candidate of the first directory whose probe
/// succeeded, in search order.
pub open spec fn pick_spec(dirs: Seq<Seq<char>>, found: Seq<bool>, hint: Seq<char>) -> Option<
    Seq<char>,
>
    decreases dirs.len(),
{
    if dirs.len() == 0 || dirs.len() != found.len() {
        None
    } else if found[0] {
        Some(dirs[0] + seq!['/'] + hint)
    } else {
        pick_spec(
            dirs.subrange(1, dirs.len() as int),
            found.subrange(1, found.len() as int),
            hint,
        )
    }
}

fn pick_candidate_from(dirs: &Vec<String>, found: &Vec<bool>, hint: &str, j: usize) -> (r: Option<
    String,
>)
    requires
        dirs@.len() == found@.len(),
        j <= dirs@.len(),
    ensures
        match r {
            Some(v) => pick_spec(
                dirs.deep_view().subrange(j as int, dirs@.len() as int),
                found@.subrange(j as int, found@.len() as int),
                hint@,
            ) == Some(v@),
            None => pick_spec(
                dirs.deep_view().subrange(j as int, dirs@.len() as int),
                found@.subrange(j as int, found@.len() as int),
                hint@,
            ) is None,
        },
    decreases dirs@.len() - j,
{
    let ghost dsub = dirs.deep_view().subrange(j as int, dirs@.len() as int);
    let ghost fsub = found@.subrange(j as int, found@.len() as int);
    if j == dirs.len() {
        assert(dsub =~= Seq::<Seq<char>>::empty());
        return None;
    }
    proof {
        assert(dsub[0] == dirs.deep_view()[j as int]);
        assert(fsub[0] == found@[j as int]);
        assert(dsub.subrange(1, dsub.len() as int) =~= dirs.deep_view().subrange(
            j + 1,
            dirs@.len() as int,
        ));
        assert(fsub.subrange(1, fsub.len() as int) =~= found@.subrange(
            j + 1,
            found@.len() as int,
        ));
    }
    if found[j] {
        let d: &String = &dirs[j];
        Some(candidate_path(d.as_str(), hint))
    } else {
        pick_candidate_from(dirs, found, hint, j + 1)
    }
}

/// Given the searched directories and, for each, whether its candidate
/// file exists, yields the first existing candidate in search order.
pub fn pick_candidate(dirs: &Vec<String>, found: &Vec<bool>, hint: &str) -> (r: Option<String>)
    requires
        dirs@.len() == found@.len(),
    ensures
        match r {
            Some(v) => pick_spec(dirs.deep_view(), found@, hint@) == Some(v@),
            None => pick_spec(dirs.deep_view(), found@, hint@) is None,
        },
{
    proof {
        assert(dirs.deep_view().subrange(0, dirs@.len() as int) =~= dirs.deep_view());
        assert(found@.subrange(0, found@.len() as int) =~= found@);
    }
    pick_candidate_from(dirs, found, hint, 0)
}

} // verus!
