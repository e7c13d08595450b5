//! Expression dependency analysis. The expression parser is an outside
//! collaborator; the engine works on already-parsed abstract syntax trees
//! and only needs to know which variables an expression reads, which it
//! mutates through `modify`-style calls, and (for projection pushdown) which
//! dataset columns it touches.

use vstd::prelude::*;

use crate::task::{InputVariable, input_var_models};
use crate::values::ScalarValue;
use crate::codec::{scalar_bytes, string_bytes, u64_bytes, write_scalar, write_string, write_u64};
use crate::variable::{Variable, VariableNamespace, var_id};

verus! {

/// Unary operators.
#[derive(Debug, Clone, Copy, PartialEq, Eq, Structural)]
pub enum UnaryOp {
    Neg,
    Pos,
    Not,
}

/// Binary operators.
#[derive(Debug, Clone, Copy, PartialEq, Eq, Structural)]
pub enum BinaryOp {
    Add,
    Sub,
    Mul,
    Div,
    Mod,
    Equals,
    NotEquals,
    Less,
    Greater,
    LessEq,
    GreaterEq,
}

/// Logical operators.
#[derive(Debug, Clone, Copy, PartialEq, Eq, Structural)]
pub enum LogicalOp {
    And,
    Or,
}

/// One property of an object literal.
#[derive(Debug)]
pub struct ObjectField {
    pub key: String,
    pub value: Expression,
}

/// A parsed expression.
#[derive(Debug)]
pub enum Expression {
    Literal(ScalarValue),
    Identifier(String),
    Unary(UnaryOp, Box<Expression>),
    Binary(BinaryOp, Box<Expression>, Box<Expression>),
    Logical(LogicalOp, Box<Expression>, Box<Expression>),
    Conditional(Box<Expression>, Box<Expression>, Box<Expression>),
    Call(String, Vec<Expression>),
    Member(Box<Expression>, String),
    Array(Vec<Expression>),
    Object(Vec<ObjectField>),
}

/// Identifiers that name the ambient evaluation context rather than a
/// signal: they never create a dependency.
pub open spec fn reserved_word(name: Seq<char>) -> bool {
    ||| name == "datum"@
    ||| name == "event"@
    ||| name == "item"@
    ||| name == "parent"@
}

/// Whether an expression is a string literal.
pub open spec fn is_string_literal(e: Expression) -> bool {
    e matches Expression::Literal(ScalarValue::Utf8(_))
}

/// The characters of a string literal.
pub open spec fn literal_string(e: Expression) -> Seq<char> {
    e->Literal_0->Utf8_0@
}

/// The identity of a variable an expression reads, with its propagate flag.
pub type IvModel = (VariableNamespace, Seq<char>, bool);

/// The identity of a variable an expression updates.
pub type UvModel = (VariableNamespace, Seq<char>);

/// The variables an expression reads, in evaluation order, duplicates
/// included. A plain identifier reads a signal; `data('name')` and
/// `modify('name', ...)` read a dataset, the latter without retriggering
/// downstream recomputation.
pub open spec fn expr_vars(e: Expression) -> Seq<IvModel>
    decreases e,
    via expr_vars_decreases
{
    match e {
        Expression::Literal(_) => Seq::empty(),
        Expression::Identifier(_) => if reserved_word(e->Identifier_0@) {
            Seq::empty()
        } else {
            seq![(VariableNamespace::Signal, e->Identifier_0@, true)]
        },
        Expression::Unary(_, _) => expr_vars(*e->Unary_1),
        Expression::Binary(_, _, _) => expr_vars(*e->Binary_1) + expr_vars(*e->Binary_2),
        Expression::Logical(_, _, _) => expr_vars(*e->Logical_1) + expr_vars(*e->Logical_2),
        Expression::Conditional(_, _, _) => expr_vars(*e->Conditional_0) + expr_vars(
            *e->Conditional_1,
        ) + expr_vars(*e->Conditional_2),
        Expression::Call(_, _) => {
            let callee = e->Call_0@;
            let args = e->Call_1@;
            if callee == "data"@ && args.len() > 0 && is_string_literal(args[0]) {
                seq![(VariableNamespace::Data, literal_string(args[0]), true)] + exprs_vars(
                    args.subrange(1, args.len() as int),
                )
            } else if callee == "modify"@ && args.len() > 0 && is_string_literal(args[0]) {
                seq![(VariableNamespace::Data, literal_string(args[0]), false)] + exprs_vars(
                    args.subrange(1, args.len() as int),
                )
            } else {
                exprs_vars(args)
            }
        },
        Expression::Member(_, _) => expr_vars(*e->Member_0),
        Expression::Array(_) => exprs_vars(e->Array_0@),
        Expression::Object(_) => fields_vars(e->Object_0@),
    }
}

/// The variables a sequence of expressions reads, in order.
pub open spec fn exprs_vars(items: Seq<Expression>) -> Seq<IvModel>
    decreases items,
{
    if items.len() == 0 {
        Seq::empty()
    } else {
        expr_vars(items[0]) + exprs_vars(items.subrange(1, items.len() as int))
    }
}

/// The variables the values of an object literal read, in order.
pub open spec fn fields_vars(fields: Seq<ObjectField>) -> Seq<IvModel>
    decreases fields,
    via fields_vars_decreases
{
    if fields.len() == 0 {
        Seq::empty()
    } else {
        expr_vars(fields[0].value) + fields_vars(fields.subrange(1, fields.len() as int))
    }
}

#[via_fn]
proof fn expr_vars_decreases(e: Expression) {
    match e {
        Expression::Unary(_, _) => {
            assert(decreases_to!(e => *e->Unary_1));
        },
        Expression::Binary(_, _, _) => {
            assert(decreases_to!(e => *e->Binary_1));
            assert(decreases_to!(e => *e->Binary_2));
        },
        Expression::Logical(_, _, _) => {
            assert(decreases_to!(e => *e->Logical_1));
            assert(decreases_to!(e => *e->Logical_2));
        },
        Expression::Conditional(_, _, _) => {
            assert(decreases_to!(e => *e->Conditional_0));
            assert(decreases_to!(e => *e->Conditional_1));
            assert(decreases_to!(e => *e->Conditional_2));
        },
        Expression::Call(_, _) => {
            assert(decreases_to!(e => e->Call_1));
            assert(decreases_to!(e->Call_1 => e->Call_1@));
        },
        Expression::Member(_, _) => {
            assert(decreases_to!(e => *e->Member_0));
        },
        Expression::Array(_) => {
            assert(decreases_to!(e => e->Array_0));
            assert(decreases_to!(e->Array_0 => e->Array_0@));
        },
        Expression::Object(_) => {
            assert(decreases_to!(e => e->Object_0));
            assert(decreases_to!(e->Object_0 => e->Object_0@));
        },
        _ => {},
    }
}

#[via_fn]
proof fn fields_vars_decreases(fields: Seq<ObjectField>) {
    if fields.len() > 0 {
        assert(decreases_to!(fields => fields[0]));
        assert(decreases_to!(fields[0] => fields[0].value));
    }
}

/// The variables an expression updates through `modify`-style calls.
pub open spec fn expr_update_vars(e: Expression) -> Seq<UvModel>
    decreases e,
    via expr_update_vars_decreases
{
    match e {
        Expression::Literal(_) => Seq::empty(),
        Expression::Identifier(_) => Seq::empty(),
        Expression::Unary(_, _) => expr_update_vars(*e->Unary_1),
        Expression::Binary(_, _, _) => expr_update_vars(*e->Binary_1) + expr_update_vars(
            *e->Binary_2,
        ),
        Expression::Logical(_, _, _) => expr_update_vars(*e->Logical_1) + expr_update_vars(
            *e->Logical_2,
        ),
        Expression::Conditional(_, _, _) => expr_update_vars(*e->Conditional_0)
            + expr_update_vars(*e->Conditional_1) + expr_update_vars(*e->Conditional_2),
        Expression::Call(_, _) => {
            let callee = e->Call_0@;
            let args = e->Call_1@;
            if callee == "modify"@ && args.len() > 0 && is_string_literal(args[0]) {
                seq![(VariableNamespace::Data, literal_string(args[0]))] + exprs_update_vars(
                    args.subrange(1, args.len() as int),
                )
            } else {
                exprs_update_vars(args)
            }
        },
        Expression::Member(_, _) => expr_update_vars(*e->Member_0),
        Expression::Array(_) => exprs_update_vars(e->Array_0@),
        Expression::Object(_) => fields_update_vars(e->Object_0@),
    }
}

/// The variables a sequence of expressions updates, in order.
pub open spec fn exprs_update_vars(items: Seq<Expression>) -> Seq<UvModel>
    decreases items,
{
    if items.len() == 0 {
        Seq::empty()
    } else {
        expr_update_vars(items[0]) + exprs_update_vars(items.subrange(1, items.len() as int))
    }
}

/// The variables the values of an object literal update, in order.
pub open spec fn fields_update_vars(fields: Seq<ObjectField>) -> Seq<UvModel>
    decreases fields,
    via fields_update_vars_decreases
{
    if fields.len() == 0 {
        Seq::empty()
    } else {
        expr_update_vars(fields[0].value) + fields_update_vars(
            fields.subrange(1, fields.len() as int),
        )
    }
}

#[via_fn]
proof fn expr_update_vars_decreases(e: Expression) {
    match e {
        Expression::Unary(_, _) => {
            assert(decreases_to!(e => *e->Unary_1));
        },
        Expression::Binary(_, _, _) => {
            assert(decreases_to!(e => *e->Binary_1));
            assert(decreases_to!(e => *e->Binary_2));
        },
        Expression::Logical(_, _, _) => {
            assert(decreases_to!(e => *e->Logical_1));
            assert(decreases_to!(e => *e->Logical_2));
        },
        Expression::Conditional(_, _, _) => {
            assert(decreases_to!(e => *e->Conditional_0));
            assert(decreases_to!(e => *e->Conditional_1));
            assert(decreases_to!(e => *e->Conditional_2));
        },
        Expression::Call(_, _) => {
            assert(decreases_to!(e => e->Call_1));
            assert(decreases_to!(e->Call_1 => e->Call_1@));
        },
        Expression::Member(_, _) => {
            assert(decreases_to!(e => *e->Member_0));
        },
        Expression::Array(_) => {
            assert(decreases_to!(e => e->Array_0));
            assert(decreases_to!(e->Array_0 => e->Array_0@));
        },
        Expression::Object(_) => {
            assert(decreases_to!(e => e->Object_0));
            assert(decreases_to!(e->Object_0 => e->Object_0@));
        },
        _ => {},
    }
}

#[via_fn]
proof fn fields_update_vars_decreases(fields: Seq<ObjectField>) {
    if fields.len() > 0 {
        assert(decreases_to!(fields => fields[0]));
        assert(decreases_to!(fields[0] => fields[0].value));
    }
}

/// Drops later duplicates, keeping the first occurrence of each element.
pub open spec fn dedup_seq<T>(s: Seq<T>) -> Seq<T>
    decreases s.len(),
{
    if s.len() == 0 {
        Seq::empty()
    } else {
        let prefix = s.take(s.len() - 1);
        if prefix.contains(s.last()) {
            dedup_seq(prefix)
        } else {
            dedup_seq(prefix).push(s.last())
        }
    }
}

/// Deduplication keeps exactly the elements of the input.
pub proof fn lemma_dedup_contains<T>(s: Seq<T>, x: T)
    ensures
        dedup_seq(s).contains(x) == s.contains(x),
    decreases s.len(),
{
    if s.len() > 0 {
        let prefix = s.take(s.len() - 1);
        lemma_dedup_contains(prefix, x);
        assert(s.contains(x) == (prefix.contains(x) || s.last() == x)) by {
            if s.contains(x) {
                let i = choose|i: int| 0 <= i < s.len() && s[i] == x;
                if i < s.len() - 1 {
                    assert(prefix[i] == x);
                }
            }
            if prefix.contains(x) {
                let i = choose|i: int| 0 <= i < prefix.len() && prefix[i] == x;
                assert(s[i] == x);
            }
            if s.last() == x {
                assert(s[s.len() - 1] == x);
            }
        }
        if !prefix.contains(s.last()) {
            assert(dedup_seq(s) == dedup_seq(prefix).push(s.last()));
            assert(dedup_seq(s)[dedup_seq(s).len() - 1] == s.last());
            if dedup_seq(s).contains(x) {
                let i = choose|i: int| 0 <= i < dedup_seq(s).len() && dedup_seq(s)[i] == x;
                if i < dedup_seq(s).len() - 1 {
                    assert(dedup_seq(prefix)[i] == x);
                }
            }
            if dedup_seq(prefix).contains(x) {
                let i = choose|i: int|
                    0 <= i < dedup_seq(prefix).len() && dedup_seq(prefix)[i] == x;
                assert(dedup_seq(s)[i] == x);
            }
        }
    }
}

/// Whether two input-variable records agree in namespace, name and flag.
pub fn input_var_eq(a: &InputVariable, b: &InputVariable) -> (r: bool)
    ensures
        r == (crate::task::input_var_model(*a) == crate::task::input_var_model(*b)),
{
    let vars = crate::variable::var_eq(&a.var, &b.var);
    vars && a.propagate == b.propagate
}

/// Whether a record with the same identity is already in the list.
fn contains_input_var(vs: &Vec<InputVariable>, x: &InputVariable) -> (r: bool)
    ensures
        r == input_var_models(vs@).contains(crate::task::input_var_model(*x)),
{
    let mut i: usize = 0;
    while i < vs.len()
        invariant
            i <= vs@.len(),
            forall|j: int|
                0 <= j < i as int ==> crate::task::input_var_model(vs@[j])
                    != crate::task::input_var_model(*x),
        decreases vs@.len() - i as int,
    {
        if input_var_eq(&vs[i], x) {
            proof {
                assert(input_var_models(vs@)[i as int] == crate::task::input_var_model(*x));
            }
            return true;
        }
        i = i + 1;
    }
    proof {
        if input_var_models(vs@).contains(crate::task::input_var_model(*x)) {
            let j = choose|j: int|
                0 <= j < input_var_models(vs@).len() && input_var_models(vs@)[j]
                    == crate::task::input_var_model(*x);
            assert(crate::task::input_var_model(vs@[j]) == crate::task::input_var_model(*x));
        }
    }
    false
}

/// Keeps the first occurrence of each input variable.
pub fn dedup_input_vars(raw: Vec<InputVariable>) -> (r: Vec<InputVariable>)
    ensures
        input_var_models(r@) == dedup_seq(input_var_models(raw@)),
{
    let mut out: Vec<InputVariable> = Vec::new();
    let mut i: usize = 0;
    while i < raw.len()
        invariant
            i <= raw@.len(),
            input_var_models(out@) =~= dedup_seq(input_var_models(raw@).take(i as int)),
        decreases raw@.len() - i as int,
    {
        let ghost pre = input_var_models(raw@).take(i as int);
        let ghost post = input_var_models(raw@).take(i as int + 1);
        proof {
            assert(post.take(post.len() - 1) =~= pre);
            assert(post.last() == crate::task::input_var_model(raw@[i as int]));
            lemma_dedup_contains(pre, post.last());
        }
        if !contains_input_var(&out, &raw[i]) {
            let ghost outpre = out@;
            out.push(raw[i].clone());
            proof {
                assert(input_var_models(out@) =~= input_var_models(outpre).push(
                    crate::task::input_var_model(raw@[i as int]),
                ));
            }
        }
        i = i + 1;
    }
    proof {
        assert(input_var_models(raw@).take(raw@.len() as int) =~= input_var_models(raw@));
    }
    out
}

/// Snoc form of `exprs_vars`: appending one expression appends its reads.
pub proof fn lemma_exprs_vars_snoc(s: Seq<Expression>, x: Expression)
    ensures
        exprs_vars(s.push(x)) == exprs_vars(s) + expr_vars(x),
    decreases s.len(),
{
    let sx = s.push(x);
    if s.len() == 0 {
        assert(sx.subrange(1, sx.len() as int) =~= Seq::<Expression>::empty());
        assert(exprs_vars(sx) == expr_vars(x) + exprs_vars(Seq::<Expression>::empty()));
        assert(expr_vars(x) + Seq::<IvModel>::empty() =~= expr_vars(x));
        assert(Seq::<IvModel>::empty() + expr_vars(x) =~= expr_vars(x));
    } else {
        assert(sx[0] == s[0]);
        assert(sx.subrange(1, sx.len() as int) =~= s.subrange(1, s.len() as int).push(x));
        lemma_exprs_vars_snoc(s.subrange(1, s.len() as int), x);
        assert(exprs_vars(sx) == expr_vars(s[0]) + (exprs_vars(s.subrange(1, s.len() as int))
            + expr_vars(x)));
        assert(expr_vars(s[0]) + (exprs_vars(s.subrange(1, s.len() as int)) + expr_vars(x)) =~= (
        expr_vars(s[0]) + exprs_vars(s.subrange(1, s.len() as int))) + expr_vars(x));
    }
}

/// Snoc form of `fields_vars`.
pub proof fn lemma_fields_vars_snoc(s: Seq<ObjectField>, x: ObjectField)
    ensures
        fields_vars(s.push(x)) == fields_vars(s) + expr_vars(x.value),
    decreases s.len(),
{
    let sx = s.push(x);
    if s.len() == 0 {
        assert(sx.subrange(1, sx.len() as int) =~= Seq::<ObjectField>::empty());
        assert(fields_vars(sx) == expr_vars(x.value) + fields_vars(Seq::<ObjectField>::empty()));
        assert(expr_vars(x.value) + Seq::<IvModel>::empty() =~= expr_vars(x.value));
        assert(Seq::<IvModel>::empty() + expr_vars(x.value) =~= expr_vars(x.value));
    } else {
        assert(sx[0] == s[0]);
        assert(sx.subrange(1, sx.len() as int) =~= s.subrange(1, s.len() as int).push(x));
        lemma_fields_vars_snoc(s.subrange(1, s.len() as int), x);
        assert(expr_vars(s[0].value) + (fields_vars(s.subrange(1, s.len() as int)) + expr_vars(
            x.value,
        )) =~= (expr_vars(s[0].value) + fields_vars(s.subrange(1, s.len() as int))) + expr_vars(
            x.value,
        ));
    }
}

/// Snoc form of `exprs_update_vars`.
pub proof fn lemma_exprs_update_vars_snoc(s: Seq<Expression>, x: Expression)
    ensures
        exprs_update_vars(s.push(x)) == exprs_update_vars(s) + expr_update_vars(x),
    decreases s.len(),
{
    let sx = s.push(x);
    if s.len() == 0 {
        assert(sx.subrange(1, sx.len() as int) =~= Seq::<Expression>::empty());
        assert(exprs_update_vars(sx) == expr_update_vars(x) + exprs_update_vars(
            Seq::<Expression>::empty(),
        ));
        assert(expr_update_vars(x) + Seq::<UvModel>::empty() =~= expr_update_vars(x));
        assert(Seq::<UvModel>::empty() + expr_update_vars(x) =~= expr_update_vars(x));
    } else {
        assert(sx[0] == s[0]);
        assert(sx.subrange(1, sx.len() as int) =~= s.subrange(1, s.len() as int).push(x));
        lemma_exprs_update_vars_snoc(s.subrange(1, s.len() as int), x);
        assert(expr_update_vars(s[0]) + (exprs_update_vars(s.subrange(1, s.len() as int))
            + expr_update_vars(x)) =~= (expr_update_vars(s[0]) + exprs_update_vars(
            s.subrange(1, s.len() as int),
        )) + expr_update_vars(x));
    }
}

/// Snoc form of `fields_update_vars`.
pub proof fn lemma_fields_update_vars_snoc(s: Seq<ObjectField>, x: ObjectField)
    ensures
        fields_update_vars(s.push(x)) == fields_update_vars(s) + expr_update_vars(x.value),
    decreases s.len(),
{
    let sx = s.push(x);
    if s.len() == 0 {
        assert(sx.subrange(1, sx.len() as int) =~= Seq::<ObjectField>::empty());
        assert(fields_update_vars(sx) == expr_update_vars(x.value) + fields_update_vars(
            Seq::<ObjectField>::empty(),
        ));
        assert(expr_update_vars(x.value) + Seq::<UvModel>::empty() =~= expr_update_vars(x.value));
        assert(Seq::<UvModel>::empty() + expr_update_vars(x.value) =~= expr_update_vars(x.value));
    } else {
        assert(sx[0] == s[0]);
        assert(sx.subrange(1, sx.len() as int) =~= s.subrange(1, s.len() as int).push(x));
        lemma_fields_update_vars_snoc(s.subrange(1, s.len() as int), x);
        assert(expr_update_vars(s[0].value) + (fields_update_vars(s.subrange(1, s.len() as int))
            + expr_update_vars(x.value)) =~= (expr_update_vars(s[0].value) + fields_update_vars(
            s.subrange(1, s.len() as int),
        )) + expr_update_vars(x.value));
    }
}

/// Whether a string equals a literal.
pub fn string_is(s: &String, lit: &str) -> (r: bool)
    ensures
        r == (s@ == lit@),
{
    let l = String::from_str(lit);
    *s == l
}

/// Whether a name is one of the reserved context words.
pub fn is_reserved(s: &String) -> (r: bool)
    ensures
        r == reserved_word(s@),
{
    string_is(s, "datum") || string_is(s, "event") || string_is(s, "item") || string_is(
        s,
        "parent",
    )
}

/// When an expression is a string literal, its characters.
fn as_string_literal(e: &Expression) -> (r: Option<&String>)
    ensures
        match r {
            Some(s) => is_string_literal(*e) && s@ == literal_string(*e),
            None => !is_string_literal(*e),
        },
{
    match e {
        Expression::Literal(ScalarValue::Utf8(s)) => Some(s),
        _ => None,
    }
}

/// Collects the variables an expression reads, in evaluation order,
/// duplicates included.
#[verifier::loop_isolation(false)]
pub fn collect_expr_vars(e: &Expression) -> (r: Vec<InputVariable>)
    ensures
        input_var_models(r@) =~= expr_vars(*e),
    decreases *e,
{
    match e {
        Expression::Literal(_) => Vec::new(),
        Expression::Identifier(name) => {
            let mut out: Vec<InputVariable> = Vec::new();
            if !is_reserved(name) {
                out.push(
                    InputVariable {
                        var: Variable {
                            namespace: VariableNamespace::Signal,
                            name: name.clone(),
                        },
                        propagate: true,
                    },
                );
            }
            out
        },
        Expression::Unary(_, a) => {
            proof {
                assert(decreases_to!(*e => *(*e)->Unary_1));
            }
            collect_expr_vars(a)
        },
        Expression::Binary(_, l, rr) => {
            proof {
                assert(decreases_to!(*e => *(*e)->Binary_1));
                assert(decreases_to!(*e => *(*e)->Binary_2));
            }
            let mut out = collect_expr_vars(l);
            let mut right = collect_expr_vars(rr);
            let ghost a = out@;
            let ghost b = right@;
            out.append(&mut right);
            proof {
                assert(input_var_models(a + b) =~= input_var_models(a) + input_var_models(b));
            }
            out
        },
        Expression::Logical(_, l, rr) => {
            proof {
                assert(decreases_to!(*e => *(*e)->Logical_1));
                assert(decreases_to!(*e => *(*e)->Logical_2));
            }
            let mut out = collect_expr_vars(l);
            let mut right = collect_expr_vars(rr);
            let ghost a = out@;
            let ghost b = right@;
            out.append(&mut right);
            proof {
                assert(input_var_models(a + b) =~= input_var_models(a) + input_var_models(b));
            }
            out
        },
        Expression::Conditional(c, t, f) => {
            proof {
                assert(decreases_to!(*e => *(*e)->Conditional_0));
                assert(decreases_to!(*e => *(*e)->Conditional_1));
                assert(decreases_to!(*e => *(*e)->Conditional_2));
            }
            let mut out = collect_expr_vars(c);
            let mut mid = collect_expr_vars(t);
            let mut last = collect_expr_vars(f);
            let ghost a = out@;
            let ghost b = mid@;
            out.append(&mut mid);
            proof {
                assert(input_var_models(a + b) =~= input_var_models(a) + input_var_models(b));
            }
            let ghost ab = out@;
            let ghost cc = last@;
            out.append(&mut last);
            proof {
                assert(input_var_models(ab + cc) =~= input_var_models(ab) + input_var_models(cc));
            }
            out
        },
        Expression::Member(o, _) => {
            proof {
                assert(decreases_to!(*e => *(*e)->Member_0));
            }
            collect_expr_vars(o)
        },
        Expression::Array(items) => {
            proof {
                assert(decreases_to!(*e => (*e)->Array_0));
                assert(decreases_to!((*e)->Array_0 => (*e)->Array_0@));
            }
            let mut out: Vec<InputVariable> = Vec::new();
            let mut i: usize = 0;
            while i < items.len()
                invariant
                    i <= items@.len(),
                    input_var_models(out@) =~= exprs_vars(items@.take(i as int)),
                decreases items@.len() - i as int,
            {
                proof {
                    assert(decreases_to!((*e)->Array_0@ => (*e)->Array_0@[i as int]));
                }
                let mut next = collect_expr_vars(&items[i]);
                let ghost a = out@;
                let ghost b = next@;
                out.append(&mut next);
                proof {
                    assert(input_var_models(a + b) =~= input_var_models(a) + input_var_models(b));
                    assert(items@.take(i as int + 1) =~= items@.take(i as int).push(
                        items@[i as int],
                    ));
                    lemma_exprs_vars_snoc(items@.take(i as int), items@[i as int]);
                }
                i = i + 1;
            }
            proof {
                assert(items@.take(items@.len() as int) =~= items@);
            }
            out
        },
        Expression::Object(fields) => {
            proof {
                assert(decreases_to!(*e => (*e)->Object_0));
                assert(decreases_to!((*e)->Object_0 => (*e)->Object_0@));
            }
            let mut out: Vec<InputVariable> = Vec::new();
            let mut i: usize = 0;
            while i < fields.len()
                invariant
                    i <= fields@.len(),
                    input_var_models(out@) =~= fields_vars(fields@.take(i as int)),
                decreases fields@.len() - i as int,
            {
                proof {
                    assert(decreases_to!((*e)->Object_0@ => (*e)->Object_0@[i as int]));
                    assert(decreases_to!((*e)->Object_0@[i as int] => (*e)->Object_0@[i as int].value));
                }
                let mut next = collect_expr_vars(&fields[i].value);
                let ghost a = out@;
                let ghost b = next@;
                out.append(&mut next);
                proof {
                    assert(input_var_models(a + b) =~= input_var_models(a) + input_var_models(b));
                    assert(fields@.take(i as int + 1) =~= fields@.take(i as int).push(
                        fields@[i as int],
                    ));
                    lemma_fields_vars_snoc(fields@.take(i as int), fields@[i as int]);
                }
                i = i + 1;
            }
            proof {
                assert(fields@.take(fields@.len() as int) =~= fields@);
            }
            out
        },
        Expression::Call(callee, args) => {
            proof {
                assert(decreases_to!(*e => (*e)->Call_1));
                assert(decreases_to!((*e)->Call_1 => (*e)->Call_1@));
            }
            let mut out: Vec<InputVariable> = Vec::new();
            let mut start: usize = 0;
            let is_data = string_is(callee, "data");
            let is_modify = string_is(callee, "modify");
            if (is_data || is_modify) && args.len() > 0 {
                if let Some(name) = as_string_literal(&args[0]) {
                    out.push(
                        InputVariable {
                            var: Variable {
                                namespace: VariableNamespace::Data,
                                name: name.clone(),
                            },
                            propagate: is_data,
                        },
                    );
                    start = 1;
                }
            }
            let ghost head = input_var_models(out@);
            let mut i: usize = start;
            while i < args.len()
                invariant
                    start <= i <= args@.len(),
                    input_var_models(out@) =~= head + exprs_vars(
                        args@.subrange(start as int, i as int),
                    ),
                decreases args@.len() - i as int,
            {
                proof {
                    assert(decreases_to!((*e)->Call_1@ => (*e)->Call_1@[i as int]));
                }
                let mut next = collect_expr_vars(&args[i]);
                let ghost a = out@;
                let ghost b = next@;
                out.append(&mut next);
                proof {
                    assert(input_var_models(a + b) =~= input_var_models(a) + input_var_models(b));
                    assert(args@.subrange(start as int, i as int + 1) =~= args@.subrange(
                        start as int,
                        i as int,
                    ).push(args@[i as int]));
                    lemma_exprs_vars_snoc(
                        args@.subrange(start as int, i as int),
                        args@[i as int],
                    );
                }
                i = i + 1;
            }
            proof {
                if start == 0 {
                    assert(args@.subrange(0, args@.len() as int) =~= args@);
                    assert(head + exprs_vars(args@) =~= exprs_vars(args@));
                }
            }
            out
        },
    }
}

/// Spec-level identities of a list of variables.
pub open spec fn var_models(vs: Seq<Variable>) -> Seq<UvModel> {
    Seq::new(vs.len(), |i: int| (vs[i].namespace, vs[i].name@))
}

/// Collects the variables an expression updates, in evaluation order,
/// duplicates included.
#[verifier::loop_isolation(false)]
pub fn collect_expr_update_vars(e: &Expression) -> (r: Vec<Variable>)
    ensures
        var_models(r@) =~= expr_update_vars(*e),
    decreases *e,
{
    match e {
        Expression::Literal(_) => Vec::new(),
        Expression::Identifier(_) => Vec::new(),
        Expression::Unary(_, a) => {
            proof {
                assert(decreases_to!(*e => *(*e)->Unary_1));
            }
            collect_expr_update_vars(a)
        },
        Expression::Binary(_, l, rr) => {
            proof {
                assert(decreases_to!(*e => *(*e)->Binary_1));
                assert(decreases_to!(*e => *(*e)->Binary_2));
            }
            let mut out = collect_expr_update_vars(l);
            let mut right = collect_expr_update_vars(rr);
            let ghost a = out@;
            let ghost b = right@;
            out.append(&mut right);
            proof {
                assert(var_models(a + b) =~= var_models(a) + var_models(b));
            }
            out
        },
        Expression::Logical(_, l, rr) => {
            proof {
                assert(decreases_to!(*e => *(*e)->Logical_1));
                assert(decreases_to!(*e => *(*e)->Logical_2));
            }
            let mut out = collect_expr_update_vars(l);
            let mut right = collect_expr_update_vars(rr);
            let ghost a = out@;
            let ghost b = right@;
            out.append(&mut right);
            proof {
                assert(var_models(a + b) =~= var_models(a) + var_models(b));
            }
            out
        },
        Expression::Conditional(c, t, f) => {
            proof {
                assert(decreases_to!(*e => *(*e)->Conditional_0));
                assert(decreases_to!(*e => *(*e)->Conditional_1));
                assert(decreases_to!(*e => *(*e)->Conditional_2));
            }
            let mut out = collect_expr_update_vars(c);
            let mut mid = collect_expr_update_vars(t);
            let mut last = collect_expr_update_vars(f);
            let ghost a = out@;
            let ghost b = mid@;
            out.append(&mut mid);
            proof {
                assert(var_models(a + b) =~= var_models(a) + var_models(b));
            }
            let ghost ab = out@;
            let ghost cc = last@;
            out.append(&mut last);
            proof {
                assert(var_models(ab + cc) =~= var_models(ab) + var_models(cc));
            }
            out
        },
        Expression::Member(o, _) => {
            proof {
                assert(decreases_to!(*e => *(*e)->Member_0));
            }
            collect_expr_update_vars(o)
        },
        Expression::Array(items) => {
            proof {
                assert(decreases_to!(*e => (*e)->Array_0));
                assert(decreases_to!((*e)->Array_0 => (*e)->Array_0@));
            }
            let mut out: Vec<Variable> = Vec::new();
            let mut i: usize = 0;
            while i < items.len()
                invariant
                    i <= items@.len(),
                    var_models(out@) =~= exprs_update_vars(items@.take(i as int)),
                decreases items@.len() - i as int,
            {
                proof {
                    assert(decreases_to!((*e)->Array_0@ => (*e)->Array_0@[i as int]));
                }
                let mut next = collect_expr_update_vars(&items[i]);
                let ghost a = out@;
                let ghost b = next@;
                out.append(&mut next);
                proof {
                    assert(var_models(a + b) =~= var_models(a) + var_models(b));
                    assert(items@.take(i as int + 1) =~= items@.take(i as int).push(
                        items@[i as int],
                    ));
                    lemma_exprs_update_vars_snoc(items@.take(i as int), items@[i as int]);
                }
                i = i + 1;
            }
            proof {
                assert(items@.take(items@.len() as int) =~= items@);
            }
            out
        },
        Expression::Object(fields) => {
            proof {
                assert(decreases_to!(*e => (*e)->Object_0));
                assert(decreases_to!((*e)->Object_0 => (*e)->Object_0@));
            }
            let mut out: Vec<Variable> = Vec::new();
            let mut i: usize = 0;
            while i < fields.len()
                invariant
                    i <= fields@.len(),
                    var_models(out@) =~= fields_update_vars(fields@.take(i as int)),
                decreases fields@.len() - i as int,
            {
                proof {
                    assert(decreases_to!((*e)->Object_0@ => (*e)->Object_0@[i as int]));
                    assert(decreases_to!((*e)->Object_0@[i as int] => (*e)->Object_0@[i as int].value));
                }
                let mut next = collect_expr_update_vars(&fields[i].value);
                let ghost a = out@;
                let ghost b = next@;
                out.append(&mut next);
                proof {
                    assert(var_models(a + b) =~= var_models(a) + var_models(b));
                    assert(fields@.take(i as int + 1) =~= fields@.take(i as int).push(
                        fields@[i as int],
                    ));
                    lemma_fields_update_vars_snoc(fields@.take(i as int), fields@[i as int]);
                }
                i = i + 1;
            }
            proof {
                assert(fields@.take(fields@.len() as int) =~= fields@);
            }
            out
        },
        Expression::Call(callee, args) => {
            proof {
                assert(decreases_to!(*e => (*e)->Call_1));
                assert(decreases_to!((*e)->Call_1 => (*e)->Call_1@));
            }
            let mut out: Vec<Variable> = Vec::new();
            let mut start: usize = 0;
            let is_modify = string_is(callee, "modify");
            if is_modify && args.len() > 0 {
                if let Some(name) = as_string_literal(&args[0]) {
                    out.push(
                        Variable { namespace: VariableNamespace::Data, name: name.clone() },
                    );
                    start = 1;
                }
            }
            let ghost head = var_models(out@);
            let mut i: usize = start;
            while i < args.len()
                invariant
                    start <= i <= args@.len(),
                    var_models(out@) =~= head + exprs_update_vars(
                        args@.subrange(start as int, i as int),
                    ),
                decreases args@.len() - i as int,
            {
                proof {
                    assert(decreases_to!((*e)->Call_1@ => (*e)->Call_1@[i as int]));
                }
                let mut next = collect_expr_update_vars(&args[i]);
                let ghost a = out@;
                let ghost b = next@;
                out.append(&mut next);
                proof {
                    assert(var_models(a + b) =~= var_models(a) + var_models(b));
                    assert(args@.subrange(start as int, i as int + 1) =~= args@.subrange(
                        start as int,
                        i as int,
                    ).push(args@[i as int]));
                    lemma_exprs_update_vars_snoc(
                        args@.subrange(start as int, i as int),
                        args@[i as int],
                    );
                }
                i = i + 1;
            }
            proof {
                if start == 0 {
                    assert(args@.subrange(0, args@.len() as int) =~= args@);
                    assert(head + exprs_update_vars(args@) =~= exprs_update_vars(args@));
                }
            }
            out
        },
    }
}

/// Whether a variable with the same identity is already in the list.
fn contains_var(vs: &Vec<Variable>, x: &Variable) -> (r: bool)
    ensures
        r == var_models(vs@).contains((x.namespace, x.name@)),
{
    let mut i: usize = 0;
    while i < vs.len()
        invariant
            i <= vs@.len(),
            forall|j: int| 0 <= j < i as int ==> var_id(vs@[j]) != var_id(*x),
        decreases vs@.len() - i as int,
    {
        if crate::variable::var_eq(&vs[i], x) {
            proof {
                assert(var_models(vs@)[i as int] == (x.namespace, x.name@));
            }
            return true;
        }
        i = i + 1;
    }
    proof {
        if var_models(vs@).contains((x.namespace, x.name@)) {
            let j = choose|j: int|
                0 <= j < var_models(vs@).len() && var_models(vs@)[j] == (x.namespace, x.name@);
            assert(var_id(vs@[j]) == var_id(*x));
        }
    }
    false
}

/// Keeps the first occurrence of each variable.
pub fn dedup_vars(raw: Vec<Variable>) -> (r: Vec<Variable>)
    ensures
        var_models(r@) == dedup_seq(var_models(raw@)),
{
    let mut out: Vec<Variable> = Vec::new();
    let mut i: usize = 0;
    while i < raw.len()
        invariant
            i <= raw@.len(),
            var_models(out@) =~= dedup_seq(var_models(raw@).take(i as int)),
        decreases raw@.len() - i as int,
    {
        let ghost pre = var_models(raw@).take(i as int);
        let ghost post = var_models(raw@).take(i as int + 1);
        proof {
            assert(post.take(post.len() - 1) =~= pre);
            assert(post.last() == (raw@[i as int].namespace, raw@[i as int].name@));
            lemma_dedup_contains(pre, post.last());
        }
        if !contains_var(&out, &raw[i]) {
            let ghost outpre = out@;
            out.push(raw[i].clone());
            proof {
                assert(var_models(out@) =~= var_models(outpre).push(
                    (raw@[i as int].namespace, raw@[i as int].name@),
                ));
            }
        }
        i = i + 1;
    }
    proof {
        assert(var_models(raw@).take(raw@.len() as int) =~= var_models(raw@));
    }
    out
}

impl Expression {
    /// The variables this expression reads: first occurrence of each, in
    /// evaluation order, with `propagate` false for `modify`-style reads.
    pub fn input_vars(&self) -> (r: Vec<InputVariable>)
        ensures
            input_var_models(r@) == dedup_seq(expr_vars(*self)),
    {
        dedup_input_vars(collect_expr_vars(self))
    }

    /// The variables this expression mutates through `modify`-style calls:
    /// first occurrence of each, in evaluation order.
    pub fn update_vars(&self) -> (r: Vec<Variable>)
        ensures
            var_models(r@) == dedup_seq(expr_update_vars(*self)),
    {
        dedup_vars(collect_expr_update_vars(self))
    }
}

/// The byte form of an expression: a tag, then the payload, children in
/// evaluation order.
pub open spec fn expr_bytes(e: Expression) -> Seq<u8>
    decreases e,
    via expr_bytes_decreases
{
    match e {
        Expression::Literal(_) => seq![0u8] + scalar_bytes(e->Literal_0),
        Expression::Identifier(_) => seq![1u8] + string_bytes(e->Identifier_0@),
        Expression::Unary(_, _) => seq![2u8, unary_op_tag(e->Unary_0)] + expr_bytes(*e->Unary_1),
        Expression::Binary(_, _, _) => seq![3u8, binary_op_tag(e->Binary_0)] + expr_bytes(
            *e->Binary_1,
        ) + expr_bytes(*e->Binary_2),
        Expression::Logical(_, _, _) => seq![4u8, logical_op_tag(e->Logical_0)] + expr_bytes(
            *e->Logical_1,
        ) + expr_bytes(*e->Logical_2),
        Expression::Conditional(_, _, _) => seq![5u8] + expr_bytes(*e->Conditional_0)
            + expr_bytes(*e->Conditional_1) + expr_bytes(*e->Conditional_2),
        Expression::Call(_, _) => seq![6u8] + string_bytes(e->Call_0@) + u64_bytes(
            e->Call_1@.len() as u64,
        ) + exprs_bytes(e->Call_1@),
        Expression::Member(_, _) => seq![7u8] + expr_bytes(*e->Member_0) + string_bytes(
            e->Member_1@,
        ),
        Expression::Array(_) => seq![8u8] + u64_bytes(e->Array_0@.len() as u64) + exprs_bytes(
            e->Array_0@,
        ),
        Expression::Object(_) => seq![9u8] + u64_bytes(e->Object_0@.len() as u64) + fields_bytes(
            e->Object_0@,
        ),
    }
}

/// The byte forms of a sequence of expressions, concatenated.
pub open spec fn exprs_bytes(items: Seq<Expression>) -> Seq<u8>
    decreases items,
{
    if items.len() == 0 {
        Seq::empty()
    } else {
        expr_bytes(items[0]) + exprs_bytes(items.subrange(1, items.len() as int))
    }
}

/// The byte forms of the properties of an object literal, concatenated.
pub open spec fn fields_bytes(fields: Seq<ObjectField>) -> Seq<u8>
    decreases fields,
    via fields_bytes_decreases
{
    if fields.len() == 0 {
        Seq::empty()
    } else {
        string_bytes(fields[0].key@) + expr_bytes(fields[0].value) + fields_bytes(
            fields.subrange(1, fields.len() as int),
        )
    }
}

/// The tag of a unary operator.
pub open spec fn unary_op_tag(op: UnaryOp) -> u8 {
    match op {
        UnaryOp::Neg => 0u8,
        UnaryOp::Pos => 1u8,
        UnaryOp::Not => 2u8,
    }
}

/// The tag of a binary operator.
pub open spec fn binary_op_tag(op: BinaryOp) -> u8 {
    match op {
        BinaryOp::Add => 0u8,
        BinaryOp::Sub => 1u8,
        BinaryOp::Mul => 2u8,
        BinaryOp::Div => 3u8,
        BinaryOp::Mod => 4u8,
        BinaryOp::Equals => 5u8,
        BinaryOp::NotEquals => 6u8,
        BinaryOp::Less => 7u8,
        BinaryOp::Greater => 8u8,
        BinaryOp::LessEq => 9u8,
        BinaryOp::GreaterEq => 10u8,
    }
}

/// The tag of a logical operator.
pub open spec fn logical_op_tag(op: LogicalOp) -> u8 {
    match op {
        LogicalOp::And => 0u8,
        LogicalOp::Or => 1u8,
    }
}

#[via_fn]
proof fn expr_bytes_decreases(e: Expression) {
    match e {
        Expression::Unary(_, _) => {
            assert(decreases_to!(e => *e->Unary_1));
        },
        Expression::Binary(_, _, _) => {
            assert(decreases_to!(e => *e->Binary_1));
            assert(decreases_to!(e => *e->Binary_2));
        },
        Expression::Logical(_, _, _) => {
            assert(decreases_to!(e => *e->Logical_1));
            assert(decreases_to!(e => *e->Logical_2));
        },
        Expression::Conditional(_, _, _) => {
            assert(decreases_to!(e => *e->Conditional_0));
            assert(decreases_to!(e => *e->Conditional_1));
            assert(decreases_to!(e => *e->Conditional_2));
        },
        Expression::Call(_, _) => {
            assert(decreases_to!(e => e->Call_1));
            assert(decreases_to!(e->Call_1 => e->Call_1@));
        },
        Expression::Member(_, _) => {
            assert(decreases_to!(e => *e->Member_0));
        },
        Expression::Array(_) => {
            assert(decreases_to!(e => e->Array_0));
            assert(decreases_to!(e->Array_0 => e->Array_0@));
        },
        Expression::Object(_) => {
            assert(decreases_to!(e => e->Object_0));
            assert(decreases_to!(e->Object_0 => e->Object_0@));
        },
        _ => {},
    }
}

#[via_fn]
proof fn fields_bytes_decreases(fields: Seq<ObjectField>) {
    if fields.len() > 0 {
        assert(decreases_to!(fields => fields[0]));
        assert(decreases_to!(fields[0] => fields[0].value));
    }
}

/// Snoc form of `exprs_bytes`.
#[verifier::rlimit(80)]
pub proof fn lemma_exprs_bytes_snoc(s: Seq<Expression>, x: Expression)
    ensures
        exprs_bytes(s.push(x)) == exprs_bytes(s) + expr_bytes(x),
    decreases s.len(),
{
    let sx = s.push(x);
    let xb = expr_bytes(x);
    if s.len() == 0 {
        assert(sx.subrange(1, sx.len() as int) =~= Seq::<Expression>::empty());
        assert(exprs_bytes(sx) == xb + exprs_bytes(Seq::<Expression>::empty()));
        assert(xb + Seq::<u8>::empty() =~= xb);
        assert(Seq::<u8>::empty() + xb =~= xb);
    } else {
        let tail = s.subrange(1, s.len() as int);
        let h = expr_bytes(s[0]);
        assert(sx[0] == s[0]);
        assert(sx.subrange(1, sx.len() as int) =~= tail.push(x));
        lemma_exprs_bytes_snoc(tail, x);
        assert(exprs_bytes(sx) == h + (exprs_bytes(tail) + xb));
        assert(h + (exprs_bytes(tail) + xb) =~= (h + exprs_bytes(tail)) + xb);
        assert(exprs_bytes(s) == h + exprs_bytes(tail));
    }
}

/// Snoc form of `fields_bytes`.
#[verifier::rlimit(80)]
pub proof fn lemma_fields_bytes_snoc(s: Seq<ObjectField>, x: ObjectField)
    ensures
        fields_bytes(s.push(x)) == fields_bytes(s) + string_bytes(x.key@) + expr_bytes(x.value),
    decreases s.len(),
{
    let sx = s.push(x);
    let xb = string_bytes(x.key@) + expr_bytes(x.value);
    if s.len() == 0 {
        assert(sx.subrange(1, sx.len() as int) =~= Seq::<ObjectField>::empty());
        assert(fields_bytes(sx) == string_bytes(x.key@) + expr_bytes(x.value) + fields_bytes(
            Seq::<ObjectField>::empty(),
        ));
        assert(string_bytes(x.key@) + expr_bytes(x.value) + Seq::<u8>::empty() =~= xb);
        assert(Seq::<u8>::empty() + string_bytes(x.key@) =~= string_bytes(x.key@));
        assert(fields_bytes(sx) =~= xb);
        assert(fields_bytes(s) + string_bytes(x.key@) + expr_bytes(x.value) =~= xb);
    } else {
        let tail = s.subrange(1, s.len() as int);
        let h = string_bytes(s[0].key@) + expr_bytes(s[0].value);
        assert(sx[0] == s[0]);
        assert(sx.subrange(1, sx.len() as int) =~= tail.push(x));
        lemma_fields_bytes_snoc(tail, x);
        assert(fields_bytes(sx) == h + (fields_bytes(tail) + string_bytes(x.key@) + expr_bytes(
            x.value,
        )));
        assert(h + (fields_bytes(tail) + string_bytes(x.key@) + expr_bytes(x.value)) =~= ((h
            + fields_bytes(tail)) + string_bytes(x.key@)) + expr_bytes(x.value));
        assert(fields_bytes(s) == h + fields_bytes(tail));
    }
}

/// Appends the byte form of an expression.
#[verifier::loop_isolation(false)]
#[verifier::rlimit(100)]
#[verifier::spinoff_prover]
pub fn write_expr(buf: &mut Vec<u8>, e: &Expression)
    ensures
        final(buf)@ =~= old(buf)@ + expr_bytes(*e),
    decreases *e,
{
    match e {
        Expression::Literal(v) => {
            buf.push(0u8);
            write_scalar(buf, v);
        },
        Expression::Identifier(name) => {
            buf.push(1u8);
            write_string(buf, name);
        },
        Expression::Unary(op, a) => {
            buf.push(2u8);
            buf.push(
                match op {
                    UnaryOp::Neg => 0u8,
                    UnaryOp::Pos => 1u8,
                    UnaryOp::Not => 2u8,
                },
            );
            proof {
                assert(decreases_to!(*e => *(*e)->Unary_1));
            }
            write_expr(buf, a);
        },
        Expression::Binary(op, l, rr) => {
            buf.push(3u8);
            buf.push(
                match op {
                    BinaryOp::Add => 0u8,
                    BinaryOp::Sub => 1u8,
                    BinaryOp::Mul => 2u8,
                    BinaryOp::Div => 3u8,
                    BinaryOp::Mod => 4u8,
                    BinaryOp::Equals => 5u8,
                    BinaryOp::NotEquals => 6u8,
                    BinaryOp::Less => 7u8,
                    BinaryOp::Greater => 8u8,
                    BinaryOp::LessEq => 9u8,
                    BinaryOp::GreaterEq => 10u8,
                },
            );
            proof {
                assert(decreases_to!(*e => *(*e)->Binary_1));
                assert(decreases_to!(*e => *(*e)->Binary_2));
            }
            write_expr(buf, l);
            write_expr(buf, rr);
        },
        Expression::Logical(op, l, rr) => {
            buf.push(4u8);
            buf.push(
                match op {
                    LogicalOp::And => 0u8,
                    LogicalOp::Or => 1u8,
                },
            );
            proof {
                assert(decreases_to!(*e => *(*e)->Logical_1));
                assert(decreases_to!(*e => *(*e)->Logical_2));
            }
            write_expr(buf, l);
            write_expr(buf, rr);
        },
        Expression::Conditional(c, t, f) => {
            buf.push(5u8);
            proof {
                assert(decreases_to!(*e => *(*e)->Conditional_0));
                assert(decreases_to!(*e => *(*e)->Conditional_1));
                assert(decreases_to!(*e => *(*e)->Conditional_2));
            }
            write_expr(buf, c);
            write_expr(buf, t);
            write_expr(buf, f);
        },
        Expression::Call(callee, args) => {
            buf.push(6u8);
            write_string(buf, callee);
            write_u64(buf, args.len() as u64);
            let ghost mid = buf@;
            let mut i: usize = 0;
            while i < args.len()
                invariant
                    i <= args@.len(),
                    buf@ =~= mid + exprs_bytes(args@.take(i as int)),
                decreases args@.len() - i as int,
            {
                proof {
                    assert(decreases_to!(*e => (*e)->Call_1));
                    assert(decreases_to!((*e)->Call_1 => (*e)->Call_1@));
                    assert(decreases_to!((*e)->Call_1@ => (*e)->Call_1@[i as int]));
                }
                write_expr(buf, &args[i]);
                proof {
                    assert(args@.take(i as int + 1) =~= args@.take(i as int).push(
                        args@[i as int],
                    ));
                    lemma_exprs_bytes_snoc(args@.take(i as int), args@[i as int]);
                }
                i = i + 1;
            }
            proof {
                assert(args@.take(args@.len() as int) =~= args@);
            }
        },
        Expression::Member(o, prop) => {
            buf.push(7u8);
            proof {
                assert(decreases_to!(*e => *(*e)->Member_0));
            }
            write_expr(buf, o);
            write_string(buf, prop);
        },
        Expression::Array(items) => {
            buf.push(8u8);
            write_u64(buf, items.len() as u64);
            let ghost mid = buf@;
            let mut i: usize = 0;
            while i < items.len()
                invariant
                    i <= items@.len(),
                    buf@ =~= mid + exprs_bytes(items@.take(i as int)),
                decreases items@.len() - i as int,
            {
                proof {
                    assert(decreases_to!(*e => (*e)->Array_0));
                    assert(decreases_to!((*e)->Array_0 => (*e)->Array_0@));
                    assert(decreases_to!((*e)->Array_0@ => (*e)->Array_0@[i as int]));
                }
                write_expr(buf, &items[i]);
                proof {
                    assert(items@.take(i as int + 1) =~= items@.take(i as int).push(
                        items@[i as int],
                    ));
                    lemma_exprs_bytes_snoc(items@.take(i as int), items@[i as int]);
                }
                i = i + 1;
            }
            proof {
                assert(items@.take(items@.len() as int) =~= items@);
            }
        },
        Expression::Object(fields) => {
            buf.push(9u8);
            write_u64(buf, fields.len() as u64);
            let ghost mid = buf@;
            let mut i: usize = 0;
            while i < fields.len()
                invariant
                    i <= fields@.len(),
                    buf@ =~= mid + fields_bytes(fields@.take(i as int)),
                decreases fields@.len() - i as int,
            {
                proof {
                    assert(decreases_to!(*e => (*e)->Object_0));
                    assert(decreases_to!((*e)->Object_0 => (*e)->Object_0@));
                    assert(decreases_to!((*e)->Object_0@ => (*e)->Object_0@[i as int]));
                    assert(decreases_to!((*e)->Object_0@[i as int] => (*e)->Object_0@[i as int].value));
                }
                write_string(buf, &fields[i].key);
                write_expr(buf, &fields[i].value);
                proof {
                    assert(fields@.take(i as int + 1) =~= fields@.take(i as int).push(
                        fields@[i as int],
                    ));
                    lemma_fields_bytes_snoc(fields@.take(i as int), fields@[i as int]);
                }
                i = i + 1;
            }
            proof {
                assert(fields@.take(fields@.len() as int) =~= fields@);
            }
        },
    }
}

/// Deep copy of an expression, preserving its reads, its updates and its
/// byte form.
#[verifier::loop_isolation(false)]
#[verifier::rlimit(100)]
#[verifier::spinoff_prover]
pub fn clone_expr(e: &Expression) -> (r: Expression)
    ensures
        expr_vars(r) == expr_vars(*e),
        expr_update_vars(r) == expr_update_vars(*e),
        expr_bytes(r) == expr_bytes(*e),
        is_string_literal(r) == is_string_literal(*e),
        is_string_literal(*e) ==> literal_string(r) == literal_string(*e),
    decreases *e,
{
    match e {
        Expression::Literal(v) => {
            let c = crate::values::clone_scalar(v);
            proof {
                lemma_scalar_model_bytes(c, *v);
                match *v {
                    ScalarValue::Utf8(_) => {
                        assert(crate::values::scalar_model(c) matches
                            crate::values::ScalarModel::Utf8(_));
                        assert(c matches ScalarValue::Utf8(_));
                        assert(c->Utf8_0@ == (*v)->Utf8_0@);
                    },
                    _ => {
                        assert(!(c matches ScalarValue::Utf8(_)));
                    },
                }
            }
            let r = Expression::Literal(c);
            proof {
                assert(expr_bytes(r) =~= expr_bytes(*e));
            }
            r
        },
        Expression::Identifier(name) => {
            let r = Expression::Identifier(name.clone());
            proof {
                assert(expr_bytes(r) =~= expr_bytes(*e));
                assert(expr_vars(r) =~= expr_vars(*e));
            }
            r
        },
        Expression::Unary(op, a) => {
            proof {
                assert(decreases_to!(*e => *(*e)->Unary_1));
            }
            let r = Expression::Unary(*op, Box::new(clone_expr(a)));
            proof {
                assert(expr_bytes(r) =~= expr_bytes(*e));
            }
            r
        },
        Expression::Binary(op, l, rr) => {
            proof {
                assert(decreases_to!(*e => *(*e)->Binary_1));
                assert(decreases_to!(*e => *(*e)->Binary_2));
            }
            let r = Expression::Binary(*op, Box::new(clone_expr(l)), Box::new(clone_expr(rr)));
            proof {
                assert(expr_bytes(r) =~= expr_bytes(*e));
            }
            r
        },
        Expression::Logical(op, l, rr) => {
            proof {
                assert(decreases_to!(*e => *(*e)->Logical_1));
                assert(decreases_to!(*e => *(*e)->Logical_2));
            }
            let r = Expression::Logical(*op, Box::new(clone_expr(l)), Box::new(clone_expr(rr)));
            proof {
                assert(expr_bytes(r) =~= expr_bytes(*e));
            }
            r
        },
        Expression::Conditional(c, t, f) => {
            proof {
                assert(decreases_to!(*e => *(*e)->Conditional_0));
                assert(decreases_to!(*e => *(*e)->Conditional_1));
                assert(decreases_to!(*e => *(*e)->Conditional_2));
            }
            let r = Expression::Conditional(
                Box::new(clone_expr(c)),
                Box::new(clone_expr(t)),
                Box::new(clone_expr(f)),
            );
            proof {
                assert(expr_bytes(r) =~= expr_bytes(*e));
            }
            r
        },
        Expression::Member(o, prop) => {
            proof {
                assert(decreases_to!(*e => *(*e)->Member_0));
            }
            let r = Expression::Member(Box::new(clone_expr(o)), prop.clone());
            proof {
                assert(expr_bytes(r) =~= expr_bytes(*e));
            }
            r
        },
        Expression::Call(callee, args) => {
            let mut out: Vec<Expression> = Vec::new();
            let mut i: usize = 0;
            while i < args.len()
                invariant
                    i <= args@.len(),
                    out@.len() == i as int,
                    exprs_vars(out@) =~= exprs_vars(args@.take(i as int)),
                    exprs_update_vars(out@) =~= exprs_update_vars(args@.take(i as int)),
                    exprs_bytes(out@) =~= exprs_bytes(args@.take(i as int)),
                    forall|j: int|
                        0 <= j < i as int ==> is_string_literal(#[trigger] out@[j])
                            == is_string_literal(args@[j]) && (is_string_literal(args@[j])
                            ==> literal_string(out@[j]) == literal_string(args@[j])),
                    forall|j: int|
                        0 <= j < i as int ==> expr_vars(#[trigger] out@[j]) == expr_vars(
                            args@[j],
                        ) && expr_update_vars(out@[j]) == expr_update_vars(args@[j]),
                decreases args@.len() - i as int,
            {
                proof {
                    assert(decreases_to!(*e => (*e)->Call_1));
                    assert(decreases_to!((*e)->Call_1 => (*e)->Call_1@));
                    assert(decreases_to!((*e)->Call_1@ => (*e)->Call_1@[i as int]));
                }
                let ghost outpre = out@;
                let c = clone_expr(&args[i]);
                out.push(c);
                proof {
                    assert(args@.take(i as int + 1) =~= args@.take(i as int).push(
                        args@[i as int],
                    ));
                    assert(out@ =~= outpre.push(c));
                    lemma_exprs_vars_snoc(outpre, c);
                    lemma_exprs_vars_snoc(args@.take(i as int), args@[i as int]);
                    lemma_exprs_update_vars_snoc(outpre, c);
                    lemma_exprs_update_vars_snoc(args@.take(i as int), args@[i as int]);
                    lemma_exprs_bytes_snoc(outpre, c);
                    lemma_exprs_bytes_snoc(args@.take(i as int), args@[i as int]);
                }
                i = i + 1;
            }
            proof {
                assert(args@.take(args@.len() as int) =~= args@);
            }
            let r = Expression::Call(callee.clone(), out);
            proof {
                assert(expr_bytes(r) =~= expr_bytes(*e));
                if out@.len() > 0 {
                    assert(out@[0] == r->Call_1@[0]);
                }
                assert(expr_vars(r) =~= expr_vars(*e)) by {
                    if r->Call_1@.len() > 0 {
                        assert(r->Call_1@.subrange(1, r->Call_1@.len() as int) =~= subrange_tail(
                            r->Call_1@,
                        ));
                        assert(args@.subrange(1, args@.len() as int) =~= subrange_tail(args@));
                        lemma_exprs_vars_subrange_tail(r->Call_1@, args@);
                    }
                }
                assert(expr_update_vars(r) =~= expr_update_vars(*e)) by {
                    if r->Call_1@.len() > 0 {
                        lemma_exprs_update_vars_subrange_tail(r->Call_1@, args@);
                    }
                }
            }
            r
        },
        Expression::Array(items) => {
            let mut out: Vec<Expression> = Vec::new();
            let mut i: usize = 0;
            while i < items.len()
                invariant
                    i <= items@.len(),
                    out@.len() == i as int,
                    exprs_vars(out@) =~= exprs_vars(items@.take(i as int)),
                    exprs_update_vars(out@) =~= exprs_update_vars(items@.take(i as int)),
                    exprs_bytes(out@) =~= exprs_bytes(items@.take(i as int)),
                decreases items@.len() - i as int,
            {
                proof {
                    assert(decreases_to!(*e => (*e)->Array_0));
                    assert(decreases_to!((*e)->Array_0 => (*e)->Array_0@));
                    assert(decreases_to!((*e)->Array_0@ => (*e)->Array_0@[i as int]));
                }
                let ghost outpre = out@;
                let c = clone_expr(&items[i]);
                out.push(c);
                proof {
                    assert(items@.take(i as int + 1) =~= items@.take(i as int).push(
                        items@[i as int],
                    ));
                    assert(out@ =~= outpre.push(c));
                    lemma_exprs_vars_snoc(outpre, c);
                    lemma_exprs_vars_snoc(items@.take(i as int), items@[i as int]);
                    lemma_exprs_update_vars_snoc(outpre, c);
                    lemma_exprs_update_vars_snoc(items@.take(i as int), items@[i as int]);
                    lemma_exprs_bytes_snoc(outpre, c);
                    lemma_exprs_bytes_snoc(items@.take(i as int), items@[i as int]);
                }
                i = i + 1;
            }
            proof {
                assert(items@.take(items@.len() as int) =~= items@);
            }
            let r = Expression::Array(out);
            proof {
                assert(expr_bytes(r) =~= expr_bytes(*e));
                assert(expr_vars(r) =~= expr_vars(*e));
                assert(expr_update_vars(r) =~= expr_update_vars(*e));
            }
            r
        },
        Expression::Object(fields) => {
            let mut out: Vec<ObjectField> = Vec::new();
            let mut i: usize = 0;
            while i < fields.len()
                invariant
                    i <= fields@.len(),
                    out@.len() == i as int,
                    fields_vars(out@) =~= fields_vars(fields@.take(i as int)),
                    fields_update_vars(out@) =~= fields_update_vars(fields@.take(i as int)),
                    fields_bytes(out@) =~= fields_bytes(fields@.take(i as int)),
                decreases fields@.len() - i as int,
            {
                proof {
                    assert(decreases_to!(*e => (*e)->Object_0));
                    assert(decreases_to!((*e)->Object_0 => (*e)->Object_0@));
                    assert(decreases_to!((*e)->Object_0@ => (*e)->Object_0@[i as int]));
                    assert(decreases_to!((*e)->Object_0@[i as int] => (*e)->Object_0@[i as int].value));
                }
                let ghost outpre = out@;
                let c = ObjectField {
                    key: fields[i].key.clone(),
                    value: clone_expr(&fields[i].value),
                };
                out.push(c);
                proof {
                    assert(fields@.take(i as int + 1) =~= fields@.take(i as int).push(
                        fields@[i as int],
                    ));
                    assert(out@ =~= outpre.push(c));
                    lemma_fields_vars_snoc(outpre, c);
                    lemma_fields_vars_snoc(fields@.take(i as int), fields@[i as int]);
                    lemma_fields_update_vars_snoc(outpre, c);
                    lemma_fields_update_vars_snoc(fields@.take(i as int), fields@[i as int]);
                    lemma_fields_bytes_snoc(outpre, c);
                    lemma_fields_bytes_snoc(fields@.take(i as int), fields@[i as int]);
                }
                i = i + 1;
            }
            proof {
                assert(fields@.take(fields@.len() as int) =~= fields@);
            }
            let r = Expression::Object(out);
            proof {
                assert(expr_bytes(r) =~= expr_bytes(*e));
                assert(expr_vars(r) =~= expr_vars(*e));
                assert(expr_update_vars(r) =~= expr_update_vars(*e));
            }
            r
        },
    }
}

/// The tail of a non-empty sequence.
pub open spec fn subrange_tail(s: Seq<Expression>) -> Seq<Expression> {
    s.subrange(1, s.len() as int)
}

/// Tails with elementwise-matching reads have matching reads.
proof fn lemma_exprs_vars_subrange_tail(a: Seq<Expression>, b: Seq<Expression>)
    requires
        a.len() == b.len(),
        a.len() > 0,
        exprs_vars(a) == exprs_vars(b),
        expr_vars(a[0]) == expr_vars(b[0]),
    ensures
        exprs_vars(subrange_tail(a)) == exprs_vars(subrange_tail(b)),
{
    assert(exprs_vars(a) == expr_vars(a[0]) + exprs_vars(subrange_tail(a)));
    assert(exprs_vars(b) == expr_vars(b[0]) + exprs_vars(subrange_tail(b)));
    let h = expr_vars(a[0]);
    let ta = exprs_vars(subrange_tail(a));
    let tb = exprs_vars(subrange_tail(b));
    assert((h + ta).len() == (h + tb).len());
    assert(ta.len() == tb.len());
    assert forall|i: int| 0 <= i < ta.len() implies ta[i] == tb[i] by {
        assert((h + ta)[h.len() + i] == ta[i]);
        assert((h + tb)[h.len() + i] == tb[i]);
    }
    assert(ta =~= tb);
}

/// Tails with elementwise-matching updates have matching updates.
proof fn lemma_exprs_update_vars_subrange_tail(a: Seq<Expression>, b: Seq<Expression>)
    requires
        a.len() == b.len(),
        a.len() > 0,
        exprs_update_vars(a) == exprs_update_vars(b),
        expr_update_vars(a[0]) == expr_update_vars(b[0]),
    ensures
        exprs_update_vars(subrange_tail(a)) == exprs_update_vars(subrange_tail(b)),
{
    assert(exprs_update_vars(a) == expr_update_vars(a[0]) + exprs_update_vars(subrange_tail(a)));
    assert(exprs_update_vars(b) == expr_update_vars(b[0]) + exprs_update_vars(subrange_tail(b)));
    let h = expr_update_vars(a[0]);
    let ta = exprs_update_vars(subrange_tail(a));
    let tb = exprs_update_vars(subrange_tail(b));
    assert((h + ta).len() == (h + tb).len());
    assert(ta.len() == tb.len());
    assert forall|i: int| 0 <= i < ta.len() implies ta[i] == tb[i] by {
        assert((h + ta)[h.len() + i] == ta[i]);
        assert((h + tb)[h.len() + i] == tb[i]);
    }
    assert(ta =~= tb);
}

/// Scalars with the same model have the same bytes: the byte form is a
/// function of the model alone.
pub proof fn lemma_scalar_model_bytes(a: ScalarValue, b: ScalarValue)
    requires
        crate::values::scalar_model(a) == crate::values::scalar_model(b),
    ensures
        scalar_bytes(a) == scalar_bytes(b),
    decreases a,
{
    match a {
        ScalarValue::Null => {
            assert(b matches ScalarValue::Null);
        },
        ScalarValue::Boolean(_) => {
            assert(b matches ScalarValue::Boolean(_));
            assert(a->Boolean_0 == b->Boolean_0);
        },
        ScalarValue::Number(_) => {
            assert(b matches ScalarValue::Number(_));
            assert(a->Number_0 == b->Number_0);
        },
        ScalarValue::Utf8(_) => {
            assert(b matches ScalarValue::Utf8(_));
            assert(a->Utf8_0@ == b->Utf8_0@);
        },
        ScalarValue::List(_) => {
            assert(b matches ScalarValue::List(_));
            let av = a->List_0@;
            let bv = b->List_0@;
            crate::values::lemma_scalar_models_index(av);
            crate::values::lemma_scalar_models_index(bv);
            assert(crate::values::scalar_models(av) == crate::values::scalar_models(bv));
            assert(av.len() == bv.len()) by {
                assert(crate::values::scalar_models(av).len() == av.len());
            }
            assert forall|i: int| 0 <= i < av.len() implies crate::values::scalar_model(
                #[trigger] av[i],
            ) == crate::values::scalar_model(bv[i]) by {
                assert(crate::values::scalar_models(av)[i] == crate::values::scalar_model(av[i]));
                assert(crate::values::scalar_models(bv)[i] == crate::values::scalar_model(bv[i]));
            }
            assert(decreases_to!(a => a->List_0));
            assert(decreases_to!(a->List_0 => av));
            lemma_scalars_model_bytes(av, bv);
        },
    }
}

/// Lists of scalars with elementwise-equal models have equal bytes.
proof fn lemma_scalars_model_bytes(av: Seq<ScalarValue>, bv: Seq<ScalarValue>)
    requires
        av.len() == bv.len(),
        forall|i: int|
            0 <= i < av.len() ==> crate::values::scalar_model(#[trigger] av[i])
                == crate::values::scalar_model(bv[i]),
    ensures
        crate::codec::scalars_bytes(av) == crate::codec::scalars_bytes(bv),
    decreases av,
{
    if av.len() > 0 {
        assert(decreases_to!(av => av[0]));
        lemma_scalar_model_bytes(av[0], bv[0]);
        let ta = av.subrange(1, av.len() as int);
        let tb = bv.subrange(1, bv.len() as int);
        assert(forall|i: int|
            0 <= i < ta.len() ==> crate::values::scalar_model(#[trigger] ta[i])
                == crate::values::scalar_model(tb[i]));
        lemma_scalars_model_bytes(ta, tb);
    }
}

} // verus!
