//! Properties of the library, stated and proved once and for all.

use vstd::prelude::*;
use crate::number::RatV;
use crate::tree_builder::{NodeV, nv_is_binary_operator, spec_fill_missing_ans, is_unary_op_text};
use crate::executor::{
    EnvV, ErrV, ValueV, eval_node, eval_args, split_commas, parse_number_v, funs_lookup,
    param_names, vars_insert, vars_lookup,
};
use crate::operations::operate_v;

verus! {

/// Looking a name up right after binding it yields the bound value.
pub proof fn lemma_insert_then_lookup(
    vars: Seq<(Seq<char>, ValueV)>,
    name: Seq<char>,
    val: ValueV,
)
    ensures
        vars_lookup(vars_insert(vars, name, val), name) == Some(val),
    decreases vars.len(),
{
    if vars.len() == 0 {
    } else if vars[0].0 == name {
        let res = vars_insert(vars, name, val);
        assert(res[0] == (name, val));
    } else {
        lemma_insert_then_lookup(vars.drop_first(), name, val);
        let res = vars_insert(vars, name, val);
        assert(res[0] == vars[0]);
        assert(res.drop_first() =~= vars_insert(vars.drop_first(), name, val));
    }
}

/// A name that is no numeric literal evaluates, right after a value was
/// bound to it, to exactly that value, whatever else the environment holds.
pub proof fn lemma_store_then_read(name: Seq<char>, val: ValueV, env: EnvV, fuel: nat)
    requires
        parse_number_v(name) is None,
    ensures
        ({
            let bound = EnvV { vars: vars_insert(env.vars, name, val), ..env };
            eval_node(NodeV::Tkn(name), bound, fuel) == (Ok::<ValueV, ErrV>(val), bound)
        }),
{
    lemma_insert_then_lookup(env.vars, name, val);
}

/// The evaluated argument list of a call, and the environment the
/// evaluation leaves: a leaf argument is one value, a group is split on its
/// top-level commas.
pub open spec fn call_arguments(argnode: NodeV, env: EnvV, fuel: nat) -> (Result<
    Seq<ValueV>,
    ErrV,
>, EnvV) {
    match argnode {
        NodeV::Tkn(_) => match eval_node(argnode, env, fuel) {
            (Ok(v), e2) => (Ok(seq![v]), e2),
            (Err(er), e2) => (Err(er), e2),
        },
        NodeV::Exp(sub) => eval_args(split_commas(sub), 0, env, fuel),
    }
}

/// Every numeric literal, evaluated as a single leaf, yields exactly the
/// scalar it denotes, in any environment, and leaves the environment
/// unchanged.
pub proof fn lemma_literal_value(t: Seq<char>, r: RatV, env: EnvV, fuel: nat)
    requires
        parse_number_v(t) == Some(r),
    ensures
        eval_node(NodeV::Tkn(t), env, fuel) == (Ok::<ValueV, ErrV>(ValueV::Number(r)), env),
{
}

/// Adding or subtracting vectors of different lengths always fails with a
/// shape error; the result is never truncated or padded.
pub proof fn lemma_vector_length_mismatch(a: Seq<RatV>, b: Seq<RatV>, op: Seq<char>)
    requires
        a.len() != b.len(),
        op == "+"@ || op == "-"@,
    ensures
        operate_v(ValueV::Vector(a), op, ValueV::Vector(b)) == Err::<ValueV, ErrV>(
            ErrV::InvalidOperation("elementwise on vectors of different size"@),
        ),
{
    reveal_strlit("+");
    reveal_strlit("-");
    reveal_strlit("^");
    assert("+"@[0] == '+');
    assert("-"@[0] == '-');
    assert("^"@[0] == '^');
    assert("+"@ != "^"@);
    assert("-"@ != "^"@);
}

/// A user function applied to the wrong number of arguments fails with the
/// arity error, and the caller's environment is left exactly unchanged.
pub proof fn lemma_wrong_argument_count(name: Seq<char>, argnode: NodeV, env: EnvV, fuel: nat)
    requires
        !is_unary_op_text(name),
        name != "["@,
        funs_lookup(env.funs, name) is Some,
        call_arguments(argnode, env, fuel).0 is Ok,
        call_arguments(argnode, env, fuel).0->Ok_0.len() != param_names(
            funs_lookup(env.funs, name)->Some_0.0,
        ).len(),
    ensures
        eval_node(NodeV::Exp(seq![NodeV::Tkn(name), argnode]), env, fuel) == (
            Err::<ValueV, ErrV>(
                ErrV::WrongNumFunctionArgs(
                    param_names(funs_lookup(env.funs, name)->Some_0.0).len() as int,
                    call_arguments(argnode, env, fuel).0->Ok_0.len() as int,
                ),
            ),
            env,
        ),
{
    let ch = seq![NodeV::Tkn(name), argnode];
    assert(ch.len() == 2);
    assert(ch[0] == NodeV::Tkn(name));
    assert(ch[1] == argnode);
}

/// The reversed assignment operator stores through the opposite side but
/// behaves exactly like plain assignment: `v => x` evaluates as `x = v`
/// does, in every environment.  A first child holding the bracket marker
/// would make the group a literal instead, so that token is left out.
pub proof fn lemma_reversed_assignment(target: Seq<char>, valuenode: NodeV, env: EnvV, fuel: nat)
    requires
        target != "["@,
        !crate::tree_builder::nv_is_str(valuenode, "["@),
    ensures
        eval_node(
            NodeV::Exp(seq![NodeV::Tkn(target), NodeV::Tkn("="@), valuenode]),
            env,
            fuel,
        ) == eval_node(
            NodeV::Exp(seq![valuenode, NodeV::Tkn("=>"@), NodeV::Tkn(target)]),
            env,
            fuel,
        ),
{
    reveal_strlit("=");
    reveal_strlit("=>");
    reveal_strlit("[");
    let plain = seq![NodeV::Tkn(target), NodeV::Tkn("="@), valuenode];
    let reversed = seq![valuenode, NodeV::Tkn("=>"@), NodeV::Tkn(target)];
    assert(plain.len() == 3 && reversed.len() == 3);
    assert(plain[0] == NodeV::Tkn(target) && plain[1] == NodeV::Tkn("="@) && plain[2]
        == valuenode);
    assert(reversed[0] == valuenode && reversed[1] == NodeV::Tkn("=>"@) && reversed[2]
        == NodeV::Tkn(target));
    assert("="@.len() == 1 && "=>"@.len() == 2);
}

/// A line that begins with a binary operator is rewritten to continue the
/// previous result: the `ans` leaf is inserted in front of it.
pub proof fn lemma_ans_fill(v: Seq<NodeV>)
    requires
        v.len() > 0,
        nv_is_binary_operator(v[0]),
    ensures
        spec_fill_missing_ans(v) == seq![NodeV::Tkn("ans"@)] + v,
{
}

} // verus!
