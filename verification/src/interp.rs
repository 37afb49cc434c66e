//! The evaluator: special-form dispatch, native and closure
//! application, and a trampoline loop that runs tail positions in
//! place, so self-recursive user functions of unbounded depth never
//! grow the host stack.
//!
//! The meaning of evaluation is pinned down by a fueled big-step
//! interpreter over spec values (`eval_spec`); the executable
//! evaluator is proved to return exactly what that interpreter
//! returns at the evaluator's fuel budget — the result when it
//! finishes within the budget, and a distinguished error value exactly
//! when the budget runs out.
use vstd::prelude::*;

use crate::env::{env_lookup, env_root, env_vals_wf, env_wf, val_wf, Env, EnvV, FrameV};
use crate::natives::{native_output, native_result};
use crate::types::{invalid_argument_msg, param_len_msg, FnV, MalType, ValV};

verus! {

/// The special-form names the evaluator itself handles.
pub open spec fn is_special_sym(s: Seq<char>) -> bool {
    s == "def!"@ || s == "let*"@ || s == "do"@ || s == "if"@ || s == "eval"@
}

/// The message of an unbound-symbol error.
pub open spec fn not_found_msg(s: Seq<char>) -> Seq<char> {
    s + " not found"@
}

/// The message of a variadic-call arity error.
pub open spec fn variadic_arity_msg(got: nat, expected: nat) -> Seq<char> {
    "Invalid parameter length: got "@ + crate::text::dec_nat(got) + ", expected at least "@
        + crate::text::dec_nat(expected) + seq!['.']
}

/// A condition is false exactly on nil and false.
pub open spec fn truthy(v: ValV) -> bool {
    !(v is Nil || v == ValV::Bool(false))
}

/// Whether a call supplies an acceptable number of arguments: exact
/// for fixed arity, at least the non-rest count for variadic arity.
pub open spec fn arity_ok(params_len: nat, variadic: bool, n_args: nat) -> bool {
    if variadic {
        n_args + 1 >= params_len
    } else {
        n_args == params_len
    }
}

/// The binding form of a scope block is alternating names and
/// expressions; every name must be a symbol.
pub open spec fn binding_names_ok(b: Seq<ValV>) -> bool {
    forall|i: int| 0 <= i < b.len() / 2 ==> (#[trigger] b[2 * i]) is Symbol
}

/// A closure value rewritten to capture the given frame.
pub open spec fn capture(v: ValV, nf: int) -> ValV {
    match v {
        ValV::Fn(f) => ValV::Fn(FnV { env: Some(nf), ..f }),
        _ => v,
    }
}

/// The entries of a fresh scope frame: each pair of the binding form,
/// in order, the value unevaluated, and every closure among them
/// capturing the frame itself — which is what lets sibling closures
/// call each other.
pub open spec fn let_entries(b: Seq<ValV>, nf: int) -> Seq<(Seq<char>, ValV)> {
    Seq::new(b.len() / 2, |i: int| (b[2 * i]->Symbol_0, capture(b[2 * i + 1], nf)))
}

/// The entries of a call frame: each fixed parameter bound to its
/// argument, and a variadic rest parameter bound to the list of the
/// remaining arguments.
pub open spec fn call_entries(f: FnV, vals: Seq<ValV>) -> Seq<(Seq<char>, ValV)> {
    Seq::new(
        f.args.len(),
        |i: int|
            (
                f.args[i],
                if f.is_variadic && i == f.args.len() - 1 {
                    ValV::List(vals.skip(i))
                } else {
                    vals[i]
                },
            ),
    )
}

/// The environment after binding a name in a frame.
pub open spec fn define_in(st: EnvV, cur: int, name: Seq<char>, v: ValV) -> EnvV {
    EnvV {
        frames: st.frames.update(
            cur,
            FrameV { entries: st.frames[cur].entries.push((name, v)), parent: st.frames[cur].parent },
        ),
        out: st.out,
    }
}

/// The environment after pushing a fresh frame.
pub open spec fn push_frame(st: EnvV, entries: Seq<(Seq<char>, ValV)>, parent: Option<int>) -> EnvV {
    EnvV { frames: st.frames.push(FrameV { entries, parent }), out: st.out }
}

/// The result of fueled evaluation: a value and the environment after
/// it, or fuel exhaustion.
pub enum EvalOut {
    Done(ValV, EnvV),
    OutOfFuel,
}

/// The result of evaluating a sequence of expressions in order.
pub enum ListOut {
    Done(Seq<ValV>, EnvV),
    OutOfFuel,
}

/// The result of evaluating the values of map entries in order.
pub enum PairsOut {
    Done(Seq<(crate::types::HashableV, ValV)>, EnvV),
    OutOfFuel,
}

/// The reference big-step interpreter. One fuel unit bounds one level
/// of the call tree; any terminating evaluation is `Done` for every
/// sufficiently large fuel.
pub open spec fn eval_spec(e: ValV, st: EnvV, cur: int, copy_env: bool, fuel: nat) -> EvalOut
    decreases fuel, 0int, 0int,
{
    if fuel == 0 {
        EvalOut::OutOfFuel
    } else {
        let f1 = (fuel - 1) as nat;
        match e {
            ValV::Symbol(s) => if !is_special_sym(s) {
                match env_lookup(st.frames, cur, s) {
                    Some(v) => eval_spec(v, st, cur, copy_env, f1),
                    None => EvalOut::Done(ValV::Error(not_found_msg(s)), st),
                }
            } else {
                EvalOut::Done(e, st)
            },
            ValV::List(xs) => if xs.len() == 0 {
                EvalOut::Done(ValV::List(Seq::empty()), st)
            } else {
                match eval_spec(xs[0], st, cur, copy_env, f1) {
                    EvalOut::OutOfFuel => EvalOut::OutOfFuel,
                    EvalOut::Done(op, st1) => eval_combination(e, xs, op, st1, cur, copy_env, f1),
                }
            },
            ValV::Vector(xs) => match eval_list_spec(xs, st, cur, copy_env, f1) {
                ListOut::OutOfFuel => EvalOut::OutOfFuel,
                ListOut::Done(vs, st2) => EvalOut::Done(ValV::Vector(vs), st2),
            },
            ValV::Dict(ps) => match eval_pairs_spec(ps, st, cur, copy_env, f1) {
                PairsOut::OutOfFuel => EvalOut::OutOfFuel,
                PairsOut::Done(ps2, st2) => EvalOut::Done(ValV::Dict(ps2), st2),
            },
            ValV::Fn(f) => if copy_env && f.env is None {
                EvalOut::Done(ValV::Fn(FnV { env: Some(cur), ..f }), st)
            } else {
                EvalOut::Done(e, st)
            },
            _ => EvalOut::Done(e, st),
        }
    }
}

/// Evaluation of a non-empty list whose head has evaluated to `op`:
/// special forms, native application, closure application, error
/// short-circuit, or plain data.
pub open spec fn eval_combination(
    e: ValV,
    xs: Seq<ValV>,
    op: ValV,
    st1: EnvV,
    cur: int,
    copy_env: bool,
    f1: nat,
) -> EvalOut
    decreases f1, 3int, 0int,
{
    match op {
        ValV::Function(f) => match eval_list_spec(xs.drop_first(), st1, cur, copy_env, f1) {
            ListOut::OutOfFuel => EvalOut::OutOfFuel,
            ListOut::Done(vs, st2) => EvalOut::Done(
                native_result(f, vs),
                EnvV { frames: st2.frames, out: st2.out + native_output(f, vs) },
            ),
        },
        ValV::Symbol(s) => if s == "eval"@ {
            if xs.len() != 2 {
                EvalOut::Done(ValV::Error(param_len_msg((xs.len() - 1) as nat, 1)), st1)
            } else {
                match eval_spec(xs[1], st1, cur, copy_env, f1) {
                    EvalOut::OutOfFuel => EvalOut::OutOfFuel,
                    EvalOut::Done(v1, st2) => eval_spec(
                        v1,
                        st2,
                        env_root(st2.frames, cur),
                        copy_env,
                        f1,
                    ),
                }
            }
        } else if s == "if"@ {
            if xs.len() != 3 && xs.len() != 4 {
                if xs.len() < 3 {
                    EvalOut::Done(ValV::Error(param_len_msg(xs.len(), 3)), st1)
                } else {
                    EvalOut::Done(ValV::Error(param_len_msg(xs.len(), 4)), st1)
                }
            } else {
                match eval_spec(xs[1], st1, cur, false, f1) {
                    EvalOut::OutOfFuel => EvalOut::OutOfFuel,
                    EvalOut::Done(cv, st2) => if !truthy(cv) {
                        if xs.len() == 3 {
                            EvalOut::Done(ValV::Nil, st2)
                        } else {
                            eval_spec(xs[3], st2, cur, copy_env, f1)
                        }
                    } else {
                        eval_spec(xs[2], st2, cur, copy_env, f1)
                    },
                }
            }
        } else if s == "do"@ {
            if xs.len() == 1 {
                EvalOut::Done(ValV::Error(param_len_msg(1, 2)), st1)
            } else {
                match eval_list_spec(xs.subrange(1, xs.len() - 1), st1, cur, false, f1) {
                    ListOut::OutOfFuel => EvalOut::OutOfFuel,
                    ListOut::Done(_, st2) => eval_spec(xs.last(), st2, cur, copy_env, f1),
                }
            }
        } else if s == "let*"@ {
            if xs.len() != 3 {
                EvalOut::Done(ValV::Error(param_len_msg(xs.len(), 3)), st1)
            } else {
                let b = match xs[1] {
                    ValV::List(b) => Some(b),
                    ValV::Vector(b) => Some(b),
                    _ => None,
                };
                match b {
                    None => EvalOut::Done(ValV::Error(invalid_argument_msg(xs[1])), st1),
                    Some(b) => if b.len() % 2 != 0 {
                        EvalOut::Done(
                            ValV::Error(param_len_msg(b.len(), (b.len() + 1) as nat)),
                            st1,
                        )
                    } else if !binding_names_ok(b) {
                        EvalOut::Done(ValV::Error("Only symbols can be assigned values."@), st1)
                    } else {
                        let nf = st1.frames.len() as int;
                        eval_spec(
                            xs[2],
                            push_frame(st1, let_entries(b, nf), Some(cur)),
                            nf,
                            true,
                            f1,
                        )
                    },
                }
            }
        } else if s == "def!"@ {
            if xs.len() != 3 {
                EvalOut::Done(ValV::Error(param_len_msg(xs.len(), 3)), st1)
            } else {
                match xs[1] {
                    ValV::Symbol(name) => match eval_spec(xs[2], st1, cur, false, f1) {
                        EvalOut::OutOfFuel => EvalOut::OutOfFuel,
                        EvalOut::Done(v, st2) => if v is Error {
                            EvalOut::Done(v, st2)
                        } else {
                            EvalOut::Done(v, define_in(st2, cur, name, v))
                        },
                    },
                    _ => EvalOut::Done(ValV::Error(invalid_argument_msg(xs[1])), st1),
                }
            }
        } else {
            eval_data_list(xs, st1, cur, copy_env, f1)
        },
        ValV::Fn(f) => {
            let args = xs.drop_first();
            if !arity_ok(f.args.len(), f.is_variadic, args.len()) {
                if f.is_variadic {
                    EvalOut::Done(
                        ValV::Error(
                            variadic_arity_msg(args.len(), (f.args.len() - 1) as nat),
                        ),
                        st1,
                    )
                } else {
                    EvalOut::Done(ValV::Error(param_len_msg(args.len(), f.args.len())), st1)
                }
            } else {
                match eval_args_spec(args, st1, cur, f1) {
                    ListOut::OutOfFuel => EvalOut::OutOfFuel,
                    ListOut::Done(vals, st2) => {
                        let nf = st2.frames.len() as int;
                        let parent = match f.env {
                            Some(p) => p,
                            None => cur,
                        };
                        eval_spec(
                            *f.body,
                            push_frame(st2, call_entries(f, vals), Some(parent)),
                            nf,
                            true,
                            f1,
                        )
                    },
                }
            }
        },
        ValV::Error(msg) => EvalOut::Done(ValV::Error(msg), st1),
        _ => eval_data_list(xs, st1, cur, copy_env, f1),
    }
}

/// A list whose head is no callable: every element evaluates (the head
/// a second time) and the results stay a list of data.
pub open spec fn eval_data_list(xs: Seq<ValV>, st1: EnvV, cur: int, copy_env: bool, f1: nat) -> EvalOut
    decreases f1, 2int, 0int,
{
    match eval_list_spec(xs, st1, cur, copy_env, f1) {
        ListOut::OutOfFuel => EvalOut::OutOfFuel,
        ListOut::Done(vs, st2) => EvalOut::Done(ValV::List(vs), st2),
    }
}

/// Strict left-to-right evaluation of a sequence of expressions,
/// threading the environment; errors are ordinary values here and do
/// not short-circuit.
pub open spec fn eval_list_spec(elems: Seq<ValV>, st: EnvV, cur: int, copy_env: bool, fuel: nat) -> ListOut
    decreases fuel, 1int, elems.len(),
{
    if fuel == 0 {
        ListOut::OutOfFuel
    } else if elems.len() == 0 {
        ListOut::Done(Seq::empty(), st)
    } else {
        match eval_spec(elems[0], st, cur, copy_env, (fuel - 1) as nat) {
            EvalOut::OutOfFuel => ListOut::OutOfFuel,
            EvalOut::Done(v, st1) => match eval_list_spec(
                elems.drop_first(),
                st1,
                cur,
                copy_env,
                fuel,
            ) {
                ListOut::OutOfFuel => ListOut::OutOfFuel,
                ListOut::Done(vs, st2) => ListOut::Done(seq![v] + vs, st2),
            },
        }
    }
}

/// Argument evaluation for a closure call: each argument evaluates in
/// the caller's environment, except that a closure literal passes
/// through unevaluated.
pub open spec fn eval_args_spec(args: Seq<ValV>, st: EnvV, cur: int, fuel: nat) -> ListOut
    decreases fuel, 1int, args.len(),
{
    if fuel == 0 {
        ListOut::OutOfFuel
    } else if args.len() == 0 {
        ListOut::Done(Seq::empty(), st)
    } else if args[0] is Fn {
        match eval_args_spec(args.drop_first(), st, cur, fuel) {
            ListOut::OutOfFuel => ListOut::OutOfFuel,
            ListOut::Done(vs, st2) => ListOut::Done(seq![args[0]] + vs, st2),
        }
    } else {
        match eval_spec(args[0], st, cur, true, (fuel - 1) as nat) {
            EvalOut::OutOfFuel => ListOut::OutOfFuel,
            EvalOut::Done(v, st1) => match eval_args_spec(args.drop_first(), st1, cur, fuel) {
                ListOut::OutOfFuel => ListOut::OutOfFuel,
                ListOut::Done(vs, st2) => ListOut::Done(seq![v] + vs, st2),
            },
        }
    }
}

/// Evaluation of map entries: keys stay, values evaluate in order.
pub open spec fn eval_pairs_spec(
    ps: Seq<(crate::types::HashableV, ValV)>,
    st: EnvV,
    cur: int,
    copy_env: bool,
    fuel: nat,
) -> PairsOut
    decreases fuel, 1int, ps.len(),
{
    if fuel == 0 {
        PairsOut::OutOfFuel
    } else if ps.len() == 0 {
        PairsOut::Done(Seq::empty(), st)
    } else {
        match eval_spec(ps[0].1, st, cur, copy_env, (fuel - 1) as nat) {
            EvalOut::OutOfFuel => PairsOut::OutOfFuel,
            EvalOut::Done(v, st1) => match eval_pairs_spec(
                ps.drop_first(),
                st1,
                cur,
                copy_env,
                fuel,
            ) {
                PairsOut::OutOfFuel => PairsOut::OutOfFuel,
                PairsOut::Done(vs, st2) => PairsOut::Done(seq![(ps[0].0, v)] + vs, st2),
            },
        }
    }
}

/// More fuel never changes a finished evaluation.
pub proof fn lemma_eval_mono(e: ValV, st: EnvV, cur: int, copy_env: bool, f1: nat, f2: nat)
    requires
        f1 <= f2,
        eval_spec(e, st, cur, copy_env, f1) is Done,
    ensures
        eval_spec(e, st, cur, copy_env, f2) == eval_spec(e, st, cur, copy_env, f1),
    decreases f1, 0int, 0int,
{
    let g1 = (f1 - 1) as nat;
    let g2 = (f2 - 1) as nat;
    match e {
        ValV::Symbol(s) => {
            if !is_special_sym(s) {
                match env_lookup(st.frames, cur, s) {
                    Some(v) => {
                        lemma_eval_mono(v, st, cur, copy_env, g1, g2);
                    },
                    None => {},
                }
            }
        },
        ValV::List(xs) => {
            if xs.len() > 0 {
                lemma_eval_mono(xs[0], st, cur, copy_env, g1, g2);
                match eval_spec(xs[0], st, cur, copy_env, g1) {
                    EvalOut::Done(op, st1) => {
                        lemma_combination_mono(e, xs, op, st1, cur, copy_env, g1, g2);
                    },
                    EvalOut::OutOfFuel => {},
                }
            }
        },
        ValV::Vector(xs) => {
            lemma_list_mono(xs, st, cur, copy_env, g1, g2);
        },
        ValV::Dict(ps) => {
            lemma_pairs_mono(ps, st, cur, copy_env, g1, g2);
        },
        _ => {},
    }
}

proof fn lemma_combination_mono(
    e: ValV,
    xs: Seq<ValV>,
    op: ValV,
    st1: EnvV,
    cur: int,
    copy_env: bool,
    f1: nat,
    f2: nat,
)
    requires
        f1 <= f2,
        eval_combination(e, xs, op, st1, cur, copy_env, f1) is Done,
        xs.len() > 0,
    ensures
        eval_combination(e, xs, op, st1, cur, copy_env, f2) == eval_combination(
            e,
            xs,
            op,
            st1,
            cur,
            copy_env,
            f1,
        ),
    decreases f1, 3int, 0int,
{
    match op {
        ValV::Function(f) => {
            lemma_list_mono(xs.drop_first(), st1, cur, copy_env, f1, f2);
        },
        ValV::Symbol(s) => {
            if s == "eval"@ {
                if xs.len() == 2 {
                    lemma_eval_mono(xs[1], st1, cur, copy_env, f1, f2);
                    match eval_spec(xs[1], st1, cur, copy_env, f1) {
                        EvalOut::Done(v1, st2) => {
                            lemma_eval_mono(v1, st2, env_root(st2.frames, cur), copy_env, f1, f2);
                        },
                        EvalOut::OutOfFuel => {},
                    }
                }
            } else if s == "if"@ {
                if xs.len() == 3 || xs.len() == 4 {
                    lemma_eval_mono(xs[1], st1, cur, false, f1, f2);
                    match eval_spec(xs[1], st1, cur, false, f1) {
                        EvalOut::Done(cv, st2) => {
                            if !truthy(cv) {
                                if xs.len() == 4 {
                                    lemma_eval_mono(xs[3], st2, cur, copy_env, f1, f2);
                                }
                            } else {
                                lemma_eval_mono(xs[2], st2, cur, copy_env, f1, f2);
                            }
                        },
                        EvalOut::OutOfFuel => {},
                    }
                }
            } else if s == "do"@ {
                if xs.len() != 1 {
                    lemma_list_mono(xs.subrange(1, xs.len() - 1), st1, cur, false, f1, f2);
                    match eval_list_spec(xs.subrange(1, xs.len() - 1), st1, cur, false, f1) {
                        ListOut::Done(_, st2) => {
                            lemma_eval_mono(xs.last(), st2, cur, copy_env, f1, f2);
                        },
                        ListOut::OutOfFuel => {},
                    }
                }
            } else if s == "let*"@ {
                if xs.len() == 3 {
                    let b = match xs[1] {
                        ValV::List(b) => Some(b),
                        ValV::Vector(b) => Some(b),
                        _ => None,
                    };
                    match b {
                        Some(b) => {
                            if b.len() % 2 == 0 && binding_names_ok(b) {
                                let nf = st1.frames.len() as int;
                                lemma_eval_mono(
                                    xs[2],
                                    push_frame(st1, let_entries(b, nf), Some(cur)),
                                    nf,
                                    true,
                                    f1,
                                    f2,
                                );
                            }
                        },
                        None => {},
                    }
                }
            } else if s == "def!"@ {
                if xs.len() == 3 {
                    match xs[1] {
                        ValV::Symbol(name) => {
                            lemma_eval_mono(xs[2], st1, cur, false, f1, f2);
                        },
                        _ => {},
                    }
                }
            } else {
                lemma_data_mono(xs, st1, cur, copy_env, f1, f2);
            }
        },
        ValV::Fn(f) => {
            let args = xs.drop_first();
            if arity_ok(f.args.len(), f.is_variadic, args.len()) {
                lemma_args_mono(args, st1, cur, f1, f2);
                match eval_args_spec(args, st1, cur, f1) {
                    ListOut::Done(vals, st2) => {
                        let nf = st2.frames.len() as int;
                        let parent = match f.env {
                            Some(p) => p,
                            None => cur,
                        };
                        lemma_eval_mono(
                            *f.body,
                            push_frame(st2, call_entries(f, vals), Some(parent)),
                            nf,
                            true,
                            f1,
                            f2,
                        );
                    },
                    ListOut::OutOfFuel => {},
                }
            }
        },
        ValV::Error(_) => {},
        _ => {
            lemma_data_mono(xs, st1, cur, copy_env, f1, f2);
        },
    }
}

proof fn lemma_data_mono(xs: Seq<ValV>, st1: EnvV, cur: int, copy_env: bool, f1: nat, f2: nat)
    requires
        f1 <= f2,
        eval_data_list(xs, st1, cur, copy_env, f1) is Done,
    ensures
        eval_data_list(xs, st1, cur, copy_env, f2) == eval_data_list(xs, st1, cur, copy_env, f1),
    decreases f1, 2int, 0int,
{
    lemma_list_mono(xs, st1, cur, copy_env, f1, f2);
}

/// More fuel never changes a finished sequence evaluation.
pub proof fn lemma_list_mono(
    elems: Seq<ValV>,
    st: EnvV,
    cur: int,
    copy_env: bool,
    f1: nat,
    f2: nat,
)
    requires
        f1 <= f2,
        eval_list_spec(elems, st, cur, copy_env, f1) is Done,
    ensures
        eval_list_spec(elems, st, cur, copy_env, f2) == eval_list_spec(
            elems,
            st,
            cur,
            copy_env,
            f1,
        ),
    decreases f1, 1int, elems.len(),
{
    if elems.len() > 0 {
        lemma_eval_mono(elems[0], st, cur, copy_env, (f1 - 1) as nat, (f2 - 1) as nat);
        match eval_spec(elems[0], st, cur, copy_env, (f1 - 1) as nat) {
            EvalOut::Done(v, st1) => {
                lemma_list_mono(elems.drop_first(), st1, cur, copy_env, f1, f2);
            },
            EvalOut::OutOfFuel => {},
        }
    }
}

/// More fuel never changes a finished argument evaluation.
pub proof fn lemma_args_mono(args: Seq<ValV>, st: EnvV, cur: int, f1: nat, f2: nat)
    requires
        f1 <= f2,
        eval_args_spec(args, st, cur, f1) is Done,
    ensures
        eval_args_spec(args, st, cur, f2) == eval_args_spec(args, st, cur, f1),
    decreases f1, 1int, args.len(),
{
    if args.len() > 0 {
        if args[0] is Fn {
            lemma_args_mono(args.drop_first(), st, cur, f1, f2);
        } else {
            lemma_eval_mono(args[0], st, cur, true, (f1 - 1) as nat, (f2 - 1) as nat);
            match eval_spec(args[0], st, cur, true, (f1 - 1) as nat) {
                EvalOut::Done(v, st1) => {
                    lemma_args_mono(args.drop_first(), st1, cur, f1, f2);
                },
                EvalOut::OutOfFuel => {},
            }
        }
    }
}

/// More fuel never changes a finished map-entry evaluation.
pub proof fn lemma_pairs_mono(
    ps: Seq<(crate::types::HashableV, ValV)>,
    st: EnvV,
    cur: int,
    copy_env: bool,
    f1: nat,
    f2: nat,
)
    requires
        f1 <= f2,
        eval_pairs_spec(ps, st, cur, copy_env, f1) is Done,
    ensures
        eval_pairs_spec(ps, st, cur, copy_env, f2) == eval_pairs_spec(ps, st, cur, copy_env, f1),
    decreases f1, 1int, ps.len(),
{
    if ps.len() > 0 {
        lemma_eval_mono(ps[0].1, st, cur, copy_env, (f1 - 1) as nat, (f2 - 1) as nat);
        match eval_spec(ps[0].1, st, cur, copy_env, (f1 - 1) as nat) {
            EvalOut::Done(v, st1) => {
                lemma_pairs_mono(ps.drop_first(), st1, cur, copy_env, f1, f2);
            },
            EvalOut::OutOfFuel => {},
        }
    }
}

/// The error value the evaluator returns when its fuel budget runs
/// out: the value-level analogue of host resource exhaustion. It comes
/// back exactly when the reference interpreter is out of fuel at the
/// evaluator's budget.
pub open spec fn budget_error_v() -> ValV {
    ValV::Error("Evaluation budget exceeded"@)
}

fn budget_error() -> (r: MalType)
    ensures
        r@ == budget_error_v(),
{
    let cs = crate::text::chars_of("Evaluation budget exceeded");
    MalType::Error(crate::text::string_of(&cs))
}

/// Whether a string holds exactly the given text.
fn is_str(s: &String, lit: &str) -> (r: bool)
    ensures
        r == (s@ == lit@),
{
    let a = crate::text::chars_of(s.as_str());
    crate::text::chars_are(&a, lit)
}

/// Evaluates the expressions of `xs` in positions `from..to` in order,
/// threading the environment, with exactly the reference interpreter's
/// fuel accounting; the flag is false when the fuel ran out.
fn eval_seq(
    xs: &Vec<MalType>,
    from: usize,
    to: usize,
    env: &mut Env,
    frame: usize,
    copy_env: bool,
    fuel: u64,
) -> (r: (Vec<MalType>, bool))
    requires
        from <= to <= xs@.len(),
        env_wf(old(env)@),
        env_vals_wf(old(env)@),
        frame < old(env)@.frames.len(),
        forall|k: int|
            from <= k < to ==> val_wf(
                (#[trigger] xs@[k])@,
                old(env)@.frames.len() as int,
            ),
    ensures
        env_wf(final(env)@),
        env_vals_wf(final(env)@),
        old(env)@.frames.len() <= final(env)@.frames.len(),
        forall|k: int|
            0 <= k < r.0@.len() ==> val_wf(
                (#[trigger] r.0@[k])@,
                final(env)@.frames.len() as int,
            ),
        r.1 ==> r.0@.len() == to - from,
        r.1 ==> eval_list_spec(
            crate::types::view_vals(xs@).subrange(from as int, to as int),
            old(env)@,
            frame as int,
            copy_env,
            fuel as nat,
        ) == ListOut::Done(crate::types::view_vals(r.0@), final(env)@),
        !r.1 ==> eval_list_spec(
            crate::types::view_vals(xs@).subrange(from as int, to as int),
            old(env)@,
            frame as int,
            copy_env,
            fuel as nat,
        ) is OutOfFuel,
    decreases fuel, 1int,
{
    let ghost st0 = old(env)@;
    let ghost xv = crate::types::view_vals(xs@);
    let ghost slice = xv.subrange(from as int, to as int);
    proof {
        crate::types::lemma_view_vals(xs@);
    }
    if fuel == 0 {
        return (Vec::new(), false);
    }
    let mut acc: Vec<MalType> = Vec::new();
    let mut i: usize = from;
    proof {
        assert(crate::types::view_vals(acc@) =~= Seq::<ValV>::empty());
    }
    while i < to
        invariant
            from <= i <= to <= xs@.len(),
            env_wf(env@),
            env_vals_wf(env@),
            frame < env@.frames.len(),
            st0 == old(env)@,
            st0.frames.len() <= env@.frames.len(),
            fuel >= 1,
            xv == crate::types::view_vals(xs@),
            slice == xv.subrange(from as int, to as int),
            xv.len() == xs@.len(),
            forall|k: int| 0 <= k < xs@.len() ==> #[trigger] xv[k] == (xs@[k])@,
            forall|k: int| from <= k < to ==> val_wf(#[trigger] xv[k], st0.frames.len() as int),
            acc@.len() == i - from,
            forall|k: int|
                0 <= k < acc@.len() ==> val_wf(
                    (#[trigger] acc@[k])@,
                    env@.frames.len() as int,
                ),
            eval_list_spec(slice, st0, frame as int, copy_env, fuel as nat) == (
            match eval_list_spec(
                xv.subrange(i as int, to as int),
                env@,
                frame as int,
                copy_env,
                fuel as nat,
            ) {
                ListOut::Done(vs, st2) => ListOut::Done(
                    crate::types::view_vals(acc@) + vs,
                    st2,
                ),
                ListOut::OutOfFuel => ListOut::OutOfFuel,
            }),
        decreases to - i,
    {
        let ghost env_pre = env@;
        let ghost acc_pre = acc@;
        proof {
            crate::env::lemma_val_wf_grow(
                xv[i as int],
                st0.frames.len() as int,
                env_pre.frames.len() as int,
            );
        }
        let (v, ok) = eval_at(&xs[i], env, frame, copy_env, fuel - 1);
        proof {
            assert forall|k: int|
                0 <= k < acc@.len() implies val_wf(
                (#[trigger] acc@[k])@,
                env@.frames.len() as int,
            ) by {
                crate::env::lemma_val_wf_grow(
                    (acc@[k])@,
                    env_pre.frames.len() as int,
                    env@.frames.len() as int,
                );
            }
            let sub_i = xv.subrange(i as int, to as int);
            assert(sub_i[0] == xv[i as int]);
            assert(sub_i.drop_first() =~= xv.subrange(i + 1, to as int));
        }
        if !ok {
            proof {
                let sub_i = xv.subrange(i as int, to as int);
                assert(eval_spec(xv[i as int], env_pre, frame as int, copy_env, (fuel - 1) as nat)
                    is OutOfFuel);
                assert(eval_list_spec(sub_i, env_pre, frame as int, copy_env, fuel as nat)
                    is OutOfFuel);
            }
            return (acc, false);
        }
        proof {
            let sub_i = xv.subrange(i as int, to as int);
            assert(eval_spec(xv[i as int], env_pre, frame as int, copy_env, (fuel - 1) as nat)
                == EvalOut::Done(v@, env@));
            match eval_list_spec(
                xv.subrange(i + 1, to as int),
                env@,
                frame as int,
                copy_env,
                fuel as nat,
            ) {
                ListOut::Done(vs, st2) => {
                    assert(eval_list_spec(sub_i, env_pre, frame as int, copy_env, fuel as nat)
                        == ListOut::Done(seq![v@] + vs, st2));
                    assert(crate::types::view_vals(acc_pre.push(v))
                        =~= crate::types::view_vals(acc_pre).push(v@)) by {
                        assert(acc_pre.push(v).drop_last() =~= acc_pre);
                    }
                    assert(crate::types::view_vals(acc_pre.push(v)) + vs
                        =~= crate::types::view_vals(acc_pre) + (seq![v@] + vs));
                },
                ListOut::OutOfFuel => {
                    assert(eval_list_spec(sub_i, env_pre, frame as int, copy_env, fuel as nat)
                        is OutOfFuel);
                },
            }
        }
        acc.push(v);
        i += 1;
    }
    proof {
        assert(xv.subrange(to as int, to as int) =~= Seq::<ValV>::empty());
        assert(eval_list_spec(
            xv.subrange(to as int, to as int),
            env@,
            frame as int,
            copy_env,
            fuel as nat,
        ) == ListOut::Done(Seq::<ValV>::empty(), env@));
        assert(crate::types::view_vals(acc@) + Seq::<ValV>::empty() =~= crate::types::view_vals(
            acc@,
        ));
    }
    (acc, true)
}

/// Evaluates closure-call arguments (positions `1..` of the call
/// form): each in the caller's environment, except that closure
/// literals pass through unevaluated, with the reference
/// interpreter's fuel accounting.
fn eval_call_args(xs: &Vec<MalType>, env: &mut Env, frame: usize, fuel: u64) -> (r: (
    Vec<MalType>,
    bool,
))
    requires
        xs@.len() >= 1,
        env_wf(old(env)@),
        env_vals_wf(old(env)@),
        frame < old(env)@.frames.len(),
        forall|k: int|
            0 <= k < xs@.len() ==> val_wf(
                (#[trigger] xs@[k])@,
                old(env)@.frames.len() as int,
            ),
    ensures
        env_wf(final(env)@),
        env_vals_wf(final(env)@),
        old(env)@.frames.len() <= final(env)@.frames.len(),
        forall|k: int|
            0 <= k < r.0@.len() ==> val_wf(
                (#[trigger] r.0@[k])@,
                final(env)@.frames.len() as int,
            ),
        r.1 ==> r.0@.len() == xs@.len() - 1,
        r.1 ==> eval_args_spec(
            crate::types::view_vals(xs@).drop_first(),
            old(env)@,
            frame as int,
            fuel as nat,
        ) == ListOut::Done(crate::types::view_vals(r.0@), final(env)@),
        !r.1 ==> eval_args_spec(
            crate::types::view_vals(xs@).drop_first(),
            old(env)@,
            frame as int,
            fuel as nat,
        ) is OutOfFuel,
    decreases fuel, 1int,
{
    let ghost st0 = old(env)@;
    let ghost xv = crate::types::view_vals(xs@);
    let ghost slice = xv.drop_first();
    proof {
        crate::types::lemma_view_vals(xs@);
    }
    if fuel == 0 {
        return (Vec::new(), false);
    }
    let mut acc: Vec<MalType> = Vec::new();
    let mut i: usize = 1;
    let to = xs.len();
    proof {
        assert(crate::types::view_vals(acc@) =~= Seq::<ValV>::empty());
        assert(xv.subrange(1, to as int) =~= slice);
    }
    while i < to
        invariant
            1 <= i <= to == xs@.len(),
            env_wf(env@),
            env_vals_wf(env@),
            frame < env@.frames.len(),
            st0 == old(env)@,
            st0.frames.len() <= env@.frames.len(),
            fuel >= 1,
            xv == crate::types::view_vals(xs@),
            slice == xv.drop_first(),
            xv.len() == xs@.len(),
            forall|k: int| 0 <= k < xs@.len() ==> #[trigger] xv[k] == (xs@[k])@,
            forall|k: int| 0 <= k < xs@.len() ==> val_wf(#[trigger] xv[k], st0.frames.len() as int),
            acc@.len() == i - 1,
            forall|k: int|
                0 <= k < acc@.len() ==> val_wf(
                    (#[trigger] acc@[k])@,
                    env@.frames.len() as int,
                ),
            eval_args_spec(slice, st0, frame as int, fuel as nat) == (
            match eval_args_spec(
                xv.subrange(i as int, to as int),
                env@,
                frame as int,
                fuel as nat,
            ) {
                ListOut::Done(vs, st2) => ListOut::Done(
                    crate::types::view_vals(acc@) + vs,
                    st2,
                ),
                ListOut::OutOfFuel => ListOut::OutOfFuel,
            }),
        decreases to - i,
    {
        let ghost env_pre = env@;
        let ghost acc_pre = acc@;
        let is_closure = match &xs[i] {
            MalType::Fn(_) => true,
            _ => false,
        };
        if is_closure {
            let v = xs[i].clone();
            proof {
                assert(val_wf(xv[i as int], st0.frames.len() as int));
                crate::env::lemma_val_wf_grow(
                    v@,
                    st0.frames.len() as int,
                    env@.frames.len() as int,
                );
                let sub_i = xv.subrange(i as int, to as int);
                assert(sub_i[0] == xv[i as int]);
                assert(sub_i.drop_first() =~= xv.subrange(i + 1, to as int));
                match eval_args_spec(
                    xv.subrange(i + 1, to as int),
                    env@,
                    frame as int,
                    fuel as nat,
                ) {
                    ListOut::Done(vs, st2) => {
                        assert(eval_args_spec(sub_i, env_pre, frame as int, fuel as nat)
                            == ListOut::Done(seq![v@] + vs, st2));
                        assert(crate::types::view_vals(acc_pre.push(v))
                            =~= crate::types::view_vals(acc_pre).push(v@)) by {
                            assert(acc_pre.push(v).drop_last() =~= acc_pre);
                        }
                        assert(crate::types::view_vals(acc_pre.push(v)) + vs
                            =~= crate::types::view_vals(acc_pre) + (seq![v@] + vs));
                    },
                    ListOut::OutOfFuel => {
                        assert(eval_args_spec(sub_i, env_pre, frame as int, fuel as nat)
                            is OutOfFuel);
                    },
                }
            }
            acc.push(v);
        } else {
            proof {
                crate::env::lemma_val_wf_grow(
                    xv[i as int],
                    st0.frames.len() as int,
                    env_pre.frames.len() as int,
                );
            }
            let (v, ok) = eval_at(&xs[i], env, frame, true, fuel - 1);
            proof {
                assert forall|k: int|
                    0 <= k < acc@.len() implies val_wf(
                    (#[trigger] acc@[k])@,
                    env@.frames.len() as int,
                ) by {
                    crate::env::lemma_val_wf_grow(
                        (acc@[k])@,
                        env_pre.frames.len() as int,
                        env@.frames.len() as int,
                    );
                }
                let sub_i = xv.subrange(i as int, to as int);
                assert(sub_i[0] == xv[i as int]);
                assert(sub_i.drop_first() =~= xv.subrange(i + 1, to as int));
            }
            if !ok {
                proof {
                    let sub_i = xv.subrange(i as int, to as int);
                    assert(eval_spec(xv[i as int], env_pre, frame as int, true, (fuel - 1) as nat)
                        is OutOfFuel);
                    assert(eval_args_spec(sub_i, env_pre, frame as int, fuel as nat)
                        is OutOfFuel);
                }
                return (acc, false);
            }
            proof {
                let sub_i = xv.subrange(i as int, to as int);
                assert(eval_spec(xv[i as int], env_pre, frame as int, true, (fuel - 1) as nat)
                    == EvalOut::Done(v@, env@));
                match eval_args_spec(
                    xv.subrange(i + 1, to as int),
                    env@,
                    frame as int,
                    fuel as nat,
                ) {
                    ListOut::Done(vs, st2) => {
                        assert(eval_args_spec(sub_i, env_pre, frame as int, fuel as nat)
                            == ListOut::Done(seq![v@] + vs, st2));
                        assert(crate::types::view_vals(acc_pre.push(v))
                            =~= crate::types::view_vals(acc_pre).push(v@)) by {
                            assert(acc_pre.push(v).drop_last() =~= acc_pre);
                        }
                        assert(crate::types::view_vals(acc_pre.push(v)) + vs
                            =~= crate::types::view_vals(acc_pre) + (seq![v@] + vs));
                    },
                    ListOut::OutOfFuel => {
                        assert(eval_args_spec(sub_i, env_pre, frame as int, fuel as nat)
                            is OutOfFuel);
                    },
                }
            }
            acc.push(v);
        }
        i += 1;
    }
    proof {
        assert(xv.subrange(to as int, to as int) =~= Seq::<ValV>::empty());
        assert(eval_args_spec(xv.subrange(to as int, to as int), env@, frame as int, fuel as nat)
            == ListOut::Done(Seq::<ValV>::empty(), env@));
        assert(crate::types::view_vals(acc@) + Seq::<ValV>::empty() =~= crate::types::view_vals(
            acc@,
        ));
    }
    (acc, true)
}

/// Evaluates the values of map entries in order, keys unchanged, with
/// the reference interpreter's fuel accounting.
fn eval_dict_vals(
    ps: &Vec<(crate::types::MalHashable, MalType)>,
    env: &mut Env,
    frame: usize,
    copy_env: bool,
    fuel: u64,
) -> (r: (Vec<(crate::types::MalHashable, MalType)>, bool))
    requires
        env_wf(old(env)@),
        env_vals_wf(old(env)@),
        frame < old(env)@.frames.len(),
        forall|k: int|
            0 <= k < ps@.len() ==> val_wf(
                (#[trigger] ps@[k]).1@,
                old(env)@.frames.len() as int,
            ),
    ensures
        env_wf(final(env)@),
        env_vals_wf(final(env)@),
        old(env)@.frames.len() <= final(env)@.frames.len(),
        forall|k: int|
            0 <= k < r.0@.len() ==> val_wf(
                (#[trigger] r.0@[k]).1@,
                final(env)@.frames.len() as int,
            ),
        r.1 ==> eval_pairs_spec(
            crate::types::view_pairs(ps@),
            old(env)@,
            frame as int,
            copy_env,
            fuel as nat,
        ) == PairsOut::Done(crate::types::view_pairs(r.0@), final(env)@),
        !r.1 ==> eval_pairs_spec(
            crate::types::view_pairs(ps@),
            old(env)@,
            frame as int,
            copy_env,
            fuel as nat,
        ) is OutOfFuel,
    decreases fuel, 1int,
{
    let ghost st0 = old(env)@;
    let ghost pv = crate::types::view_pairs(ps@);
    proof {
        crate::types::lemma_view_pairs(ps@);
    }
    if fuel == 0 {
        return (Vec::new(), false);
    }
    let mut acc: Vec<(crate::types::MalHashable, MalType)> = Vec::new();
    let mut i: usize = 0;
    let to = ps.len();
    proof {
        assert(crate::types::view_pairs(acc@) =~= Seq::<(crate::types::HashableV, ValV)>::empty());
        assert(pv.subrange(0, to as int) =~= pv);
    }
    while i < to
        invariant
            i <= to == ps@.len(),
            env_wf(env@),
            env_vals_wf(env@),
            frame < env@.frames.len(),
            st0 == old(env)@,
            st0.frames.len() <= env@.frames.len(),
            fuel >= 1,
            pv == crate::types::view_pairs(ps@),
            pv.len() == ps@.len(),
            forall|k: int|
                0 <= k < ps@.len() ==> #[trigger] pv[k] == (
                crate::types::view_hashable(ps@[k].0),
                crate::types::view_val(ps@[k].1),
                ),
            forall|k: int| 0 <= k < ps@.len() ==> val_wf(#[trigger] pv[k].1, st0.frames.len() as int),
            acc@.len() == i,
            forall|k: int|
                0 <= k < acc@.len() ==> val_wf(
                    (#[trigger] acc@[k]).1@,
                    env@.frames.len() as int,
                ),
            eval_pairs_spec(pv, st0, frame as int, copy_env, fuel as nat) == (
            match eval_pairs_spec(
                pv.subrange(i as int, to as int),
                env@,
                frame as int,
                copy_env,
                fuel as nat,
            ) {
                PairsOut::Done(vs, st2) => PairsOut::Done(
                    crate::types::view_pairs(acc@) + vs,
                    st2,
                ),
                PairsOut::OutOfFuel => PairsOut::OutOfFuel,
            }),
        decreases to - i,
    {
        let ghost env_pre = env@;
        let ghost acc_pre = acc@;
        proof {
            crate::env::lemma_val_wf_grow(
                pv[i as int].1,
                st0.frames.len() as int,
                env_pre.frames.len() as int,
            );
        }
        let key = ps[i].0.clone();
        let (v, ok) = eval_at(&ps[i].1, env, frame, copy_env, fuel - 1);
        proof {
            assert forall|k: int|
                0 <= k < acc@.len() implies val_wf(
                (#[trigger] acc@[k]).1@,
                env@.frames.len() as int,
            ) by {
                crate::env::lemma_val_wf_grow(
                    (acc@[k]).1@,
                    env_pre.frames.len() as int,
                    env@.frames.len() as int,
                );
            }
            let sub_i = pv.subrange(i as int, to as int);
            assert(sub_i[0] == pv[i as int]);
            assert(sub_i.drop_first() =~= pv.subrange(i + 1, to as int));
        }
        if !ok {
            proof {
                let sub_i = pv.subrange(i as int, to as int);
                assert(eval_spec(pv[i as int].1, env_pre, frame as int, copy_env, (fuel - 1) as nat)
                    is OutOfFuel);
                assert(eval_pairs_spec(sub_i, env_pre, frame as int, copy_env, fuel as nat)
                    is OutOfFuel);
            }
            return (acc, false);
        }
        proof {
            let ghost entry = (key, v);
            let sub_i = pv.subrange(i as int, to as int);
            assert(eval_spec(pv[i as int].1, env_pre, frame as int, copy_env, (fuel - 1) as nat)
                == EvalOut::Done(v@, env@));
            match eval_pairs_spec(
                pv.subrange(i + 1, to as int),
                env@,
                frame as int,
                copy_env,
                fuel as nat,
            ) {
                PairsOut::Done(vs, st2) => {
                    assert(eval_pairs_spec(sub_i, env_pre, frame as int, copy_env, fuel as nat)
                        == PairsOut::Done(seq![(pv[i as int].0, v@)] + vs, st2));
                    assert(crate::types::view_pairs(acc_pre.push(entry))
                        =~= crate::types::view_pairs(acc_pre).push((pv[i as int].0, v@))) by {
                        assert(acc_pre.push(entry).drop_last() =~= acc_pre);
                    }
                    assert(crate::types::view_pairs(acc_pre.push(entry)) + vs
                        =~= crate::types::view_pairs(acc_pre) + (seq![(pv[i as int].0, v@)] + vs));
                },
                PairsOut::OutOfFuel => {
                    assert(eval_pairs_spec(sub_i, env_pre, frame as int, copy_env, fuel as nat)
                        is OutOfFuel);
                },
            }
        }
        acc.push((key, v));
        i += 1;
    }
    proof {
        assert(pv.subrange(to as int, to as int) =~= Seq::<(crate::types::HashableV, ValV)>::empty());
        assert(eval_pairs_spec(
            pv.subrange(to as int, to as int),
            env@,
            frame as int,
            copy_env,
            fuel as nat,
        ) == PairsOut::Done(Seq::<(crate::types::HashableV, ValV)>::empty(), env@));
        assert(crate::types::view_pairs(acc@) + Seq::<(crate::types::HashableV, ValV)>::empty()
            =~= crate::types::view_pairs(acc@));
    }
    (acc, true)
}

/// The evaluator's fuel budget: the bound, in reference-interpreter
/// fuel units, within which evaluation is run to completion. One unit
/// covers one dispatch step, so deep recursion and long tail-call
/// chains alike fit comfortably under it.
pub const EVAL_FUEL: u64 = 1000000;

/// The five special-form names are pairwise distinct.
pub proof fn lemma_keywords_distinct()
    ensures
        "def!"@ != "let*"@,
        "def!"@ != "do"@,
        "def!"@ != "if"@,
        "def!"@ != "eval"@,
        "let*"@ != "do"@,
        "let*"@ != "if"@,
        "let*"@ != "eval"@,
        "do"@ != "if"@,
        "do"@ != "eval"@,
        "if"@ != "eval"@,
{
    reveal_strlit("def!");
    reveal_strlit("let*");
    reveal_strlit("do");
    reveal_strlit("if");
    reveal_strlit("eval");
    assert("def!"@ != "let*"@) by {
        assert("def!"@[0] != "let*"@[0]);
    }
    assert("def!"@ != "do"@) by {
        assert("def!"@.len() != "do"@.len());
    }
    assert("def!"@ != "if"@) by {
        assert("def!"@.len() != "if"@.len());
    }
    assert("def!"@ != "eval"@) by {
        assert("def!"@[0] != "eval"@[0]);
    }
    assert("let*"@ != "do"@) by {
        assert("let*"@.len() != "do"@.len());
    }
    assert("let*"@ != "if"@) by {
        assert("let*"@.len() != "if"@.len());
    }
    assert("let*"@ != "eval"@) by {
        assert("let*"@[0] != "eval"@[0]);
    }
    assert("do"@ != "if"@) by {
        assert("do"@[0] != "if"@[0]);
    }
    assert("do"@ != "eval"@) by {
        assert("do"@.len() != "eval"@.len());
    }
    assert("if"@ != "eval"@) by {
        assert("if"@.len() != "eval"@.len());
    }
}

/// The next move of the trampoline: a finished value, a new state to
/// continue from, or an exhausted budget.
enum Step {
    Finish(MalType),
    Tail(MalType, usize, bool),
    Out,
}

/// Applies a native to the rest of the form: arguments evaluated
/// strictly left to right, then one native call.
#[verifier::rlimit(60)]
fn do_native(
    f: crate::types::MalFunction,
    xs: &Vec<MalType>,
    env: &mut Env,
    frame: usize,
    copy_env: bool,
    fuel: u64,
) -> (r: (MalType, bool))
    requires
        xs@.len() >= 1,
        env_wf(old(env)@),
        env_vals_wf(old(env)@),
        frame < old(env)@.frames.len(),
        forall|k: int|
            0 <= k < xs@.len() ==> val_wf(
                (#[trigger] xs@[k])@,
                old(env)@.frames.len() as int,
            ),
    ensures
        env_wf(final(env)@),
        env_vals_wf(final(env)@),
        old(env)@.frames.len() <= final(env)@.frames.len(),
        val_wf(r.0@, final(env)@.frames.len() as int),
        r.1 ==> eval_combination(
            ValV::List(crate::types::view_vals(xs@)),
            crate::types::view_vals(xs@),
            ValV::Function(f),
            old(env)@,
            frame as int,
            copy_env,
            fuel as nat,
        ) == EvalOut::Done(r.0@, final(env)@),
        !r.1 ==> eval_combination(
            ValV::List(crate::types::view_vals(xs@)),
            crate::types::view_vals(xs@),
            ValV::Function(f),
            old(env)@,
            frame as int,
            copy_env,
            fuel as nat,
        ) is OutOfFuel,
    decreases fuel, 2int,
{
    let ghost st0 = old(env)@;
    let ghost xv = crate::types::view_vals(xs@);
    proof {
        crate::types::lemma_view_vals(xs@);
        assert(xv.subrange(1, xv.len() as int) =~= xv.drop_first());
    }
    let (vals, ok) = eval_seq(&xs, 1, xs.len(), env, frame, copy_env, fuel);
    proof {
        lemma_vec_elems_wf(vals@, env@.frames.len() as int);
    }
    if !ok {
        proof {
            assert(eval_list_spec(xv.drop_first(), st0, frame as int, copy_env, fuel as nat)
                is OutOfFuel);
        }
        return (MalType::List(vals), false);
    }
    let ghost env2 = env@;
    let ghost valsv = crate::types::view_vals(vals@);
    let r = crate::natives::call_function(f, vals, env);
    proof {
        crate::natives::lemma_native_wf(f, valsv, env@.frames.len() as int);
        assert(eval_list_spec(xv.drop_first(), st0, frame as int, copy_env, fuel as nat)
            == ListOut::Done(valsv, env2));
        assert(env@ =~= EnvV {
            frames: env2.frames,
            out: env2.out + crate::natives::native_output(f, valsv),
        });
        assert(eval_combination(
            ValV::List(xv),
            xv,
            ValV::Function(f),
            st0,
            frame as int,
            copy_env,
            fuel as nat,
        ) == EvalOut::Done(r@, env@));
    }
    (r, true)
}

/// Evaluates every element of a list whose head is no callable; the
/// results stay a list of data.
#[verifier::rlimit(60)]
fn do_data(
    xs: &Vec<MalType>,
    env: &mut Env,
    frame: usize,
    copy_env: bool,
    fuel: u64,
    Ghost(opv): Ghost<ValV>,
) -> (r: (MalType, bool))
    requires
        xs@.len() >= 1,
        env_wf(old(env)@),
        env_vals_wf(old(env)@),
        frame < old(env)@.frames.len(),
        forall|k: int|
            0 <= k < xs@.len() ==> val_wf(
                (#[trigger] xs@[k])@,
                old(env)@.frames.len() as int,
            ),
        forall|st: EnvV, f: nat|
            #![trigger eval_combination(ValV::List(crate::types::view_vals(xs@)), crate::types::view_vals(xs@), opv, st, frame as int, copy_env, f)]
            eval_combination(
                ValV::List(crate::types::view_vals(xs@)),
                crate::types::view_vals(xs@),
                opv,
                st,
                frame as int,
                copy_env,
                f,
            ) == eval_data_list(crate::types::view_vals(xs@), st, frame as int, copy_env, f),
    ensures
        env_wf(final(env)@),
        env_vals_wf(final(env)@),
        old(env)@.frames.len() <= final(env)@.frames.len(),
        val_wf(r.0@, final(env)@.frames.len() as int),
        r.1 ==> eval_combination(
            ValV::List(crate::types::view_vals(xs@)),
            crate::types::view_vals(xs@),
            opv,
            old(env)@,
            frame as int,
            copy_env,
            fuel as nat,
        ) == EvalOut::Done(r.0@, final(env)@),
        !r.1 ==> eval_combination(
            ValV::List(crate::types::view_vals(xs@)),
            crate::types::view_vals(xs@),
            opv,
            old(env)@,
            frame as int,
            copy_env,
            fuel as nat,
        ) is OutOfFuel,
    decreases fuel, 2int,
{
    let ghost st0 = old(env)@;
    let ghost xv = crate::types::view_vals(xs@);
    proof {
        crate::types::lemma_view_vals(xs@);
        assert(xv.subrange(0, xv.len() as int) =~= xv);
    }
    let (vals, ok) = eval_seq(&xs, 0, xs.len(), env, frame, copy_env, fuel);
    proof {
        lemma_vec_elems_wf(vals@, env@.frames.len() as int);
    }
    if !ok {
        proof {
            assert(eval_list_spec(xv, st0, frame as int, copy_env, fuel as nat) is OutOfFuel);
            assert(eval_data_list(xv, st0, frame as int, copy_env, fuel as nat)
                is OutOfFuel);
        }
        return (MalType::List(vals), false);
    }
    let r = MalType::List(vals);
    proof {
        assert(eval_list_spec(xv, st0, frame as int, copy_env, fuel as nat) == ListOut::Done(
            r@->List_0,
            env@,
        ));
        assert(eval_data_list(xv, st0, frame as int, copy_env, fuel as nat) == EvalOut::Done(
            r@,
            env@,
        ));
    }
    (r, true)
}

/// Runs the conditional form: evaluates the condition, then hands back
/// the live branch as the next state.
#[verifier::rlimit(60)]
fn do_if(xs: &Vec<MalType>, env: &mut Env, frame: usize, copy_env: bool, fuel: u64) -> (r: Step)
    requires
        xs@.len() >= 1,
        env_wf(old(env)@),
        env_vals_wf(old(env)@),
        frame < old(env)@.frames.len(),
        forall|k: int|
            0 <= k < xs@.len() ==> val_wf(
                (#[trigger] xs@[k])@,
                old(env)@.frames.len() as int,
            ),
    ensures
        env_wf(final(env)@),
        env_vals_wf(final(env)@),
        old(env)@.frames.len() <= final(env)@.frames.len(),
        match r {
            Step::Finish(v) => val_wf(v@, final(env)@.frames.len() as int) && eval_combination(
                ValV::List(crate::types::view_vals(xs@)),
                crate::types::view_vals(xs@),
                ValV::Symbol("if"@),
                old(env)@,
                frame as int,
                copy_env,
                fuel as nat,
            ) == EvalOut::Done(v@, final(env)@),
            Step::Tail(nv, nfr, nc) => nfr < final(env)@.frames.len() && val_wf(
                nv@,
                final(env)@.frames.len() as int,
            ) && eval_combination(
                ValV::List(crate::types::view_vals(xs@)),
                crate::types::view_vals(xs@),
                ValV::Symbol("if"@),
                old(env)@,
                frame as int,
                copy_env,
                fuel as nat,
            ) == eval_spec(nv@, final(env)@, nfr as int, nc, fuel as nat),
            Step::Out => eval_combination(
                ValV::List(crate::types::view_vals(xs@)),
                crate::types::view_vals(xs@),
                ValV::Symbol("if"@),
                old(env)@,
                frame as int,
                copy_env,
                fuel as nat,
            ) is OutOfFuel,
        },
    decreases fuel, 2int,
{
    let ghost st0 = old(env)@;
    let ghost xv = crate::types::view_vals(xs@);
    let ghost cf = frame as int;
    let ghost cc = copy_env;
    proof {
        lemma_keywords_distinct();
        crate::types::lemma_view_vals(xs@);
    }
    if xs.len() != 3 && xs.len() != 4 {
        let v = if xs.len() < 3 {
            crate::types::invalid_parameter_length_error(xs.len(), 3)
        } else {
            crate::types::invalid_parameter_length_error(xs.len(), 4)
        };
        proof {
            assert(eval_combination(ValV::List(xv), xv, ValV::Symbol("if"@), st0, cf, cc, fuel as nat)
                == EvalOut::Done(v@, st0));
        }
        return Step::Finish(v);
    }
    let (cond, ok) = eval_at(&xs[1], env, frame, false, fuel);
    proof {
        assert(xv[1] == (xs@[1])@);
    }
    if !ok {
        proof {
            assert(eval_spec(xv[1], st0, cf, false, fuel as nat) is OutOfFuel);
            assert(eval_combination(ValV::List(xv), xv, ValV::Symbol("if"@), st0, cf, cc, fuel as nat)
                is OutOfFuel);
        }
        return Step::Out;
    }
    let ghost env2 = env@;
    proof {
        assert(eval_spec(xv[1], st0, cf, false, fuel as nat) == EvalOut::Done(cond@, env2));
    }
    let is_false = match &cond {
        MalType::Nil => true,
        MalType::Bool(b) => !*b,
        _ => false,
    };
    assert(is_false == !truthy(cond@));
    if is_false {
        if xs.len() == 3 {
            proof {
                assert(eval_combination(
                    ValV::List(xv),
                    xv,
                    ValV::Symbol("if"@),
                    st0,
                    cf,
                    cc,
                    fuel as nat,
                ) == EvalOut::Done(ValV::Nil, env2));
            }
            return Step::Finish(MalType::Nil);
        }
        let nv = xs[3].clone();
        proof {
            assert(nv@ == xv[3]);
            crate::env::lemma_val_wf_grow(xv[3], st0.frames.len() as int, env2.frames.len() as int);
            assert(eval_combination(ValV::List(xv), xv, ValV::Symbol("if"@), st0, cf, cc, fuel as nat)
                == eval_spec(nv@, env2, cf, cc, fuel as nat));
        }
        return Step::Tail(nv, frame, copy_env);
    }
    let nv = xs[2].clone();
    proof {
        assert(nv@ == xv[2]);
        crate::env::lemma_val_wf_grow(xv[2], st0.frames.len() as int, env2.frames.len() as int);
        assert(eval_combination(ValV::List(xv), xv, ValV::Symbol("if"@), st0, cf, cc, fuel as nat)
            == eval_spec(nv@, env2, cf, cc, fuel as nat));
    }
    Step::Tail(nv, frame, copy_env)
}

/// Runs the sequencing form: evaluates all but the last expression for
/// effect, then hands back the last one as the next state.
#[verifier::rlimit(60)]
fn do_do(xs: &Vec<MalType>, env: &mut Env, frame: usize, copy_env: bool, fuel: u64) -> (r: Step)
    requires
        xs@.len() >= 1,
        env_wf(old(env)@),
        env_vals_wf(old(env)@),
        frame < old(env)@.frames.len(),
        forall|k: int|
            0 <= k < xs@.len() ==> val_wf(
                (#[trigger] xs@[k])@,
                old(env)@.frames.len() as int,
            ),
    ensures
        env_wf(final(env)@),
        env_vals_wf(final(env)@),
        old(env)@.frames.len() <= final(env)@.frames.len(),
        match r {
            Step::Finish(v) => val_wf(v@, final(env)@.frames.len() as int) && eval_combination(
                ValV::List(crate::types::view_vals(xs@)),
                crate::types::view_vals(xs@),
                ValV::Symbol("do"@),
                old(env)@,
                frame as int,
                copy_env,
                fuel as nat,
            ) == EvalOut::Done(v@, final(env)@),
            Step::Tail(nv, nfr, nc) => nfr < final(env)@.frames.len() && val_wf(
                nv@,
                final(env)@.frames.len() as int,
            ) && eval_combination(
                ValV::List(crate::types::view_vals(xs@)),
                crate::types::view_vals(xs@),
                ValV::Symbol("do"@),
                old(env)@,
                frame as int,
                copy_env,
                fuel as nat,
            ) == eval_spec(nv@, final(env)@, nfr as int, nc, fuel as nat),
            Step::Out => eval_combination(
                ValV::List(crate::types::view_vals(xs@)),
                crate::types::view_vals(xs@),
                ValV::Symbol("do"@),
                old(env)@,
                frame as int,
                copy_env,
                fuel as nat,
            ) is OutOfFuel,
        },
    decreases fuel, 2int,
{
    let ghost st0 = old(env)@;
    let ghost xv = crate::types::view_vals(xs@);
    let ghost cf = frame as int;
    let ghost cc = copy_env;
    proof {
        lemma_keywords_distinct();
        crate::types::lemma_view_vals(xs@);
    }
    if xs.len() == 1 {
        let v = crate::types::invalid_parameter_length_error(1, 2);
        proof {
            assert(eval_combination(ValV::List(xv), xv, ValV::Symbol("do"@), st0, cf, cc, fuel as nat)
                == EvalOut::Done(v@, st0));
        }
        return Step::Finish(v);
    }
    proof {
        assert(xv.subrange(1, xv.len() - 1) == crate::types::view_vals(xs@).subrange(
            1,
            xs@.len() - 1,
        ));
    }
    let (_dropped, ok) = eval_seq(&xs, 1, xs.len() - 1, env, frame, false, fuel);
    if !ok {
        proof {
            assert(eval_list_spec(xv.subrange(1, xv.len() - 1), st0, cf, false, fuel as nat)
                is OutOfFuel);
            assert(eval_combination(ValV::List(xv), xv, ValV::Symbol("do"@), st0, cf, cc, fuel as nat)
                is OutOfFuel);
        }
        return Step::Out;
    }
    let ghost env2 = env@;
    let nv = xs[xs.len() - 1].clone();
    proof {
        assert(eval_list_spec(xv.subrange(1, xv.len() - 1), st0, cf, false, fuel as nat)
            == ListOut::Done(crate::types::view_vals(_dropped@), env2));
        assert(nv@ == xv[xv.len() - 1]);
        assert(xv.last() == xv[xv.len() - 1]);
        crate::env::lemma_val_wf_grow(
            xv[xv.len() - 1],
            st0.frames.len() as int,
            env2.frames.len() as int,
        );
        assert(eval_combination(ValV::List(xv), xv, ValV::Symbol("do"@), st0, cf, cc, fuel as nat)
            == eval_spec(nv@, env2, cf, cc, fuel as nat));
    }
    Step::Tail(nv, frame, copy_env)
}

/// Runs the meta-evaluation form: evaluates its argument here, then
/// hands the result back to run in the outermost ancestor frame.
#[verifier::rlimit(60)]
fn do_eval_form(xs: &Vec<MalType>, env: &mut Env, frame: usize, copy_env: bool, fuel: u64) -> (r:
    Step)
    requires
        xs@.len() >= 1,
        env_wf(old(env)@),
        env_vals_wf(old(env)@),
        frame < old(env)@.frames.len(),
        forall|k: int|
            0 <= k < xs@.len() ==> val_wf(
                (#[trigger] xs@[k])@,
                old(env)@.frames.len() as int,
            ),
    ensures
        env_wf(final(env)@),
        env_vals_wf(final(env)@),
        old(env)@.frames.len() <= final(env)@.frames.len(),
        match r {
            Step::Finish(v) => val_wf(v@, final(env)@.frames.len() as int) && eval_combination(
                ValV::List(crate::types::view_vals(xs@)),
                crate::types::view_vals(xs@),
                ValV::Symbol("eval"@),
                old(env)@,
                frame as int,
                copy_env,
                fuel as nat,
            ) == EvalOut::Done(v@, final(env)@),
            Step::Tail(nv, nfr, nc) => nfr < final(env)@.frames.len() && val_wf(
                nv@,
                final(env)@.frames.len() as int,
            ) && eval_combination(
                ValV::List(crate::types::view_vals(xs@)),
                crate::types::view_vals(xs@),
                ValV::Symbol("eval"@),
                old(env)@,
                frame as int,
                copy_env,
                fuel as nat,
            ) == eval_spec(nv@, final(env)@, nfr as int, nc, fuel as nat),
            Step::Out => eval_combination(
                ValV::List(crate::types::view_vals(xs@)),
                crate::types::view_vals(xs@),
                ValV::Symbol("eval"@),
                old(env)@,
                frame as int,
                copy_env,
                fuel as nat,
            ) is OutOfFuel,
        },
    decreases fuel, 2int,
{
    let ghost st0 = old(env)@;
    let ghost xv = crate::types::view_vals(xs@);
    let ghost cf = frame as int;
    let ghost cc = copy_env;
    proof {
        lemma_keywords_distinct();
        crate::types::lemma_view_vals(xs@);
    }
    if xs.len() != 2 {
        let v = crate::types::invalid_parameter_length_error(xs.len() - 1, 1);
        proof {
            assert(eval_combination(
                ValV::List(xv),
                xv,
                ValV::Symbol("eval"@),
                st0,
                cf,
                cc,
                fuel as nat,
            ) == EvalOut::Done(v@, st0));
        }
        return Step::Finish(v);
    }
    let (v1, ok) = eval_at(&xs[1], env, frame, copy_env, fuel);
    proof {
        assert(xv[1] == (xs@[1])@);
    }
    if !ok {
        proof {
            assert(eval_spec(xv[1], st0, cf, cc, fuel as nat) is OutOfFuel);
            assert(eval_combination(
                ValV::List(xv),
                xv,
                ValV::Symbol("eval"@),
                st0,
                cf,
                cc,
                fuel as nat,
            ) is OutOfFuel);
        }
        return Step::Out;
    }
    let ghost env2 = env@;
    let root = env.root_of(frame);
    proof {
        assert(eval_spec(xv[1], st0, cf, cc, fuel as nat) == EvalOut::Done(v1@, env2));
        assert(root as int == env_root(env2.frames, cf));
        assert(eval_combination(ValV::List(xv), xv, ValV::Symbol("eval"@), st0, cf, cc, fuel as nat)
            == eval_spec(v1@, env2, root as int, cc, fuel as nat));
    }
    Step::Tail(v1, root, copy_env)
}

/// Runs a definition: evaluates the value and, unless it is an error,
/// binds it in the current frame; the value is the result either way.
#[verifier::rlimit(60)]
fn do_def(xs: &Vec<MalType>, env: &mut Env, frame: usize, copy_env: bool, fuel: u64) -> (r: (
    MalType,
    bool,
))
    requires
        xs@.len() >= 1,
        env_wf(old(env)@),
        env_vals_wf(old(env)@),
        frame < old(env)@.frames.len(),
        forall|k: int|
            0 <= k < xs@.len() ==> val_wf(
                (#[trigger] xs@[k])@,
                old(env)@.frames.len() as int,
            ),
    ensures
        env_wf(final(env)@),
        env_vals_wf(final(env)@),
        old(env)@.frames.len() <= final(env)@.frames.len(),
        val_wf(r.0@, final(env)@.frames.len() as int),
        r.1 ==> eval_combination(
            ValV::List(crate::types::view_vals(xs@)),
            crate::types::view_vals(xs@),
            ValV::Symbol("def!"@),
            old(env)@,
            frame as int,
            copy_env,
            fuel as nat,
        ) == EvalOut::Done(r.0@, final(env)@),
        !r.1 ==> eval_combination(
            ValV::List(crate::types::view_vals(xs@)),
            crate::types::view_vals(xs@),
            ValV::Symbol("def!"@),
            old(env)@,
            frame as int,
            copy_env,
            fuel as nat,
        ) is OutOfFuel,
    decreases fuel, 2int,
{
    let ghost st0 = old(env)@;
    let ghost xv = crate::types::view_vals(xs@);
    let ghost cf = frame as int;
    let ghost cc = copy_env;
    proof {
        lemma_keywords_distinct();
        crate::types::lemma_view_vals(xs@);
    }
    if xs.len() != 3 {
        let v = crate::types::invalid_parameter_length_error(xs.len(), 3);
        proof {
            assert(eval_combination(ValV::List(xv), xv, ValV::Symbol("def!"@), st0, cf, cc, fuel as nat)
                == EvalOut::Done(v@, st0));
        }
        return (v, true);
    }
    let name: String = match &xs[1] {
        MalType::Symbol(n) => n.clone(),
        _ => {
            let v = crate::types::invalid_argument_error(xs[1].clone());
            proof {
                assert(xv[1] == (xs@[1])@);
                assert(eval_combination(
                    ValV::List(xv),
                    xv,
                    ValV::Symbol("def!"@),
                    st0,
                    cf,
                    cc,
                    fuel as nat,
                ) == EvalOut::Done(v@, st0));
            }
            return (v, true);
        },
    };
    proof {
        assert(xv[1] == (xs@[1])@);
        assert(xv[1] is Symbol && xv[1]->Symbol_0 == name@);
        assert(xv[2] == (xs@[2])@);
    }
    let (v, ok) = eval_at(&xs[2], env, frame, false, fuel);
    if !ok {
        proof {
            assert(eval_spec(xv[2], st0, cf, false, fuel as nat) is OutOfFuel);
            assert(eval_combination(ValV::List(xv), xv, ValV::Symbol("def!"@), st0, cf, cc, fuel as nat)
                is OutOfFuel);
        }
        return (v, false);
    }
    let ghost env2 = env@;
    proof {
        assert(eval_spec(xv[2], st0, cf, false, fuel as nat) == EvalOut::Done(v@, env2));
    }
    let is_err = match &v {
        MalType::Error(_) => true,
        _ => false,
    };
    assert(is_err == (v@ is Error));
    if is_err {
        proof {
            assert(eval_combination(ValV::List(xv), xv, ValV::Symbol("def!"@), st0, cf, cc, fuel as nat)
                == EvalOut::Done(v@, env2));
        }
        return (v, true);
    }
    let stored = v.clone();
    let ghost env_pre = env@;
    let ghost namev = name@;
    env.set(frame, name, stored);
    proof {
        crate::env::lemma_wf_after_set(env_pre, env@, cf, namev, v@);
        crate::env::lemma_vals_wf_after_set(env_pre, env@, cf, namev, v@);
        assert(env@ =~~= define_in(env2, cf, xv[1]->Symbol_0, v@));
        assert(eval_combination(ValV::List(xv), xv, ValV::Symbol("def!"@), st0, cf, cc, fuel as nat)
            == EvalOut::Done(v@, env@));
    }
    (v, true)
}

/// Runs a scope block: validates it, pushes its fresh frame with every
/// binding in place, and hands back the body as the next state inside
/// that frame.
#[verifier::rlimit(60)]
fn do_let(xs: &Vec<MalType>, env: &mut Env, frame: usize, copy_env: bool, fuel: u64) -> (r: Step)
    requires
        xs@.len() >= 1,
        env_wf(old(env)@),
        env_vals_wf(old(env)@),
        frame < old(env)@.frames.len(),
        forall|k: int|
            0 <= k < xs@.len() ==> val_wf(
                (#[trigger] xs@[k])@,
                old(env)@.frames.len() as int,
            ),
    ensures
        env_wf(final(env)@),
        env_vals_wf(final(env)@),
        old(env)@.frames.len() <= final(env)@.frames.len(),
        match r {
            Step::Finish(v) => val_wf(v@, final(env)@.frames.len() as int) && eval_combination(
                ValV::List(crate::types::view_vals(xs@)),
                crate::types::view_vals(xs@),
                ValV::Symbol("let*"@),
                old(env)@,
                frame as int,
                copy_env,
                fuel as nat,
            ) == EvalOut::Done(v@, final(env)@),
            Step::Tail(nv, nfr, nc) => nfr < final(env)@.frames.len() && val_wf(
                nv@,
                final(env)@.frames.len() as int,
            ) && eval_combination(
                ValV::List(crate::types::view_vals(xs@)),
                crate::types::view_vals(xs@),
                ValV::Symbol("let*"@),
                old(env)@,
                frame as int,
                copy_env,
                fuel as nat,
            ) == eval_spec(nv@, final(env)@, nfr as int, nc, fuel as nat),
            Step::Out => eval_combination(
                ValV::List(crate::types::view_vals(xs@)),
                crate::types::view_vals(xs@),
                ValV::Symbol("let*"@),
                old(env)@,
                frame as int,
                copy_env,
                fuel as nat,
            ) is OutOfFuel,
        },
    decreases fuel, 2int,
{
    let ghost st0 = old(env)@;
    let ghost xv = crate::types::view_vals(xs@);
    let ghost cf = frame as int;
    let ghost cc = copy_env;
    proof {
        lemma_keywords_distinct();
        crate::types::lemma_view_vals(xs@);
    }
    match let_star(&xs, env, frame) {
        (LetOutcome::Blocked, _) => {
            proof {
                assert(false);
            }
            Step::Out
        },
        (LetOutcome::Failed(v), _) => {
            proof {
                assert(eval_combination(
                    ValV::List(xv),
                    xv,
                    ValV::Symbol("let*"@),
                    st0,
                    cf,
                    cc,
                    fuel as nat,
                ) == EvalOut::Done(v@, st0));
            }
            Step::Finish(v)
        },
        (LetOutcome::Entered, nf) => {
            let ghost env2 = env@;
            let nv = xs[2].clone();
            proof {
                let b = match xv[1] {
                    ValV::List(b) => b,
                    ValV::Vector(b) => b,
                    _ => Seq::empty(),
                };
                assert(nv@ == xv[2]);
                crate::env::lemma_val_wf_grow(
                    xv[2],
                    st0.frames.len() as int,
                    env2.frames.len() as int,
                );
                assert(eval_combination(
                    ValV::List(xv),
                    xv,
                    ValV::Symbol("let*"@),
                    st0,
                    cf,
                    cc,
                    fuel as nat,
                ) == eval_spec(nv@, env2, nf as int, true, fuel as nat));
            }
            Step::Tail(nv, nf, true)
        },
    }
}

/// Applies a user-defined function: checks arity, evaluates the
/// arguments, binds the call frame, and hands back the body as the
/// next state.
#[verifier::rlimit(60)]
fn do_apply(
    mf: crate::types::MalFn,
    xs: &Vec<MalType>,
    env: &mut Env,
    frame: usize,
    copy_env: bool,
    fuel: u64,
) -> (r: Step)
    requires
        xs@.len() >= 1,
        env_wf(old(env)@),
        env_vals_wf(old(env)@),
        frame < old(env)@.frames.len(),
        forall|k: int|
            0 <= k < xs@.len() ==> val_wf(
                (#[trigger] xs@[k])@,
                old(env)@.frames.len() as int,
            ),
        val_wf(ValV::Fn(mf@), old(env)@.frames.len() as int),
    ensures
        env_wf(final(env)@),
        env_vals_wf(final(env)@),
        old(env)@.frames.len() <= final(env)@.frames.len(),
        match r {
            Step::Finish(v) => val_wf(v@, final(env)@.frames.len() as int) && eval_combination(
                ValV::List(crate::types::view_vals(xs@)),
                crate::types::view_vals(xs@),
                ValV::Fn(mf@),
                old(env)@,
                frame as int,
                copy_env,
                fuel as nat,
            ) == EvalOut::Done(v@, final(env)@),
            Step::Tail(nv, nfr, nc) => nfr < final(env)@.frames.len() && val_wf(
                nv@,
                final(env)@.frames.len() as int,
            ) && eval_combination(
                ValV::List(crate::types::view_vals(xs@)),
                crate::types::view_vals(xs@),
                ValV::Fn(mf@),
                old(env)@,
                frame as int,
                copy_env,
                fuel as nat,
            ) == eval_spec(nv@, final(env)@, nfr as int, nc, fuel as nat),
            Step::Out => eval_combination(
                ValV::List(crate::types::view_vals(xs@)),
                crate::types::view_vals(xs@),
                ValV::Fn(mf@),
                old(env)@,
                frame as int,
                copy_env,
                fuel as nat,
            ) is OutOfFuel,
        },
    decreases fuel, 2int,
{
    let ghost st0 = old(env)@;
    let ghost xv = crate::types::view_vals(xs@);
    let ghost cf = frame as int;
    let ghost cc = copy_env;
    let ghost fv = mf@;
    proof {
        crate::types::lemma_view_vals(xs@);
        assert(xv.subrange(1, xv.len() as int) =~= xv.drop_first());
    }
    let n_args = xs.len() - 1;
    let fits = if mf.is_variadic {
        n_args + 1 >= mf.args.len()
    } else {
        n_args == mf.args.len()
    };
    assert(fits == arity_ok(fv.args.len(), fv.is_variadic, xv.drop_first().len()));
    if !fits {
        let v = if mf.is_variadic {
            variadic_arity_error(n_args, mf.args.len() - 1)
        } else {
            crate::types::invalid_parameter_length_error(n_args, mf.args.len())
        };
        proof {
            assert(eval_combination(ValV::List(xv), xv, ValV::Fn(fv), st0, cf, cc, fuel as nat)
                == EvalOut::Done(v@, st0));
        }
        return Step::Finish(v);
    }
    let (vals, ok) = eval_call_args(&xs, env, frame, fuel);
    if !ok {
        proof {
            assert(eval_args_spec(xv.drop_first(), st0, cf, fuel as nat) is OutOfFuel);
            assert(eval_combination(ValV::List(xv), xv, ValV::Fn(fv), st0, cf, cc, fuel as nat)
                is OutOfFuel);
        }
        return Step::Out;
    }
    let ghost env2 = env@;
    let ghost valsv = crate::types::view_vals(vals@);
    proof {
        assert(eval_args_spec(xv.drop_first(), st0, cf, fuel as nat) == ListOut::Done(
            valsv,
            env2,
        ));
        crate::env::lemma_val_wf_grow(
            ValV::Fn(fv),
            st0.frames.len() as int,
            env2.frames.len() as int,
        );
    }
    let parent: usize = match mf.env {
        Some(p) => p,
        None => frame,
    };
    proof {
        assert(parent < env2.frames.len());
    }
    let nf = bind_call_frame(&mf, &vals, env, parent);
    let ghost env3 = env@;
    let nv = *mf.body;
    proof {
        assert(env3 =~~= push_frame(env2, call_entries(fv, valsv), Some(parent as int)));
        assert(nv@ == *fv.body);
        crate::env::lemma_val_wf_grow(nv@, st0.frames.len() as int, env3.frames.len() as int);
        assert(eval_combination(ValV::List(xv), xv, ValV::Fn(fv), st0, cf, cc, fuel as nat)
            == eval_spec(nv@, env3, nf as int, true, fuel as nat));
    }
    Step::Tail(nv, nf, true)
}

/// One full evaluation under a fuel budget that mirrors the reference
/// interpreter's exactly: the boolean is true with the reference
/// result and final environment at that fuel, and false exactly when
/// the reference interpreter is out of fuel at it.
#[verifier::rlimit(100)]
fn eval_at(val: &MalType, env: &mut Env, frame: usize, copy_env: bool, fuel: u64) -> (r: (
    MalType,
    bool,
))
    requires
        env_wf(old(env)@),
        env_vals_wf(old(env)@),
        frame < old(env)@.frames.len(),
        val_wf(val@, old(env)@.frames.len() as int),
    ensures
        env_wf(final(env)@),
        env_vals_wf(final(env)@),
        old(env)@.frames.len() <= final(env)@.frames.len(),
        val_wf(r.0@, final(env)@.frames.len() as int),
        r.1 ==> eval_spec(val@, old(env)@, frame as int, copy_env, fuel as nat) == EvalOut::Done(
            r.0@,
            final(env)@,
        ),
        !r.1 ==> eval_spec(val@, old(env)@, frame as int, copy_env, fuel as nat) is OutOfFuel,
    decreases fuel, 0int,
{
    let ghost orig = old(env)@;
    let mut cur_val: MalType = val.clone();
    let mut cur_frame: usize = frame;
    let mut cur_copy: bool = copy_env;
    let mut remaining: u64 = fuel;
    loop
        invariant
            env_wf(env@),
            env_vals_wf(env@),
            cur_frame < env@.frames.len(),
            orig == old(env)@,
            orig.frames.len() <= env@.frames.len(),
            val_wf(cur_val@, env@.frames.len() as int),
            remaining <= fuel,
            eval_spec(val@, orig, frame as int, copy_env, fuel as nat) == eval_spec(
                cur_val@,
                env@,
                cur_frame as int,
                cur_copy,
                remaining as nat,
            ),
        decreases remaining,
    {
        let ghost cv = cur_val@;
        let ghost env0 = env@;
        let ghost cf = cur_frame as int;
        let ghost cc = cur_copy;
        let ghost rem = remaining as nat;
        if remaining == 0 {
            assert(eval_spec(cv, env0, cf, cc, 0) is OutOfFuel);
            return (MalType::Nil, false);
        }
        match cur_val {
            MalType::Nil => {
                assert(eval_spec(cv, env0, cf, cc, rem) == EvalOut::Done(cv, env0));
                return (MalType::Nil, true);
            },
            MalType::Bool(b) => {
                assert(eval_spec(cv, env0, cf, cc, rem) == EvalOut::Done(cv, env0));
                return (MalType::Bool(b), true);
            },
            MalType::Int(n) => {
                assert(eval_spec(cv, env0, cf, cc, rem) == EvalOut::Done(cv, env0));
                return (MalType::Int(n), true);
            },
            MalType::String(s) => {
                assert(eval_spec(cv, env0, cf, cc, rem) == EvalOut::Done(cv, env0));
                return (MalType::String(s), true);
            },
            MalType::KeyWord(s) => {
                assert(eval_spec(cv, env0, cf, cc, rem) == EvalOut::Done(cv, env0));
                return (MalType::KeyWord(s), true);
            },
            MalType::Error(s) => {
                assert(eval_spec(cv, env0, cf, cc, rem) == EvalOut::Done(cv, env0));
                return (MalType::Error(s), true);
            },
            MalType::Function(f) => {
                assert(eval_spec(cv, env0, cf, cc, rem) == EvalOut::Done(cv, env0));
                return (MalType::Function(f), true);
            },
            MalType::Fn(mf) => {
                if cur_copy && mf.env.is_none() {
                    let mut captured = mf;
                    captured.env = Some(cur_frame);
                    let r = MalType::Fn(captured);
                    proof {
                        assert(r@ =~= ValV::Fn(FnV { env: Some(cf), ..cv->Fn_0 }));
                        assert(eval_spec(cv, env0, cf, cc, rem) == EvalOut::Done(r@, env0));
                    }
                    return (r, true);
                } else {
                    let r = MalType::Fn(mf);
                    proof {
                        assert(eval_spec(cv, env0, cf, cc, rem) == EvalOut::Done(cv, env0));
                    }
                    return (r, true);
                }
            },
            MalType::Symbol(s) => {
                let special = is_str(&s, "def!") || is_str(&s, "let*") || is_str(&s, "do")
                    || is_str(&s, "if") || is_str(&s, "eval");
                assert(special == is_special_sym(s@));
                if special {
                    assert(eval_spec(cv, env0, cf, cc, rem) == EvalOut::Done(cv, env0));
                    return (MalType::Symbol(s), true);
                }
                match env.get(cur_frame, &s) {
                    None => {
                        let mut cs = crate::text::chars_of(s.as_str());
                        let mut tail = crate::text::chars_of(" not found");
                        cs.append(&mut tail);
                        let r = MalType::Error(crate::text::string_of(&cs));
                        proof {
                            assert(r@ =~= ValV::Error(not_found_msg(s@)));
                            assert(eval_spec(cv, env0, cf, cc, rem) == EvalOut::Done(r@, env0));
                        }
                        return (r, true);
                    },
                    Some(v) => {
                        proof {
                            crate::env::lemma_lookup_wf(env0, cf, s@, v@);
                            assert(eval_spec(cv, env0, cf, cc, rem) == eval_spec(
                                v@,
                                env0,
                                cf,
                                cc,
                                (rem - 1) as nat,
                            ));
                        }
                        cur_val = v;
                        remaining = remaining - 1;
                    },
                }
            },
            MalType::Vector(xs) => {
                proof {
                    crate::types::lemma_view_vals(xs@);
                    assert(cv->Vector_0 == crate::types::view_vals(xs@));
                    assert(crate::types::view_vals(xs@).subrange(0, xs@.len() as int)
                        =~= crate::types::view_vals(xs@));
                    assert forall|k: int|
                        0 <= k < xs@.len() implies val_wf(
                        (#[trigger] xs@[k])@,
                        env@.frames.len() as int,
                    ) by {
                        assert(crate::types::view_vals(xs@)[k] == (xs@[k])@);
                        assert(val_wf(cv->Vector_0[k], env@.frames.len() as int));
                    }
                }
                let (vals, ok) = eval_seq(&xs, 0, xs.len(), env, cur_frame, cur_copy, remaining - 1);
                proof {
                    lemma_vec_elems_wf(vals@, env@.frames.len() as int);
                }
                if !ok {
                    proof {
                        assert(eval_spec(cv, env0, cf, cc, rem) is OutOfFuel);
                    }
                    return (MalType::Vector(vals), false);
                }
                let r = MalType::Vector(vals);
                proof {
                    assert(eval_list_spec(cv->Vector_0, env0, cf, cc, (rem - 1) as nat)
                        == ListOut::Done(r@->Vector_0, env@));
                    assert(eval_spec(cv, env0, cf, cc, rem) == EvalOut::Done(r@, env@));
                }
                return (r, true);
            },
            MalType::Dict(ps) => {
                proof {
                    crate::types::lemma_view_pairs(ps@);
                    assert(cv->Dict_0 == crate::types::view_pairs(ps@));
                    assert forall|k: int|
                        0 <= k < ps@.len() implies val_wf(
                        (#[trigger] ps@[k]).1@,
                        env@.frames.len() as int,
                    ) by {
                        assert(crate::types::view_pairs(ps@)[k] == (
                            crate::types::view_hashable(ps@[k].0),
                            crate::types::view_val(ps@[k].1),
                        ));
                        assert(val_wf(cv->Dict_0[k].1, env@.frames.len() as int));
                    }
                }
                let (vals, ok) = eval_dict_vals(&ps, env, cur_frame, cur_copy, remaining - 1);
                proof {
                    lemma_dict_elems_wf(vals@, env@.frames.len() as int);
                }
                if !ok {
                    proof {
                        assert(eval_spec(cv, env0, cf, cc, rem) is OutOfFuel);
                    }
                    return (MalType::Dict(vals), false);
                }
                let r = MalType::Dict(vals);
                proof {
                    assert(eval_pairs_spec(cv->Dict_0, env0, cf, cc, (rem - 1) as nat)
                        == PairsOut::Done(r@->Dict_0, env@));
                    assert(eval_spec(cv, env0, cf, cc, rem) == EvalOut::Done(r@, env@));
                }
                return (r, true);
            },
            MalType::List(xs) => {
                let ghost xv = cv->List_0;
                proof {
                    crate::types::lemma_view_vals(xs@);
                    assert(xv == crate::types::view_vals(xs@));
                    assert forall|k: int| 0 <= k < xs@.len() implies #[trigger] xv[k] == (
                    xs@[k])@ by {
                        assert(crate::types::view_vals(xs@)[k] == (xs@[k])@);
                    }
                    assert forall|k: int|
                        0 <= k < xs@.len() implies val_wf(
                        (#[trigger] xs@[k])@,
                        env0.frames.len() as int,
                    ) by {
                        assert(xv[k] == (xs@[k])@);
                        assert(val_wf(xv[k], env0.frames.len() as int));
                    }
                }
                if xs.len() == 0 {
                    let empty_vec: Vec<MalType> = Vec::new();
                    proof {
                        assert(empty_vec@ =~= Seq::<MalType>::empty());
                        assert(crate::types::view_vals(empty_vec@) =~= Seq::<ValV>::empty());
                        assert(xv =~= Seq::<ValV>::empty());
                    }
                    let r = MalType::List(empty_vec);
                    proof {
                        assert(r@ =~= ValV::List(Seq::<ValV>::empty()));
                        assert(cv =~= ValV::List(Seq::<ValV>::empty()));
                        assert(eval_spec(cv, env0, cf, cc, rem) == EvalOut::Done(cv, env0));
                        assert(r@ =~= cv);
                    }
                    return (r, true);
                }
                let (op, ok) = eval_at(&xs[0], env, cur_frame, cur_copy, remaining - 1);
                if !ok {
                    proof {
                        assert(eval_spec(xv[0], env0, cf, cc, (rem - 1) as nat) is OutOfFuel);
                        assert(eval_spec(cv, env0, cf, cc, rem) is OutOfFuel);
                    }
                    return (op, false);
                }
                let ghost env1 = env@;
                let ghost opv = op@;
                proof {
                    assert(xv[0] == (xs@[0])@);
                    assert(eval_spec(xv[0], env0, cf, cc, (rem - 1) as nat) == EvalOut::Done(
                        opv,
                        env1,
                    ));
                    assert(eval_spec(cv, env0, cf, cc, rem) == eval_combination(
                        cv,
                        xv,
                        opv,
                        env1,
                        cf,
                        cc,
                        (rem - 1) as nat,
                    ));
                    assert forall|k: int|
                        0 <= k < xs@.len() implies val_wf(
                        (#[trigger] xs@[k])@,
                        env1.frames.len() as int,
                    ) by {
                        assert(xv[k] == (xs@[k])@);
                        crate::env::lemma_val_wf_grow(
                            xv[k],
                            env0.frames.len() as int,
                            env1.frames.len() as int,
                        );
                    }
                }
                match op {
                    MalType::Function(f) => {
                        let (r, ok2) = do_native(f, &xs, env, cur_frame, cur_copy, remaining - 1);
                        if !ok2 {
                            proof {
                                assert(eval_spec(cv, env0, cf, cc, rem) is OutOfFuel);
                            }
                            return (r, false);
                        }
                        proof {
                            assert(eval_spec(cv, env0, cf, cc, rem) == EvalOut::Done(r@, env@));
                        }
                        return (r, true);
                    },
                    MalType::Error(msg) => {
                        let r = MalType::Error(msg);
                        proof {
                            assert(eval_combination(cv, xv, opv, env1, cf, cc, (rem - 1) as nat)
                                == EvalOut::Done(r@, env1));
                            assert(eval_spec(cv, env0, cf, cc, rem) == EvalOut::Done(r@, env@));
                        }
                        return (r, true);
                    },
                    MalType::Fn(mf) => {
                        proof {
                            assert(opv == ValV::Fn(mf@));
                        }
                        let step = do_apply(mf, &xs, env, cur_frame, cur_copy, remaining - 1);
                        match step {
                            Step::Finish(v) => {
                                proof {
                                    assert(eval_spec(cv, env0, cf, cc, rem) == EvalOut::Done(
                                        v@,
                                        env@,
                                    ));
                                }
                                return (v, true);
                            },
                            Step::Tail(nv, nfr, nc) => {
                                proof {
                                    assert(eval_spec(cv, env0, cf, cc, rem) == eval_spec(
                                        nv@,
                                        env@,
                                        nfr as int,
                                        nc,
                                        (rem - 1) as nat,
                                    ));
                                }
                                cur_val = nv;
                                cur_frame = nfr;
                                cur_copy = nc;
                                remaining = remaining - 1;
                            },
                            Step::Out => {
                                proof {
                                    assert(eval_spec(cv, env0, cf, cc, rem) is OutOfFuel);
                                }
                                return (MalType::Nil, false);
                            },
                        }
                    },
                    MalType::Symbol(sym) => {
                        let which: u8 = if is_str(&sym, "eval") {
                            0
                        } else if is_str(&sym, "if") {
                            1
                        } else if is_str(&sym, "do") {
                            2
                        } else if is_str(&sym, "let*") {
                            3
                        } else {
                            4
                        };
                        if which == 4 {
                            if is_str(&sym, "def!") {
                                let (r, ok2) = do_def(&xs, env, cur_frame, cur_copy, remaining - 1);
                                if !ok2 {
                                    proof {
                                        assert(eval_spec(cv, env0, cf, cc, rem) is OutOfFuel);
                                    }
                                    return (r, false);
                                }
                                proof {
                                    assert(eval_spec(cv, env0, cf, cc, rem) == EvalOut::Done(
                                        r@,
                                        env@,
                                    ));
                                }
                                return (r, true);
                            }
                            proof {
                                assert(opv matches ValV::Symbol(ss) && !is_special_sym(ss));
                                assert forall|st: EnvV, f: nat|
                                    #![trigger eval_combination(ValV::List(xv), xv, opv, st, cf, cc, f)]
                                    eval_combination(ValV::List(xv), xv, opv, st, cf, cc, f)
                                        == eval_data_list(xv, st, cf, cc, f) by {}
                            }
                            let (r, ok2) = do_data(
                                &xs,
                                env,
                                cur_frame,
                                cur_copy,
                                remaining - 1,
                                Ghost(opv),
                            );
                            if !ok2 {
                                proof {
                                    assert(eval_spec(cv, env0, cf, cc, rem) is OutOfFuel);
                                }
                                return (r, false);
                            }
                            proof {
                                assert(eval_spec(cv, env0, cf, cc, rem) == EvalOut::Done(
                                    r@,
                                    env@,
                                ));
                            }
                            return (r, true);
                        }
                        let step = if which == 0 {
                            do_eval_form(&xs, env, cur_frame, cur_copy, remaining - 1)
                        } else if which == 1 {
                            do_if(&xs, env, cur_frame, cur_copy, remaining - 1)
                        } else if which == 2 {
                            do_do(&xs, env, cur_frame, cur_copy, remaining - 1)
                        } else {
                            do_let(&xs, env, cur_frame, cur_copy, remaining - 1)
                        };
                        proof {
                            if which == 0 {
                                assert(opv == ValV::Symbol("eval"@));
                            } else if which == 1 {
                                assert(opv == ValV::Symbol("if"@));
                            } else if which == 2 {
                                assert(opv == ValV::Symbol("do"@));
                            } else {
                                assert(opv == ValV::Symbol("let*"@));
                            }
                        }
                        match step {
                            Step::Finish(v) => {
                                proof {
                                    assert(eval_spec(cv, env0, cf, cc, rem) == EvalOut::Done(
                                        v@,
                                        env@,
                                    ));
                                }
                                return (v, true);
                            },
                            Step::Tail(nv, nfr, nc) => {
                                proof {
                                    assert(eval_spec(cv, env0, cf, cc, rem) == eval_spec(
                                        nv@,
                                        env@,
                                        nfr as int,
                                        nc,
                                        (rem - 1) as nat,
                                    ));
                                }
                                cur_val = nv;
                                cur_frame = nfr;
                                cur_copy = nc;
                                remaining = remaining - 1;
                            },
                            Step::Out => {
                                proof {
                                    assert(eval_spec(cv, env0, cf, cc, rem) is OutOfFuel);
                                }
                                return (MalType::Nil, false);
                            },
                        }
                    },
                    other => {
                        proof {
                            assert(!(opv is Function) && !(opv is Fn) && !(opv is Error)
                                && !(opv is Symbol));
                            assert forall|st: EnvV, f: nat|
                                #![trigger eval_combination(ValV::List(xv), xv, opv, st, cf, cc, f)]
                                eval_combination(ValV::List(xv), xv, opv, st, cf, cc, f)
                                    == eval_data_list(xv, st, cf, cc, f) by {}
                        }
                        let (r, ok2) = do_data(
                            &xs,
                            env,
                            cur_frame,
                            cur_copy,
                            remaining - 1,
                            Ghost(opv),
                        );
                        if !ok2 {
                            proof {
                                assert(eval_spec(cv, env0, cf, cc, rem) is OutOfFuel);
                            }
                            return (r, false);
                        }
                        proof {
                            assert(eval_spec(cv, env0, cf, cc, rem) == EvalOut::Done(r@, env@));
                        }
                        return (r, true);
                    },
                }
            },
        }
    }
}

proof fn lemma_vec_elems_wf(vals: Seq<MalType>, n: int)
    requires
        forall|k: int| 0 <= k < vals.len() ==> val_wf((#[trigger] vals[k])@, n),
    ensures
        forall|k: int|
            0 <= k < crate::types::view_vals(vals).len() ==> val_wf(
                #[trigger] crate::types::view_vals(vals)[k],
                n,
            ),
        val_wf(ValV::Vector(crate::types::view_vals(vals)), n),
        val_wf(ValV::List(crate::types::view_vals(vals)), n),
{
    crate::types::lemma_view_vals(vals);
    assert forall|k: int|
        0 <= k < crate::types::view_vals(vals).len() implies val_wf(
        #[trigger] crate::types::view_vals(vals)[k],
        n,
    ) by {
        assert(crate::types::view_vals(vals)[k] == (vals[k])@);
    }
}

proof fn lemma_dict_elems_wf(ps: Seq<(crate::types::MalHashable, MalType)>, n: int)
    requires
        forall|k: int| 0 <= k < ps.len() ==> val_wf((#[trigger] ps[k]).1@, n),
    ensures
        val_wf(ValV::Dict(crate::types::view_pairs(ps)), n),
{
    crate::types::lemma_view_pairs(ps);
    assert forall|k: int|
        0 <= k < crate::types::view_pairs(ps).len() implies val_wf(
        (#[trigger] crate::types::view_pairs(ps)[k]).1,
        n,
    ) by {
        assert(crate::types::view_pairs(ps)[k] == (
            crate::types::view_hashable(ps[k].0),
            crate::types::view_val(ps[k].1),
        ));
    }
}

/// The outcome of setting up a scope block: a budget failure, an error
/// value, or a fresh frame entered.
enum LetOutcome {
    Blocked,
    Failed(MalType),
    Entered,
}

/// An error value for a variadic call with too few arguments.
fn variadic_arity_error(got: usize, expected: usize) -> (r: MalType)
    ensures
        r@ == ValV::Error(variadic_arity_msg(got as nat, expected as nat)),
{
    let mut cs = crate::text::chars_of("Invalid parameter length: got ");
    let mut g = crate::text::u64_chars(got as u64);
    cs.append(&mut g);
    let mut mid = crate::text::chars_of(", expected at least ");
    cs.append(&mut mid);
    let mut e = crate::text::u64_chars(expected as u64);
    cs.append(&mut e);
    cs.push('.');
    proof {
        assert(cs@ =~= variadic_arity_msg(got as nat, expected as nat));
    }
    MalType::Error(crate::text::string_of(&cs))
}

/// Validates a `let*` form and, when it is well formed, pushes its
/// fresh frame with every binding in place (closures capturing the
/// frame itself) and returns the frame's index.
fn let_star(xs: &Vec<MalType>, env: &mut Env, frame: usize) -> (r: (LetOutcome, usize))
    requires
        env_wf(old(env)@),
        env_vals_wf(old(env)@),
        frame < old(env)@.frames.len(),
        xs@.len() >= 1,
        forall|k: int|
            0 <= k < xs@.len() ==> val_wf(
                (#[trigger] xs@[k])@,
                old(env)@.frames.len() as int,
            ),
    ensures
        env_wf(final(env)@),
        env_vals_wf(final(env)@),
        old(env)@.frames.len() <= final(env)@.frames.len(),
        ({
            let xv = crate::types::view_vals(xs@);
            match r.0 {
                LetOutcome::Blocked => false,
                LetOutcome::Failed(e) => final(env)@ == old(env)@ && ({
                    ||| (xv.len() != 3 && e@ == ValV::Error(param_len_msg(xv.len(), 3)))
                    ||| (xv.len() == 3 && !(xv[1] is List || xv[1] is Vector) && e@ == ValV::Error(
                        invalid_argument_msg(xv[1]),
                    ))
                    ||| (xv.len() == 3 && (xv[1] is List || xv[1] is Vector) && ({
                        let b = match xv[1] {
                            ValV::List(b) => b,
                            ValV::Vector(b) => b,
                            _ => Seq::empty(),
                        };
                        ||| (b.len() % 2 != 0 && e@ == ValV::Error(
                            param_len_msg(b.len(), (b.len() + 1) as nat),
                        ))
                        ||| (b.len() % 2 == 0 && !binding_names_ok(b) && e@ == ValV::Error(
                            "Only symbols can be assigned values."@,
                        ))
                    }))
                }),
                LetOutcome::Entered => xv.len() == 3 && (xv[1] is List || xv[1] is Vector) && ({
                    let b = match xv[1] {
                        ValV::List(b) => b,
                        ValV::Vector(b) => b,
                        _ => Seq::empty(),
                    };
                    &&& b.len() % 2 == 0
                    &&& binding_names_ok(b)
                    &&& r.1 == old(env)@.frames.len()
                    &&& final(env)@ == push_frame(
                        old(env)@,
                        let_entries(b, r.1 as int),
                        Some(frame as int),
                    )
                    &&& r.1 < final(env)@.frames.len()
                }),
            }
        }),
{
    let ghost st0 = old(env)@;
    let ghost xv = crate::types::view_vals(xs@);
    proof {
        crate::types::lemma_view_vals(xs@);
    }
    if xs.len() != 3 {
        return (
            LetOutcome::Failed(crate::types::invalid_parameter_length_error(xs.len(), 3)),
            0,
        );
    }
    let binds: &Vec<MalType> = match &xs[1] {
        MalType::List(b) => b,
        MalType::Vector(b) => b,
        _ => {
            return (
                LetOutcome::Failed(crate::types::invalid_argument_error(xs[1].clone())),
                0,
            );
        },
    };
    let ghost bv = match xv[1] {
        ValV::List(b) => b,
        ValV::Vector(b) => b,
        _ => Seq::empty(),
    };
    proof {
        crate::types::lemma_view_vals(binds@);
        assert(bv == crate::types::view_vals(binds@));
    }
    if binds.len() % 2 != 0 {
        let mut cs = crate::text::chars_of("Invalid parameter length: got ");
        let mut g = crate::text::u64_chars(binds.len() as u64);
        cs.append(&mut g);
        let mut mid = crate::text::chars_of(", expected ");
        cs.append(&mut mid);
        let wide: u128 = binds.len() as u128 + 1;
        let mut e = crate::text::u128_chars(wide);
        cs.append(&mut e);
        cs.push('.');
        proof {
            assert(cs@ =~= param_len_msg(bv.len(), (bv.len() + 1) as nat));
        }
        return (
            LetOutcome::Failed(MalType::Error(crate::text::string_of(&cs))),
            0,
        );
    }
    let blen = binds.len();
    let pairs = blen / 2;
    proof {
        assert(binds@.len() == 2 * (pairs as int));
    }
    let mut i: usize = 0;
    while i < pairs
        invariant
            i <= pairs,
            pairs == binds@.len() / 2,
            binds@.len() % 2 == 0,
            binds@.len() == 2 * (pairs as int),
            blen == binds@.len(),
            pairs == blen / 2,
            env@ == st0,
            st0 == old(env)@,
            env_wf(env@),
            env_vals_wf(env@),
            xv == crate::types::view_vals(xs@),
            xv.len() == 3,
            xs@.len() == 3,
            xv[1] is List || xv[1] is Vector,
            bv == (match xv[1] {
                ValV::List(b) => b,
                ValV::Vector(b) => b,
                _ => Seq::empty(),
            }),
            bv == crate::types::view_vals(binds@),
            bv.len() == binds@.len(),
            forall|k: int| 0 <= k < binds@.len() ==> #[trigger] bv[k] == (binds@[k])@,
            forall|k: int| 0 <= k < i ==> (#[trigger] bv[2 * k]) is Symbol,
        decreases pairs - i,
    {
        match &binds[2 * i] {
            MalType::Symbol(_) => {},
            _ => {
                assert(!(bv[2 * (i as int)] is Symbol));
                assert(!binding_names_ok(bv));
                let cs = crate::text::chars_of("Only symbols can be assigned values.");
                return (
                    LetOutcome::Failed(MalType::Error(crate::text::string_of(&cs))),
                    0,
                );
            },
        }
        i += 1;
    }
    assert(binding_names_ok(bv));
    let nf = env.new(Some(frame));
    let ghost st1 = env@;
    proof {
        assert(st1 =~~= push_frame(st0, Seq::empty(), Some(frame as int)));
        crate::env::lemma_wf_after_push(st0, st1, Seq::empty(), Some(frame as int));
        crate::env::lemma_vals_wf_after_push(st0, st1, Seq::empty(), Some(frame as int));
        assert(env_vals_wf(st1));
        assert(let_entries(bv, nf as int).take(0) =~= Seq::<(Seq<char>, ValV)>::empty());
        assert(env@ =~~= (EnvV {
            frames: st1.frames.update(
                nf as int,
                FrameV {
                    entries: let_entries(bv, nf as int).take(0),
                    parent: Some(frame as int),
                },
            ),
            out: st1.out,
        }));
    }
    let mut j: usize = 0;
    while j < pairs
        invariant
            j <= pairs,
            pairs == binds@.len() / 2,
            binds@.len() % 2 == 0,
            binds@.len() == 2 * (pairs as int),
            blen == binds@.len(),
            pairs == blen / 2,
            bv == crate::types::view_vals(binds@),
            bv.len() == binds@.len(),
            binding_names_ok(bv),
            forall|k: int| 0 <= k < binds@.len() ==> #[trigger] bv[k] == (binds@[k])@,
            forall|k: int| 0 <= k < binds@.len() ==> val_wf(#[trigger] bv[k], st0.frames.len() as int),
            nf == st0.frames.len(),
            frame < st0.frames.len(),
            st1 == push_frame(st0, Seq::empty(), Some(frame as int)),
            env@.frames.len() == st1.frames.len(),
            env@ == (EnvV {
                frames: st1.frames.update(
                    nf as int,
                    FrameV {
                        entries: let_entries(bv, nf as int).take(j as int),
                        parent: Some(frame as int),
                    },
                ),
                out: st1.out,
            }),
            env_wf(env@),
            env_vals_wf(env@),
        decreases pairs - j,
    {
        let name: String = match &binds[2 * j] {
            MalType::Symbol(n) => n.clone(),
            _ => {
                proof {
                    assert(bv[2 * (j as int)] is Symbol);
                    assert(false);
                }
                return (LetOutcome::Blocked, 0);
            },
        };
        let raw = binds[2 * j + 1].clone();
        let value: MalType = match raw {
            MalType::Fn(mfn) => {
                let mut c = mfn;
                c.env = Some(nf);
                MalType::Fn(c)
            },
            other => other,
        };
        proof {
            assert(value@ =~= capture(bv[2 * (j as int) + 1], nf as int));
            crate::env::lemma_val_wf_grow(
                bv[2 * (j as int) + 1],
                st0.frames.len() as int,
                env@.frames.len() as int,
            );
            match bv[2 * (j as int) + 1] {
                ValV::Fn(f0) => {
                    assert(val_wf(value@, env@.frames.len() as int));
                },
                _ => {
                    assert(val_wf(value@, env@.frames.len() as int));
                },
            }
        }
        let ghost env_pre = env@;
        let ghost namev = name@;
        let ghost valuev = value@;
        env.set(nf, name, value);
        proof {
            crate::env::lemma_wf_after_set(env_pre, env@, nf as int, namev, valuev);
            crate::env::lemma_vals_wf_after_set(env_pre, env@, nf as int, namev, valuev);
            assert(let_entries(bv, nf as int).take(j + 1) =~= let_entries(bv, nf as int).take(
                j as int,
            ).push((bv[2 * (j as int)]->Symbol_0, capture(bv[2 * (j as int) + 1], nf as int))));
            assert(env@ =~~= EnvV {
                frames: st1.frames.update(
                    nf as int,
                    FrameV {
                        entries: let_entries(bv, nf as int).take(j + 1),
                        parent: Some(frame as int),
                    },
                ),
                out: st1.out,
            });
        }
        j += 1;
    }
    proof {
        assert(let_entries(bv, nf as int).take(pairs as int) =~= let_entries(bv, nf as int));
        assert(env@ =~~= push_frame(st0, let_entries(bv, nf as int), Some(frame as int)));
    }
    (LetOutcome::Entered, nf)
}

/// Pushes the call frame of a closure application: parameters bound in
/// order, a variadic rest parameter taking the remaining arguments as
/// a list.
fn bind_call_frame(mf: &crate::types::MalFn, vals: &Vec<MalType>, env: &mut Env, parent: usize) -> (nf:
    usize)
    requires
        env_wf(old(env)@),
        env_vals_wf(old(env)@),
        parent < old(env)@.frames.len(),
        arity_ok(mf@.args.len(), mf@.is_variadic, vals@.len()),
        forall|k: int|
            0 <= k < vals@.len() ==> val_wf(
                (#[trigger] vals@[k])@,
                old(env)@.frames.len() as int,
            ),
    ensures
        env_wf(final(env)@),
        env_vals_wf(final(env)@),
        nf == old(env)@.frames.len(),
        final(env)@ == push_frame(
            old(env)@,
            call_entries(mf@, crate::types::view_vals(vals@)),
            Some(parent as int),
        ),
        final(env)@.frames.len() == old(env)@.frames.len() + 1,
{
    let ghost st0 = old(env)@;
    let ghost fv = mf@;
    let ghost valsv = crate::types::view_vals(vals@);
    proof {
        crate::types::lemma_view_vals(vals@);
    }
    let nf = env.new(Some(parent));
    let ghost st1 = env@;
    proof {
        assert(st1 =~~= push_frame(st0, Seq::empty(), Some(parent as int)));
        crate::env::lemma_wf_after_push(st0, st1, Seq::empty(), Some(parent as int));
        crate::env::lemma_vals_wf_after_push(st0, st1, Seq::empty(), Some(parent as int));
        assert(env_vals_wf(st1));
        assert(call_entries(fv, valsv).take(0) =~= Seq::<(Seq<char>, ValV)>::empty());
        assert(env@ =~~= (EnvV {
            frames: st1.frames.update(
                nf as int,
                FrameV {
                    entries: call_entries(fv, valsv).take(0),
                    parent: Some(parent as int),
                },
            ),
            out: st1.out,
        }));
    }
    let n_params = mf.args.len();
    let mut i: usize = 0;
    while i < n_params
        invariant
            i <= n_params,
            n_params == fv.args.len(),
            fv == mf@,
            valsv == crate::types::view_vals(vals@),
            valsv.len() == vals@.len(),
            forall|k: int| 0 <= k < vals@.len() ==> #[trigger] valsv[k] == (vals@[k])@,
            forall|k: int| 0 <= k < vals@.len() ==> val_wf(#[trigger] valsv[k], st0.frames.len() as int),
            arity_ok(fv.args.len(), fv.is_variadic, valsv.len()),
            nf == st0.frames.len(),
            parent < st0.frames.len(),
            st1 == push_frame(st0, Seq::empty(), Some(parent as int)),
            env@.frames.len() == st1.frames.len(),
            env@ == (EnvV {
                frames: st1.frames.update(
                    nf as int,
                    FrameV {
                        entries: call_entries(fv, valsv).take(i as int),
                        parent: Some(parent as int),
                    },
                ),
                out: st1.out,
            }),
            env_wf(env@),
            env_vals_wf(env@),
        decreases n_params - i,
    {
        let name = mf.args[i].clone();
        let value: MalType = if mf.is_variadic && i + 1 == n_params {
            let mut rest: Vec<MalType> = Vec::new();
            let mut k: usize = i;
            proof {
                assert(crate::types::view_vals(rest@) =~= Seq::<ValV>::empty());
                assert(valsv.skip(i as int).take(0) =~= Seq::<ValV>::empty());
            }
            while k < vals.len()
                invariant
                    i <= k <= vals@.len(),
                    valsv == crate::types::view_vals(vals@),
                    valsv.len() == vals@.len(),
                    forall|kk: int| 0 <= kk < vals@.len() ==> #[trigger] valsv[kk] == (vals@[kk])@,
                    crate::types::view_vals(rest@) == valsv.skip(i as int).take(k - i),
                    rest@.len() == k - i,
                decreases vals@.len() - k,
            {
                let ghost rest_pre = rest@;
                rest.push(vals[k].clone());
                proof {
                    assert(rest@.drop_last() =~= rest_pre);
                    assert(crate::types::view_vals(rest@) =~= crate::types::view_vals(
                        rest_pre,
                    ).push(valsv[k as int]));
                    assert(valsv.skip(i as int).take(k - i + 1) =~= valsv.skip(i as int).take(
                        k - i,
                    ).push(valsv[k as int]));
                }
                k += 1;
            }
            proof {
                assert(valsv.skip(i as int).take(vals@.len() - i) =~= valsv.skip(i as int));
            }
            MalType::List(rest)
        } else {
            assert(i < valsv.len());
            vals[i].clone()
        };
        proof {
            assert(value@ =~= call_entries(fv, valsv)[i as int].1);
            if fv.is_variadic && i + 1 == n_params {
                assert(forall|kk: int|
                    0 <= kk < valsv.skip(i as int).len() ==> val_wf(
                        #[trigger] valsv.skip(i as int)[kk],
                        st0.frames.len() as int,
                    ));
                assert(val_wf(value@, st0.frames.len() as int));
            }
            crate::env::lemma_val_wf_grow(
                value@,
                st0.frames.len() as int,
                env@.frames.len() as int,
            );
        }
        let ghost env_pre2 = env@;
        let ghost namev = name@;
        let ghost valuev = value@;
        env.set(nf, name, value);
        proof {
            crate::env::lemma_wf_after_set(env_pre2, env@, nf as int, namev, valuev);
            crate::env::lemma_vals_wf_after_set(env_pre2, env@, nf as int, namev, valuev);
            assert(call_entries(fv, valsv).take(i + 1) =~= call_entries(fv, valsv).take(
                i as int,
            ).push(call_entries(fv, valsv)[i as int]));
            assert(env@ =~~= EnvV {
                frames: st1.frames.update(
                    nf as int,
                    FrameV {
                        entries: call_entries(fv, valsv).take(i + 1),
                        parent: Some(parent as int),
                    },
                ),
                out: st1.out,
            });
        }
        i += 1;
    }
    proof {
        assert(call_entries(fv, valsv).take(n_params as int) =~= call_entries(fv, valsv));
        assert(env@ =~~= push_frame(st0, call_entries(fv, valsv), Some(parent as int)));
    }
    nf
}

/// Whether a value evaluates to itself, terminating the evaluator at
/// once.
pub open spec fn self_evaluating(v: ValV) -> bool {
    v is Nil || v is Bool || v is Int || v is Str || v is KeyWord || v is Error || v is Function
}

/// Evaluates an expression in the given frame of the environment.
/// Total and exact: the result and the final environment are precisely
/// what the reference interpreter gives at the evaluator's fuel
/// budget, and the budget-exhaustion error comes back exactly when the
/// reference interpreter is out of fuel at that budget. Nothing
/// panics; every failure is an error value.
pub fn eval(val: &MalType, env: &mut Env, frame: usize, copy_env: bool) -> (r: MalType)
    requires
        env_wf(old(env)@),
        env_vals_wf(old(env)@),
        frame < old(env)@.frames.len(),
        val_wf(val@, old(env)@.frames.len() as int),
    ensures
        env_wf(final(env)@),
        env_vals_wf(final(env)@),
        old(env)@.frames.len() <= final(env)@.frames.len(),
        val_wf(r@, final(env)@.frames.len() as int),
        match eval_spec(val@, old(env)@, frame as int, copy_env, EVAL_FUEL as nat) {
            EvalOut::Done(rv, stf) => r@ == rv && final(env)@ == stf,
            EvalOut::OutOfFuel => r@ == budget_error_v(),
        },
        self_evaluating(val@) ==> r@ == val@ && final(env)@ == old(env)@,
{
    let direct = match val {
        MalType::Nil => true,
        MalType::Bool(_) => true,
        MalType::Int(_) => true,
        MalType::String(_) => true,
        MalType::KeyWord(_) => true,
        MalType::Error(_) => true,
        MalType::Function(_) => true,
        _ => false,
    };
    if direct {
        let r = val.clone();
        proof {
            lemma_self_evaluating(val@, old(env)@, frame as int, copy_env, EVAL_FUEL as nat);
        }
        return r;
    }
    let (r, ok) = eval_at(val, env, frame, copy_env, EVAL_FUEL);
    if ok {
        r
    } else {
        budget_error()
    }
}

/// Reads source text into a value.
pub fn read(val: &str) -> (r: Result<MalType, crate::reader::ReaderError>)
    ensures
        match r {
            Ok(v) => crate::reader::read_spec(val@) == Ok::<ValV, crate::reader::ReaderError>(v@),
            Err(e) => crate::reader::read_spec(val@) == Err::<ValV, crate::reader::ReaderError>(e),
        },
{
    crate::reader::read_str(val)
}

/// Renders a result value readably, as the interactive loop reflects
/// it.
pub fn print(val: MalType) -> (r: String)
    ensures
        r@ == crate::printer::print_val(val@, true),
{
    crate::printer::pr_str(val, true)
}

/// Reads and evaluates one line in the root frame.
pub fn re(val: &str, env: &mut Env) -> (r: Result<MalType, crate::reader::ReaderError>)
    requires
        env_wf(old(env)@),
        env_vals_wf(old(env)@),
        old(env)@.frames.len() >= 1,
    ensures
        env_wf(final(env)@),
        env_vals_wf(final(env)@),
        old(env)@.frames.len() <= final(env)@.frames.len(),
        match r {
            Ok(v) => ({
                &&& crate::reader::read_spec(val@) matches Ok(v0)
                &&& val_wf(v@, final(env)@.frames.len() as int)
                &&& match eval_spec(v0, old(env)@, 0, false, EVAL_FUEL as nat) {
                    EvalOut::Done(rv, stf) => v@ == rv && final(env)@ == stf,
                    EvalOut::OutOfFuel => v@ == budget_error_v(),
                }
            }),
            Err(e) => crate::reader::read_spec(val@) == Err::<ValV, crate::reader::ReaderError>(e)
                && final(env)@ == old(env)@,
        },
{
    match crate::reader::read_str(val) {
        Ok(m) => {
            proof {
                lemma_read_wf(val@, m@, old(env)@.frames.len() as int);
            }
            let v = eval(&m, env, 0, false);
            Ok(v)
        },
        Err(e) => Err(e),
    }
}

/// One line of the read-eval-print loop: the result the reference
/// interpreter gives at the evaluator's budget, rendered readably (or
/// the budget error's text), or the reader error's message behind a
/// parse-error prefix.
pub fn rep(val: &str, env: &mut Env) -> (r: String)
    requires
        env_wf(old(env)@),
        env_vals_wf(old(env)@),
        old(env)@.frames.len() >= 1,
    ensures
        env_wf(final(env)@),
        env_vals_wf(final(env)@),
        old(env)@.frames.len() <= final(env)@.frames.len(),
        match crate::reader::read_spec(val@) {
            Ok(v0) => match eval_spec(v0, old(env)@, 0, false, EVAL_FUEL as nat) {
                EvalOut::Done(rv, stf) => r@ == crate::printer::print_val(rv, true) && final(env)@
                    == stf,
                EvalOut::OutOfFuel => r@ == crate::printer::print_val(budget_error_v(), true),
            },
            Err(e) => r@ == "Parse error: "@ + crate::reader::reader_error_msg(e) && final(env)@
                == old(env)@,
        },
{
    match re(val, env) {
        Ok(v) => {
            let ghost rv = v@;
            let r = print(v);
            proof {
                assert(r@ == crate::printer::print_val(rv, true));
            }
            r
        },
        Err(e) => {
            let mut cs = crate::text::chars_of("Parse error: ");
            let mut msg = crate::text::chars_of(e.message().as_str());
            cs.append(&mut msg);
            let r = crate::text::string_of(&cs);
            r
        },
    }
}

proof fn lemma_atom_wf(t: Seq<char>, n: int)
    ensures
        crate::reader::atom_val(t) matches Ok(v) ==> val_wf(v, n),
{
}

proof fn lemma_dict_put_wf(
    ps: Seq<(crate::types::HashableV, ValV)>,
    k: crate::types::HashableV,
    v: ValV,
    n: int,
)
    requires
        forall|i: int| 0 <= i < ps.len() ==> val_wf((#[trigger] ps[i]).1, n),
        val_wf(v, n),
    ensures
        forall|i: int|
            0 <= i < crate::reader::dict_put(ps, k, v).len() ==> val_wf(
                (#[trigger] crate::reader::dict_put(ps, k, v)[i]).1,
                n,
            ),
    decreases ps.len(),
{
    let r = crate::reader::dict_put(ps, k, v);
    if ps.len() == 0 {
        assert(r =~= seq![(k, v)]);
    } else if ps[0].0 == k {
        assert forall|i: int| 0 <= i < r.len() implies val_wf((#[trigger] r[i]).1, n) by {
            if i == 0 {
            } else {
                assert(r[i] == ps.drop_first()[i - 1]);
                assert(ps.drop_first()[i - 1] == ps[i]);
            }
        }
    } else {
        assert(forall|i: int|
            0 <= i < ps.drop_first().len() ==> val_wf((#[trigger] ps.drop_first()[i]).1, n));
        lemma_dict_put_wf(ps.drop_first(), k, v, n);
        let rr = crate::reader::dict_put(ps.drop_first(), k, v);
        assert forall|i: int| 0 <= i < r.len() implies val_wf((#[trigger] r[i]).1, n) by {
            if i == 0 {
                assert(r[0] == ps[0]);
            } else {
                assert(r[i] == rr[i - 1]);
            }
        }
    }
}

proof fn lemma_dict_build_wf(
    items: Seq<ValV>,
    i: int,
    acc: Seq<(crate::types::HashableV, ValV)>,
    n: int,
)
    requires
        forall|k: int| 0 <= k < items.len() ==> val_wf(#[trigger] items[k], n),
        forall|k: int| 0 <= k < acc.len() ==> val_wf((#[trigger] acc[k]).1, n),
    ensures
        crate::reader::dict_build(items, i, acc) matches Ok(ps) ==> forall|k: int|
            0 <= k < ps.len() ==> val_wf((#[trigger] ps[k]).1, n),
    decreases items.len() - i,
{
    if i >= 0 && i + 1 < items.len() {
        if crate::types::is_hashable(items[i]) {
            lemma_dict_put_wf(acc, crate::types::as_hashable(items[i]), items[i + 1], n);
            lemma_dict_build_wf(
                items,
                i + 2,
                crate::reader::dict_put(acc, crate::types::as_hashable(items[i]), items[i + 1]),
                n,
            );
        }
    }
}

/// A value fresh from the reader is well formed for any arena: the
/// reader builds every closure with no captured frame.
proof fn lemma_parse_form_wf(toks: Seq<Seq<char>>, pos: int, n: int)
    ensures
        crate::reader::parse_form(toks, pos) matches crate::reader::Parsed::Done(w, _) ==> val_wf(
            w,
            n,
        ),
    decreases toks.len() - pos, 0int,
{
    if pos < 0 || pos >= toks.len() {
    } else {
        let t = toks[pos];
        if t == seq!['('] {
            if pos + 1 >= toks.len() {
            } else if toks[pos + 1] == seq!['f', 'n', '*'] {
                lemma_parse_fn_wf(toks, pos + 2, n);
            } else {
                lemma_parse_items_wf(toks, pos + 1, ')', n);
            }
        } else if t == seq!['['] {
            lemma_parse_items_wf(toks, pos + 1, ']', n);
        } else if t == seq!['{'] {
            lemma_parse_items_wf(toks, pos + 1, '}', n);
            match crate::reader::parse_items(toks, pos + 1, '}') {
                crate::reader::ParsedItems::Done(items, _) => {
                    if items.len() % 2 == 0 {
                        lemma_dict_build_wf(items, 0, Seq::empty(), n);
                    }
                },
                crate::reader::ParsedItems::Bad(_) => {},
            }
        } else {
            lemma_atom_wf(t, n);
        }
    }
}

proof fn lemma_parse_fn_wf(toks: Seq<Seq<char>>, pos: int, n: int)
    ensures
        crate::reader::parse_fn(toks, pos) matches crate::reader::Parsed::Done(w, _) ==> val_wf(
            w,
            n,
        ),
    decreases toks.len() - pos, 1int,
{
    lemma_parse_form_wf(toks, pos, n);
    match crate::reader::parse_form(toks, pos) {
        crate::reader::Parsed::Done(params, n1) => {
            let n1c = if pos <= n1 <= toks.len() {
                n1
            } else {
                pos
            };
            lemma_parse_form_wf(toks, n1c, n);
        },
        crate::reader::Parsed::Bad(_) => {},
    }
}

proof fn lemma_parse_items_wf(toks: Seq<Seq<char>>, pos: int, closer: char, n: int)
    ensures
        crate::reader::parse_items(toks, pos, closer) matches crate::reader::ParsedItems::Done(
            items,
            _,
        ) ==> forall|k: int| 0 <= k < items.len() ==> val_wf(#[trigger] items[k], n),
    decreases toks.len() - pos, 1int,
{
    if pos < 0 || pos >= toks.len() {
    } else if toks[pos] == seq![closer] {
    } else {
        lemma_parse_form_wf(toks, pos, n);
        match crate::reader::parse_form(toks, pos) {
            crate::reader::Parsed::Bad(_) => {},
            crate::reader::Parsed::Done(v, np) => {
                let nc = if pos < np <= toks.len() {
                    np
                } else {
                    pos + 1
                };
                lemma_parse_items_wf(toks, nc, closer, n);
                match crate::reader::parse_items(toks, nc, closer) {
                    crate::reader::ParsedItems::Bad(_) => {},
                    crate::reader::ParsedItems::Done(rest, _) => {
                        let items = seq![v] + rest;
                        assert forall|k: int| 0 <= k < items.len() implies val_wf(
                            #[trigger] items[k],
                            n,
                        ) by {
                            if k == 0 {
                                assert(items[0] == v);
                            } else {
                                assert(items[k] == rest[k - 1]);
                            }
                        }
                    },
                }
            },
        }
    }
}

/// A value the reader hands out is well formed for any arena.
pub proof fn lemma_read_wf(src: Seq<char>, v: ValV, n: int)
    requires
        crate::reader::read_spec(src) == Ok::<ValV, crate::reader::ReaderError>(v),
    ensures
        val_wf(v, n),
{
    lemma_parse_form_wf(crate::reader::tokenize_spec(src, 0), 0, n);
}

/// Self-evaluating values come back unchanged, whatever the
/// environment, the frame and the adoption flag: nil, booleans,
/// integers, strings, keywords, errors and native functions all
/// terminate the evaluator immediately.
pub proof fn lemma_self_evaluating(v: ValV, st: EnvV, cur: int, copy_env: bool, fuel: nat)
    requires
        fuel >= 1,
        v is Nil || v is Bool || v is Int || v is Str || v is KeyWord || v is Error
            || v is Function,
    ensures
        eval_spec(v, st, cur, copy_env, fuel) == EvalOut::Done(v, st),
{
}

/// Arity of a fixed closure is exact: a two-parameter closure called
/// with a single argument yields precisely the arity error, touching
/// nothing.
pub proof fn lemma_fixed_arity_error(xv: Seq<ValV>, f: FnV, st1: EnvV, cf: int, cc: bool, fuel: nat)
    requires
        !f.is_variadic,
        f.args.len() == 2,
        xv.len() == 2,
    ensures
        eval_combination(ValV::List(xv), xv, ValV::Fn(f), st1, cf, cc, fuel) == EvalOut::Done(
            ValV::Error(param_len_msg(1, 2)),
            st1,
        ),
{
    assert(xv.drop_first().len() == 1);
}

/// A variadic closure with a fixed parameter and a rest parameter
/// accepts every call that supplies at least one argument: application
/// never raises an arity error but proceeds to evaluate the arguments
/// and run the body in a fresh call frame.
pub proof fn lemma_variadic_accepts(xv: Seq<ValV>, f: FnV, st1: EnvV, cf: int, cc: bool, fuel: nat)
    requires
        f.is_variadic,
        f.args.len() == 2,
        xv.len() >= 2,
    ensures
        eval_combination(ValV::List(xv), xv, ValV::Fn(f), st1, cf, cc, fuel) == (
        match eval_args_spec(xv.drop_first(), st1, cf, fuel) {
            ListOut::OutOfFuel => EvalOut::OutOfFuel,
            ListOut::Done(vals, st2) => eval_spec(
                *f.body,
                push_frame(
                    st2,
                    call_entries(f, vals),
                    Some(
                        match f.env {
                            Some(p) => p,
                            None => cf,
                        },
                    ),
                ),
                st2.frames.len() as int,
                true,
                fuel,
            ),
        }),
{
    assert(arity_ok(f.args.len(), f.is_variadic, xv.drop_first().len()));
}

} // verus!
