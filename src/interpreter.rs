//! The reference evaluator: the meaning of an expression.
use vstd::prelude::*;
use crate::env::{bindings_of, env_clone, env_contains, env_empty, env_get, env_update, Env};
use crate::{apply1, apply2, BoaError, Expr, Op1, Op2};

verus! {

/// The value of `e` where `env` binds the free identifiers.
pub open spec fn eval_spec(e: Expr, env: Map<Seq<char>, i32>) -> Result<i32, BoaError>
    decreases e,
{
    match e {
        Expr::Number(n) => Ok(n),
        Expr::Id(x) => if env.contains_key(x@) {
            Ok(env[x@])
        } else {
            Err(BoaError::UnboundIdentifier(x))
        },
        Expr::UnOp(op, s) => match eval_spec(*s, env) {
            Ok(v) => Ok(apply1(op, v)),
            Err(er) => Err(er),
        },
        Expr::BinOp(op, l, r) => match eval_spec(*l, env) {
            Ok(a) => match eval_spec(*r, env) {
                Ok(b) => Ok(apply2(op, a, b)),
                Err(er) => Err(er),
            },
            Err(er) => Err(er),
        },
        Expr::Let(bs, body) => match eval_bindings(bs@, env, Set::empty()) {
            Ok(inner) => eval_spec(*body, inner),
            Err(er) => Err(er),
        },
    }
}

/// The environment after binding `bs` in order on top of `env`, each
/// initializer seeing the bindings before it; `added` holds the names that
/// the same `let` has bound already, which may not be bound again.
pub open spec fn eval_bindings(
    bs: Seq<(String, Expr)>,
    env: Map<Seq<char>, i32>,
    added: Set<Seq<char>>,
) -> Result<Map<Seq<char>, i32>, BoaError>
    decreases bs,
{
    if bs.len() == 0 {
        Ok(env)
    } else {
        match eval_spec(bs[0].1, env) {
            Err(er) => Err(er),
            Ok(v) => if added.contains(bs[0].0@) {
                Err(BoaError::DuplicateBinding(bs[0].0))
            } else {
                eval_bindings(
                    bs.subrange(1, bs.len() as int),
                    env.insert(bs[0].0@, v),
                    added.insert(bs[0].0@),
                )
            },
        }
    }
}

/// Evaluates a closed expression.
pub fn eval(expr: &Expr) -> (r: Result<i32, BoaError>)
    ensures
        r == eval_spec(*expr, Map::empty()),
{
    let env = env_empty();
    eval_expr(expr, &env)
}

/// Evaluates `expr` where `env` binds the free identifiers.
pub fn eval_expr(expr: &Expr, env: &Env) -> (r: Result<i32, BoaError>)
    ensures
        r == eval_spec(*expr, bindings_of(*env)),
    decreases expr,
{
    match expr {
        Expr::Number(n) => Ok(*n),
        Expr::Id(name) => match env_get(env, name) {
            Some(v) => Ok(v),
            None => Err(BoaError::UnboundIdentifier(name.clone())),
        },
        Expr::UnOp(op, sub) => {
            let v = match eval_expr(sub, env) {
                Ok(v) => v,
                Err(er) => return Err(er),
            };
            match op {
                Op1::Add1 => Ok(v.wrapping_add(1)),
                Op1::Sub1 => Ok(v.wrapping_sub(1)),
            }
        },
        Expr::BinOp(op, left, right) => {
            let l = match eval_expr(left, env) {
                Ok(v) => v,
                Err(er) => return Err(er),
            };
            let r = match eval_expr(right, env) {
                Ok(v) => v,
                Err(er) => return Err(er),
            };
            match op {
                Op2::Plus => Ok(l.wrapping_add(r)),
                Op2::Minus => Ok(l.wrapping_sub(r)),
                Op2::Times => Ok(l.wrapping_mul(r)),
            }
        },
        Expr::Let(bindings, body) => {
            let ghost bs = bindings@;
            let mut cur = env_clone(env);
            let mut added = env_empty();
            let mut i: usize = 0;
            assert(bs.subrange(0, bs.len() as int) =~= bs);
            assert(bindings_of(added).dom() =~= Set::empty());
            while i < bindings.len()
                invariant
                    *expr == Expr::Let(*bindings, *body),
                    bs == bindings@,
                    0 <= i <= bs.len(),
                    eval_bindings(bs, bindings_of(*env), Set::empty()) == eval_bindings(
                        bs.subrange(i as int, bs.len() as int),
                        bindings_of(cur),
                        bindings_of(added).dom(),
                    ),
                decreases bs.len() - i,
            {
                let name = &bindings[i].0;
                let val_expr = &bindings[i].1;
                let ghost rest = bs.subrange(i as int, bs.len() as int);
                proof {
                    assert(rest[0] == bs[i as int]);
                    assert(rest.subrange(1, rest.len() as int) =~= bs.subrange(
                        i + 1,
                        bs.len() as int,
                    ));
                    assert(decreases_to!(*expr => *bindings));
                    assert(decreases_to!(*bindings => bindings[i as int]));
                }
                let v = match eval_expr(val_expr, &cur) {
                    Ok(v) => v,
                    Err(er) => {
                        assert(eval_bindings(rest, bindings_of(cur), bindings_of(added).dom())
                            == Err::<Map<Seq<char>, i32>, BoaError>(er));
                        return Err(er);
                    },
                };
                if env_contains(&added, name) {
                    let dup = name.clone();
                    assert(eval_bindings(rest, bindings_of(cur), bindings_of(added).dom())
                        == Err::<Map<Seq<char>, i32>, BoaError>(BoaError::DuplicateBinding(dup)));
                    return Err(BoaError::DuplicateBinding(dup));
                }
                cur = env_update(&cur, name.clone(), v);
                let ghost before = bindings_of(added).dom();
                added = env_update(&added, name.clone(), 0);
                assert(bindings_of(added).dom() =~= before.insert(name@));
                i += 1;
            }
            assert(bs.subrange(i as int, bs.len() as int).len() == 0);
            eval_expr(body, &cur)
        },
    }
}

} // verus!
