//! The code generator: expressions to instructions over one accumulator and
//! a frame of 8-byte stack slots that grows downward from offset 0.
use vstd::prelude::*;
use crate::env::{bindings_of, env_clone, env_contains, env_empty, env_get, env_update, Env};
use crate::{BoaError, Expr, Instr, Op1, Op2, Reg, Val};

verus! {

/// The width in bytes of one stack slot.
pub const SLOT: i32 = 8;

/// The accumulator operand.
pub open spec fn rax() -> Val {
    Val::Reg(Reg::RAX)
}

/// The stack slot at byte offset `off` from the stack pointer.
pub open spec fn slot(off: int) -> Val {
    Val::RegOffset(Reg::RSP, off as i32)
}

/// The instructions that end a binary operation whose left operand was
/// spilled at offset `si` and whose right operand is in the accumulator.
pub open spec fn combine_spec(op: Op2, si: int) -> Seq<Instr> {
    match op {
        Op2::Plus => seq![Instr::IAdd(rax(), slot(si))],
        Op2::Minus => seq![
            Instr::IMov(slot(si - 8), rax()),
            Instr::IMov(rax(), slot(si)),
            Instr::ISub(rax(), slot(si - 8)),
        ],
        Op2::Times => seq![Instr::IMul(rax(), slot(si))],
    }
}

/// The code for `e`, where `env` gives the stack offset of each bound
/// identifier and `si` is the next free offset.
pub open spec fn compile_spec(e: Expr, env: Map<Seq<char>, i32>, si: int) -> Result<
    Seq<Instr>,
    BoaError,
>
    decreases e,
{
    match e {
        Expr::Number(n) => Ok(seq![Instr::IMov(rax(), Val::Imm(n))]),
        Expr::Id(x) => if env.contains_key(x@) {
            Ok(seq![Instr::IMov(rax(), Val::RegOffset(Reg::RSP, env[x@]))])
        } else {
            Err(BoaError::UnboundIdentifier(x))
        },
        Expr::UnOp(op, s) => match compile_spec(*s, env, si) {
            Ok(c) => Ok(
                c.push(
                    match op {
                        Op1::Add1 => Instr::IAdd(rax(), Val::Imm(1)),
                        Op1::Sub1 => Instr::ISub(rax(), Val::Imm(1)),
                    },
                ),
            ),
            Err(er) => Err(er),
        },
        Expr::BinOp(op, l, r) => match compile_spec(*l, env, si) {
            Ok(cl) => match compile_spec(*r, env, si - 8) {
                Ok(cr) => Ok(cl.push(Instr::IMov(slot(si), rax())) + cr + combine_spec(op, si)),
                Err(er) => Err(er),
            },
            Err(er) => Err(er),
        },
        Expr::Let(bs, body) => match compile_bindings(bs@, env, si, Set::empty()) {
            Ok(t) => match compile_spec(*body, t.1, t.2) {
                Ok(cb) => Ok(t.0 + cb),
                Err(er) => Err(er),
            },
            Err(er) => Err(er),
        },
    }
}

/// Code, environment and next free offset after a binding list.
pub type BoundCode = (Seq<Instr>, Map<Seq<char>, i32>, int);

/// The code that binds `bs` in order, each value stored in a fresh slot from
/// `si` down, with the environment and next free offset after them; `added`
/// holds the names that the same `let` has bound already.
pub open spec fn compile_bindings(
    bs: Seq<(String, Expr)>,
    env: Map<Seq<char>, i32>,
    si: int,
    added: Set<Seq<char>>,
) -> Result<BoundCode, BoaError>
    decreases bs,
{
    if bs.len() == 0 {
        Ok((Seq::empty(), env, si))
    } else {
        match compile_spec(bs[0].1, env, si) {
            Err(er) => Err(er),
            Ok(c) => if added.contains(bs[0].0@) {
                Err(BoaError::DuplicateBinding(bs[0].0))
            } else {
                match compile_bindings(
                    bs.subrange(1, bs.len() as int),
                    env.insert(bs[0].0@, si as i32),
                    si - 8,
                    added.insert(bs[0].0@),
                ) {
                    Ok(t) => Ok((c.push(Instr::IMov(slot(si), rax())) + t.0, t.1, t.2)),
                    Err(er) => Err(er),
                }
            },
        }
    }
}

/// The number of stack slots below the next free offset that the code for
/// `e` writes: the deepest nesting of live values, not the number of
/// operations.
pub open spec fn depth(e: Expr) -> nat
    decreases e,
{
    match e {
        Expr::Number(_) => 0,
        Expr::Id(_) => 0,
        Expr::UnOp(_, s) => depth(*s),
        Expr::BinOp(op, l, r) => {
            let right = 1 + if op == Op2::Minus {
                vstd::math::max(depth(*r) as int, 1)
            } else {
                depth(*r) as int
            };
            vstd::math::max(depth(*l) as int, right) as nat
        },
        Expr::Let(bs, body) => vstd::math::max(
            bindings_depth(bs@) as int,
            bs.len() + depth(*body) as int,
        ) as nat,
    }
}

/// The slots written while binding `bs`, counted from the first binding's slot.
pub open spec fn bindings_depth(bs: Seq<(String, Expr)>) -> nat
    decreases bs,
{
    if bs.len() == 0 {
        0
    } else {
        vstd::math::max(
            vstd::math::max(depth(bs[0].1) as int, 1),
            1 + bindings_depth(bs.subrange(1, bs.len() as int)) as int,
        ) as nat
    }
}

/// The most stack slots that the frame offsets can address.
pub const MAX_SLOTS: u32 = 0x1000_0000;

/// `n`, or `MAX_SLOTS` where `n` is larger.
pub open spec fn capped(n: int) -> int {
    if n < MAX_SLOTS as int {
        n
    } else {
        MAX_SLOTS as int
    }
}

/// The number of stack slots that the code for `expr` writes, or
/// `MAX_SLOTS` where that is more; below `MAX_SLOTS` the expression can be
/// compiled from offset 0.
pub fn stack_slots(expr: &Expr) -> (r: u32)
    ensures
        r as int == capped(depth(*expr) as int),
    decreases expr,
{
    match expr {
        Expr::Number(_) => 0,
        Expr::Id(_) => 0,
        Expr::UnOp(_, sub) => stack_slots(sub),
        Expr::BinOp(op, left, right) => {
            let l = stack_slots(left);
            let r = stack_slots(right);
            let inner = if *op == Op2::Minus && r < 1 {
                1
            } else {
                r
            };
            let right_slots = if inner >= MAX_SLOTS {
                MAX_SLOTS
            } else {
                inner + 1
            };
            if l >= right_slots {
                l
            } else {
                right_slots
            }
        },
        Expr::Let(bindings, body) => {
            let ghost bs = bindings@;
            let n = bindings.len();
            let mut acc: u32 = 0;
            let mut i: usize = n;
            assert(bs.subrange(n as int, n as int) =~= Seq::<(String, Expr)>::empty());
            while i > 0
                invariant
                    *expr == Expr::Let(*bindings, *body),
                    bs == bindings@,
                    n == bs.len(),
                    0 <= i <= n,
                    acc as int == capped(bindings_depth(bs.subrange(i as int, n as int)) as int),
                decreases i,
            {
                i -= 1;
                proof {
                    let rest = bs.subrange(i as int, n as int);
                    assert(rest[0] == bs[i as int]);
                    assert(rest.subrange(1, rest.len() as int) =~= bs.subrange(i + 1, n as int));
                    let l = expr->Let_0;
                    assert(decreases_to!(*expr => l));
                    assert(decreases_to!(l => l[i as int]));
                }
                let d = stack_slots(&bindings[i].1);
                let own = if d < 1 {
                    1
                } else {
                    d
                };
                let after = if acc >= MAX_SLOTS {
                    MAX_SLOTS
                } else {
                    acc + 1
                };
                acc = if own >= after {
                    own
                } else {
                    after
                };
            }
            assert(bs.subrange(0, n as int) =~= bs);
            let b = stack_slots(body);
            let below = if n >= MAX_SLOTS as usize || b >= MAX_SLOTS - n as u32 {
                MAX_SLOTS
            } else {
                n as u32 + b
            };
            if acc >= below {
                acc
            } else {
                below
            }
        },
    }
}

/// What an executable result of code generation stands for.
pub open spec fn code_view(r: Result<Vec<Instr>, BoaError>) -> Result<Seq<Instr>, BoaError> {
    match r {
        Ok(c) => Ok(c@),
        Err(er) => Err(er),
    }
}

/// The code made of one instruction.
fn single(i: Instr) -> (r: Vec<Instr>)
    ensures
        r@ == seq![i],
{
    let mut r = Vec::new();
    r.push(i);
    r
}

/// Compiles a closed expression; the result is left in the accumulator.
pub fn compile_to_instrs(expr: &Expr) -> (r: Result<Vec<Instr>, BoaError>)
    requires
        8 * depth(*expr) <= 0x8000_0000,
    ensures
        code_view(r) == compile_spec(*expr, Map::empty(), 0),
{
    let env = env_empty();
    compile_expr(expr, &env, 0)
}

/// Compiles `expr` where `env` gives the stack offset of each bound
/// identifier and `si` is the next free offset.
pub fn compile_expr(expr: &Expr, env: &Env, si: i32) -> (r: Result<Vec<Instr>, BoaError>)
    requires
        si - 8 * depth(*expr) >= i32::MIN,
    ensures
        code_view(r) == compile_spec(*expr, bindings_of(*env), si as int),
    decreases expr,
{
    match expr {
        Expr::Number(n) => Ok(single(Instr::IMov(Val::Reg(Reg::RAX), Val::Imm(*n)))),
        Expr::Id(name) => match env_get(env, name) {
            Some(offset) => Ok(single(Instr::IMov(Val::Reg(Reg::RAX), Val::RegOffset(Reg::RSP, offset)))),
            None => Err(BoaError::UnboundIdentifier(name.clone())),
        },
        Expr::UnOp(op, sub) => {
            let mut code = match compile_expr(sub, env, si) {
                Ok(c) => c,
                Err(er) => return Err(er),
            };
            match op {
                Op1::Add1 => code.push(Instr::IAdd(Val::Reg(Reg::RAX), Val::Imm(1))),
                Op1::Sub1 => code.push(Instr::ISub(Val::Reg(Reg::RAX), Val::Imm(1))),
            }
            assert(code@ =~= compile_spec(*expr, bindings_of(*env), si as int)->Ok_0);
            Ok(code)
        },
        Expr::BinOp(op, left, right) => {
            let mut code = match compile_expr(left, env, si) {
                Ok(c) => c,
                Err(er) => return Err(er),
            };
            code.push(Instr::IMov(Val::RegOffset(Reg::RSP, si), Val::Reg(Reg::RAX)));
            let mut rcode = match compile_expr(right, env, si - SLOT) {
                Ok(c) => c,
                Err(er) => return Err(er),
            };
            code.append(&mut rcode);
            let lhs = Val::RegOffset(Reg::RSP, si);
            match op {
                Op2::Plus => code.push(Instr::IAdd(Val::Reg(Reg::RAX), lhs)),
                Op2::Minus => {
                    let rhs = Val::RegOffset(Reg::RSP, si - SLOT);
                    code.push(Instr::IMov(rhs, Val::Reg(Reg::RAX)));
                    code.push(Instr::IMov(Val::Reg(Reg::RAX), lhs));
                    code.push(Instr::ISub(Val::Reg(Reg::RAX), rhs));
                },
                Op2::Times => code.push(Instr::IMul(Val::Reg(Reg::RAX), lhs)),
            }
            assert(code@ =~= compile_spec(*expr, bindings_of(*env), si as int)->Ok_0);
            Ok(code)
        },
        Expr::Let(bindings, body) => {
            let ghost bs = bindings@;
            let ghost env0 = bindings_of(*env);
            let mut code: Vec<Instr> = Vec::new();
            let mut cur = env_clone(env);
            let mut added = env_empty();
            let mut cursor: i32 = si;
            let mut i: usize = 0;
            assert(bs.subrange(0, bs.len() as int) =~= bs);
            assert(bindings_of(added).dom() =~= Set::empty());
            while i < bindings.len()
                invariant
                    *expr == Expr::Let(*bindings, *body),
                    bs == bindings@,
                    env0 == bindings_of(*env),
                    0 <= i <= bs.len(),
                    cursor == si - 8 * i,
                    cursor - 8 * bindings_depth(bs.subrange(i as int, bs.len() as int)) >= i32::MIN,
                    cursor - 8 * (bs.len() - i) - 8 * depth(**body) >= i32::MIN,
                    compile_bindings(bs, env0, si as int, Set::empty()) == match compile_bindings(
                        bs.subrange(i as int, bs.len() as int),
                        bindings_of(cur),
                        cursor as int,
                        bindings_of(added).dom(),
                    ) {
                        Ok(t) => Ok((code@ + t.0, t.1, t.2)),
                        Err(er) => Err(er),
                    },
                decreases bs.len() - i,
            {
                let name = &bindings[i].0;
                let val_expr = &bindings[i].1;
                let ghost rest = bs.subrange(i as int, bs.len() as int);
                proof {
                    assert(rest[0] == bs[i as int]);
                    assert(rest.subrange(1, rest.len() as int) =~= bs.subrange(
                        i + 1,
                        bs.len() as int,
                    ));
                    assert(decreases_to!(*expr => *bindings));
                    assert(decreases_to!(*bindings => bindings[i as int]));
                }
                let mut vcode = match compile_expr(val_expr, &cur, cursor) {
                    Ok(c) => c,
                    Err(er) => {
                        assert(compile_bindings(
                            rest,
                            bindings_of(cur),
                            cursor as int,
                            bindings_of(added).dom(),
                        ) is Err);
                        return Err(er);
                    },
                };
                if env_contains(&added, name) {
                    let dup = name.clone();
                    assert(compile_bindings(
                        rest,
                        bindings_of(cur),
                        cursor as int,
                        bindings_of(added).dom(),
                    ) == Err::<BoundCode, BoaError>(BoaError::DuplicateBinding(dup)));
                    return Err(BoaError::DuplicateBinding(dup));
                }
                vcode.push(Instr::IMov(Val::RegOffset(Reg::RSP, cursor), Val::Reg(Reg::RAX)));
                let ghost before = code@;
                let ghost vc = vcode@;
                code.append(&mut vcode);
                cur = env_update(&cur, name.clone(), cursor);
                let ghost dom_before = bindings_of(added).dom();
                added = env_update(&added, name.clone(), 0);
                assert(bindings_of(added).dom() =~= dom_before.insert(name@));
                cursor = cursor - SLOT;
                i += 1;
                proof {
                    let rest2 = bs.subrange(i as int, bs.len() as int);
                    match compile_bindings(
                        rest2,
                        bindings_of(cur),
                        cursor as int,
                        bindings_of(added).dom(),
                    ) {
                        Ok(t) => {
                            assert(before + (vc + t.0) =~= code@ + t.0);
                        },
                        Err(_) => {},
                    }
                }
            }
            assert(bs.subrange(i as int, bs.len() as int) =~= Seq::<(String, Expr)>::empty());
            assert(code@ + Seq::<Instr>::empty() =~= code@);
            assert(compile_bindings(
                bs.subrange(i as int, bs.len() as int),
                bindings_of(cur),
                cursor as int,
                bindings_of(added).dom(),
            ) == Ok::<BoundCode, BoaError>((Seq::empty(), bindings_of(cur), cursor as int)));
            assert(compile_bindings(bs, env0, si as int, Set::empty()) == Ok::<BoundCode, BoaError>(
                (code@, bindings_of(cur), cursor as int),
            ));
            let mut bcode = match compile_expr(body, &cur, cursor) {
                Ok(c) => c,
                Err(er) => return Err(er),
            };
            let ghost before = code@;
            let ghost bc = bcode@;
            code.append(&mut bcode);
            assert(code@ == before + bc);
            assert(code@ =~= compile_spec(*expr, bindings_of(*env), si as int)->Ok_0);
            Ok(code)
        },
    }
}

} // verus!
