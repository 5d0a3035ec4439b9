//! The meaning of instructions on the target machine, and the proof that
//! compiled code computes what the evaluator computes.
use vstd::prelude::*;
use crate::compiler::{bindings_depth, compile_bindings, compile_spec, depth, slot};
use crate::interpreter::{eval_bindings, eval_spec};
use crate::{apply1, apply2, Expr, Instr, Op1, Op2, Reg, Val};

verus! {

/// A machine state: the accumulator, and the stack frame as a map from byte
/// offset (relative to the stack pointer) to the 32-bit value stored there.
pub type MachineState = (i32, Map<int, i32>);

/// The value an operand reads. Only the accumulator, immediates and
/// stack-pointer-relative slots are modelled; any other operand reads 0.
pub open spec fn read(v: Val, st: MachineState) -> i32 {
    match v {
        Val::Reg(Reg::RAX) => st.0,
        Val::Imm(n) => n,
        Val::RegOffset(Reg::RSP, off) => st.1[off as int],
        _ => 0,
    }
}

/// The state after storing `x` into operand `d`; a store into an operand
/// that is not modelled leaves the state as it was.
pub open spec fn write(d: Val, x: i32, st: MachineState) -> MachineState {
    match d {
        Val::Reg(Reg::RAX) => (x, st.1),
        Val::RegOffset(Reg::RSP, off) => (st.0, st.1.insert(off as int, x)),
        _ => st,
    }
}

/// The state after one instruction; arithmetic wraps at 32 bits.
pub open spec fn step(i: Instr, st: MachineState) -> MachineState {
    match i {
        Instr::IMov(d, s) => write(d, read(s, st), st),
        Instr::IAdd(d, s) => write(d, read(d, st).wrapping_add(read(s, st)), st),
        Instr::ISub(d, s) => write(d, read(d, st).wrapping_sub(read(s, st)), st),
        Instr::IMul(d, s) => write(d, read(d, st).wrapping_mul(read(s, st)), st),
    }
}

/// The state after running `code` in order from `st`.
pub open spec fn run(code: Seq<Instr>, st: MachineState) -> MachineState
    decreases code.len(),
{
    if code.len() == 0 {
        st
    } else {
        step(code.last(), run(code.drop_last(), st))
    }
}

/// Every slot above offset `si` that `before` holds is unchanged in `after`.
pub open spec fn keeps_above(before: Map<int, i32>, after: Map<int, i32>, si: int) -> bool {
    forall|o: int|
        o > si && #[trigger] before.contains_key(o) ==> after.contains_key(o) && after[o]
            == before[o]
}

/// The slot environment `cenv` matches the value environment `venv` in
/// `mem`: the same names are bound, each to a slot above the next free
/// offset `si` that holds the name's value.
pub open spec fn agrees(
    venv: Map<Seq<char>, i32>,
    cenv: Map<Seq<char>, i32>,
    si: int,
    mem: Map<int, i32>,
) -> bool {
    &&& venv.dom() == cenv.dom()
    &&& forall|x: Seq<char>|
        #[trigger] cenv.contains_key(x) ==> cenv[x] > si && mem.contains_key(cenv[x] as int)
            && mem[cenv[x] as int] == venv[x]
}

/// The code for `e` computes `e`'s value and keeps the slots above `si`,
/// or compilation and evaluation fail alike.
pub open spec fn runs_as_evaluated(
    e: Expr,
    venv: Map<Seq<char>, i32>,
    cenv: Map<Seq<char>, i32>,
    si: int,
    st: MachineState,
) -> bool {
    match compile_spec(e, cenv, si) {
            Ok(code) => eval_spec(e, venv) == Ok::<i32, crate::BoaError>(run(code, st).0)
                && keeps_above(st.1, run(code, st).1, si),
            Err(er) => eval_spec(e, venv) == Err::<i32, crate::BoaError>(er),
        }
}

/// Running two pieces of code one after the other.
pub proof fn lemma_run_append(a: Seq<Instr>, b: Seq<Instr>, st: MachineState)
    ensures
        run(a + b, st) == run(b, run(a, st)),
    decreases b.len(),
{
    if b.len() == 0 {
        assert(a + b =~= a);
    } else {
        assert((a + b).drop_last() =~= a + b.drop_last());
        assert((a + b).last() == b.last());
        lemma_run_append(a, b.drop_last(), st);
    }
}

/// Running code with one more instruction at its end.
pub proof fn lemma_run_push(a: Seq<Instr>, i: Instr, st: MachineState)
    ensures
        run(a.push(i), st) == step(i, run(a, st)),
{
    assert(a.push(i).drop_last() =~= a);
}

/// Code compiled for `e` under an environment that agrees with the frame
/// leaves `e`'s value in the accumulator and keeps every slot above the
/// next free offset; where compilation fails, evaluation fails with the
/// same error.
pub proof fn lemma_compile_expr_correct(
    e: Expr,
    venv: Map<Seq<char>, i32>,
    cenv: Map<Seq<char>, i32>,
    si: int,
    st: MachineState,
)
    requires
        agrees(venv, cenv, si, st.1),
        si <= i32::MAX,
        si - 8 * depth(e) >= i32::MIN,
    ensures
        runs_as_evaluated(e, venv, cenv, si, st),
    decreases e,
{
    match e {
        Expr::Number(n) => {
            let i = Instr::IMov(Val::Reg(Reg::RAX), Val::Imm(n));
            lemma_run_push(Seq::empty(), i, st);
            assert(Seq::<Instr>::empty().push(i) =~= seq![i]);
            assert(run(Seq::<Instr>::empty(), st) == st);
            assert(run(seq![i], st) == (n, st.1));
        },
        Expr::Id(x) => {
            if cenv.contains_key(x@) {
                let i = Instr::IMov(Val::Reg(Reg::RAX), Val::RegOffset(Reg::RSP, cenv[x@]));
                lemma_run_push(Seq::empty(), i, st);
                assert(Seq::<Instr>::empty().push(i) =~= seq![i]);
            }
        },
        Expr::UnOp(op, s) => {
            lemma_compile_expr_correct(*s, venv, cenv, si, st);
            if let Ok(c) = compile_spec(*s, cenv, si) {
                let i = match op {
                    Op1::Add1 => Instr::IAdd(Val::Reg(Reg::RAX), Val::Imm(1)),
                    Op1::Sub1 => Instr::ISub(Val::Reg(Reg::RAX), Val::Imm(1)),
                };
                lemma_run_push(c, i, st);
            }
        },
        Expr::BinOp(op, l, r) => {
            lemma_compile_expr_correct(*l, venv, cenv, si, st);
            if let Ok(cl) = compile_spec(*l, cenv, si) {
                let spill = Instr::IMov(slot(si), Val::Reg(Reg::RAX));
                let st1 = run(cl, st);
                let st2 = step(spill, st1);
                lemma_run_push(cl, spill, st);
                assert(st2.1 == st1.1.insert(si, st1.0));
                assert(agrees(venv, cenv, si - 8, st2.1));
                lemma_compile_expr_correct(*r, venv, cenv, si - 8, st2);
                if let Ok(cr) = compile_spec(*r, cenv, si - 8) {
                    let st3 = run(cr, st2);
                    assert(st2.1.contains_key(si));
                    let tail = crate::compiler::combine_spec(op, si);
                    lemma_run_append(cl.push(spill), cr, st);
                    lemma_run_append(cl.push(spill) + cr, tail, st);
                    assert(st3.1[si] == st1.0);
                    let a = st1.0;
                    let b = st3.0;
                    let code = cl.push(spill) + cr + tail;
                    let fin = run(tail, st3);
                    assert(run(code, st) == fin);
                    assert(run(Seq::<Instr>::empty(), st3) == st3);
                    match op {
                        Op2::Plus => {
                            lemma_run_push(Seq::empty(), tail[0], st3);
                            assert(Seq::<Instr>::empty().push(tail[0]) =~= tail);
                            assert(fin == (b.wrapping_add(a), st3.1));
                            assert(fin.0 == a.wrapping_add(b));
                        },
                        Op2::Times => {
                            lemma_run_push(Seq::empty(), tail[0], st3);
                            assert(Seq::<Instr>::empty().push(tail[0]) =~= tail);
                            assert(fin == (b.wrapping_mul(a), st3.1));
                            assert(b * a == a * b) by (nonlinear_arith);
                            assert(fin.0 == a.wrapping_mul(b));
                        },
                        Op2::Minus => {
                            lemma_run_push(Seq::empty(), tail[0], st3);
                            lemma_run_push(seq![tail[0]], tail[1], st3);
                            lemma_run_push(seq![tail[0], tail[1]], tail[2], st3);
                            assert(Seq::<Instr>::empty().push(tail[0]) =~= seq![tail[0]]);
                            assert(seq![tail[0]].push(tail[1]) =~= seq![tail[0], tail[1]]);
                            assert(seq![tail[0], tail[1]].push(tail[2]) =~= tail);
                            let m4 = st3.1.insert(si - 8, b);
                            assert(m4[si] == a);
                            assert(m4[si - 8] == b);
                            assert(fin == (a.wrapping_sub(b), m4));
                        },
                    }
                    assert(fin.0 == apply2(op, a, b));
                    assert(keeps_above(st.1, fin.1, si)) by {
                        assert forall|o: int| o > si && #[trigger] st.1.contains_key(o) implies
                            fin.1.contains_key(o) && fin.1[o] == st.1[o] by {
                            assert(st1.1.contains_key(o));
                            assert(st2.1.contains_key(o));
                            assert(st3.1.contains_key(o));
                        }
                    }
                }
            }
        },
        Expr::Let(bs, body) => {
            lemma_compile_bindings_correct(bs@, venv, cenv, si, Set::empty(), st);
            if let Ok(t) = compile_bindings(bs@, cenv, si, Set::empty()) {
                let inner = eval_bindings(bs@, venv, Set::empty())->Ok_0;
                let st1 = run(t.0, st);
                lemma_compile_expr_correct(*body, inner, t.1, t.2, st1);
                if let Ok(cb) = compile_spec(*body, t.1, t.2) {
                    lemma_run_append(t.0, cb, st);
                }
            }
        },
    }
}

/// Code compiled for the bindings `bs` stores each value in its own slot
/// from `si` down, and ends with an environment that agrees with the frame
/// below; where compilation fails, evaluation fails with the same error.
pub proof fn lemma_compile_bindings_correct(
    bs: Seq<(String, Expr)>,
    venv: Map<Seq<char>, i32>,
    cenv: Map<Seq<char>, i32>,
    si: int,
    added: Set<Seq<char>>,
    st: MachineState,
)
    requires
        agrees(venv, cenv, si, st.1),
        si <= i32::MAX,
        si - 8 * bindings_depth(bs) >= i32::MIN,
    ensures
        match compile_bindings(bs, cenv, si, added) {
            Ok(t) => eval_bindings(bs, venv, added) is Ok
                && agrees(eval_bindings(bs, venv, added)->Ok_0, t.1, t.2, run(t.0, st).1)
                && keeps_above(st.1, run(t.0, st).1, si)
                && t.2 == si - 8 * bs.len(),
            Err(er) => eval_bindings(bs, venv, added) == Err::<Map<Seq<char>, i32>, crate::BoaError>(er),
        },
    decreases bs,
{
    if bs.len() > 0 {
        let v = bs[0].1;
        let name = bs[0].0@;
        let rest = bs.subrange(1, bs.len() as int);
        lemma_compile_expr_correct(v, venv, cenv, si, st);
        if let Ok(c) = compile_spec(v, cenv, si) {
            if !added.contains(name) {
                let spill = Instr::IMov(slot(si), Val::Reg(Reg::RAX));
                let st1 = run(c, st);
                let st2 = step(spill, st1);
                lemma_run_push(c, spill, st);
                let venv2 = venv.insert(name, st1.0);
                let cenv2 = cenv.insert(name, si as i32);
                assert(venv2.dom() =~= cenv2.dom());
                assert(agrees(venv2, cenv2, si - 8, st2.1));
                lemma_compile_bindings_correct(rest, venv2, cenv2, si - 8, added.insert(name), st2);
                if let Ok(t) = compile_bindings(rest, cenv2, si - 8, added.insert(name)) {
                    lemma_run_append(c.push(spill), t.0, st);
                    let st3 = run(t.0, st2);
                    assert(run(c.push(spill) + t.0, st) == st3);
                    assert(compile_bindings(bs, cenv, si, added) == Ok::<
                        crate::compiler::BoundCode,
                        crate::BoaError,
                    >((c.push(spill) + t.0, t.1, t.2)));
                    assert(eval_bindings(bs, venv, added) == eval_bindings(rest, venv2, added.insert(name)));
                    assert(keeps_above(st.1, st3.1, si)) by {
                        assert forall|o: int| o > si && #[trigger] st.1.contains_key(o) implies
                            st3.1.contains_key(o) && st3.1[o] == st.1[o] by {
                            assert(st1.1.contains_key(o));
                            assert(st2.1.contains_key(o));
                        }
                    }
                }
            }
        }
    }
}

/// Between `before` and `after`, no slot outside the offsets `(lo, hi]` was
/// written or created.
pub open spec fn writes_within(before: Map<int, i32>, after: Map<int, i32>, lo: int, hi: int) -> bool {
    forall|o: int|
        #![trigger after.contains_key(o)]
        #![trigger before.contains_key(o)]
        (o <= lo || o > hi) ==> (after.contains_key(o) == before.contains_key(o) && (
        before.contains_key(o) ==> after[o] == before[o]))
}

/// Two runs one after the other write within the union of their ranges.
pub proof fn lemma_writes_within_trans(
    a: Map<int, i32>,
    b: Map<int, i32>,
    c: Map<int, i32>,
    lo1: int,
    lo2: int,
    lo: int,
    hi: int,
)
    requires
        writes_within(a, b, lo1, hi),
        writes_within(b, c, lo2, hi),
        lo <= lo1,
        lo <= lo2,
    ensures
        writes_within(a, c, lo, hi),
{
    assert forall|o: int| (o <= lo || o > hi) implies (c.contains_key(o) == a.contains_key(o) && (
    a.contains_key(o) ==> c[o] == a[o])) by {
        assert(b.contains_key(o) == a.contains_key(o));
    }
}

/// The code for `e` writes no slot but the `depth(e)` slots from the next
/// free offset `si` down: sibling sub-expressions reuse the same slots, so
/// the frame grows with nesting, not with the number of operations.
pub proof fn lemma_frame_bound(e: Expr, cenv: Map<Seq<char>, i32>, si: int, st: MachineState)
    requires
        si <= i32::MAX,
        si - 8 * depth(e) >= i32::MIN,
    ensures
        compile_spec(e, cenv, si) is Ok ==> writes_within(
            st.1,
            run(compile_spec(e, cenv, si)->Ok_0, st).1,
            si - 8 * depth(e),
            si,
        ),
    decreases e,
{
    match e {
        Expr::Number(n) => {
            let i = Instr::IMov(Val::Reg(Reg::RAX), Val::Imm(n));
            lemma_run_push(Seq::empty(), i, st);
            assert(Seq::<Instr>::empty().push(i) =~= seq![i]);
        },
        Expr::Id(x) => {
            if cenv.contains_key(x@) {
                let i = Instr::IMov(Val::Reg(Reg::RAX), Val::RegOffset(Reg::RSP, cenv[x@]));
                lemma_run_push(Seq::empty(), i, st);
                assert(Seq::<Instr>::empty().push(i) =~= seq![i]);
            }
        },
        Expr::UnOp(op, s) => {
            lemma_frame_bound(*s, cenv, si, st);
            if let Ok(c) = compile_spec(*s, cenv, si) {
                let i = match op {
                    Op1::Add1 => Instr::IAdd(Val::Reg(Reg::RAX), Val::Imm(1)),
                    Op1::Sub1 => Instr::ISub(Val::Reg(Reg::RAX), Val::Imm(1)),
                };
                lemma_run_push(c, i, st);
            }
        },
        Expr::BinOp(op, l, r) => {
            let lo = si - 8 * depth(e);
            lemma_frame_bound(*l, cenv, si, st);
            if let Ok(cl) = compile_spec(*l, cenv, si) {
                let spill = Instr::IMov(slot(si), Val::Reg(Reg::RAX));
                let st1 = run(cl, st);
                let st2 = step(spill, st1);
                lemma_run_push(cl, spill, st);
                lemma_frame_bound(*r, cenv, si - 8, st2);
                if let Ok(cr) = compile_spec(*r, cenv, si - 8) {
                    let st3 = run(cr, st2);
                    let tail = crate::compiler::combine_spec(op, si);
                    lemma_run_append(cl.push(spill), cr, st);
                    lemma_run_append(cl.push(spill) + cr, tail, st);
                    assert(writes_within(st1.1, st2.1, lo, si));
                    assert(writes_within(st2.1, st3.1, lo, si)) by {
                        assert forall|o: int| (o <= lo || o > si) implies (st3.1.contains_key(o)
                            == st2.1.contains_key(o) && (st2.1.contains_key(o) ==> st3.1[o]
                            == st2.1[o])) by {
                            assert(o <= si - 8 - 8 * depth(*r) || o > si - 8 || o > si);
                        }
                    }
                    lemma_writes_within_trans(st.1, st1.1, st2.1, si - 8 * depth(*l), lo, lo, si);
                    lemma_writes_within_trans(st.1, st2.1, st3.1, lo, lo, lo, si);
                    let fin = run(tail, st3);
                    assert(run(Seq::<Instr>::empty(), st3) == st3);
                    match op {
                        Op2::Minus => {
                            lemma_run_push(Seq::empty(), tail[0], st3);
                            lemma_run_push(seq![tail[0]], tail[1], st3);
                            lemma_run_push(seq![tail[0], tail[1]], tail[2], st3);
                            assert(Seq::<Instr>::empty().push(tail[0]) =~= seq![tail[0]]);
                            assert(seq![tail[0]].push(tail[1]) =~= seq![tail[0], tail[1]]);
                            assert(seq![tail[0], tail[1]].push(tail[2]) =~= tail);
                            assert(fin.1 == st3.1.insert(si - 8, st3.0));
                        },
                        _ => {
                            lemma_run_push(Seq::empty(), tail[0], st3);
                            assert(Seq::<Instr>::empty().push(tail[0]) =~= tail);
                            assert(fin.1 == st3.1);
                        },
                    }
                    assert(writes_within(st3.1, fin.1, lo, si));
                    lemma_writes_within_trans(st.1, st3.1, fin.1, lo, lo, lo, si);
                }
            }
        },
        Expr::Let(bs, body) => {
            let lo = si - 8 * depth(e);
            lemma_bindings_frame_bound(bs@, cenv, si, Set::empty(), st);
            if let Ok(t) = compile_bindings(bs@, cenv, si, Set::empty()) {
                let st1 = run(t.0, st);
                lemma_bindings_len(bs@, cenv, si, Set::empty());
                lemma_frame_bound(*body, t.1, t.2, st1);
                if let Ok(cb) = compile_spec(*body, t.1, t.2) {
                    lemma_run_append(t.0, cb, st);
                    let st2 = run(cb, st1);
                    assert(writes_within(st1.1, st2.1, lo, si)) by {
                        assert forall|o: int| (o <= lo || o > si) implies (st2.1.contains_key(o)
                            == st1.1.contains_key(o) && (st1.1.contains_key(o) ==> st2.1[o]
                            == st1.1[o])) by {
                            assert(o <= t.2 - 8 * depth(*body) || o > t.2 || o > si);
                        }
                    }
                    lemma_writes_within_trans(st.1, st1.1, st2.1, si - 8 * bindings_depth(bs@), lo, lo, si);
                }
            }
        },
    }
}

/// Compiled bindings move the next free offset down by one slot each.
pub proof fn lemma_bindings_len(
    bs: Seq<(String, Expr)>,
    cenv: Map<Seq<char>, i32>,
    si: int,
    added: Set<Seq<char>>,
)
    ensures
        compile_bindings(bs, cenv, si, added) is Ok ==> compile_bindings(bs, cenv, si, added)->Ok_0.2
            == si - 8 * bs.len(),
    decreases bs.len(),
{
    if bs.len() > 0 {
        lemma_bindings_len(
            bs.subrange(1, bs.len() as int),
            cenv.insert(bs[0].0@, si as i32),
            si - 8,
            added.insert(bs[0].0@),
        );
    }
}

/// The code for bindings writes no slot but the `bindings_depth(bs)` slots
/// from `si` down.
pub proof fn lemma_bindings_frame_bound(
    bs: Seq<(String, Expr)>,
    cenv: Map<Seq<char>, i32>,
    si: int,
    added: Set<Seq<char>>,
    st: MachineState,
)
    requires
        si <= i32::MAX,
        si - 8 * bindings_depth(bs) >= i32::MIN,
    ensures
        compile_bindings(bs, cenv, si, added) is Ok ==> writes_within(
            st.1,
            run(compile_bindings(bs, cenv, si, added)->Ok_0.0, st).1,
            si - 8 * bindings_depth(bs),
            si,
        ),
    decreases bs,
{
    if bs.len() > 0 {
        let lo = si - 8 * bindings_depth(bs);
        let v = bs[0].1;
        let name = bs[0].0@;
        let rest = bs.subrange(1, bs.len() as int);
        lemma_frame_bound(v, cenv, si, st);
        if let Ok(c) = compile_spec(v, cenv, si) {
            if !added.contains(name) {
                let spill = Instr::IMov(slot(si), Val::Reg(Reg::RAX));
                let st1 = run(c, st);
                let st2 = step(spill, st1);
                lemma_run_push(c, spill, st);
                let cenv2 = cenv.insert(name, si as i32);
                lemma_bindings_frame_bound(rest, cenv2, si - 8, added.insert(name), st2);
                if let Ok(t) = compile_bindings(rest, cenv2, si - 8, added.insert(name)) {
                    lemma_run_append(c.push(spill), t.0, st);
                    let st3 = run(t.0, st2);
                    assert(writes_within(st1.1, st2.1, lo, si));
                    assert(writes_within(st2.1, st3.1, lo, si)) by {
                        assert forall|o: int| (o <= lo || o > si) implies (st3.1.contains_key(o)
                            == st2.1.contains_key(o) && (st2.1.contains_key(o) ==> st3.1[o]
                            == st2.1[o])) by {
                            assert(o <= si - 8 - 8 * bindings_depth(rest) || o > si - 8 || o > si);
                        }
                    }
                    lemma_writes_within_trans(st.1, st1.1, st2.1, si - 8 * depth(v), lo, lo, si);
                    lemma_writes_within_trans(st.1, st2.1, st3.1, lo, lo, lo, si);
                }
            }
        }
    }
}

/// Compiled code computes what the evaluator computes: for a closed
/// expression, the code leaves the expression's value in the accumulator
/// whatever the machine held before, and where compilation fails,
/// evaluation fails with the same error.
pub proof fn lemma_equivalence(e: Expr, st: MachineState)
    requires
        8 * depth(e) <= 0x8000_0000,
    ensures
        match compile_spec(e, Map::empty(), 0) {
            Ok(code) => eval_spec(e, Map::empty()) == Ok::<i32, crate::BoaError>(run(code, st).0),
            Err(er) => eval_spec(e, Map::empty()) == Err::<i32, crate::BoaError>(er),
        },
{
    assert(agrees(Map::empty(), Map::empty(), 0, st.1));
    lemma_compile_expr_correct(e, Map::empty(), Map::empty(), 0, st);
}

} // verus!
