use boa::compiler::stack_slots;
use boa::env::Env;
use boa::{compile_expr, compile_to_instrs, eval, eval_expr, instr_to_str, val_to_str};
use boa::{BoaError, Expr, Instr, Op1, Op2, Reg, Val};
use std::collections::HashMap;

fn num(n: i32) -> Expr {
    Expr::Number(n)
}

fn id(x: &str) -> Expr {
    Expr::Id(x.to_string())
}

fn un(op: Op1, e: Expr) -> Expr {
    Expr::UnOp(op, Box::new(e))
}

fn bin(op: Op2, l: Expr, r: Expr) -> Expr {
    Expr::BinOp(op, Box::new(l), Box::new(r))
}

fn let_(bs: Vec<(&str, Expr)>, body: Expr) -> Expr {
    Expr::Let(bs.into_iter().map(|(n, e)| (n.to_string(), e)).collect(), Box::new(body))
}

fn read(v: &Val, rax: i32, mem: &HashMap<i32, i32>) -> i32 {
    match v {
        Val::Reg(Reg::RAX) => rax,
        Val::Imm(n) => *n,
        Val::RegOffset(Reg::RSP, o) => *mem.get(o).expect("read of an unwritten slot"),
        other => panic!("unsupported operand {:?}", other),
    }
}

/// Runs instructions on a small simulated machine and returns the accumulator.
fn execute(code: &[Instr]) -> i32 {
    let mut rax: i32 = 0;
    let mut mem: HashMap<i32, i32> = HashMap::new();
    for i in code {
        let (d, x) = match i {
            Instr::IMov(d, s) => (d, read(s, rax, &mem)),
            Instr::IAdd(d, s) => (d, read(d, rax, &mem).wrapping_add(read(s, rax, &mem))),
            Instr::ISub(d, s) => (d, read(d, rax, &mem).wrapping_sub(read(s, rax, &mem))),
            Instr::IMul(d, s) => (d, read(d, rax, &mem).wrapping_mul(read(s, rax, &mem))),
        };
        match d {
            Val::Reg(Reg::RAX) => rax = x,
            Val::RegOffset(Reg::RSP, o) => {
                mem.insert(*o, x);
            }
            other => panic!("unsupported destination {:?}", other),
        }
    }
    rax
}

fn run_compiled(e: &Expr) -> i32 {
    execute(&compile_to_instrs(e).expect("compiles"))
}

/// The lowest stack offset that the code touches.
fn lowest_slot(code: &[Instr]) -> i32 {
    let mut low = 0;
    for i in code {
        let (d, s) = match i {
            Instr::IMov(d, s) | Instr::IAdd(d, s) | Instr::ISub(d, s) | Instr::IMul(d, s) => (d, s),
        };
        for v in [d, s] {
            if let Val::RegOffset(_, o) = v {
                low = low.min(*o);
            }
        }
    }
    low
}

#[test]
fn number_evaluates_to_itself() {
    assert_eq!(eval(&num(37)).unwrap(), 37);
    assert_eq!(run_compiled(&num(37)), 37);
}

#[test]
fn number_compiles_to_one_move() {
    let code = compile_to_instrs(&num(5)).unwrap();
    assert_eq!(code, vec![Instr::IMov(Val::Reg(Reg::RAX), Val::Imm(5))]);
}

#[test]
fn increment_wraps_around() {
    let e = un(Op1::Add1, num(2147483647));
    assert_eq!(eval(&e).unwrap(), -2147483648);
    assert_eq!(run_compiled(&e), -2147483648);
}

#[test]
fn decrement_wraps_around() {
    let e = un(Op1::Sub1, num(-2147483648));
    assert_eq!(eval(&e).unwrap(), 2147483647);
    assert_eq!(run_compiled(&e), 2147483647);
}

#[test]
fn multiplication_wraps_around() {
    let e = bin(Op2::Times, num(65536), num(65536));
    assert_eq!(eval(&e).unwrap(), 0);
    assert_eq!(run_compiled(&e), 0);
}

#[test]
fn subtraction_keeps_operand_order() {
    let e = bin(Op2::Minus, num(10), num(3));
    assert_eq!(eval(&e).unwrap(), 7);
    assert_eq!(run_compiled(&e), 7);
}

#[test]
fn nested_subtraction_matches_evaluator() {
    let e = bin(
        Op2::Minus,
        bin(Op2::Minus, num(100), num(30)),
        bin(Op2::Minus, num(5), bin(Op2::Times, num(2), num(7))),
    );
    assert_eq!(eval(&e).unwrap(), 79);
    assert_eq!(run_compiled(&e), 79);
}

#[test]
fn let_scoping_is_not_destructive() {
    let inner = let_(vec![("x", num(5))], let_(vec![("x", num(6))], id("x")));
    assert_eq!(eval(&inner).unwrap(), 6);
    assert_eq!(run_compiled(&inner), 6);
    let sibling = let_(
        vec![("x", num(5))],
        bin(Op2::Plus, let_(vec![("x", num(6))], id("x")), id("x")),
    );
    assert_eq!(eval(&sibling).unwrap(), 11);
    assert_eq!(run_compiled(&sibling), 11);
}

#[test]
fn later_bindings_see_earlier_ones() {
    let e = let_(
        vec![("x", num(5)), ("y", bin(Op2::Plus, id("x"), num(1)))],
        id("y"),
    );
    assert_eq!(eval(&e).unwrap(), 6);
    assert_eq!(run_compiled(&e), 6);
}

#[test]
fn duplicate_binding_rejected_by_both() {
    let e = let_(vec![("x", num(1)), ("x", num(2))], id("x"));
    assert!(matches!(eval(&e), Err(BoaError::DuplicateBinding(ref n)) if n == "x"));
    assert!(matches!(compile_to_instrs(&e), Err(BoaError::DuplicateBinding(ref n)) if n == "x"));
}

#[test]
fn unbound_identifier_rejected_by_both() {
    let e = id("z");
    assert!(matches!(eval(&e), Err(BoaError::UnboundIdentifier(ref n)) if n == "z"));
    assert!(matches!(compile_to_instrs(&e), Err(BoaError::UnboundIdentifier(ref n)) if n == "z"));
}

#[test]
fn binding_is_not_visible_in_its_own_initializer() {
    let e = let_(vec![("x", id("x"))], id("x"));
    assert!(matches!(eval(&e), Err(BoaError::UnboundIdentifier(_))));
    assert!(matches!(compile_to_instrs(&e), Err(BoaError::UnboundIdentifier(_))));
}

#[test]
fn sibling_operands_reuse_slots() {
    let e = bin(
        Op2::Plus,
        bin(Op2::Plus, num(1), num(2)),
        bin(Op2::Plus, num(3), num(4)),
    );
    let code = compile_to_instrs(&e).unwrap();
    assert_eq!(execute(&code), 10);
    // two live values at most: offsets 0 and -8
    assert_eq!(lowest_slot(&code), -8);
}

#[test]
fn deeper_nesting_uses_deeper_slots() {
    let e = bin(Op2::Plus, num(1), bin(Op2::Plus, num(2), bin(Op2::Plus, num(3), num(4))));
    let code = compile_to_instrs(&e).unwrap();
    assert_eq!(execute(&code), 10);
    assert_eq!(lowest_slot(&code), -16);
}

#[test]
fn addition_code_shape() {
    let code = compile_to_instrs(&bin(Op2::Plus, num(1), num(2))).unwrap();
    let lines: Vec<String> = code.iter().map(|i| instr_to_str(i).unwrap()).collect();
    assert_eq!(lines, vec!["mov rax, 1", "mov [rsp - 0], rax", "mov rax, 2", "add rax, [rsp - 0]"]);
}

#[test]
fn subtraction_code_shape() {
    let code = compile_to_instrs(&bin(Op2::Minus, num(1), num(2))).unwrap();
    let lines: Vec<String> = code.iter().map(|i| instr_to_str(i).unwrap()).collect();
    assert_eq!(
        lines,
        vec![
            "mov rax, 1",
            "mov [rsp - 0], rax",
            "mov rax, 2",
            "mov [rsp - 8], rax",
            "mov rax, [rsp - 0]",
            "sub rax, [rsp - 8]",
        ]
    );
}

#[test]
fn let_stores_bindings_in_descending_slots() {
    let e = let_(vec![("a", num(3)), ("b", num(4))], bin(Op2::Times, id("a"), id("b")));
    let code = compile_to_instrs(&e).unwrap();
    assert_eq!(code[1], Instr::IMov(Val::RegOffset(Reg::RSP, 0), Val::Reg(Reg::RAX)));
    assert_eq!(code[3], Instr::IMov(Val::RegOffset(Reg::RSP, -8), Val::Reg(Reg::RAX)));
    assert_eq!(execute(&code), 12);
    assert_eq!(eval(&e).unwrap(), 12);
}

#[test]
fn evaluation_under_an_environment() {
    let env: Env = im::HashMap::new().update("q".to_string(), 41);
    assert_eq!(eval_expr(&un(Op1::Add1, id("q")), &env).unwrap(), 42);
}

#[test]
fn evaluation_sees_outer_binding_after_inner_let() {
    let env: Env = im::HashMap::new().update("x".to_string(), 5);
    let e = bin(Op2::Times, let_(vec![("x", num(6))], id("x")), id("x"));
    assert_eq!(eval_expr(&e, &env).unwrap(), 30);
}

#[test]
fn compilation_under_an_environment() {
    let env: Env = im::HashMap::new().update("q".to_string(), -16);
    let code = compile_expr(&id("q"), &env, -24).unwrap();
    assert_eq!(code, vec![Instr::IMov(Val::Reg(Reg::RAX), Val::RegOffset(Reg::RSP, -16))]);
}

#[test]
fn operand_rendering() {
    assert_eq!(val_to_str(&Val::Reg(Reg::RAX)).unwrap(), "rax");
    assert_eq!(val_to_str(&Val::Reg(Reg::RSP)).unwrap(), "rsp");
    assert_eq!(val_to_str(&Val::Imm(-12)).unwrap(), "-12");
    assert_eq!(val_to_str(&Val::RegOffset(Reg::RSP, -16)).unwrap(), "[rsp - 16]");
    assert_eq!(val_to_str(&Val::RegOffset(Reg::RSP, -2147483648)).unwrap(), "[rsp - 2147483648]");
    assert!(val_to_str(&Val::RegOffset(Reg::RAX, -8)).is_none());
}

#[test]
fn instruction_rendering() {
    let i = Instr::IMul(Val::Reg(Reg::RAX), Val::RegOffset(Reg::RSP, -8));
    assert_eq!(instr_to_str(&i).unwrap(), "imul rax, [rsp - 8]");
    let j = Instr::ISub(Val::Reg(Reg::RAX), Val::Imm(1));
    assert_eq!(instr_to_str(&j).unwrap(), "sub rax, 1");
    let k = Instr::IMov(Val::RegOffset(Reg::RAX, 0), Val::Imm(1));
    assert!(instr_to_str(&k).is_none());
}

#[test]
fn stack_slot_count_follows_nesting() {
    let siblings = bin(Op2::Plus, bin(Op2::Plus, num(1), num(2)), bin(Op2::Plus, num(3), num(4)));
    assert_eq!(stack_slots(&siblings), 2);
    let chain = bin(Op2::Plus, num(1), bin(Op2::Plus, num(2), bin(Op2::Plus, num(3), num(4))));
    assert_eq!(stack_slots(&chain), 3);
    assert_eq!(stack_slots(&bin(Op2::Minus, num(1), num(2))), 2);
    assert_eq!(stack_slots(&let_(vec![("a", num(1)), ("b", num(2))], id("a"))), 2);
    assert_eq!(stack_slots(&num(4)), 0);
}
