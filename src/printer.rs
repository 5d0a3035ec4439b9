//! Rendering instructions as assembly text.
use vstd::prelude::*;
use crate::{Instr, Reg, Val};

verus! {

/// The decimal digits of `n`, most significant first, without leading zeros.
pub open spec fn digits(n: nat) -> Seq<char>
    decreases n,
{
    if n < 10 {
        seq![(n + '0' as nat) as char]
    } else {
        digits(n / 10).push(((n % 10) + '0' as nat) as char)
    }
}

/// `n` written in decimal, with a leading `-` when it is negative.
pub open spec fn decimal(n: int) -> Seq<char> {
    if n < 0 {
        seq!['-'] + digits((-n) as nat)
    } else {
        digits(n as nat)
    }
}

/// The text of an operand; only stack-pointer-relative addressing has one.
pub open spec fn val_text(v: Val) -> Option<Seq<char>> {
    match v {
        Val::Reg(Reg::RAX) => Some("rax"@),
        Val::Reg(Reg::RSP) => Some("rsp"@),
        Val::Imm(n) => Some(decimal(n as int)),
        Val::RegOffset(Reg::RSP, off) => Some("[rsp - "@ + decimal(-off) + "]"@),
        Val::RegOffset(Reg::RAX, _) => None,
    }
}

/// The mnemonic of an instruction.
pub open spec fn mnemonic(i: Instr) -> Seq<char> {
    match i {
        Instr::IMov(_, _) => "mov"@,
        Instr::IAdd(_, _) => "add"@,
        Instr::ISub(_, _) => "sub"@,
        Instr::IMul(_, _) => "imul"@,
    }
}

/// The operands of an instruction, destination first.
pub open spec fn operands(i: Instr) -> (Val, Val) {
    match i {
        Instr::IMov(d, s) => (d, s),
        Instr::IAdd(d, s) => (d, s),
        Instr::ISub(d, s) => (d, s),
        Instr::IMul(d, s) => (d, s),
    }
}

/// The text of an instruction, `<mnemonic> <dest>, <src>`, when both
/// operands have one.
pub open spec fn instr_text(i: Instr) -> Option<Seq<char>> {
    match (val_text(operands(i).0), val_text(operands(i).1)) {
        (Some(d), Some(s)) => Some(mnemonic(i) + " "@ + d + ", "@ + s),
        _ => None,
    }
}

/// Relies on `i64`'s `ToString`: its decimal form, with `-` when negative.
#[verifier::external_body]
fn int_text(n: i64) -> (r: String)
    ensures
        r@ == decimal(n as int),
{
    n.to_string()
}

/// Relies on `format!`: the two strings one after the other.
#[verifier::external_body]
fn concat(a: &str, b: &str) -> (r: String)
    ensures
        r@ == a@ + b@,
{
    format!("{}{}", a, b)
}

/// Renders an operand; `None` for an addressing mode other than the
/// stack-pointer-relative one.
pub fn val_to_str(v: &Val) -> (r: Option<String>)
    ensures
        match r {
            Some(t) => val_text(*v) == Some(t@),
            None => val_text(*v) is None,
        },
{
    match v {
        Val::Reg(Reg::RAX) => Some("rax".to_owned()),
        Val::Reg(Reg::RSP) => Some("rsp".to_owned()),
        Val::Imm(n) => Some(int_text(*n as i64)),
        Val::RegOffset(Reg::RSP, offset) => {
            let num = int_text(-(*offset as i64));
            let head = concat("[rsp - ", num.as_str());
            Some(concat(head.as_str(), "]"))
        },
        Val::RegOffset(Reg::RAX, _) => None,
    }
}

/// Renders an instruction as `<mnemonic> <dest>, <src>`; `None` when an
/// operand cannot be rendered.
pub fn instr_to_str(i: &Instr) -> (r: Option<String>)
    ensures
        match r {
            Some(t) => instr_text(*i) == Some(t@),
            None => instr_text(*i) is None,
        },
{
    let (name, dest, src) = match i {
        Instr::IMov(d, s) => ("mov", d, s),
        Instr::IAdd(d, s) => ("add", d, s),
        Instr::ISub(d, s) => ("sub", d, s),
        Instr::IMul(d, s) => ("imul", d, s),
    };
    let d = match val_to_str(dest) {
        Some(t) => t,
        None => return None,
    };
    let s = match val_to_str(src) {
        Some(t) => t,
        None => return None,
    };
    let a = concat(name, " ");
    let b = concat(a.as_str(), d.as_str());
    let c = concat(b.as_str(), ", ");
    let text = concat(c.as_str(), s.as_str());
    Some(text)
}

} // verus!
