//! From s-expressions to expressions: operators, arity, binding lists.
use vstd::prelude::*;
use crate::env::{bindings_of, env_contains, env_empty, env_update};
use crate::{BoaError, Expr, Op1, Op2};

verus! {

/// An s-expression as the reader hands it over.
#[derive(Debug)]
pub enum SNode {
    /// A symbol.
    Sym(String),
    /// An integer literal.
    Int(i64),
    /// A numeric literal that is not an integer; the language has none.
    Fractional,
    /// A parenthesized list.
    List(Vec<SNode>),
}

/// The operator keywords, which cannot be bound.
pub open spec fn is_reserved(x: Seq<char>) -> bool {
    x == "let"@ || x == "add1"@ || x == "sub1"@ || x == "+"@ || x == "-"@ || x == "*"@
}

/// The binary operator that a symbol names, if any.
pub open spec fn op2_of(x: Seq<char>) -> Option<Op2> {
    if x == "+"@ {
        Some(Op2::Plus)
    } else if x == "-"@ {
        Some(Op2::Minus)
    } else if x == "*"@ {
        Some(Op2::Times)
    } else {
        None
    }
}

/// The first error met while reading `s` as an expression, left to right.
pub open spec fn parse_error(s: SNode) -> Option<BoaError>
    decreases s,
{
    match s {
        SNode::Sym(_) => None,
        SNode::Int(_) => None,
        SNode::Fractional => Some(BoaError::SyntaxError),
        SNode::List(v) => if v.len() == 0 {
            Some(BoaError::SyntaxError)
        } else {
            match v[0] {
                SNode::Sym(op) => if op@ == "add1"@ || op@ == "sub1"@ {
                    if v.len() != 2 {
                        Some(BoaError::SyntaxError)
                    } else {
                        parse_error(v[1])
                    }
                } else if op2_of(op@) is Some {
                    if v.len() != 3 {
                        Some(BoaError::SyntaxError)
                    } else if parse_error(v[1]) is Some {
                        parse_error(v[1])
                    } else {
                        parse_error(v[2])
                    }
                } else if op@ == "let"@ {
                    if v.len() != 3 {
                        Some(BoaError::SyntaxError)
                    } else {
                        match v[1] {
                            SNode::List(items) => match bindings_error(items@, Set::empty()) {
                                Some(er) => Some(er),
                                None => parse_error(v[2]),
                            },
                            _ => Some(BoaError::SyntaxError),
                        }
                    }
                } else {
                    Some(BoaError::SyntaxError)
                },
                _ => Some(BoaError::SyntaxError),
            }
        },
    }
}

/// The first error met while reading `items` as a binding list, where the
/// names in `seen` are bound by earlier items of the same list.
pub open spec fn bindings_error(items: Seq<SNode>, seen: Set<Seq<char>>) -> Option<BoaError>
    decreases items,
{
    if items.len() == 0 {
        None
    } else {
        match bind_error(items[0]) {
            Some(er) => Some(er),
            None => {
                let name = items[0]->List_0[0]->Sym_0;
                if seen.contains(name@) {
                    Some(BoaError::DuplicateBinding(name))
                } else {
                    bindings_error(items.subrange(1, items.len() as int), seen.insert(name@))
                }
            },
        }
    }
}

/// The first error met while reading `item` as one `(name expr)` binding.
pub open spec fn bind_error(item: SNode) -> Option<BoaError>
    decreases item,
{
    match item {
        SNode::List(p) => if p.len() != 2 {
            Some(BoaError::SyntaxError)
        } else {
            match p[0] {
                SNode::Sym(x) => if is_reserved(x@) {
                    Some(BoaError::ReservedWordMisuse(x))
                } else {
                    parse_error(p[1])
                },
                _ => Some(BoaError::SyntaxError),
            }
        },
        _ => Some(BoaError::SyntaxError),
    }
}

/// `e` is the expression that `s` denotes.
pub open spec fn parsed(s: SNode, e: Expr) -> bool
    decreases s,
{
    match s {
        SNode::Sym(x) => e == Expr::Id(x),
        SNode::Int(n) => e == Expr::Number(n as i32),
        SNode::Fractional => false,
        SNode::List(v) => v.len() > 0 && match v[0] {
            SNode::Sym(op) => if op@ == "add1"@ || op@ == "sub1"@ {
                v.len() == 2 && match e {
                    Expr::UnOp(o, sub) => o == (if op@ == "add1"@ {
                        Op1::Add1
                    } else {
                        Op1::Sub1
                    }) && parsed(v[1], *sub),
                    _ => false,
                }
            } else if op2_of(op@) is Some {
                v.len() == 3 && match e {
                    Expr::BinOp(o, l, r) => Some(o) == op2_of(op@) && parsed(v[1], *l) && parsed(
                        v[2],
                        *r,
                    ),
                    _ => false,
                }
            } else if op@ == "let"@ {
                v.len() == 3 && match v[1] {
                    SNode::List(items) => match e {
                        Expr::Let(bs, body) => bindings_parsed(items@, bs@) && parsed(v[2], *body),
                        _ => false,
                    },
                    _ => false,
                }
            } else {
                false
            },
            _ => false,
        },
    }
}

/// `bs` are the bindings that `items` denote, one for one.
pub open spec fn bindings_parsed(items: Seq<SNode>, bs: Seq<(String, Expr)>) -> bool
    decreases items,
{
    items.len() == bs.len() && (items.len() == 0 || (bind_parsed(items[0], bs[0])
        && bindings_parsed(items.subrange(1, items.len() as int), bs.subrange(1, bs.len() as int))))
}

/// `b` is the binding that `item` denotes.
pub open spec fn bind_parsed(item: SNode, b: (String, Expr)) -> bool
    decreases item,
{
    match item {
        SNode::List(p) => p.len() == 2 && match p[0] {
            SNode::Sym(x) => b.0 == x && parsed(p[1], b.1),
            _ => false,
        },
        _ => false,
    }
}

/// What `parse_expr` returns on `s`: the expression `s` denotes, or the
/// first error met.
pub open spec fn parse_outcome(s: SNode, r: Result<Expr, BoaError>) -> bool {
    match r {
        Ok(e) => parse_error(s) is None && parsed(s, e),
        Err(er) => parse_error(s) == Some(er),
    }
}

/// A binding list read item by item: one more item at its end.
pub proof fn lemma_bindings_parsed_push(
    items: Seq<SNode>,
    bs: Seq<(String, Expr)>,
    item: SNode,
    b: (String, Expr),
)
    requires
        bindings_parsed(items, bs),
        bind_parsed(item, b),
    ensures
        bindings_parsed(items.push(item), bs.push(b)),
    decreases items.len(),
{
    assert(items.push(item)[0] == if items.len() > 0 {
        items[0]
    } else {
        item
    });
    assert(bs.push(b)[0] == if bs.len() > 0 {
        bs[0]
    } else {
        b
    });
    if items.len() > 0 {
        lemma_bindings_parsed_push(
            items.subrange(1, items.len() as int),
            bs.subrange(1, bs.len() as int),
            item,
            b,
        );
        assert(items.push(item).subrange(1, items.len() + 1 as int) =~= items.subrange(
            1,
            items.len() as int,
        ).push(item));
        assert(bs.push(b).subrange(1, bs.len() + 1 as int) =~= bs.subrange(1, bs.len() as int).push(b));
        assert(bindings_parsed(
            items.push(item).subrange(1, items.push(item).len() as int),
            bs.push(b).subrange(1, bs.push(b).len() as int),
        ));
    } else {
        assert(items.push(item).subrange(1, 1) =~= Seq::<SNode>::empty());
        assert(bs.push(b).subrange(1, 1) =~= Seq::<(String, Expr)>::empty());
        assert(bs.len() == 0);
        assert(bindings_parsed(Seq::<SNode>::empty(), Seq::<(String, Expr)>::empty()));
        assert(bindings_parsed(
            items.push(item).subrange(1, items.push(item).len() as int),
            bs.push(b).subrange(1, bs.push(b).len() as int),
        ));
    }
}

/// Whether `s` spells the word `w`.
fn is_word(s: &String, w: &str) -> (r: bool)
    ensures
        r == (s@ == w@),
{
    let t = w.to_owned();
    *s == t
}

/// The binary operator that `op` names, if any.
fn binary_op(op: &String) -> (r: Option<Op2>)
    ensures
        r == op2_of(op@),
{
    if is_word(op, "+") {
        Some(Op2::Plus)
    } else if is_word(op, "-") {
        Some(Op2::Minus)
    } else if is_word(op, "*") {
        Some(Op2::Times)
    } else {
        None
    }
}

/// Reads an s-expression as an expression of the language.
pub fn parse_expr(s: &SNode) -> (r: Result<Expr, BoaError>)
    ensures
        parse_outcome(*s, r),
    decreases s,
{
    match s {
        SNode::Int(n) => Ok(Expr::Number(#[verifier::truncate] (*n as i32))),
        SNode::Sym(x) => Ok(Expr::Id(x.clone())),
        SNode::Fractional => Err(BoaError::SyntaxError),
        SNode::List(list) => {
            if list.len() == 0 {
                return Err(BoaError::SyntaxError);
            }
            let op = match &list[0] {
                SNode::Sym(op) => op,
                _ => return Err(BoaError::SyntaxError),
            };
            proof {
                assert(decreases_to!(*s => *list));
            }
            if is_word(op, "add1") || is_word(op, "sub1") {
                if list.len() != 2 {
                    return Err(BoaError::SyntaxError);
                }
                assert(decreases_to!(*list => list[1]));
                let sub = match parse_expr(&list[1]) {
                    Ok(e) => e,
                    Err(er) => return Err(er),
                };
                let o = if is_word(op, "add1") {
                    Op1::Add1
                } else {
                    Op1::Sub1
                };
                Ok(Expr::UnOp(o, Box::new(sub)))
            } else if let Some(o) = binary_op(op) {
                if list.len() != 3 {
                    return Err(BoaError::SyntaxError);
                }
                assert(decreases_to!(*list => list[1]));
                assert(decreases_to!(*list => list[2]));
                let lhs = match parse_expr(&list[1]) {
                    Ok(e) => e,
                    Err(er) => return Err(er),
                };
                let rhs = match parse_expr(&list[2]) {
                    Ok(e) => e,
                    Err(er) => return Err(er),
                };
                Ok(Expr::BinOp(o, Box::new(lhs), Box::new(rhs)))
            } else if is_word(op, "let") {
                if list.len() != 3 {
                    return Err(BoaError::SyntaxError);
                }
                let items = match &list[1] {
                    SNode::List(v) => v,
                    _ => return Err(BoaError::SyntaxError),
                };
                let mut bindings: Vec<(String, Expr)> = Vec::new();
                let mut seen = env_empty();
                let mut i: usize = 0;
                assert(items@.subrange(0, items@.len() as int) =~= items@);
                assert(items@.subrange(0, 0) =~= Seq::<SNode>::empty());
                assert(bindings_of(seen).dom() =~= Set::empty());
                while i < items.len()
                    invariant
                        *s == SNode::List(*list),
                        list@.len() == 3,
                        list@[1] == SNode::List(*items),
                        list@[0] == SNode::Sym(*op),
                        !(op@ == "add1"@ || op@ == "sub1"@),
                        op2_of(op@) is None,
                        op@ == "let"@,
                        0 <= i <= items@.len(),
                        bindings_error(items@, Set::empty()) == bindings_error(
                            items@.subrange(i as int, items@.len() as int),
                            bindings_of(seen).dom(),
                        ),
                        bindings_parsed(items@.subrange(0, i as int), bindings@),
                    decreases items@.len() - i,
                {
                    let ghost rest = items@.subrange(i as int, items@.len() as int);
                    proof {
                        assert(rest[0] == items@[i as int]);
                        assert(rest.subrange(1, rest.len() as int) =~= items@.subrange(
                            i + 1,
                            items@.len() as int,
                        ));
                        assert(items@.subrange(0, i + 1) =~= items@.subrange(0, i as int).push(
                            items@[i as int],
                        ));
                        let l = s->List_0;
                        assert(decreases_to!(*s => l));
                        assert(decreases_to!(l => l[1]));
                        assert(decreases_to!(l[1] => l[1]->List_0));
                        assert(decreases_to!(l[1]->List_0 => l[1]->List_0[i as int]));
                    }
                    let b = match parse_bind(&items[i]) {
                        Ok(b) => b,
                        Err(er) => return Err(er),
                    };
                    if env_contains(&seen, &b.0) {
                        let dup = b.0;
                        return Err(BoaError::DuplicateBinding(dup));
                    }
                    let ghost dom_before = bindings_of(seen).dom();
                    seen = env_update(&seen, b.0.clone(), 0);
                    assert(bindings_of(seen).dom() =~= dom_before.insert(b.0@));
                    proof {
                        lemma_bindings_parsed_push(
                            items@.subrange(0, i as int),
                            bindings@,
                            items@[i as int],
                            b,
                        );
                    }
                    bindings.push(b);
                    i += 1;
                }
                assert(decreases_to!(*list => list[2]));
                let body = match parse_expr(&list[2]) {
                    Ok(e) => e,
                    Err(er) => return Err(er),
                };
                Ok(Expr::Let(bindings, Box::new(body)))
            } else {
                Err(BoaError::SyntaxError)
            }
        },
    }
}

/// Reads one `(name expr)` binding of a `let`.
pub fn parse_bind(s: &SNode) -> (r: Result<(String, Expr), BoaError>)
    ensures
        match r {
            Ok(b) => bind_error(*s) is None && bind_parsed(*s, b),
            Err(er) => bind_error(*s) == Some(er),
        },
    decreases s,
{
    match s {
        SNode::List(v) => {
            if v.len() != 2 {
                return Err(BoaError::SyntaxError);
            }
            let name = match &v[0] {
                SNode::Sym(x) => x,
                _ => return Err(BoaError::SyntaxError),
            };
            if is_word(name, "let") || is_word(name, "add1") || is_word(name, "sub1") || is_word(
                name,
                "+",
            ) || is_word(name, "-") || is_word(name, "*") {
                return Err(BoaError::ReservedWordMisuse(name.clone()));
            }
            proof {
                assert(decreases_to!(*s => *v));
                assert(decreases_to!(*v => v[1]));
            }
            let e = match parse_expr(&v[1]) {
                Ok(e) => e,
                Err(er) => return Err(er),
            };
            Ok((name.clone(), e))
        },
        _ => Err(BoaError::SyntaxError),
    }
}

} // verus!
