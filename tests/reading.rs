use boa::{parse_bind, parse_expr, BoaError, Expr, Op1, Op2, SNode};

fn sym(x: &str) -> SNode {
    SNode::Sym(x.to_string())
}

fn list(items: Vec<SNode>) -> SNode {
    SNode::List(items)
}

#[test]
fn reads_number_and_identifier() {
    assert!(matches!(parse_expr(&SNode::Int(42)), Ok(Expr::Number(42))));
    assert!(matches!(parse_expr(&sym("x")), Ok(Expr::Id(ref n)) if n == "x"));
}

#[test]
fn reads_unary_operators() {
    let e = parse_expr(&list(vec![sym("add1"), SNode::Int(3)])).unwrap();
    assert!(matches!(e, Expr::UnOp(Op1::Add1, ref b) if matches!(**b, Expr::Number(3))));
    let e = parse_expr(&list(vec![sym("sub1"), SNode::Int(3)])).unwrap();
    assert!(matches!(e, Expr::UnOp(Op1::Sub1, _)));
}

#[test]
fn reads_binary_operators() {
    for (word, op) in [("+", Op2::Plus), ("-", Op2::Minus), ("*", Op2::Times)] {
        let e = parse_expr(&list(vec![sym(word), SNode::Int(1), SNode::Int(2)])).unwrap();
        match e {
            Expr::BinOp(o, l, r) => {
                assert_eq!(o, op);
                assert!(matches!(*l, Expr::Number(1)));
                assert!(matches!(*r, Expr::Number(2)));
            }
            other => panic!("unexpected {:?}", other),
        }
    }
}

#[test]
fn reads_let_with_bindings_in_order() {
    let src = list(vec![
        sym("let"),
        list(vec![list(vec![sym("x"), SNode::Int(5)]), list(vec![sym("y"), sym("x")])]),
        sym("y"),
    ]);
    match parse_expr(&src).unwrap() {
        Expr::Let(bs, body) => {
            assert_eq!(bs.len(), 2);
            assert_eq!(bs[0].0, "x");
            assert_eq!(bs[1].0, "y");
            assert!(matches!(*body, Expr::Id(ref n) if n == "y"));
        }
        other => panic!("unexpected {:?}", other),
    }
}

#[test]
fn rejects_wrong_arity() {
    assert!(matches!(parse_expr(&list(vec![sym("add1")])), Err(BoaError::SyntaxError)));
    assert!(matches!(
        parse_expr(&list(vec![sym("+"), SNode::Int(1)])),
        Err(BoaError::SyntaxError)
    ));
    assert!(matches!(
        parse_expr(&list(vec![sym("let"), list(vec![])])),
        Err(BoaError::SyntaxError)
    ));
}

#[test]
fn rejects_empty_list_and_unknown_operator() {
    assert!(matches!(parse_expr(&list(vec![])), Err(BoaError::SyntaxError)));
    assert!(matches!(
        parse_expr(&list(vec![sym("frob"), SNode::Int(1)])),
        Err(BoaError::SyntaxError)
    ));
    assert!(matches!(
        parse_expr(&list(vec![SNode::Int(1), SNode::Int(2)])),
        Err(BoaError::SyntaxError)
    ));
    assert!(matches!(parse_expr(&SNode::Fractional), Err(BoaError::SyntaxError)));
}

#[test]
fn rejects_duplicate_names_in_one_let() {
    let src = list(vec![
        sym("let"),
        list(vec![list(vec![sym("x"), SNode::Int(1)]), list(vec![sym("x"), SNode::Int(2)])]),
        sym("x"),
    ]);
    assert!(matches!(parse_expr(&src), Err(BoaError::DuplicateBinding(ref n)) if n == "x"));
}

#[test]
fn rejects_reserved_binding_name() {
    let bind = list(vec![sym("add1"), SNode::Int(1)]);
    assert!(matches!(parse_bind(&bind), Err(BoaError::ReservedWordMisuse(ref n)) if n == "add1"));
    let src = list(vec![sym("let"), list(vec![bind]), SNode::Int(0)]);
    assert!(matches!(parse_expr(&src), Err(BoaError::ReservedWordMisuse(_))));
}

#[test]
fn rejects_malformed_binding() {
    assert!(matches!(parse_bind(&sym("x")), Err(BoaError::SyntaxError)));
    assert!(matches!(
        parse_bind(&list(vec![SNode::Int(1), SNode::Int(2)])),
        Err(BoaError::SyntaxError)
    ));
    assert!(matches!(
        parse_bind(&list(vec![sym("x"), SNode::Int(1), SNode::Int(2)])),
        Err(BoaError::SyntaxError)
    ));
}

#[test]
fn reads_binding() {
    let (name, e) = parse_bind(&list(vec![sym("v"), SNode::Int(9)])).unwrap();
    assert_eq!(name, "v");
    assert!(matches!(e, Expr::Number(9)));
}
