use riscverifier::uclidinterface::Uclid5Interface;
use riscverifier::veriv_ast::{Assign, Expr, Literal, Type, Var};

fn var_x() -> Expr {
    let bv64_type = Type::Bv { w: 64 };
    Expr::Var(
        Var {
            name: "x".to_string(),
            typ: bv64_type.clone(),
        },
        bv64_type,
    )
}

#[test]
fn test_lit_to_string() {
    let bv_lit = Literal::Bv { val: 0, width: 1 };
    assert_eq!(Uclid5Interface::lit_to_string(&bv_lit), "0bv1");
}

#[test]
fn test_assign_to_string() {
    let bv_lit = Expr::Literal(Literal::Bv { val: 0, width: 64 }, Type::Bv { w: 64 });
    let assign = Assign {
        lhs: vec![var_x()],
        rhs: vec![bv_lit],
    };
    assert_eq!(Uclid5Interface::assign_to_string(&assign, &64), "x = 0bv64;");
}

#[test]
fn uclidinterface_test_lit_to_string() {
    let bv_lit = Literal::Bv { val: 0, width: 1 };
    assert_eq!(Uclid5Interface::lit_to_string(&bv_lit), "0bv1");
}

#[test]
fn uclidinterface_test_assign_to_string() {
    let bv_lit = Expr::bv_lit(0, 64);
    let assign = Assign {
        lhs: vec![var_x()],
        rhs: vec![bv_lit],
    };
    assert_eq!(Uclid5Interface::assign_to_string(&assign, &64), "x = 0bv64;");
}
