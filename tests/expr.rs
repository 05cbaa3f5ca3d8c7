use recursion_schemes::{Expr, ExprF, Language};

fn lit(n: i64) -> Expr {
    Expr::from(n)
}

fn var(name: &str) -> Expr {
    Expr::from(name)
}

#[test]
fn test_closed() {
    let expr = Expr::from(1) + 2.into();
    assert_eq!(expr.eval(), Ok(3));
}

#[test]
fn test_any() {
    let expr = Expr::from(1) + 2.into();
    assert_eq!(expr.eval(), Ok(3));
    let expr = (Expr::from(1) + 2.into()) * "x".into();
    assert_eq!(expr.eval(), Err(Expr::from(3) * "x".into()));
}

#[test]
fn eval_sum_of_two_literals() {
    assert_eq!((lit(1) + lit(2)).eval(), Ok(3));
}

#[test]
fn eval_product_with_variable_keeps_residual() {
    let expr = (lit(1) + lit(2)) * var("x");
    assert_eq!(expr.eval(), Err(lit(3) * var("x")));
}

#[test]
fn eval_literal_alone() {
    assert_eq!(lit(-7).eval(), Ok(-7));
}

#[test]
fn eval_variable_alone() {
    assert_eq!(var("y").eval(), Err(Expr::Var("y".to_string())));
}

#[test]
fn eval_nested_constants_follow_tree_shape() {
    // (2 + 3) * (4 + (5 * 6)) = 5 * 34 = 170
    let expr = (lit(2) + lit(3)) * (lit(4) + lit(5) * lit(6));
    assert_eq!(expr.eval(), Ok(170));
    // 2 * 3 + 4 differs from 2 * (3 + 4)
    assert_eq!((lit(2) * lit(3) + lit(4)).eval(), Ok(10));
    assert_eq!((lit(2) * (lit(3) + lit(4))).eval(), Ok(14));
}

#[test]
fn eval_residual_replaces_every_constant_subtree() {
    // (x + 2 * 3) * (4 + 5) becomes (x + 6) * 9
    let expr = (var("x") + lit(2) * lit(3)) * (lit(4) + lit(5));
    assert_eq!(expr.eval(), Err((var("x") + lit(6)) * lit(9)));
    // y * (1 + z) keeps its shape: nothing there is constant but the literal
    let expr = var("y") * (lit(1) + var("z"));
    assert_eq!(expr.eval(), Err(var("y") * (lit(1) + var("z"))));
}

#[test]
fn eval_overflow_is_kept_as_residual() {
    let expr = lit(i64::MAX) + lit(1);
    assert_eq!(expr.eval(), Err(lit(i64::MAX) + lit(1)));
    let expr = lit(i64::MIN) * lit(2);
    assert_eq!(expr.eval(), Err(lit(i64::MIN) * lit(2)));
    assert_eq!((lit(i64::MAX) + lit(0)).eval(), Ok(i64::MAX));
}

#[test]
fn wrap_of_unwrap_gives_back_expression() {
    let exprs = vec![lit(4), var("a"), lit(1) + var("b"), (var("c") * lit(2)) + lit(3)];
    for e in exprs {
        let copy = e.clone();
        assert_eq!(Expr::wrap(e.unwrap()), copy);
    }
}

#[test]
fn unwrap_gives_one_layer() {
    assert_eq!((lit(1) + var("q")).unwrap(), ExprF::Add(lit(1), var("q")));
    assert_eq!((lit(2) * lit(3)).unwrap(), ExprF::Mul(lit(2), lit(3)));
    assert_eq!(lit(9).unwrap(), ExprF::Int(9));
    assert_eq!(Expr::wrap(ExprF::Var("v".to_string())), var("v"));
}

#[test]
fn fmap_maps_children_only() {
    let layer: ExprF<i64> = ExprF::Add(1, 2);
    assert_eq!(Expr::fmap(|n: i64| n * 10, layer), ExprF::Add(10, 20));
    let layer: ExprF<i64> = ExprF::Int(5);
    assert_eq!(Expr::fmap(|n: i64| n * 10, layer), ExprF::Int(5));
    let layer: ExprF<i64> = ExprF::Var("w".to_string());
    assert_eq!(Expr::fmap(|n: i64| n * 10, layer), ExprF::Var("w".to_string()));
}

fn count_nodes(layer: ExprF<u64>) -> u64 {
    match layer {
        ExprF::Int(_) | ExprF::Var(_) => 1,
        ExprF::Add(a, b) | ExprF::Mul(a, b) => a + b + 1,
    }
}

#[test]
fn fold_of_sum_is_aggregation_of_folded_operands() {
    let e1 = lit(1) * var("x");
    let e2 = var("y") + (lit(2) + lit(3));
    let whole = e1.clone() + e2.clone();
    let left = e1.fold(&count_nodes);
    let right = e2.fold(&count_nodes);
    assert_eq!(whole.fold(&count_nodes), count_nodes(ExprF::Add(left, right)));
    assert_eq!(left, 3);
    assert_eq!(right, 5);
}

#[test]
fn fold_renders_left_before_right() {
    let show = |layer: ExprF<String>| -> String {
        match layer {
            ExprF::Int(n) => n.to_string(),
            ExprF::Var(s) => s,
            ExprF::Add(a, b) => format!("({} + {})", a, b),
            ExprF::Mul(a, b) => format!("({} * {})", a, b),
        }
    };
    let expr = (lit(1) + var("x")) * lit(3);
    assert_eq!(expr.fold(&show), "((1 + x) * 3)");
}

fn split(n: u64) -> ExprF<u64> {
    if n < 2 {
        ExprF::Int(n as i64)
    } else {
        ExprF::Add(n / 2, n - n / 2)
    }
}

fn join(layer: ExprF<u64>) -> u64 {
    match layer {
        ExprF::Int(n) => n as u64,
        ExprF::Var(_) => 0,
        ExprF::Add(a, b) => a + b,
        ExprF::Mul(a, b) => a * b,
    }
}

#[test]
fn unfold_then_fold_gives_back_seed() {
    for seed in [0u64, 1, 2, 7, 64, 1000] {
        let tree = Expr::unfold(&split, seed);
        assert_eq!(tree.fold(&join), seed);
    }
}

#[test]
fn unfold_builds_expected_tree() {
    let tree = Expr::unfold(&split, 3u64);
    assert_eq!(tree, lit(1) + (lit(1) + lit(1)));
    assert_eq!(tree.eval(), Ok(3));
}

#[test]
fn clone_is_equal() {
    let e = (var("p") + lit(4)) * lit(5);
    assert_eq!(e.clone(), e);
}

#[test]
fn from_string_builds_variable() {
    assert_eq!(Expr::from("k".to_string()), Expr::Var("k".to_string()));
}

#[test]
fn unfold_with_unwrap_rebuilds_seed() {
    let exprs = vec![lit(4), var("a"), (var("c") * lit(2)) + (lit(3) + var("d"))];
    for e in exprs {
        let copy = e.clone();
        let rebuilt = Expr::unfold(&|x: Expr| x.unwrap(), e);
        assert_eq!(rebuilt, copy);
    }
}
