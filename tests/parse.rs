use expr_calc::ExprAddSub;

#[test]
fn num_parse() {
    let base = "1";
    let ans = 1;
    let (_, parse) = ExprAddSub::parse(base).unwrap();
    let res = parse.calc();
    assert_eq!(res, ans);
}

#[test]
fn add_parse() {
    let base = "1+ 2";
    let ans = 3;
    let (_, parse) = ExprAddSub::parse(base).unwrap();
    let res = parse.calc();
    assert_eq!(res, ans);
}

#[test]
fn mul_parse() {
    let base = "1* 2";
    let ans = 2;
    let (_, parse) = ExprAddSub::parse(base).unwrap();
    let res = parse.calc();
    assert_eq!(res, ans);
}

#[test]
fn add_mul_parse() {
    let base = "2* 2 + 3";
    let ans = 7;
    let (_, parse) = ExprAddSub::parse(base).unwrap();
    let res = parse.calc();
    assert_eq!(res, ans);
}

#[test]
fn bracket_add_mul_parse() {
    let base = "2* (2 + 3)";
    let ans = 10;
    let (_, parse) = ExprAddSub::parse(base).unwrap();
    let res = parse.calc();
    assert_eq!(res, ans);
}

#[test]
#[allow(non_snake_case)]
fn POWER() {
    let base = "2 ^ (1 + 3 * 2)";
    let ans = 128;
    let (_, parse) = ExprAddSub::parse(base).unwrap();
    let res = parse.calc();
    assert_eq!(res, ans);
}

#[test]
fn parse_reports_where_the_remainder_starts() {
    let (rest, tree) = ExprAddSub::parse("1+2 )x").unwrap();
    assert_eq!(rest, 4);
    assert_eq!(tree.calc(), 3);
}

#[test]
fn parse_rejects_an_operator_without_operand() {
    assert!(ExprAddSub::parse("1+").is_none());
    assert!(ExprAddSub::parse("").is_none());
}
