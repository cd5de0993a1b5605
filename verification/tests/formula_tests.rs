use bintree::formula::{lex_number, lex_variable, BinOp, ErrType, FormulaCalculator, Loc, Token, TokenKind};
use bintree::varpool::{VarData, VarPool};

fn ops_cb(o: BinOp, a: u64, b: u64) -> u64 {
    let x = f64::from_bits(a);
    let y = f64::from_bits(b);
    let r = match o {
        BinOp::Add => x + y,
        BinOp::Sub => x - y,
        BinOp::Mul => x * y,
        BinOp::Div => x / y,
        BinOp::Mod => x % y,
    };
    r.to_bits()
}

fn parse_cb(s: String) -> u64 {
    s.parse::<f64>().unwrap().to_bits()
}

fn render_cb(b: u64) -> String {
    f64::from_bits(b).to_string()
}

fn calc_value(fc: &mut FormulaCalculator, pool: &VarPool) -> f64 {
    let dat = fc.calc(pool, ops_cb, parse_cb, render_cb).unwrap();
    dat.1.parse::<f64>().unwrap()
}

#[test]
fn formula_calc_test() {
    let pool = VarPool::new();

    let mut fc = FormulaCalculator::set_formula("x = (1 + 2) * 3").unwrap();
    assert_eq!(calc_value(&mut fc, &pool), 9.0);

    let mut fc = FormulaCalculator::set_formula("-1 * 2").unwrap();
    assert_eq!(calc_value(&mut fc, &pool), -2.0);

    let mut fc = FormulaCalculator::set_formula("-1 * -2").unwrap();
    assert_eq!(calc_value(&mut fc, &pool), 2.0);

    let mut fc = FormulaCalculator::set_formula("1 + -2 * (3 + 2)").unwrap();
    assert_eq!(calc_value(&mut fc, &pool), -9.0);

    let fc = FormulaCalculator::set_formula("1  2 * 3 * 8.5");
    assert_eq!(fc.unwrap_err().err_type, ErrType::InvalidFormula);

    let mut fc = FormulaCalculator::set_formula("1 + 2 / 0").unwrap();
    assert_eq!(
        fc.calc(&pool, ops_cb, parse_cb, render_cb).unwrap_err().err_type,
        ErrType::ZeroDiv
    );

    let mut fc = FormulaCalculator::set_formula("1 + 2 * (3 + 15 / (1 + 3)) + 1 / 2").unwrap();
    assert_eq!(calc_value(&mut fc, &pool), 15.0);

    let fc = FormulaCalculator::set_formula("1 + 2 * (3 + 15 / (1 + 3)) + 1 / 2)");
    assert_eq!(fc.unwrap_err().err_type, ErrType::InvalidBracket);

    let fc = FormulaCalculator::set_formula("1 + 2 * * 3 * 8.5");
    assert_eq!(fc.unwrap_err().err_type, ErrType::InvalidOperator);
}

#[test]
fn formula_test_lexnumber() {
    let mut pos = 0;

    let token = lex_number(&"3.1415926535".as_bytes(), &mut pos).unwrap();

    assert_eq!(
        token,
        Token { value: TokenKind::Number("3.1415926535".to_string()), loc: Loc(0, 12) }
    );

    let mut pos = 0;

    let token = lex_number(&"93.141xx".as_bytes(), &mut pos).unwrap();

    assert_eq!(token, Token { value: TokenKind::Number("93.141".to_string()), loc: Loc(0, 6) });

    let mut pos = 0;
    let token = lex_number(&"3.3.2".as_bytes(), &mut pos);

    assert_eq!(token.unwrap_err().err_type, ErrType::InvalidFloatValue);
}

#[test]
fn formula_test_lexvariable() {
    let mut pos = 0;

    let token = lex_variable(&"apple".as_bytes(), &mut pos).unwrap();

    assert_eq!(token, Token { value: TokenKind::Variable("apple".to_string()), loc: Loc(0, 5) });

    let mut pos = 0;

    let token = lex_variable(&"apple2".as_bytes(), &mut pos).unwrap();

    assert_eq!(token, Token { value: TokenKind::Variable("apple2".to_string()), loc: Loc(0, 6) });

    let mut pos = 0;
    let token = lex_variable(&"aa#aa".as_bytes(), &mut pos);

    assert_eq!(token.unwrap_err().err_type, ErrType::InvalidChar('#'));
}

#[test]
fn formula_parser_calc_test() {
    let pool = VarPool::new();

    let mut fc = FormulaCalculator::set_formula("1 + 2 * 3 * 8.5").unwrap();
    assert_eq!(calc_value(&mut fc, &pool), 52.0);

    let mut fc = FormulaCalculator::set_formula("-1 * 2").unwrap();
    assert_eq!(calc_value(&mut fc, &pool), -2.0);

    let mut fc = FormulaCalculator::set_formula("-1 * -2").unwrap();
    assert_eq!(calc_value(&mut fc, &pool), 2.0);

    let mut fc = FormulaCalculator::set_formula("1 + -2 * (3 + 2)").unwrap();
    assert_eq!(calc_value(&mut fc, &pool), -9.0);

    let fc = FormulaCalculator::set_formula("1  2 * 3 * 8.5");
    assert_eq!(fc.unwrap_err().err_type, ErrType::InvalidFormula);

    let mut fc = FormulaCalculator::set_formula("1 + 2 / 0").unwrap();
    assert_eq!(
        fc.calc(&pool, ops_cb, parse_cb, render_cb).unwrap_err().err_type,
        ErrType::ZeroDiv
    );

    let mut fc = FormulaCalculator::set_formula("1 + 2 * (3 + 15 / (1 + 3)) + 1 / 2").unwrap();
    assert_eq!(calc_value(&mut fc, &pool), 15.0);

    let fc = FormulaCalculator::set_formula("1 + 2 * (3 + 15 / (1 + 3)) + 1 / 2)");
    assert_eq!(fc.unwrap_err().err_type, ErrType::InvalidBracket);

    let fc = FormulaCalculator::set_formula("1 + 2 * * 3 * 8.5");
    assert_eq!(fc.unwrap_err().err_type, ErrType::InvalidOperator);
}

#[test]
fn formula_parser_test_lexnumber() {
    let mut pos = 0;

    let token = lex_number(&"3.1415926535".as_bytes(), &mut pos).unwrap();

    assert_eq!(
        token,
        Token { value: TokenKind::Number("3.1415926535".to_string()), loc: Loc(0, 12) }
    );

    let mut pos = 0;

    let token = lex_number(&"93.141xx".as_bytes(), &mut pos).unwrap();

    assert_eq!(token, Token { value: TokenKind::Number("93.141".to_string()), loc: Loc(0, 6) });

    let mut pos = 0;
    let token = lex_number(&"3.3.2".as_bytes(), &mut pos);

    assert_eq!(token.unwrap_err().err_type, ErrType::InvalidFloatValue);
}

#[test]
fn formula_parser_test_lexvariable() {
    let mut pos = 0;

    let token = lex_variable(&"apple".as_bytes(), &mut pos).unwrap();

    assert_eq!(token, Token { value: TokenKind::Variable("apple".to_string()), loc: Loc(0, 5) });

    let mut pos = 0;

    let token = lex_variable(&"apple2".as_bytes(), &mut pos).unwrap();

    assert_eq!(token, Token { value: TokenKind::Variable("apple2".to_string()), loc: Loc(0, 6) });

    let mut pos = 0;
    let token = lex_variable(&"aa#aa".as_bytes(), &mut pos);

    assert_eq!(token.unwrap_err().err_type, ErrType::InvalidChar('#'));
}

#[test]
fn insert() {
    let mut p = VarPool::new();

    p.insert(VarData("x".to_string(), "1".to_string()));

    assert_eq!(p.get(&"ans".to_string()), Some("0".to_string()));
    assert_eq!(p.get(&"x".to_string()), Some("1".to_string()));
    assert_eq!(p.get(&"y".to_string()), None);
}
