use bintree::formula::{BinOp, ErrType, Formula, FormulaCalculator, Loc, Token, TokenKind};
use bintree::tree::{Node, NodeError};
use bintree::varpool::{VarData, VarPool};

fn ops_cb(o: BinOp, a: u64, b: u64) -> u64 {
    let x = f64::from_bits(a);
    let y = f64::from_bits(b);
    let r = match o {
        BinOp::Add => x + y,
        BinOp::Sub => x - y,
        BinOp::Mul => x * y,
        BinOp::Div => x / y,
        BinOp::Mod => x % y,
    };
    r.to_bits()
}

fn parse_cb(s: String) -> u64 {
    s.parse::<f64>().unwrap().to_bits()
}

fn render_cb(b: u64) -> String {
    f64::from_bits(b).to_string()
}

fn eval(formula: &str, pool: &VarPool) -> Result<(String, f64), ErrType> {
    let mut fc = FormulaCalculator::set_formula(formula).map_err(|e| e.err_type)?;
    let dat = fc.calc(pool, ops_cb, parse_cb, render_cb).map_err(|e| e.err_type)?;
    Ok((dat.0, dat.1.parse::<f64>().unwrap()))
}

#[test]
fn precedence_over_left_to_right() {
    let pool = VarPool::new();
    assert_eq!(eval("1 + 2 * 3", &pool).unwrap(), ("ans".to_string(), 7.0));
}

#[test]
fn subtraction_is_left_associative() {
    let pool = VarPool::new();
    assert_eq!(eval("1 - 2 - 3", &pool).unwrap(), ("ans".to_string(), -4.0));
}

#[test]
fn assignment_feeds_the_pool() {
    let mut pool = VarPool::new();

    // before the assignment the variable is unknown
    assert_eq!(eval("y", &pool).unwrap_err(), ErrType::UndefinedVariable);

    let (name, value) = eval("x = (1 + 2) * 3", &pool).unwrap();
    assert_eq!(name, "x".to_string());
    assert_eq!(value, 9.0);
    pool.insert(VarData(name, value.to_string()));

    assert_eq!(eval("x", &pool).unwrap(), ("ans".to_string(), 9.0));
    assert_eq!(eval("x + 1", &pool).unwrap(), ("ans".to_string(), 10.0));
}

#[test]
fn division_by_zero_is_refused() {
    let pool = VarPool::new();
    assert_eq!(eval("1 + 2 / 0", &pool).unwrap_err(), ErrType::ZeroDiv);
    assert_eq!(eval("1 + 4 % 0 + 1", &pool).unwrap_err(), ErrType::ZeroDiv);
}

#[test]
fn nested_parentheses_compute() {
    let pool = VarPool::new();
    assert_eq!(
        eval("1 + 2 * (3 + 15 / (1 + 3)) + 1 / 2", &pool).unwrap(),
        ("ans".to_string(), 15.0)
    );
}

#[test]
fn extra_closing_bracket_is_refused() {
    let pool = VarPool::new();
    assert_eq!(
        eval("1 + 2 * (3 + 15 / (1 + 3)) + 1 / 2)", &pool).unwrap_err(),
        ErrType::InvalidBracket
    );
    assert_eq!(eval("(1 + 2", &pool).unwrap_err(), ErrType::InvalidBracket);
}

#[test]
fn doubled_operator_is_refused() {
    let pool = VarPool::new();
    assert_eq!(eval("1 + 2 * * 3 * 8.5", &pool).unwrap_err(), ErrType::InvalidOperator);
}

#[test]
fn adjacent_values_are_refused() {
    let pool = VarPool::new();
    assert_eq!(eval("1  2 * 3 * 8.5", &pool).unwrap_err(), ErrType::InvalidFormula);
}

#[test]
fn second_decimal_point_is_refused() {
    let pool = VarPool::new();
    assert_eq!(eval("3.3.2", &pool).unwrap_err(), ErrType::InvalidFloatValue);
}

#[test]
fn unknown_byte_is_refused() {
    let pool = VarPool::new();
    assert_eq!(eval("1 + #", &pool).unwrap_err(), ErrType::InvalidChar('#'));
    assert_eq!(eval("aa#aa", &pool).unwrap_err(), ErrType::InvalidChar('#'));
}

#[test]
fn modulo_inside_an_expression() {
    let pool = VarPool::new();
    assert_eq!(eval("10 % 4 + 1", &pool).unwrap(), ("ans".to_string(), 3.0));
}

#[test]
fn modulo_at_the_root_is_no_formula() {
    let pool = VarPool::new();
    assert_eq!(eval("5 % 3", &pool).unwrap_err(), ErrType::InvalidFormula);
}

#[test]
fn calc_before_parse_is_no_tree() {
    let pool = VarPool::new();
    let mut fc = FormulaCalculator::new();
    assert_eq!(
        fc.calc(&pool, ops_cb, parse_cb, render_cb).unwrap_err().err_type,
        ErrType::NoTree
    );
}

#[test]
fn substitution_without_a_tree_is_empty_formula() {
    let pool = VarPool::new();
    let r = FormulaCalculator::replace_variable(None, &pool);
    assert_eq!(r.unwrap_err().err_type, ErrType::EmptyFormula);
}

#[test]
fn operator_node_without_children_is_an_invalid_tree() {
    let node = Node::new(Token { value: TokenKind::Plus, loc: Loc(0, 1) });
    let r = FormulaCalculator::calculate(Some(&node), ops_cb, parse_cb);
    assert_eq!(r.unwrap_err().err_type, ErrType::InvalidTree);
}

#[test]
fn occupied_slot_refuses_attachment() {
    let mut root = Node::new(1);
    root.add_node_left(Node::new(2)).unwrap();
    let r = root.add_node_left(Node::new(3));
    assert_eq!(r.unwrap_err(), NodeError::SlotOccupied);
}

#[test]
fn error_spans_point_at_the_source() {
    // the doubled `*` is reported at the second star's own span
    let e = FormulaCalculator::set_formula("1 + 2 * * 3 * 8.5").unwrap_err();
    assert_eq!(e.err_type, ErrType::InvalidOperator);
    assert_eq!(e.loc, Loc(8, 9));
    assert_eq!(e.formula, "1 + 2 * * 3 * 8.5".to_string());

    // the extra closing parenthesis is reported at its own offset
    let e = FormulaCalculator::set_formula("(1 + 2))").unwrap_err();
    assert_eq!(e.err_type, ErrType::InvalidBracket);
    assert_eq!(e.loc, Loc(7, 8));

    // a bad byte inside a variable name is located at that byte alone
    let e = FormulaCalculator::set_formula("aa#aa").unwrap_err();
    assert_eq!(e.err_type, ErrType::InvalidChar('#'));
    assert_eq!(e.loc, Loc(2, 3));
}

fn same_tree(a: &Node<Token>, b: &Node<Token>) -> bool {
    if a.data != b.data {
        return false;
    }
    let left_same = match (a.left(), b.left()) {
        (Some(x), Some(y)) => same_tree(x, y),
        (None, None) => true,
        _ => false,
    };
    let right_same = match (a.right(), b.right()) {
        (Some(x), Some(y)) => same_tree(x, y),
        (None, None) => true,
        _ => false,
    };
    left_same && right_same
}

#[test]
fn parsing_twice_gives_identical_trees() {
    let src = "1 + 2 * (3 + 15 / (1 + 3)) + 1 / 2";
    let fc1 = FormulaCalculator::set_formula(src).unwrap();
    let fc2 = FormulaCalculator::set_formula(src).unwrap();
    let t1 = fc1.tree.as_ref().unwrap();
    let t2 = fc2.tree.as_ref().unwrap();
    assert!(same_tree(t1, t2));
}

#[test]
fn formula_trait_parses_strings() {
    let pool = VarPool::new();
    let mut fc = "2 * 3".to_formula().unwrap();
    let dat = fc.calc(&pool, ops_cb, parse_cb, render_cb).unwrap();
    assert_eq!(dat.1.parse::<f64>().unwrap(), 6.0);

    let owned: String = "4 + 4".to_string();
    let mut fc = owned.to_formula().unwrap();
    let dat = fc.calc(&pool, ops_cb, parse_cb, render_cb).unwrap();
    assert_eq!(dat.1.parse::<f64>().unwrap(), 8.0);
}

#[test]
fn token_text_round_trips() {
    assert_eq!(TokenKind::Number("8.5".to_string()).to_string(), "8.5".to_string());
    assert_eq!(TokenKind::Variable("apple".to_string()).to_string(), "apple".to_string());
    assert_eq!(TokenKind::Mul.to_string(), "*".to_string());
    assert_eq!(TokenKind::Equal.to_string(), "=".to_string());
}

#[test]
fn lexer_spans_are_exact_byte_offsets() {
    let toks = bintree::formula::lexer("x = 8.5").unwrap();
    assert_eq!(toks.len(), 3);
    assert_eq!(toks[0], Token { value: TokenKind::Variable("x".to_string()), loc: Loc(0, 1) });
    assert_eq!(toks[1], Token { value: TokenKind::Equal, loc: Loc(2, 3) });
    assert_eq!(toks[2], Token { value: TokenKind::Number("8.5".to_string()), loc: Loc(4, 7) });
}

#[test]
fn unary_minus_folds_into_the_literal() {
    let fc = FormulaCalculator::set_formula("-8.5").unwrap();
    let t = fc.tree.as_ref().unwrap();
    assert_eq!(t.data, Token { value: TokenKind::Number("-8.5".to_string()), loc: Loc(1, 4) });
    assert!(t.left().is_none());
    assert!(t.right().is_none());
}

#[test]
fn division_checks_the_divisor_first() {
    let pool = VarPool::new();
    // the divisor is computed and tested before the left operand, so the
    // zero wins over the unbound variable on the left ...
    assert_eq!(eval("y / 0", &pool).unwrap_err(), ErrType::ZeroDiv);
    // ... while an unbound divisor surfaces before the left operand is read
    assert_eq!(eval("0 / y", &pool).unwrap_err(), ErrType::UndefinedVariable);
}

#[test]
fn adjacent_groups_multiply() {
    let pool = VarPool::new();
    // only a matching outermost pair is stripped, so two groups side by
    // side keep their own parentheses
    assert_eq!(eval("(1 + 2) * (3 + 4)", &pool).unwrap(), ("ans".to_string(), 21.0));
    // one pair is stripped per parser call, so a doubled pair hides its
    // operator from the scan
    assert_eq!(eval("((1 + 2)) * 2", &pool).unwrap_err(), ErrType::InvalidFormula);
}

#[test]
fn empty_input_is_no_formula() {
    let pool = VarPool::new();
    assert_eq!(eval("", &pool).unwrap_err(), ErrType::InvalidFormula);
    assert_eq!(eval("()", &pool).unwrap_err(), ErrType::InvalidFormula);
}

#[test]
fn assignment_works_without_spaces() {
    let pool = VarPool::new();
    // `=` is an operator character, so it ends the variable name and the
    // assignment binds as usual
    assert_eq!(eval("x=1", &pool).unwrap(), ("x".to_string(), 1.0));
}

#[test]
fn unmatched_parentheses_are_located_exactly() {
    // surplus of `(`: the fault points at the first one left unmatched,
    // not merely the first one in the text
    let e = FormulaCalculator::set_formula(")((").unwrap_err();
    assert_eq!(e.err_type, ErrType::InvalidBracket);
    assert_eq!(e.loc, Loc(1, 2));

    let e = FormulaCalculator::set_formula("()(").unwrap_err();
    assert_eq!(e.err_type, ErrType::InvalidBracket);
    assert_eq!(e.loc, Loc(2, 3));

    // surplus of `)`: the fault points at the last one left unmatched,
    // not at a later one that found its own partner
    let e = FormulaCalculator::set_formula("())()").unwrap_err();
    assert_eq!(e.err_type, ErrType::InvalidBracket);
    assert_eq!(e.loc, Loc(2, 3));
}

#[test]
fn whitespace_is_skipped() {
    let pool = VarPool::new();
    assert_eq!(eval("1\t+\n2", &pool).unwrap(), ("ans".to_string(), 3.0));
    assert_eq!(eval("   7   ", &pool).unwrap(), ("ans".to_string(), 7.0));
}
