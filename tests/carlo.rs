use carlotk::render::push_header;
use carlotk::{
    latex_identifier, BinaryOperation, Charstream, CliArgs, Environment, Error, Expression, Flag,
    Parser, Ratio, Subcommand, Token, TokenClass, Tokenstream, POWER_ONE,
};

fn run(input: &str) -> (String, Vec<Error>) {
    let mut warnings = Vec::new();
    let exprs = Parser::new(false).parse(input, &mut warnings);
    let mut env = Environment::new();
    let out = env.evaluate(&exprs, &mut warnings);
    (out, warnings)
}

fn run_latex(input: &str) -> String {
    let mut warnings = Vec::new();
    let exprs = Parser::new(false).parse(input, &mut warnings);
    let mut env = Environment::new();
    env.latex_evaluate(&exprs, &mut warnings)
}

fn classes(input: &str) -> Vec<(TokenClass, String)> {
    let mut cs = Charstream::from(input);
    let mut out = Vec::new();
    while let Some(t) = cs.get() {
        out.push((t.class, t.value));
    }
    out
}

fn parse_one(input: &str) -> Expression {
    let mut warnings = Vec::new();
    let mut exprs = Parser::new(false).parse(input, &mut warnings);
    assert_eq!(exprs.len(), 1);
    exprs.remove(0)
}

#[test]
fn test_tokenization() {
    let tokens = Tokenstream::from("hello_world = 3", false);
    println!("{:#?}", tokens);
}

#[test]
fn mod_test_tokenization() {
    let tokens = Tokenstream::from("hello_world = 3", false);
    println!("{:#?}", tokens);
}

#[test]
fn tokenizer_classes_of_an_assignment() {
    let got = classes("let x = 9.81 m s_2");
    let want = vec![
        (TokenClass::Let, "let"),
        (TokenClass::Identifier, "x"),
        (TokenClass::Assignment, "="),
        (TokenClass::Number, "9.81"),
        (TokenClass::Identifier, "m"),
        (TokenClass::Identifier, "s_2"),
    ];
    assert_eq!(got.len(), want.len());
    for (g, w) in got.iter().zip(want.iter()) {
        assert_eq!(g.0, w.0);
        assert_eq!(g.1, w.1);
    }
}

#[test]
fn tokenizer_covers_every_character() {
    // unknown characters become one-character Unknown tokens
    let got = classes("a $ b");
    assert_eq!(got.len(), 3);
    assert_eq!(got[1].0, TokenClass::Unknown);
    assert_eq!(got[1].1, "$");
    // nine is a digit of identifiers too
    let got = classes("x9");
    assert_eq!(got[0].1, "x9");
}

#[test]
fn tokenizer_scientific_notation_and_minus() {
    let got = classes("1e-3");
    assert_eq!(got.len(), 1);
    assert_eq!(got[0].0, TokenClass::Number);
    let got = classes("3-2");
    assert_eq!(got.len(), 3);
    assert_eq!(got[1].0, TokenClass::Minus);
}

#[test]
fn tokenizer_lines_comments_headers_paragraphs() {
    let got = classes("# note here\n@@ Sub title\n~ Some prose\n\nx");
    assert_eq!(got[0].0, TokenClass::Comment);
    assert_eq!(got[0].1, "# note here");
    assert_eq!(got[1].0, TokenClass::Header);
    assert_eq!(got[1].1, "@@ Sub title");
    assert_eq!(got[2].0, TokenClass::Paragraph);
    assert_eq!(got[2].1, " Some prose");
    assert_eq!(got[3].0, TokenClass::Newline);
    assert_eq!(got[4].1, "x");
}

#[test]
fn tokenizer_empty_input() {
    assert!(classes("").is_empty());
    assert!(classes("   \t ").is_empty());
}

#[test]
fn token_methods() {
    let t = Token::new(TokenClass::Plus, "+".to_string());
    assert!(t.check(TokenClass::Plus));
    assert!(!t.check(TokenClass::Minus));
    assert_eq!(t.precedence(), 3);
    assert_eq!(Token::new(TokenClass::Times, "*".to_string()).precedence(), 4);
    assert_eq!(Token::new(TokenClass::Let, "let".to_string()).precedence(), 1);
    assert_eq!(Token::new(TokenClass::OpenParen, "(".to_string()).precedence(), 2);
    assert_eq!(Token::new(TokenClass::Number, "1".to_string()).precedence(), 0);
    assert_eq!(TokenClass::from('@'), TokenClass::Header);
    assert_eq!(TokenClass::from('&'), TokenClass::Symbolic);
}

#[test]
fn tokenstream_navigation() {
    let mut ts = Tokenstream::from("a + b", false);
    assert_eq!(ts.precedence(), 0);
    assert_eq!(ts.peek().unwrap().value, "a");
    assert_eq!(ts.next().unwrap().value, "a");
    assert_eq!(ts.precedence(), 3);
    assert!(ts.get(TokenClass::Plus).is_some());
    assert!(ts.get(TokenClass::Plus).is_none());
    let t = ts.next_unwrap();
    assert_eq!(t.class, TokenClass::Unknown);
    assert!(ts.next().is_none());
    let w = ts.take_warnings();
    assert_eq!(w.len(), 2);
    assert!(matches!(w[0], Error::Expected(TokenClass::Plus, TokenClass::Identifier)));
    assert!(matches!(w[1], Error::UnexpectedEOF(_)));
}

#[test]
fn charstream_peek_and_next() {
    let mut cs = Charstream::from("ab");
    assert_eq!(cs.peek(), Some('a'));
    assert_eq!(cs.next(), Some('a'));
    assert_eq!(cs.next(), Some('b'));
    assert_eq!(cs.next(), None);
    assert_eq!(cs.peek(), None);
}

#[test]
fn scenario_acceleration() {
    let (out, warnings) = run("let x = 9.81 m s_2\nx");
    assert_eq!(out, "x = 9.8100 m s^-2\n9.8100 m s^-2\n");
    assert!(warnings.is_empty());
    let mut warnings = Vec::new();
    let exprs = Parser::new(false).parse("let x = 9.81 m s_2", &mut warnings);
    let mut env = Environment::new();
    env.evaluate(&exprs, &mut warnings);
    let bound = env.lookup(&"x".to_string()).unwrap();
    match bound {
        Expression::Float { value, dims } => {
            assert_eq!(value, Ratio { num: 981, den: 100 });
            assert_eq!(dims, [0, POWER_ONE, -2 * POWER_ONE, 0, 0, 0]);
        },
        _ => panic!("x is not a number"),
    }
}

#[test]
fn scenario_sum_of_masses() {
    let (out, _) = run("let a = 3 kg\nlet b = 2 kg\na + b");
    assert_eq!(out.lines().last().unwrap(), "5.0000 kg");
}

#[test]
fn scenario_unmatched_units() {
    let (out, warnings) = run("let a = 3 kg\nlet b = 2 m\na + b");
    assert_eq!(out.lines().last().unwrap(), "5.0000");
    let unmatched: Vec<(String, String, String)> = warnings
        .iter()
        .filter_map(|w| match w {
            Error::UnmatchedUnits(u, l, r) => Some((u.clone(), l.clone(), r.clone())),
            _ => None,
        })
        .collect();
    assert_eq!(
        unmatched,
        vec![
            ("kg".to_string(), "1".to_string(), "0".to_string()),
            ("m".to_string(), "0".to_string(), "1".to_string()),
        ]
    );
}

#[test]
fn scenario_pressure_times_volume() {
    let (out, _) = run("let p = 2 Pa\nlet v = 3 L\np * v");
    assert_eq!(out.lines().last().unwrap(), "0.0060 J");
}

#[test]
fn scenario_square_root() {
    let (out, _) = run("let E = sqrt(4 m2)\nE");
    assert_eq!(out, "E = 2.0000 m\n2.0000 m\n");
}

#[test]
fn scenario_symbolic_substitution() {
    // `&a` shows the binding of `a` as a rebinding of `a`
    let (out, _) = run("let a = 3\nlet b = &a + 1\nb\n!b");
    let lines: Vec<&str> = out.lines().collect();
    assert_eq!(lines[0], "a = 3.0000");
    assert_eq!(lines[1], "b = (a = 3.0000 + 1.0000)");
    assert_eq!(lines[2], "(a = 3.0000 + 1.0000)");
    assert_eq!(lines[3], "b = (a = 3.0000 + 1.0000)");
}

#[test]
fn scenario_header_then_speed() {
    let (out, _) = run("@ Motion\nlet v = 3 m s_1");
    assert_eq!(out, "\nMOTION\n===\n\nv = 3.0000 m s^-1\n");
    let tex = run_latex("@ Motion\nlet v = 3 m s_1");
    assert_eq!(
        tex,
        "\n\n\\section{Motion}\n\n\n$$\nv := 3.0000 \\; \\mathrm{m} \\; \\mathrm{s^{-1}}\n$$\n"
    );
}

#[test]
fn prefixed_and_literal_units_agree() {
    let (a, _) = run("3 kg");
    let (b, _) = run("3000 g");
    assert_eq!(a, "3.0000 kg\n");
    assert_eq!(b, "3.0000 kg\n");
    match (parse_one("3 kg"), parse_one("3000 g")) {
        (Expression::Float { value: v1, dims: d1 }, Expression::Float { value: v2, dims: d2 }) => {
            assert_eq!(v1, v2);
            assert_eq!(v1, Ratio { num: 3, den: 1 });
            assert_eq!(d1, d2);
            assert_eq!(d1, [POWER_ONE, 0, 0, 0, 0, 0]);
        },
        _ => panic!("not numbers"),
    }
}

#[test]
fn prefixes_scale_values() {
    assert_eq!(run("5 cm").0, "0.0500 m\n");
    assert_eq!(run("2 kPa").0, "2000.0000 Pa\n");
    assert_eq!(run("1 km2").0, "1000000.0000 m^2\n");
}

#[test]
fn derived_units_are_preferred() {
    assert_eq!(run("2 kg m s_2").0, "2.0000 N\n");
    assert_eq!(run("4 s_1").0, "4.0000 Hz\n");
}

#[test]
fn rebinding_an_unbound_name_is_null() {
    let mut warnings = Vec::new();
    let exprs = Parser::new(false).parse("y = 3", &mut warnings);
    let mut env = Environment::new();
    let out = env.evaluate(&exprs, &mut warnings);
    assert_eq!(out, "");
    assert!(env.lookup(&"y".to_string()).is_none());
    assert!(warnings.iter().any(|w| matches!(w, Error::UndeclaredVariable(n) if n == "y")));
}

#[test]
fn rebinding_a_bound_name() {
    let (out, _) = run("let y = 1\ny = 2\ny");
    assert_eq!(out, "y = 1.0000\ny = 2.0000\n2.0000\n");
}

#[test]
fn undeclared_identifier_warns() {
    let (out, warnings) = run("z");
    assert_eq!(out, "");
    assert!(matches!(warnings[0], Error::UndeclaredVariable(ref n) if n == "z"));
}

#[test]
fn cyclic_definition_is_reported() {
    let (out, warnings) = run("let x = x + 1\nx");
    assert_eq!(out, "x = (x + 1.0000)\n((Null + 1.0000) + 1.0000)\n");
    assert!(warnings.iter().any(|w| matches!(w, Error::CyclicDefinition(_))));
}

#[test]
fn division_by_zero_keeps_the_operation() {
    let (out, warnings) = run("1 / 0");
    assert_eq!(out, "(1.0000 / 0.0000)\n");
    assert!(matches!(warnings[0], Error::DivisionByZero(_)));
}

#[test]
fn negative_root_keeps_the_call() {
    let (out, warnings) = run("sqrt(-4)");
    assert_eq!(out, "sqrt(-4.0000)\n");
    assert!(matches!(warnings[0], Error::NegativeRoot(_)));
}

#[test]
fn square_root_is_cut_to_six_places() {
    assert_eq!(run("sqrt(2)").0, "1.4142\n");
}

#[test]
fn overflow_is_reported() {
    let (out, warnings) = run("1e30 * 1e30");
    let big = format!("1{}.0000", "0".repeat(30));
    assert_eq!(out, format!("({} * {})\n", big, big));
    assert!(matches!(warnings[0], Error::ArithmeticOverflow(_)));
}

#[test]
fn bad_number_is_reported() {
    let (out, warnings) = run("1.2.3");
    assert_eq!(out, "0.0000\n");
    assert!(matches!(warnings[0], Error::CouldNotParseNumber(ref s) if s == "1.2.3"));
}

#[test]
fn bad_exponent_is_reported() {
    assert_eq!(run("3 m1001").0, "3.0000 m^1001\n");
    let (_, warnings) = run("3 m99999999999999999999");
    assert!(warnings.iter().any(|w| matches!(w, Error::CouldNotParseNumber(_))));
    let (_, warnings) = run("3 km99");
    assert!(warnings.iter().any(|w| matches!(w, Error::CouldNotParseNumber(_))));
}

#[test]
fn unparseable_token_is_reported() {
    let (_, warnings) = run(")");
    assert!(matches!(warnings[0], Error::CouldNotParse(ref s) if s == ")"));
}

#[test]
fn missing_close_paren_is_reported() {
    let (out, warnings) = run("(1 + 2");
    assert_eq!(out, "");
    assert!(warnings.iter().any(|w| matches!(w, Error::UnexpectedEOF(_))));
    assert!(warnings.iter().any(|w| matches!(w, Error::Expected(TokenClass::CloseParen, _))));
}

#[test]
fn precedence_and_parentheses() {
    assert_eq!(run("1 + 2 * 3").0, "7.0000\n");
    assert_eq!(run("(1 + 2) * 3").0, "9.0000\n");
    assert_eq!(run("10 / 4").0, "2.5000\n");
    assert_eq!(run("-2 + 5").0, "3.0000\n");
    assert_eq!(run("7 - 2 - 1").0, "4.0000\n");
}

#[test]
fn rounding_to_four_places() {
    assert_eq!(run("1 / 3").0, "0.3333\n");
    assert_eq!(run("2 / 3").0, "0.6667\n");
    assert_eq!(run("0 - 1 / 3").0, "-0.3333\n");
}

#[test]
fn symbolic_names_stay_in_operations() {
    let (out, _) = run("let q = a * 2");
    assert_eq!(out, "q = (a * 2.0000)\n");
}

#[test]
fn unknown_function_stays_a_call() {
    let (out, _) = run("f(1, 2)");
    assert_eq!(out, "f(1.0000, 2.0000)\n");
}

#[test]
fn document_markers_render() {
    let (out, _) = run("@@ Part\n@@@ Step\n~ A note");
    assert_eq!(out, "\nPART\n\n\n* Step\n\n\nA note\n\n");
    let tex = run_latex("@@ Part\n@@@ Step\n~ A note");
    let marker = |t: &str| format!("\n{}\n\n", t);
    let want = marker("\n\\subsection{Part}\n")
        + &marker("\n\\subsubsection{Step}\n")
        + &marker("\nA note\\par\n");
    assert_eq!(tex, want);
}

#[test]
fn latex_renders_operations_and_roots() {
    let tex = run_latex("let r = sqrt(a) + b * c");
    assert_eq!(tex, "$$\nr := \\sqrt{a} + (b c)\n$$\n");
    let tex = run_latex("let x = 2 kg / 4");
    assert_eq!(tex, "$$\nx := 0.5000 \\; \\mathrm{kg}\n$$\n");
}

#[test]
fn latex_identifiers() {
    assert_eq!(latex_identifier("alpha"), "\\alpha");
    assert_eq!(latex_identifier("v_max"), "v_{max}");
    assert_eq!(latex_identifier("Theta_i_0"), "\\Theta_{i_{0}}");
    assert_eq!(latex_identifier("x_pi"), "x_{pi}");
    assert_eq!(latex_identifier("a_b_c"), "a_{b_{c}}");
    assert_eq!(latex_identifier("theta_0"), "\\theta_{0}");
}

#[test]
fn binary_operation_latex() {
    assert_eq!(BinaryOperation::Add.latex(), " + ");
    assert_eq!(BinaryOperation::Sub.latex(), " - ");
    assert_eq!(BinaryOperation::Mul.latex(), " ");
    assert_eq!(BinaryOperation::Div.latex(), " / ");
}

#[test]
fn header_is_upper_cased() {
    let e = Expression::Header("Straße".to_string());
    assert_eq!(e.format(), "\nSTRASSE\n===\n");
}

#[test]
fn fold_of_numbers() {
    let three = Expression::Float { value: Ratio { num: 3, den: 1 }, dims: [POWER_ONE, 0, 0, 0, 0, 0] };
    let two = Expression::Float { value: Ratio { num: 2, den: 1 }, dims: [0, POWER_ONE, 0, 0, 0, 0] };
    let mut warnings = Vec::new();
    let r = BinaryOperation::Mul.simplify(three, two, &mut warnings);
    match r {
        Expression::Float { value, dims } => {
            assert_eq!(value.num, 6);
            assert_eq!(value.den, 1);
            assert_eq!(dims, [POWER_ONE, POWER_ONE, 0, 0, 0, 0]);
        },
        _ => panic!("not folded"),
    }
    assert!(warnings.is_empty());
}

#[test]
fn half_powers_display() {
    assert_eq!(run("sqrt(9 m)").0, "3.0000 m^0.5\n");
}

#[test]
fn cli_arguments() {
    let words = |v: &[&str]| v.iter().map(|s| s.to_string()).collect::<Vec<String>>();
    let a = CliArgs::parse(&words(&["carlo", "run", "notes.carlo", "-d"])).ok().unwrap();
    assert_eq!(a.subcommand, "run");
    assert_eq!(a.inputfile.as_deref(), Some("notes.carlo"));
    assert!(a.argument.is_none());
    assert!(a.contains(Flag::Debug));
    assert!(!a.contains(Flag::Interactive));
    let a = CliArgs::parse(&words(&["carlo", "help", "run", "--interactive"])).ok().unwrap();
    assert_eq!(a.argument.as_deref(), Some("run"));
    assert!(a.contains(Flag::Interactive));
    let a = CliArgs::parse(&words(&["carlo"])).ok().unwrap();
    assert_eq!(a.subcommand, "repl");
    assert!(CliArgs::parse(&words(&["carlo", "run", "f", "-x"])).is_err());
    assert!(CliArgs::parse(&words(&["carlo", "run", "f", "g"])).is_err());
    assert_eq!(Subcommand::from_name("latex"), Some(Subcommand::Latex));
    assert_eq!(Subcommand::from_name("nope"), None);
    assert_eq!(Flag::from_name("help"), Some(Flag::Help));
    assert_eq!(Flag::from_letter('i'), Some(Flag::Interactive));
}

#[test]
fn error_messages() {
    let e = Error::UnmatchedUnits("kg".to_string(), "1".to_string(), "0".to_string());
    assert_eq!(e.message(), "Unmatched unit powers (kg^1) and (kg^0)");
    let e = Error::Expected(TokenClass::CloseParen, TokenClass::Number);
    assert_eq!(
        e.message(),
        "Expected token of class (CloseParen) but instead found token of class (Number)"
    );
}

#[test]
fn parsing_consumes_every_token_with_few_parselet_runs() {
    let mut ts = Tokenstream::from("let x = 1 + 2 * 3\nx (", false);
    let n = ts.len();
    assert_eq!(n, 10);
    let exprs = Parser::new(false).parse_tokens(&mut ts);
    assert_eq!(ts.consumed(), n);
    assert!(ts.invocation_count() <= n);
    assert_eq!(ts.invocation_count(), 8);
    assert_eq!(exprs.len(), 2);
}

#[test]
fn header_text_from_upper_case_title() {
    let mut out = String::new();
    push_header(&mut out, "MOTION", true);
    assert_eq!(out, "\nMOTION\n===\n");
    let mut out = String::new();
    push_header(&mut out, "PART", false);
    assert_eq!(out, "\nPART\n");
}

#[test]
fn fractions_stay_in_lowest_terms() {
    match parse_one("3.50 * 2") {
        Expression::Float { value, .. } => assert_eq!(value, Ratio { num: 7, den: 1 }),
        _ => panic!("not folded"),
    }
    match parse_one("6 / 4") {
        Expression::Float { value, .. } => assert_eq!(value, Ratio { num: 3, den: 2 }),
        _ => panic!("not folded"),
    }
}

#[test]
fn header_title_is_trimmed_of_all_white_space() {
    let (out, _) = run("@ \u{c}Motion\u{a0}");
    assert_eq!(out, "\nMOTION\n===\n\n");
}

#[test]
fn trailing_blank_lines_give_no_token() {
    assert!(classes("\n\n").is_empty());
    assert!(classes("x\n\n\n  ").len() == 1);
    let got = classes("x\n\ny");
    assert_eq!(got.len(), 3);
    assert_eq!(got[1].0, TokenClass::Newline);
}

#[test]
fn scenario_unmatched_units_warnings_exactly() {
    let (_, warnings) = run("let a = 3 kg\nlet b = 2 m\na + b");
    assert_eq!(warnings.len(), 2);
    assert_eq!(warnings[0].message(), "Unmatched unit powers (kg^1) and (kg^0)");
    assert_eq!(warnings[1].message(), "Unmatched unit powers (m^0) and (m^1)");
}

#[test]
fn products_and_matching_sums_do_not_warn() {
    assert!(run("2 kg * 3 m").1.is_empty());
    assert!(run("2 kg / 3 m").1.is_empty());
    assert!(run("2 kg + 3 kg").1.is_empty());
    assert!(run("let q = a * 2").1.is_empty());
    assert!(run("f(1)").1.is_empty());
}

#[test]
fn symbolic_references_to_unbound_names_warn() {
    let (_, warnings) = run("&z");
    assert_eq!(warnings.len(), 1);
    assert!(matches!(warnings[0], Error::UndeclaredVariable(ref n) if n == "z"));
    let (_, warnings) = run("!z");
    assert!(matches!(warnings[0], Error::UndeclaredVariable(ref n) if n == "z"));
    // full symbolic resolution leaves unbound names alone, without warning
    let (out, warnings) = run("let b = z + 1\n!b");
    assert_eq!(out, "b = (z + 1.0000)\nb = (z + 1.0000)\n");
    assert!(warnings.is_empty());
}

#[test]
fn end_of_stream_names_the_last_token() {
    let (_, warnings) = run("let x =");
    assert!(matches!(warnings[0], Error::UnexpectedEOF(ref s) if s == "="));
    let mut ts = Tokenstream::from("", false);
    let _ = ts.next_unwrap();
    let w = ts.take_warnings();
    assert!(matches!(w[0], Error::UnexpectedEOF(ref s) if s == "EOF"));
}
