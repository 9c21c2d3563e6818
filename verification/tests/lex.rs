use big_sql::error::SqlError;
use big_sql::lex::{lex, Tok};
use big_sql::pql::Literal;

fn toks(text: &str) -> Vec<Tok> {
    lex(text).unwrap().into_iter().map(|t| t.tok).collect()
}

#[test]
fn words_keep_their_case_and_quotes_keep_everything() {
    assert_eq!(
        toks("Select \"a \"\"b\" 'it''s'"),
        vec![
            Tok::Word("Select".to_string()),
            Tok::Quoted("a \"b".to_string()),
            Tok::Str("it's".to_string()),
        ]
    );
}

#[test]
fn numbers_keep_their_scale() {
    assert_eq!(
        toks("12 1.50 -3 -0.5"),
        vec![
            Tok::Num(Literal::Int(12)),
            Tok::Num(Literal::Dec { units: 150, scale: 2 }),
            Tok::Num(Literal::Sint(-3)),
            Tok::Num(Literal::Sdec { units: -5, scale: 1 }),
        ]
    );
    assert_eq!(toks("18446744073709551615"), vec![Tok::Num(Literal::Int(u64::MAX))]);
    assert_eq!(lex("18446744073709551616"), Err(SqlError::NumberTooLarge { at: 0 }));
}

#[test]
fn two_spellings_of_an_operator_are_one() {
    assert_eq!(toks("a <> b"), toks("a != b"));
    assert_eq!(toks("<= >= < > ="), vec![Tok::Op("<="), Tok::Op(">="), Tok::Op("<"), Tok::Op(">"), Tok::Op("=")]);
}

#[test]
fn tokens_are_in_order() {
    let t = lex("a -- the rest of the line\n ,b").unwrap();
    assert_eq!(t.iter().map(|t| t.at).collect::<Vec<_>>(), vec![0, 27, 28]);
}

#[test]
fn what_does_not_make_sense_says_where() {
    assert_eq!(lex("a 'b"), Err(SqlError::UnterminatedString { at: 2 }));
    match lex("a ? b") {
        Err(SqlError::Syntax { at, found, .. }) => assert_eq!((at, found.as_str()), (2, "?")),
        other => panic!("{other:?}"),
    }
}
