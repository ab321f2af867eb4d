use lib::charscript::Token;
use lib::weights::fuzzyseperator_s;
use lib::weightscript::{ReadWeightConfig, MAX_INVENTORYVALUE, MAX_WEIGHTS, WT_BALANCE};

fn w(t: &str) -> Token {
    Token::Other(t.as_bytes().to_vec())
}

fn num(i: i32) -> Token {
    Token::Number(i, (i as f32).to_bits(), false)
}

fn fl(x: f32) -> Token {
    Token::Number(x as i32, x.to_bits(), true)
}

fn s(t: &str) -> Token {
    Token::Str(t.as_bytes().to_vec())
}

fn toks(text: &str) -> Vec<Token> {
    text.split_whitespace()
        .map(|t| {
            if let Some(q) = t.strip_prefix('"') {
                s(q.trim_end_matches('"'))
            } else if let Ok(i) = t.parse::<i32>() {
                num(i)
            } else if let Ok(x) = t.parse::<f32>() {
                fl(x)
            } else {
                w(t)
            }
        })
        .collect()
}

fn sep(index: i32, value: i32, type_: i32, weight: f32, min: f32, max: f32, child: Option<usize>, next: Option<usize>)
    -> fuzzyseperator_s {
    fuzzyseperator_s {
        index, value, type_, weight: weight.to_bits(), minweight: min.to_bits(), maxweight: max.to_bits(), child, next,
    }
}

#[test]
fn weights_with_return_and_switch() {
    let text = [
        "weight \"armor\" { return 40 ; } ",
        "weight \"health\" switch ( 3 ) { case 25 : return balance ( 100 , 80 , 120 ) ; ",
        "case 50 : { switch ( 4 ) { default : return 7 ; } } default : return - 2 ; }",
    ]
    .join(" ");
    let t = toks(&text);
    let c = ReadWeightConfig(&t).unwrap();
    assert_eq!(c.weights.len(), 2);
    assert_eq!(c.weights[0].name, b"armor\0".to_vec());
    assert_eq!(c.weights[0].firstseperator, Some(0));
    assert_eq!(c.weights[1].name, b"health\0".to_vec());
    assert_eq!(c.weights[1].firstseperator, Some(1));
    assert_eq!(c.seperators, vec![
        sep(0, MAX_INVENTORYVALUE, 0, 40.0, 40.0, 40.0, None, None),
        sep(3, 25, WT_BALANCE, 100.0, 80.0, 120.0, None, Some(2)),
        sep(3, 50, 0, 0.0, 0.0, 0.0, Some(3), Some(4)),
        sep(4, MAX_INVENTORYVALUE, 0, 7.0, 7.0, 7.0, None, None),
        sep(3, MAX_INVENTORYVALUE, 0, 2.0, 2.0, 2.0, None, None),
    ]);
}

#[test]
fn switch_without_default_gets_one() {
    let t = toks("weight \"x\" switch ( 1 ) { case 5 : return 3 ; }");
    let c = ReadWeightConfig(&t).unwrap();
    assert_eq!(c.seperators, vec![
        sep(1, 5, 0, 3.0, 3.0, 3.0, None, Some(1)),
        sep(1, MAX_INVENTORYVALUE, 0, 0.0, 0.0, 0.0, None, None),
    ]);
}

#[test]
fn reading_stops_at_the_weight_limit() {
    let mut t = Vec::new();
    for _ in 0..MAX_WEIGHTS + 2 {
        t.extend(toks("weight \"w\" return 1 ;"));
    }
    t.push(w("junk"));
    let c = ReadWeightConfig(&t).unwrap();
    assert_eq!(c.weights.len(), MAX_WEIGHTS);
}

#[test]
fn malformed_weight_scripts_are_refused() {
    for text in [
        "junk",
        "weight armor return 1 ;",
        "weight \"a\" return 1",
        "weight \"a\" { return 1 ;",
        "weight \"a\" retrun 1 ;",
        "weight \"a\" return balance ( 1 , 2 ) ;",
        "weight \"a\" return x ;",
        "weight \"a\" switch ( 1.5 ) { default : return 1 ; }",
        "weight \"a\" switch ( 1 ) { case 2.5 : return 1 ; }",
        "weight \"a\" switch ( 1 ) { default : return 1 ; default : return 2 ; }",
        "weight \"a\" switch ( 1 ) { other : return 1 ; }",
        "weight \"a\" switch ( 1 ) { case 2 : return 1 ;",
        "weight \"a\" switch ( 1 ) { }",
    ] {
        assert!(ReadWeightConfig(&toks(text)).is_none(), "{}", text);
    }
}

#[test]
fn empty_script_has_no_weights() {
    let c = ReadWeightConfig(&vec![]).unwrap();
    assert!(c.weights.is_empty());
    assert!(c.seperators.is_empty());
}
