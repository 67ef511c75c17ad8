use limo::line::lex::{lex, LexError, Operator, Segment, SegmentKind, Token};

fn op(op: Operator) -> Token {
    Token::Operator(op)
}

fn redirect() -> Operator {
    Operator::Redirect
}

fn assign() -> Operator {
    Operator::Assign
}

fn lit(s: &str) -> Segment {
    Segment { text: s.to_owned(), kind: SegmentKind::Literal }
}

fn var(s: &str) -> Segment {
    Segment { text: s.to_owned(), kind: SegmentKind::Variable }
}

fn string(s: impl IntoIterator<Item = Segment>) -> Token {
    Token::String(s.into_iter().map(|s| s.to_owned()).collect())
}

fn lit_string(s: impl IntoIterator<Item = &'static str>) -> Token {
    string(s.into_iter().map(lit))
}

#[test]
fn lex_whitespace() {
    assert_eq!(lex("").unwrap(), vec![]);
    assert_eq!(lex("  ").unwrap(), vec![]);
}

#[test]
fn lex_simple_commands() {
    assert_eq!(lex("ls").unwrap(), vec![lit_string(["ls"])]);
    assert_eq!(lex("ls /").unwrap(), vec![lit_string(["ls"]), lit_string(["/"])]);
    assert_eq!(lex("ls hello").unwrap(), vec![lit_string(["ls"]), lit_string(["hello"])]);
    assert_eq!(lex("ls /hello/ world").unwrap(), vec![lit_string(["ls"]), lit_string(["/hello/"]), lit_string(["world"])]);
    assert_eq!(lex(" ls / ").unwrap(), vec![lit_string(["ls"]), lit_string(["/"])]);
    assert_eq!(lex(" pwd").unwrap(), vec![lit_string(["pwd"])]);
    assert_eq!(lex("echo Hello world123 !").unwrap(), vec![lit_string(["echo"]), lit_string(["Hello"]), lit_string(["world123"]), lit_string(["!"])]);
}

#[test]
fn lex_quotes() {
    assert_eq!(lex("''").unwrap(), vec![lit_string([""])]);
    assert_eq!(lex(r#""""#).unwrap(), vec![lit_string([""])]);
    assert_eq!(lex(r#" "" ""  "" "#).unwrap(), vec![lit_string([""]), lit_string([""]), lit_string([""])]);
    assert_eq!(lex(r#" """"  "" "#).unwrap(), vec![lit_string([""]), lit_string([""])]);
    assert_eq!(lex(r#" "''"  "" "#).unwrap(), vec![lit_string(["''"]), lit_string([""])]);
    assert_eq!(lex(r#"echo "Hello world "  1234"#).unwrap(), vec![lit_string(["echo"]), lit_string(["Hello world "]), lit_string(["1234"])]);
    assert_eq!(lex(r#"echo '"Hello 'world   1234"#).unwrap(), vec![lit_string(["echo"]), lit_string(["\"Hello world"]), lit_string(["1234"])]);
    assert!(lex(r#" "''  "" "#).is_err());
    assert!(lex(r#"echo "Hello world   1234"#).is_err());
}

#[test]
fn escapes() {
    assert!(lex("'''").is_err());
    assert_eq!(lex(r#"'\''"#).unwrap(), vec![lit_string(["'"])]);
    assert_eq!(lex(r#""\'""#).unwrap(), vec![lit_string(["'"])]);
    assert_eq!(lex(r#"'\"'"#).unwrap(), vec![lit_string(["\""])]);
    assert_eq!(lex(r#"Hello " \"world\"""#).unwrap(), vec![lit_string(["Hello"]), lit_string([" \"world\""])]);
    assert_eq!(lex(r#""\\""#).unwrap(), vec![lit_string(["\\"])]);
    assert_eq!(lex(r#"'This\\\\is a double escape'"#).unwrap(), vec![lit_string(["This\\\\is a double escape"])]);
    assert_eq!(lex(r#""Escaped dollar sign: \$test 123""#).unwrap(), vec![lit_string(["Escaped dollar sign: $test 123"])]);
    assert!(lex(r#"'Unclosed: \\\'"#).is_err());
    assert_eq!(lex("\\").unwrap(), vec![lit_string(["\\"])]);
    assert_eq!(lex(r#"'\another char'"#).unwrap(), vec![lit_string(["another char"])]);
}

#[test]
fn interpolations() {
    assert_eq!(lex("$x").unwrap(), vec![string([lit(""), var("x")])]);
    assert_eq!(lex("test$x").unwrap(), vec![string([lit("test"), var("x")])]);
    assert_eq!(lex("test$x$y").unwrap(), vec![string([lit("test"), var("x"), var("y")])]);
    assert_eq!(lex("test $x").unwrap(), vec![lit_string(["test"]), string([lit(""), var("x")])]);
    assert_eq!(lex("'test$x'").unwrap(), vec![lit_string(["test$x"])]);
    assert_eq!(lex(r#""$abc""#).unwrap(), vec![string([lit(""), var("abc"), lit("")])]);
    assert_eq!(lex(r#""$abc$ghi""#).unwrap(), vec![string([lit(""), var("abc"), var("ghi"), lit("")])]);
    assert_eq!(lex(r#""test$x""#).unwrap(), vec![string([lit("test"), var("x"), lit("")])]);
    assert_eq!(lex(r#""$var_with_underscore abc""#).unwrap(), vec![string([lit(""), var("var_with_underscore"), lit(" abc")])]);
    assert_eq!(lex(r#""$var_with-hyphen""#).unwrap(), vec![string([lit(""), var("var_with"), lit("-hyphen")])]);
    assert_eq!(lex(r#""/$var_with/slash""#).unwrap(), vec![string([lit("/"), var("var_with"), lit("/slash")])]);
}

#[test]
fn lex_redirects() {
    assert_eq!(lex(">").unwrap(), vec![op(redirect())]);
    assert_eq!(lex(">>").unwrap(), vec![op(redirect()), op(redirect())]);
    assert_eq!(lex(">a").unwrap(), vec![op(redirect()), lit_string(["a"])]);
    assert_eq!(lex(">1").unwrap(), vec![op(redirect()), lit_string(["1"])]);
    assert_eq!(lex("  >0>  1").unwrap(), vec![op(redirect()), lit_string(["0"]), op(redirect()), lit_string(["1"])]);
    assert_eq!(lex("echo Test > a").unwrap(), vec![lit_string(["echo"]), lit_string(["Test"]), op(redirect()), lit_string(["a"])]);
    assert_eq!(lex(r#"echo '{"x": 23,"y":3}' > /dev/null"#).unwrap(), vec![lit_string(["echo"]), string([r#"{"x": 23,"y":3}"#].map(lit)), op(redirect()), lit_string(["/dev/null"])])
}

#[test]
fn assignments() {
    assert_eq!(lex(r#"hello="123""#).unwrap(), vec![lit_string(["hello"]), op(assign()), lit_string(["123"])]);
    assert_eq!(lex(r#"hello  ="1""#).unwrap(), vec![lit_string(["hello"]), op(assign()), lit_string(["1"])]);
    assert_eq!(lex(r#"hello = "1""#).unwrap(), vec![lit_string(["hello"]), op(assign()), lit_string(["1"])]);
    assert_eq!(lex(r#"hello='"123"'"#).unwrap(), vec![lit_string(["hello"]), op(assign()), lit_string(["\"123\""])]);
    assert_eq!(lex(r#"hello '="123"'"#).unwrap(), vec![lit_string(["hello"]), lit_string(["=\"123\""])]);
    assert_eq!(lex(r#"hello'="123"'"#).unwrap(), vec![lit_string(["hello=\"123\""])]);
}

#[test]
fn unterminated_quotes_name_their_quote() {
    assert_eq!(lex("'unterminated"), Err(LexError::UnterminatedQuote('\'')));
    assert_eq!(lex("\"unterminated"), Err(LexError::UnterminatedQuote('"')));
}

#[test]
fn empty_quotes_yield_one_empty_literal() {
    assert_eq!(lex("''").unwrap(), vec![Token::String(vec![Segment::empty_literal()])]);
    assert_eq!(lex("\"\"").unwrap(), vec![Token::String(vec![Segment::empty_literal()])]);
    assert_eq!(lex("").unwrap(), vec![]);
    assert_eq!(Segment::empty_literal(), lit(""));
    assert_eq!(Segment::empty_variable(), var(""));
}

#[test]
fn escaped_quote_inside_single_quotes() {
    assert_eq!(lex("'\\''").unwrap(), vec![lit_string(["'"])]);
}

#[test]
fn interpolation_outside_and_inside_double_quotes() {
    assert_eq!(lex("test$x").unwrap(), vec![string([lit("test"), var("x")])]);
    assert_eq!(lex("\"test$x\"").unwrap(), vec![string([lit("test"), var("x"), lit("")])]);
    assert_eq!(lex("$var-x").unwrap(), vec![string([lit(""), var("var-x")])]);
    assert_eq!(lex("$x\"abc\"").unwrap(), vec![string([lit(""), var("xabc")])]);
    assert_eq!(lex("\"$a\\bc\"").unwrap(), vec![string([lit(""), var("abc"), lit("")])]);
    assert_eq!(lex("\"$\"").unwrap(), vec![string([lit(""), var(""), lit("")])]);
    assert_eq!(lex("a\"$b\"c").unwrap(), vec![string([lit("a"), var("b"), lit("c")])]);
}

#[test]
fn unterminated_quotes_fail_wherever_they_open() {
    assert!(lex("'unterminated").is_err());
    assert!(lex("\"unterminated").is_err());
    assert_eq!(lex("ls 'a' \"b c"), Err(LexError::UnterminatedQuote('"')));
    assert_eq!(lex("a = 'b \\' c"), Err(LexError::UnterminatedQuote('\'')));
    assert_eq!(lex("x 'it\"s"), Err(LexError::UnterminatedQuote('\'')));
}

fn texts(tokens: Vec<Token>) -> Vec<String> {
    tokens
        .into_iter()
        .map(|token| match token {
            Token::String(segments) => segments.into_iter().map(|s| s.text).collect::<String>(),
            Token::Operator(op) => op.to_char().to_string(),
        })
        .collect()
}

#[test]
fn plain_words_round_trip() {
    for line in ["ls /hello/ world", "  a\tb \n c  ", "echo Hello world123 !", "\\ a\\b -x --long", "", "   "] {
        let words: Vec<String> = line.split_whitespace().map(|w| w.to_owned()).collect();
        let found = texts(lex(line).unwrap());
        assert_eq!(found, words);
        let rejoined = found.join(" ");
        assert_eq!(texts(lex(&rejoined).unwrap()), words);
        assert_eq!(lex(&rejoined).unwrap(), lex(line).unwrap());
    }
}

#[test]
fn interpolated_words_do_not_round_trip() {
    assert_eq!(texts(lex("a$b").unwrap()), vec!["ab".to_owned()]);
}

#[test]
fn operators_split_words() {
    assert_eq!(lex("a=b").unwrap(), vec![lit_string(["a"]), op(assign()), lit_string(["b"])]);
    assert_eq!(lex("a>b").unwrap(), vec![lit_string(["a"]), op(redirect()), lit_string(["b"])]);
    assert_eq!(lex("'a>b' \"c=d\"").unwrap(), vec![lit_string(["a>b"]), lit_string(["c=d"])]);
    assert_eq!(lex("=>").unwrap(), vec![op(assign()), op(redirect())]);
}
