use curl_parser::chars::{is_space, split_header, strip_quotes, to_chars};
use curl_parser::{parse, CurlParser, CurlRequest, Extractor, Headers, ParseError, Rule};
use curl_parser::SyntaxError;

fn header<'a>(request: &'a CurlRequest, name: &str) -> Option<&'a str> {
    request.headers.get(name).map(|value| value.as_str())
}

#[test]
fn plain_url_gives_an_otherwise_empty_request() {
    let request = parse("curl https://example.com").expect("a command with a URL");
    assert_eq!(request.method, "");
    assert_eq!(request.url, "https://example.com");
    assert!(request.headers.is_empty());
    assert_eq!(request.headers.len(), 0);
    assert_eq!(request.body, "");
}

#[test]
fn short_method_flag_sets_the_method() {
    let request = parse("curl -X POST https://x.com").expect("a command with a URL");
    assert_eq!(request.method, "POST");
    assert_eq!(request.url, "https://x.com");
}

#[test]
fn long_method_flag_is_uppercased() {
    let request = parse(r#"curl --request "post" https://x.com"#).expect("a command with a URL");
    assert_eq!(request.method, "POST");
}

#[test]
fn method_is_uppercased_beyond_ascii() {
    let request = parse("curl -X stra\u{df}e https://x.com").expect("a command with a URL");
    assert_eq!(request.method, "STRASSE");
}

#[test]
fn last_method_wins() {
    let request = parse("curl -X get -X put https://x.com").expect("a command with a URL");
    assert_eq!(request.method, "PUT");
}

#[test]
fn header_is_split_and_trimmed() {
    let request = parse(r#"curl -H "Content-Type: application/json" https://x.com"#)
        .expect("a command with a URL");
    assert_eq!(request.headers.len(), 1);
    assert_eq!(header(&request, "Content-Type"), Some("application/json"));
    assert!(request.headers.contains_key("Content-Type"));
    assert!(!request.headers.contains_key("content-type"));
}

#[test]
fn repeated_header_keeps_the_last_value() {
    let request =
        parse(r#"curl -H "A:1" -H "A:2" https://x.com"#).expect("a command with a URL");
    assert_eq!(request.headers.len(), 1);
    assert_eq!(header(&request, "A"), Some("2"));
}

#[test]
fn header_without_colon_is_dropped() {
    let request = parse("curl -H Accept https://x.com").expect("a command with a URL");
    assert!(request.headers.is_empty());
    assert_eq!(request.url, "https://x.com");
}

#[test]
fn header_value_keeps_later_colons() {
    let request =
        parse("curl -H 'Host:  example.com:8080 ' https://x.com").expect("a command with a URL");
    assert_eq!(header(&request, "Host"), Some("example.com:8080"));
}

#[test]
fn body_is_kept_verbatim() {
    let request = parse(r#"curl -d '{"a":1}' https://x.com"#).expect("a command with a URL");
    assert_eq!(request.body, r#"{"a":1}"#);
}

#[test]
fn escaped_quotes_stay_escaped_in_the_body() {
    let request =
        parse(r#"curl -d "{\"a\":1}" https://x.com"#).expect("a command with a URL");
    assert_eq!(request.body, r#"{\"a\":1}"#);
}

#[test]
fn last_body_wins() {
    let request = parse("curl -d a=1 --data b=2 https://x.com").expect("a command with a URL");
    assert_eq!(request.body, "b=2");
}

#[test]
fn first_url_wins() {
    let request = parse("curl https://a.example https://b.example").expect("a command");
    assert_eq!(request.url, "https://a.example");
}

#[test]
fn empty_quoted_url_leaves_room_for_the_next() {
    let request = parse(r#"curl "" https://b.example"#).expect("a command");
    assert_eq!(request.url, "https://b.example");
}

#[test]
fn quoted_url_loses_its_quotes() {
    let request = parse("curl 'https://x.com/a b'").expect("a command");
    assert_eq!(request.url, "https://x.com/a b");
}

#[test]
fn flags_and_url_come_in_any_order() {
    let request = parse("https://x.com -d body -H k:v -X patch").expect("a command");
    assert_eq!(request.method, "PATCH");
    assert_eq!(request.url, "https://x.com");
    assert_eq!(header(&request, "k"), Some("v"));
    assert_eq!(request.body, "body");
}

#[test]
fn whitespace_around_the_command_is_skipped() {
    let request = parse("  \n\tcurl   https://x.com \r\n").expect("a command");
    assert_eq!(request.url, "https://x.com");
}

#[test]
fn curl_is_a_url_when_it_does_not_lead() {
    let request = parse("curl curl").expect("a command");
    assert_eq!(request.url, "curl");
    let request = parse("curling").expect("a command");
    assert_eq!(request.url, "curling");
}

#[test]
fn flag_takes_the_next_token_whatever_it_is() {
    let request = parse("curl -X -H https://x.com").expect("a command");
    assert_eq!(request.method, "-H");
    assert!(request.headers.is_empty());
}

#[test]
fn quoted_flag_word_is_a_url() {
    let request = parse(r#"curl "-X""#).expect("a command");
    assert_eq!(request.url, "-X");
    assert_eq!(request.method, "");
}

#[test]
fn unclosed_quote_is_a_bare_word() {
    let request = parse(r#"curl -d "abc https://x.com"#).expect("a command");
    assert_eq!(request.body, r#""abc"#);
    assert_eq!(request.url, "https://x.com");
}

#[test]
fn lone_quote_is_kept() {
    let request = parse(r#"curl ""#).expect("a command");
    assert_eq!(request.url, "\"");
}

#[test]
fn missing_url_is_reported() {
    assert_eq!(parse("curl -X POST").unwrap_err(), ParseError::MissingUrl);
    assert_eq!(parse("curl").unwrap_err(), ParseError::MissingUrl);
    assert_eq!(parse("").unwrap_err(), ParseError::MissingUrl);
    assert_eq!(parse("   ").unwrap_err(), ParseError::MissingUrl);
}

#[test]
fn flag_without_value_is_reported() {
    assert_eq!(parse("curl -X").unwrap_err(), ParseError::MissingValue("-X/--request"));
    assert_eq!(
        parse("curl https://x.com --request  ").unwrap_err(),
        ParseError::MissingValue("-X/--request")
    );
    assert_eq!(parse("curl https://x.com -H").unwrap_err(), ParseError::MissingValue("-H/--header"));
    assert_eq!(parse("curl --header").unwrap_err(), ParseError::MissingValue("-H/--header"));
    assert_eq!(parse("curl https://x.com -d").unwrap_err(), ParseError::MissingValue("-d/--data"));
    assert_eq!(parse("curl --data").unwrap_err(), ParseError::MissingValue("-d/--data"));
}

#[test]
fn text_after_a_closing_quote_is_a_syntax_error() {
    let expected = SyntaxError { position: 10, expected: Rule::EOI };
    assert_eq!(parse(r#"curl "abc"def"#).unwrap_err(), ParseError::Syntax(expected));
    let expected = SyntaxError { position: 11, expected: Rule::EOI };
    assert_eq!(
        parse("curl -X 'a'b https://x.com").unwrap_err(),
        ParseError::Syntax(expected)
    );
}

#[test]
fn syntax_error_position_counts_characters() {
    let expected = SyntaxError { position: 6, expected: Rule::EOI };
    assert_eq!(parse("\u{e9}\u{e9} '\u{e9}'x").unwrap_err(), ParseError::Syntax(expected));
}

#[test]
fn parse_input_is_parse() {
    let a = CurlRequest::parse_input("curl -X get -H 'a: b' -d x https://x.com").expect("a command");
    let b = parse("curl -X get -H 'a: b' -d x https://x.com").expect("a command");
    assert_eq!(a.render(), b.render());
    assert_eq!(
        CurlRequest::parse_input("curl -X").unwrap_err(),
        ParseError::MissingValue("-X/--request")
    );
}

#[test]
fn parsing_twice_gives_the_same() {
    let input = r#"curl -H "B: 2" -H "A: 1" -H "B: 3" -d 'x y' -X put "https://x.com""#;
    let first = parse(input).expect("a command");
    let second = parse(input).expect("a command");
    assert_eq!(first.method, second.method);
    assert_eq!(first.url, second.url);
    assert_eq!(first.body, second.body);
    assert_eq!(first.headers.len(), second.headers.len());
    for i in 0..first.headers.len() {
        assert_eq!(first.headers.name_at(i), second.headers.name_at(i));
        assert_eq!(first.headers.value_at(i), second.headers.value_at(i));
    }
    assert_eq!(parse("curl 'a'b").unwrap_err(), parse("curl 'a'b").unwrap_err());
}

#[test]
fn parsed_request_keeps_its_invariants() {
    let inputs = [
        "curl https://x.com",
        "curl -X post -H ' a : b ' -H 'a:c' -H '\u{a0}k\u{a0}:\u{2003}v\u{3000}' https://x.com",
        "-d '' -H ':' -H ' : ' x",
    ];
    for input in inputs {
        let request = parse(input).expect("a command");
        assert!(!request.url.is_empty());
        assert_eq!(request.method, request.method.to_uppercase());
        for i in 0..request.headers.len() {
            let name = request.headers.name_at(i);
            let value = request.headers.value_at(i);
            assert_eq!(name.trim(), name);
            assert_eq!(value.trim(), value);
            for j in 0..i {
                assert_ne!(request.headers.name_at(j), name);
            }
        }
    }
}

#[test]
fn render_lists_every_part() {
    let request = parse(r#"curl -X post -H "B: 2" -H "A: 1" -H "B: 3" -d 'x y' https://x.com"#)
        .expect("a command");
    assert_eq!(
        request.render(),
        "method: POST\nurl: https://x.com\nheaders:\n  B: 3\n  A: 1\nbody:\nx y\n"
    );
    let request = parse("https://x.com").expect("a command");
    assert_eq!(request.render(), "method: \nurl: https://x.com\nheaders:\nbody:\n\n");
}

#[test]
fn whitespace_is_what_the_standard_library_calls_whitespace() {
    for code in 0..=0x10FFFFu32 {
        if let Some(c) = char::from_u32(code) {
            assert_eq!(is_space(c), c.is_whitespace(), "U+{:04X}", code);
        }
    }
}

#[test]
fn to_chars_lists_the_characters() {
    assert_eq!(to_chars("a\u{e9}\u{1F600}"), vec!['a', '\u{e9}', '\u{1F600}']);
    assert_eq!(to_chars(""), Vec::<char>::new());
}

#[test]
fn strip_quotes_takes_one_matching_pair() {
    assert_eq!(strip_quotes(r#""abc""#), "abc");
    assert_eq!(strip_quotes("'abc'"), "abc");
    assert_eq!(strip_quotes(r#"""abc"""#), r#""abc""#);
    assert_eq!(strip_quotes(r#""abc'"#), r#""abc'"#);
    assert_eq!(strip_quotes(r#"abc""#), r#"abc""#);
    assert_eq!(strip_quotes(r#""""#), "");
    assert_eq!(strip_quotes(r#"""#), r#"""#);
    assert_eq!(strip_quotes("'"), "'");
    assert_eq!(strip_quotes(""), "");
    assert_eq!(strip_quotes("abc"), "abc");
    assert_eq!(strip_quotes(r#""a\"b""#), r#"a\"b"#);
    assert_eq!(strip_quotes("'\u{e9}t\u{e9}'"), "\u{e9}t\u{e9}");
}

#[test]
fn split_header_splits_at_the_first_colon() {
    let pair = |name: &str, value: &str| Some((name.to_string(), value.to_string()));
    assert_eq!(split_header("Content-Type: application/json"), pair("Content-Type", "application/json"));
    assert_eq!(split_header("Accept:application/json"), pair("Accept", "application/json"));
    assert_eq!(split_header("  A  :  b c  "), pair("A", "b c"));
    assert_eq!(split_header("a:b:c"), pair("a", "b:c"));
    assert_eq!(split_header(":"), pair("", ""));
    assert_eq!(split_header(" : "), pair("", ""));
    assert_eq!(split_header("a:"), pair("a", ""));
    assert_eq!(split_header(":b"), pair("", "b"));
    assert_eq!(split_header("\u{a0}\u{e9}\u{2003}:\t\u{fc}\u{3000}"), pair("\u{e9}", "\u{fc}"));
    assert_eq!(split_header("no colon"), None);
    assert_eq!(split_header(""), None);
}

#[test]
fn headers_keep_one_value_a_name() {
    let mut headers = Headers::new();
    assert!(headers.is_empty());
    assert_eq!(headers.get("a"), None);
    headers.insert("a".to_string(), "1".to_string());
    headers.insert("b".to_string(), "2".to_string());
    headers.insert("a".to_string(), "3".to_string());
    headers.insert("A".to_string(), "4".to_string());
    assert_eq!(headers.len(), 3);
    assert!(!headers.is_empty());
    assert_eq!(headers.get("a").map(|v| v.as_str()), Some("3"));
    assert_eq!(headers.get("b").map(|v| v.as_str()), Some("2"));
    assert_eq!(headers.get("A").map(|v| v.as_str()), Some("4"));
    assert_eq!(headers.get("c"), None);
    assert!(headers.contains_key("b"));
    assert!(!headers.contains_key("c"));
    assert_eq!(headers.name_at(0), "a");
    assert_eq!(headers.value_at(0), "3");
    assert_eq!(headers.name_at(1), "b");
    assert_eq!(headers.value_at(1), "2");
    assert_eq!(headers.name_at(2), "A");
    assert_eq!(headers.value_at(2), "4");
}

#[test]
fn tree_of_a_command_holds_its_items() {
    let input = r#" curl -X  "post" 'https://x.com' -d"#;
    let root = CurlParser::parse(Rule::curl, input).expect("a command");
    assert_eq!(root.as_rule(), Rule::curl);
    assert_eq!(root.as_str(), input);
    assert_eq!((root.start(), root.end()), (0, 35));
    let items = root.inner();
    assert_eq!(items.len(), 3);

    assert_eq!(items[0].as_rule(), Rule::method_flag);
    assert_eq!(items[0].as_str(), r#"-X  "post""#);
    assert_eq!((items[0].start(), items[0].end()), (6, 16));
    assert_eq!(items[0].inner().len(), 1);
    assert_eq!(items[0].inner()[0].as_rule(), Rule::value);
    assert_eq!(items[0].inner()[0].as_str(), r#""post""#);
    assert_eq!(items[0].inner()[0].inner().len(), 0);

    assert_eq!(items[1].as_rule(), Rule::url);
    assert_eq!(items[1].as_str(), "'https://x.com'");
    assert_eq!(items[1].inner().len(), 1);
    assert_eq!(items[1].inner()[0].as_rule(), Rule::value);
    assert_eq!(items[1].inner()[0].as_str(), "'https://x.com'");

    assert_eq!(items[2].as_rule(), Rule::data_flag);
    assert_eq!(items[2].as_str(), "-d");
    assert_eq!(items[2].inner().len(), 0);
}

#[test]
fn rules_match_a_prefix() {
    let value = CurlParser::parse(Rule::value, "POST https://x.com").expect("a value");
    assert_eq!(value.as_str(), "POST");
    let value = CurlParser::parse(Rule::value, r#""a b"c"#).expect("a value");
    assert_eq!(value.as_str(), r#""a b""#);
    let value = CurlParser::parse(Rule::value, r#""a\" b" c"#).expect("a value");
    assert_eq!(value.as_str(), r#""a\" b""#);
    let flag = CurlParser::parse(Rule::option, "--header  k:v rest").expect("a flag");
    assert_eq!(flag.as_rule(), Rule::header_flag);
    assert_eq!(flag.as_str(), "--header  k:v");
    let flag = CurlParser::parse(Rule::data_flag, "--data").expect("a flag");
    assert_eq!(flag.as_str(), "--data");
    assert_eq!(flag.inner().len(), 0);
    let end = CurlParser::parse(Rule::EOI, "").expect("the end");
    assert_eq!(end.as_rule(), Rule::EOI);
    assert_eq!(end.as_str(), "");
}

#[test]
fn rules_that_do_not_match_say_what_was_expected() {
    let at_start = |expected: Rule| SyntaxError { position: 0, expected };
    assert_eq!(CurlParser::parse(Rule::value, "").unwrap_err(), at_start(Rule::value));
    assert_eq!(CurlParser::parse(Rule::value, " x").unwrap_err(), at_start(Rule::value));
    assert_eq!(CurlParser::parse(Rule::url, "").unwrap_err(), at_start(Rule::url));
    assert_eq!(CurlParser::parse(Rule::option, "POST").unwrap_err(), at_start(Rule::option));
    assert_eq!(CurlParser::parse(Rule::option, "-Xx").unwrap_err(), at_start(Rule::option));
    assert_eq!(
        CurlParser::parse(Rule::method_flag, "-H a:b").unwrap_err(),
        at_start(Rule::method_flag)
    );
    assert_eq!(
        CurlParser::parse(Rule::header_flag, "-d x").unwrap_err(),
        at_start(Rule::header_flag)
    );
    assert_eq!(
        CurlParser::parse(Rule::data_flag, "-X x").unwrap_err(),
        at_start(Rule::data_flag)
    );
    assert_eq!(CurlParser::parse(Rule::EOI, "x").unwrap_err(), at_start(Rule::EOI));
    assert_eq!(
        CurlParser::parse(Rule::curl, "'a'b").unwrap_err(),
        SyntaxError { position: 3, expected: Rule::EOI }
    );
}

#[test]
fn extractor_takes_what_the_walk_meets() {
    let mut extractor = Extractor::new();
    extractor.take_url("\"\"");
    extractor.take_url("'https://x.com'");
    extractor.take_url("https://y.com");
    extractor.take_method("GET".to_string());
    extractor.take_method("PUT".to_string());
    extractor.take_header("'a: 1'");
    extractor.take_header("dropped");
    extractor.take_header("a:2");
    extractor.take_data("\"one\"");
    extractor.take_data("two");
    let request = extractor.finish().expect("a URL was taken");
    assert_eq!(request.url, "https://x.com");
    assert_eq!(request.method, "PUT");
    assert_eq!(request.headers.len(), 1);
    assert_eq!(header(&request, "a"), Some("2"));
    assert_eq!(request.body, "two");
}

#[test]
fn extractor_without_url_fails() {
    let mut extractor = Extractor::new();
    extractor.take_method("GET".to_string());
    extractor.take_url("''");
    assert_eq!(extractor.finish().unwrap_err(), ParseError::MissingUrl);
}

#[test]
fn extractor_visits_only_items() {
    let mut extractor = Extractor::new();
    let value = CurlParser::parse(Rule::value, "https://x.com").expect("a value");
    assert_eq!(extractor.visit(&value), Ok(()));
    let flag = CurlParser::parse(Rule::option, "-X").expect("a flag");
    assert_eq!(extractor.visit(&flag), Err(ParseError::MissingValue("-X/--request")));
    let flag = CurlParser::parse(Rule::option, "-X get").expect("a flag");
    assert_eq!(extractor.visit(&flag), Ok(()));
    assert_eq!(extractor.finish().unwrap_err(), ParseError::MissingUrl);
}

#[test]
fn extract_wants_a_command() {
    let url = CurlParser::parse(Rule::url, "https://x.com").expect("a URL");
    assert_eq!(curl_parser::extract::extract(&url).unwrap_err(), ParseError::MissingUrl);
    let root = CurlParser::parse(Rule::curl, "https://x.com").expect("a command");
    let request = curl_parser::extract::extract(&root).expect("a URL");
    assert_eq!(request.url, "https://x.com");
}

#[test]
fn long_command_is_parsed() {
    let mut input = String::from("curl");
    for i in 0..2000 {
        input.push_str(&format!(" -H 'k{}: v{}'", i % 500, i));
    }
    input.push_str(" https://x.com");
    let request = parse(&input).expect("a command");
    assert_eq!(request.headers.len(), 500);
    assert_eq!(header(&request, "k0"), Some("v1500"));
    assert_eq!(header(&request, "k499"), Some("v1999"));
    assert_eq!(request.headers.name_at(0), "k0");
    assert_eq!(request.url, "https://x.com");
}
