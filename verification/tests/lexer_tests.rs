use css_parser_rs::Event;
use css_parser_rs::LexError;
use css_parser_rs::Lexer;
use css_parser_rs::Warning;

fn sels(names: &[&str]) -> Vec<String> {
    names.iter().map(|n| n.to_string()).collect()
}

#[test]
fn empty_input_yields_no_events() {
    let mut lexer = Lexer::new("");
    let events = lexer.parse().unwrap();
    assert_eq!(events, Vec::new());
    assert_eq!(lexer.open_scopes(), 0);
}

#[test]
fn whitespace_only_input_yields_no_events() {
    let mut lexer = Lexer::new("  \t\n  \r\n ");
    let events = lexer.parse().unwrap();
    assert_eq!(events, Vec::new());
    assert!(lexer.warnings().is_empty());
}

#[test]
fn multi_selector_grouping() {
    let mut lexer = Lexer::new("h1, h2 { color: red; }");
    let events = lexer.parse().unwrap();
    assert_eq!(
        events,
        vec![
            Event::StartSelector(sels(&["h1", "h2"])),
            Event::Rule("color".to_string(), "red".to_string()),
            Event::EndSelector(sels(&["h1", "h2"])),
        ]
    );
    assert_eq!(lexer.open_scopes(), 0);
    assert!(lexer.warnings().is_empty());
}

#[test]
fn end_to_end_scenario() {
    let mut lexer = Lexer::new(".box {\n  display: flex;\n  justify-content: center;\n}");
    let events = lexer.parse().unwrap();
    assert_eq!(
        events,
        vec![
            Event::StartSelector(sels(&[".box"])),
            Event::Rule("display".to_string(), "flex".to_string()),
            Event::Rule("justify-content".to_string(), "center".to_string()),
            Event::EndSelector(sels(&[".box"])),
        ]
    );
    assert_eq!(lexer.open_scopes(), 0);
}

#[test]
fn comment_extraction_keeps_text_between_delimiters() {
    let mut lexer = Lexer::new("/* hello */");
    let events = lexer.parse().unwrap();
    assert_eq!(events, vec![Event::Comment(" hello ".to_string())]);
}

#[test]
fn comment_extraction_trailing_space_only() {
    let mut lexer = Lexer::new("/*hello */");
    let events = lexer.parse().unwrap();
    assert_eq!(events, vec![Event::Comment("hello ".to_string())]);
}

#[test]
fn empty_comment() {
    let mut lexer = Lexer::new("/**/");
    let events = lexer.parse().unwrap();
    assert_eq!(events, vec![Event::Comment(String::new())]);
}

#[test]
fn comment_between_blocks() {
    let mut lexer = Lexer::new("/*a*/b{c:d;}");
    let events = lexer.parse().unwrap();
    assert_eq!(
        events,
        vec![
            Event::Comment("a".to_string()),
            Event::StartSelector(sels(&["b"])),
            Event::Rule("c".to_string(), "d".to_string()),
            Event::EndSelector(sels(&["b"])),
        ]
    );
}

#[test]
fn unpaired_close_selector_is_a_warning_not_a_crash() {
    let mut lexer = Lexer::new("}");
    let events = lexer.parse().unwrap();
    assert_eq!(events, Vec::new());
    assert_eq!(lexer.warnings(), &vec![Warning::UnpairedCloseSelector]);
    assert_eq!(lexer.open_scopes(), 0);
}

#[test]
fn every_stray_close_brace_warns_once() {
    let mut lexer = Lexer::new("} \n }");
    let events = lexer.parse().unwrap();
    assert_eq!(events, Vec::new());
    assert_eq!(
        lexer.warnings(),
        &vec![
            Warning::UnpairedCloseSelector,
            Warning::UnpairedCloseSelector,
        ]
    );
    assert_eq!(lexer.open_scopes(), 0);
}

#[test]
fn same_text_always_yields_the_same_events() {
    let text = "a, b { x: y; }\n/* note */\nc { d: e; }";
    let first = Lexer::new(text).parse().unwrap();
    let second = Lexer::new(text).parse().unwrap();
    assert_eq!(first, second);
}

#[test]
fn two_blocks_give_two_matching_pairs() {
    let mut lexer = Lexer::new("a{x:y;} b{z:w;}");
    let events = lexer.parse().unwrap();
    assert_eq!(
        events,
        vec![
            Event::StartSelector(sels(&["a"])),
            Event::Rule("x".to_string(), "y".to_string()),
            Event::EndSelector(sels(&["a"])),
            Event::StartSelector(sels(&["b"])),
            Event::Rule("z".to_string(), "w".to_string()),
            Event::EndSelector(sels(&["b"])),
        ]
    );
    assert_eq!(lexer.open_scopes(), 0);
    assert!(lexer.warnings().is_empty());
}

#[test]
fn declaration_round_trip_strips_space_around_colon() {
    let mut lexer = Lexer::new("a { color : red; }");
    let events = lexer.parse().unwrap();
    assert_eq!(
        events[1],
        Event::Rule("color".to_string(), "red".to_string())
    );
}

#[test]
fn declaration_value_is_kept_verbatim_up_to_the_semicolon() {
    let mut lexer = Lexer::new("a { b:c d ; }");
    let events = lexer.parse().unwrap();
    assert_eq!(events[1], Event::Rule("b".to_string(), "c d ".to_string()));
}

#[test]
fn missing_colon_stops_the_block_with_a_warning() {
    let mut lexer = Lexer::new("a { color red; }");
    let result = lexer.parse();
    assert!(result.is_ok());
    assert_eq!(lexer.warnings(), &vec![Warning::MissingColon]);
}

#[test]
fn input_ending_inside_a_block_is_fatal() {
    let mut lexer = Lexer::new("a {");
    assert_eq!(lexer.parse(), Err(LexError::UnexpectedEndOfInput));
}

#[test]
fn input_ending_inside_a_declaration_is_fatal() {
    let mut lexer = Lexer::new("a { color: red");
    assert_eq!(lexer.parse(), Err(LexError::UnexpectedEndOfInput));
}

#[test]
fn unterminated_comment_is_fatal() {
    let mut lexer = Lexer::new("/* abc");
    assert_eq!(lexer.parse(), Err(LexError::UnexpectedEndOfInput));
}

#[test]
fn unrecognized_character_is_fatal() {
    let mut lexer = Lexer::new(";");
    assert_eq!(lexer.parse(), Err(LexError::UnrecognizedCharacter(';')));
}

#[test]
fn digit_cannot_open_a_selector() {
    let mut lexer = Lexer::new("1a { b: c; }");
    assert_eq!(lexer.parse(), Err(LexError::UnrecognizedCharacter('1')));
}

#[test]
fn non_ascii_letters_open_selectors() {
    let mut lexer = Lexer::new("été { couleur: rouge; }");
    let events = lexer.parse().unwrap();
    assert_eq!(
        events,
        vec![
            Event::StartSelector(sels(&["été"])),
            Event::Rule("couleur".to_string(), "rouge".to_string()),
            Event::EndSelector(sels(&["été"])),
        ]
    );
}

#[test]
fn star_hash_and_dot_open_selectors() {
    let mut lexer = Lexer::new("* {a:b;} #id {c:d;} .cls {e:f;}");
    let events = lexer.parse().unwrap();
    assert_eq!(events.len(), 9);
    assert_eq!(events[0], Event::StartSelector(sels(&["*"])));
    assert_eq!(events[3], Event::StartSelector(sels(&["#id"])));
    assert_eq!(events[6], Event::StartSelector(sels(&[".cls"])));
}

#[test]
fn selector_tokens_stop_only_at_space_comma_and_open_brace() {
    let mut lexer = Lexer::new("a } }");
    let events = lexer.parse().unwrap();
    assert_eq!(events, vec![Event::StartSelector(sels(&["a", "}", "}"]))]);
    assert_eq!(lexer.open_scopes(), 1);
}

#[test]
fn nested_scopes_pop_in_lifo_order() {
    let mut lexer = Lexer::new("a{b c{d:e;}}");
    let events = lexer.parse().unwrap();
    assert_eq!(
        events,
        vec![
            Event::StartSelector(sels(&["a"])),
            Event::StartSelector(sels(&["c"])),
            Event::Rule("d".to_string(), "e".to_string()),
            Event::EndSelector(sels(&["c"])),
            Event::EndSelector(sels(&["a"])),
        ]
    );
    assert_eq!(lexer.warnings(), &vec![Warning::MissingColon]);
    assert_eq!(lexer.open_scopes(), 0);
}

#[test]
fn empty_block_gives_a_pair_and_no_rules() {
    let mut lexer = Lexer::new("a {}");
    let events = lexer.parse().unwrap();
    assert_eq!(
        events,
        vec![
            Event::StartSelector(sels(&["a"])),
            Event::EndSelector(sels(&["a"])),
        ]
    );
}

#[test]
fn second_parse_yields_no_further_events() {
    let mut lexer = Lexer::new("a {}");
    let first = lexer.parse().unwrap();
    assert_eq!(first.len(), 2);
    let second = lexer.parse().unwrap();
    assert_eq!(second, Vec::new());
}
