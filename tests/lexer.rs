use asim::frontend::ParseContext;
use asim::lexer::{tokenize, TokenType};
use asim::lines::{LineInfo, LineTable};

fn chars(text: &str) -> Vec<char> {
    text.chars().collect()
}

#[test]
fn test_tokenize() {
    let token_test_code: &str = "
low: ADD (2)
     ADD (15) // test
     BRC up:
up:  STA (15)
     LDA #1
";
    let token_expected_token: [TokenType; 29] = [
        TokenType::NewLine,
        TokenType::Symbol,
        TokenType::Colon,
        TokenType::Symbol,
        TokenType::ParenthesisOpen,
        TokenType::Number,
        TokenType::ParenthesisClose,
        TokenType::NewLine,
        TokenType::Symbol,
        TokenType::ParenthesisOpen,
        TokenType::Number,
        TokenType::ParenthesisClose,
        TokenType::NewLine,
        TokenType::Symbol,
        TokenType::Symbol,
        TokenType::Colon,
        TokenType::NewLine,
        TokenType::Symbol,
        TokenType::Colon,
        TokenType::Symbol,
        TokenType::ParenthesisOpen,
        TokenType::Number,
        TokenType::ParenthesisClose,
        TokenType::NewLine,
        TokenType::Symbol,
        TokenType::Hash,
        TokenType::Number,
        TokenType::NewLine,
        TokenType::End,
    ];

    let text = chars(token_test_code);
    let mut context = ParseContext::new_empty();
    let token = tokenize(&text, &mut context.line_table);
    assert_eq!(token.len(), token_expected_token.len());

    for (index, t) in token.iter().enumerate() {
        assert_eq!(t.token_type, token_expected_token[index])
    }
}

#[test]
fn test_tokenize_single_line() {
    let token_test_code: &str = "ADD (2)";

    let token_expected_token: [TokenType; 5] = [
        TokenType::Symbol,
        TokenType::ParenthesisOpen,
        TokenType::Number,
        TokenType::ParenthesisClose,
        TokenType::End,
    ];

    let text = chars(token_test_code);
    let mut context = ParseContext::new_empty();
    let token = tokenize(&text, &mut context.line_table);
    assert_eq!(token.len(), token_expected_token.len());

    for (index, t) in token.iter().enumerate() {
        assert_eq!(t.token_type, token_expected_token[index])
    }
}

#[test]
fn test_tokenize_empty() {
    let token_test_code: &str = "";

    let token_expected_token: [TokenType; 1] = [TokenType::End];

    let text = chars(token_test_code);
    let mut context = ParseContext::new_empty();
    let token = tokenize(&text, &mut context.line_table);
    assert_eq!(token.len(), token_expected_token.len());

    for (index, t) in token.iter().enumerate() {
        assert_eq!(t.token_type, token_expected_token[index])
    }
}

#[test]
fn runs_cover_whole_numbers_and_symbols() {
    let text = chars("lda_x 1234");
    let mut context = ParseContext::new_empty();
    let tokens = tokenize(&text, &mut context.line_table);
    assert_eq!(tokens.len(), 3);
    assert_eq!((tokens[0].token_type, tokens[0].start, tokens[0].end), (TokenType::Symbol, 0, 5));
    assert_eq!((tokens[1].token_type, tokens[1].start, tokens[1].end), (TokenType::Number, 6, 10));
    assert_eq!((tokens[2].token_type, tokens[2].start, tokens[2].end), (TokenType::End, 10, 11));
}

#[test]
fn lone_slash_and_unknown_characters_are_invalid() {
    let text = chars("/ $");
    let mut context = ParseContext::new_empty();
    let tokens = tokenize(&text, &mut context.line_table);
    let kinds: Vec<TokenType> = tokens.iter().map(|t| t.token_type).collect();
    assert_eq!(kinds, vec![TokenType::Invalid, TokenType::Invalid, TokenType::End]);
}

#[test]
fn comment_at_end_of_text_ends_the_line() {
    let text = chars("NOP // done");
    let mut context = ParseContext::new_empty();
    let tokens = tokenize(&text, &mut context.line_table);
    let kinds: Vec<TokenType> = tokens.iter().map(|t| t.token_type).collect();
    assert_eq!(kinds, vec![TokenType::Symbol, TokenType::NewLine, TokenType::End]);
    assert_eq!(context.line_table.get_line_index_of(10), 0);
}

#[test]
fn letters_beyond_ascii_form_symbols_and_unicode_spaces_are_skipped() {
    let text = chars("\u{e9}t\u{e9}\u{a0}5");
    let mut context = ParseContext::new_empty();
    let tokens = tokenize(&text, &mut context.line_table);
    let kinds: Vec<TokenType> = tokens.iter().map(|t| t.token_type).collect();
    assert_eq!(kinds, vec![TokenType::Symbol, TokenType::Number, TokenType::End]);
    assert_eq!((tokens[0].start, tokens[0].end), (0, 3));
}

#[test]
fn line_table_maps_offsets_to_lines() {
    let text = chars("ab\ncd\n\nef");
    let mut context = ParseContext::new_empty();
    tokenize(&text, &mut context.line_table);
    let table = &context.line_table;
    assert_eq!(table.get_line_index_of(0), 0);
    assert_eq!(table.get_line_index_of(2), 0);
    assert_eq!(table.get_line_index_of(3), 1);
    assert_eq!(table.get_line_index_of(6), 2);
    assert_eq!(table.get_line_index_of(8), 3);
    assert_eq!(table.get_line_index_of(9), 3);
    assert_eq!(table.get_line_of(4), (3, 5));
    assert_eq!(table.get_line_of(8), (7, 9));
}

#[test]
fn lookup_needs_the_line_to_start_before_the_position() {
    let mut table = LineTable::new();
    table.push(LineInfo { start: 5, end: 10 });
    assert_eq!(table.get_line_index_of(2), 1);
    assert_eq!(table.get_line_index_of(7), 0);
    assert_eq!(table.get_line_of(2), (0, 0));
    assert_eq!(table.get_line_of(10), (5, 10));
    assert_eq!(table.get_line_of(11), (0, 0));
    assert_eq!(table.get_line_of(12), (0, 0));
    assert_eq!(table.get(0), Some(LineInfo { start: 5, end: 10 }));
    assert_eq!(table.get(1), None);
}

#[test]
fn every_unicode_space_beyond_ascii_is_skipped() {
    for c in ['\u{85}', '\u{a0}', '\u{1680}', '\u{2000}', '\u{200a}', '\u{2028}', '\u{2029}', '\u{202f}', '\u{205f}', '\u{3000}'] {
        let text: Vec<char> = vec!['1', c, '2'];
        let mut context = ParseContext::new_empty();
        let tokens = tokenize(&text, &mut context.line_table);
        assert_eq!(tokens.len(), 3, "{:?}", c);
    }
    let text: Vec<char> = vec!['1', '\u{200b}', '2'];
    let mut context = ParseContext::new_empty();
    let tokens = tokenize(&text, &mut context.line_table);
    assert_eq!(tokens[1].token_type, TokenType::Invalid);
}

#[test]
fn first_character_of_a_line_belongs_to_that_line() {
    let text: Vec<char> = "NOP\nFOO\n".chars().collect();
    let mut context = ParseContext::new_empty();
    tokenize(&text, &mut context.line_table);
    assert_eq!(context.line_table.get_line_index_of(4), 1);
    assert_eq!(context.line_table.get_line_of(4), (4, 7));
    assert_eq!(context.line_table.get_line_of(3), (0, 3));
}
