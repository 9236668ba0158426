use websorcery::compiler::CompilationState;
use websorcery::model::Template;
use websorcery::model::VariableReference;
use websorcery::output::ConsoleOutput;
use websorcery::scanner::FunctionName;
use websorcery::scanner::InputComponent;
use websorcery::scanner::KeyWordName;
use websorcery::scanner::TokenType;
use websorcery::strings::SourceView;
use websorcery::strings::StringView;

fn scan_text<'a>(text: &'a str) -> InputComponent<'a> {
    let mut component = InputComponent::new("unit".to_string());
    component.scan(SourceView::from_string(text));
    component
}

#[test]
fn scan_splits_plain_text_and_instruction() {
    let component = scan_text("hallo{IMPORT 'file' AS name}welt");
    assert!(component.is_ok());
    let tokens = &component.tmodel.tokenstream;
    assert_eq!(tokens.len(), 3);
    assert!(matches!(tokens[0].ttype, TokenType::PlainText));
    assert_eq!(tokens[0].view.cut(), "hallo");
    assert_eq!(tokens[1].view.cut(), "{IMPORT 'file' AS name}");
    match &tokens[1].ttype {
        TokenType::Instruction(instruction) => {
            let words = &instruction.words;
            assert_eq!(words.len(), 4);
            assert!(matches!(words[0].ttype, TokenType::Function(FunctionName::IMPORT)));
            assert_eq!(words[0].view.cut(), "IMPORT");
            match &words[1].ttype {
                TokenType::StringLiteral(Some(payload)) => assert_eq!(payload.cut(), "file"),
                _ => panic!(),
            }
            assert_eq!(words[1].view.cut(), "'file'");
            assert!(matches!(words[2].ttype, TokenType::KeyWord(KeyWordName::AS)));
            assert_eq!(words[2].view.cut(), "AS");
            assert!(matches!(words[3].ttype, TokenType::Identifier));
            assert_eq!(words[3].view.cut(), "name");
        }
        _ => panic!(),
    }
    assert!(matches!(tokens[2].ttype, TokenType::PlainText));
    assert_eq!(tokens[2].view.cut(), "welt");
}

#[test]
fn scan_classifies_identifier_words() {
    let component = scan_text("{GET zins.satz TO konto-alt}");
    assert!(component.is_ok());
    let tokens = &component.tmodel.tokenstream;
    assert_eq!(tokens.len(), 1);
    match &tokens[0].ttype {
        TokenType::Instruction(instruction) => {
            let words = &instruction.words;
            assert_eq!(words.len(), 4);
            assert!(matches!(words[0].ttype, TokenType::Function(FunctionName::GET)));
            assert!(matches!(words[1].ttype, TokenType::Identifier));
            assert_eq!(words[1].view.cut(), "zins.satz");
            assert!(matches!(words[2].ttype, TokenType::KeyWord(KeyWordName::TO)));
            assert!(matches!(words[3].ttype, TokenType::Identifier));
            assert_eq!(words[3].view.cut(), "konto-alt");
        }
        _ => panic!(),
    }
}

#[test]
fn scan_reconcatenation_is_lossless() {
    for text in ["a{IF x}b", "x{END}", "{GET a}{END}", "nur text", "a", "", "{''}"] {
        let component = scan_text(text);
        assert!(component.is_ok());
        let mut rebuilt = String::new();
        for token in component.tmodel.tokenstream.iter() {
            rebuilt.push_str(token.view.cut());
        }
        assert_eq!(rebuilt, text);
    }
}

#[test]
fn scan_empty_literal_has_no_payload() {
    let component = scan_text("{''}");
    assert!(component.is_ok());
    match &component.tmodel.tokenstream[0].ttype {
        TokenType::Instruction(instruction) => {
            assert_eq!(instruction.words.len(), 1);
            assert!(matches!(instruction.words[0].ttype, TokenType::StringLiteral(None)));
            assert_eq!(instruction.words[0].view.cut(), "''");
        }
        _ => panic!(),
    }
}

#[test]
fn scan_unclosed_instruction() {
    let component = scan_text("abc{def");
    assert!(!component.is_ok());
    let error = component.get_error().unwrap();
    assert_eq!(error.get_short(), "ERR_UNCLOSED_INSTRUCTION");
    assert_eq!(error.get_location(), "[0:4]");
    assert_eq!(error.get_cutout(), "...abc[{]def...");
    assert_eq!(
        error.get_header(),
        "\u{26D4} ERROR: 'ERR_UNCLOSED_INSTRUCTION' @ [0:4]"
    );
    assert_eq!(
        error.get_body(),
        "...abc[{]def...\nDescription: instruction start does not have an instruction end\nCause: unwanted instruction start in plain text or missing close\nSuggestion: insert '}' or remove unwanted instruction start"
    );
}

#[test]
fn scan_invalid_word_begin() {
    let component = scan_text("{.}");
    assert!(!component.is_ok());
    let error = component.get_error().unwrap();
    assert_eq!(error.get_short(), "ERR_INVALID_WORD_BEGIN");
    assert_eq!(
        error.get_message(),
        "Description: cannot scan word in instruction\nCause: invalid character '.' found at begin of word\nSuggestion: remove character '.' from word beginning. Such chars are not allowed there"
    );
}

#[test]
fn scan_invalid_char_in_word() {
    let component = scan_text("{wo!rt}");
    assert!(!component.is_ok());
    let error = component.get_error().unwrap();
    assert_eq!(error.get_short(), "ERR_INVALID_CHAR_IN_WORD");
}

#[test]
fn scan_unterminated_literal() {
    let component = scan_text("{'}");
    assert!(!component.is_ok());
    let error = component.get_error().unwrap();
    assert_eq!(error.get_short(), "ERR_UNEXPECTED_STRING_LITERAL_END");
    assert_eq!(error.get_cutout(), "(no source code available)");
}

#[test]
fn source_end_error_code() {
    let mut source = SourceView::from_string("WORT");
    let error = InputComponent::find_identifier_end(&mut source).unwrap_err();
    assert_eq!(error.get_short(), "ERR_UNEXPECTED_SOURCE_END");
    assert_eq!(
        error.get_message(),
        "Description: cannot scan word\nCause: source ends mid word\nSuggestion: end instruction before source end"
    );

    let mut source = SourceView::from_string(" \t ");
    let error = InputComponent::find_instruction_word_begin(&mut source).unwrap_err();
    assert_eq!(error.get_short(), "ERR_UNEXPECTED_SOURCE_END");
    assert_eq!(
        error.get_message(),
        "Description: cannot scan for next word\nCause: source ends mid instruction\nSuggestion: end instruction before source end"
    );
}

#[test]
fn scan_stops_at_first_error() {
    let component = scan_text("A{GET x}B{wo!rt}C{nie}");
    assert!(!component.is_ok());
    let tokens = &component.tmodel.tokenstream;
    assert_eq!(tokens.len(), 3);
    assert_eq!(tokens[0].view.cut(), "A");
    assert_eq!(tokens[1].view.cut(), "{GET x}");
    assert_eq!(tokens[2].view.cut(), "B");
    assert_eq!(
        component.get_error().unwrap().get_short(),
        "ERR_INVALID_CHAR_IN_WORD"
    );
}

#[test]
fn classification_table_is_case_sensitive() {
    let functions = [
        ("IMPORT", FunctionName::IMPORT),
        ("INSERT", FunctionName::INSERT),
        ("GET", FunctionName::GET),
        ("IF", FunctionName::IF),
        ("END", FunctionName::END),
    ];
    for (word, expected) in functions {
        match TokenType::from_instruction_word(word) {
            TokenType::Function(f) => assert_eq!(f, expected),
            _ => panic!(),
        }
    }
    let keywords = [
        ("FROM", KeyWordName::FROM),
        ("AS", KeyWordName::AS),
        ("TO", KeyWordName::TO),
        ("PARAMS", KeyWordName::PARAMS),
    ];
    for (word, expected) in keywords {
        match TokenType::from_instruction_word(word) {
            TokenType::KeyWord(k) => assert_eq!(k, expected),
            _ => panic!(),
        }
    }
    assert!(matches!(
        TokenType::from_instruction_word("import"),
        TokenType::Identifier
    ));
    assert!(matches!(
        TokenType::from_instruction_word("IMPORTS"),
        TokenType::Identifier
    ));
}

#[test]
fn word_from_source_classifies_span() {
    let view = StringView::new("xIFx").substring(1, 2).unwrap();
    let token = websorcery::scanner::Token::word_from_source(&view);
    assert!(matches!(token.ttype, TokenType::Function(FunctionName::IF)));
    assert_eq!(token.view.cut(), "IF");
}

#[test]
fn compilation_state_holds_first_error() {
    let mut state = CompilationState::new();
    assert!(state.is_ok());
    assert!(state.get_error().is_none());
    let component = scan_text("{.}");
    let error = component.get_error().unwrap();
    state.error(websorcery::compiler::CompilationError {
        name: error.name.clone(),
        desc: error.desc.clone(),
        cause: error.cause.clone(),
        suggestion: error.suggestion.clone(),
        view: None,
        position: None,
    });
    assert!(!state.is_ok());
    assert_eq!(state.get_error().unwrap().get_short(), "ERR_INVALID_WORD_BEGIN");
    assert_eq!(state.get_error().unwrap().get_location(), "[source]");
}

#[test]
fn token_model_appends_in_order() {
    let mut model = websorcery::scanner::TokenModel::new();
    let view = StringView::new("ab");
    model.append(websorcery::scanner::Token { ttype: TokenType::PlainText, view });
    assert_eq!(model.tokenstream.len(), 1);
    assert_eq!(model.tokenstream[0].view.cut(), "ab");

    let words = vec![websorcery::scanner::Token::word_from_source(&StringView::new("END"))];
    let instruction = websorcery::scanner::InstructionToken::new(words);
    assert_eq!(instruction.words.len(), 1);
    assert!(matches!(instruction.words[0].ttype, TokenType::Function(FunctionName::END)));

    let model = websorcery::model::CoreModel::new();
    assert!(model.templates.is_empty());
}

#[test]
fn show_part_renders_subrange() {
    let source = SourceView::from_string("Hallo ich bin ein String");
    assert_eq!(source.show_part(6, 8).unwrap(), "...allo [ich] bin...");
    assert!(source.show_part(3, 99).is_err());
}

#[test]
fn template_variable_lookup() {
    let mut template: Template = Template::new("seite".to_string());
    template.variables.push(VariableReference { id: "zins".to_string() });
    let found = template.get_variable_by_id("zins".to_string()).unwrap();
    assert_eq!(found.id, "zins");

    let missing = template.get_variable_by_id("kurs".to_string()).unwrap_err();
    assert_eq!(missing.get_short(), "ERR_UNDEFINED_VARIABLE");
    assert_eq!(
        missing.get_message(),
        "Description: cannot use variable 'kurs'\nCause: variable 'kurs' has not been defined in template 'seite'\nSuggestion: define variable 'kurs' before its use"
    );
}
