use websorcery::scanner::InputComponent;
use websorcery::scanner::WordBegin;
use websorcery::strings::SourceView;

#[test]
fn find_next_instruction_end() {
    let mut source = SourceView::from_string("hallo{instruction}hallo");
    source.next();

    match InputComponent::find_next_instruction_end(&mut source) {
        Ok(i) => assert_eq!(i, 17),
        Err(_) => panic!(),
    }

    // No instruction end left, so error should be returned
    match InputComponent::find_next_instruction_end(&mut source) {
        Ok(_) => panic!(),
        Err(_) => {}
    }
}

#[test]
fn find_next_instruction_start() {
    let mut source = SourceView::from_string("hallo{startishere{");

    match InputComponent::find_next_instruction_start(&mut source) {
        Some(i) => assert_eq!(i, 5),
        None => panic!(),
    }

    match InputComponent::find_next_instruction_start(&mut source) {
        Some(i) => assert_eq!(i, 17),
        None => panic!(),
    }

    // No instruction start left, so None should be returned
    match InputComponent::find_next_instruction_start(&mut source) {
        Some(_) => panic!(),
        None => {}
    }
}

#[test]
fn find_instruction_word_begin() {
    let mut source = SourceView::from_string("W ' .WORD");

    match InputComponent::find_instruction_word_begin(&mut source) {
        Ok(opt) => match opt {
            WordBegin::Identifier(i) => assert_eq!(i, 0),
            _ => panic!(),
        },

        Err(_) => panic!(),
    };

    match InputComponent::find_instruction_word_begin(&mut source) {
        Ok(opt) => match opt {
            WordBegin::StringLiteral(i) => assert_eq!(2, i),
            _ => panic!(),
        },

        Err(_) => panic!(),
    }

    // Should be Err
    match InputComponent::find_instruction_word_begin(&mut source) {
        Ok(_) => panic!(),

        Err(_) => {}
    }

    source = SourceView::from_string("	  	");

    // Error because unexpected end of source
    match InputComponent::find_instruction_word_begin(&mut source) {
        Ok(_) => panic!(),
        Err(_) => {}
    }
}

#[test]
fn find_identifier_end() {
    let mut source = SourceView::from_string("WORD ");
    match InputComponent::find_identifier_end(&mut source) {
        Ok(i) => assert_eq!(i, 3),
        Err(_) => panic!(),
    }

    source = SourceView::from_string("W!ORD ");
    // Should fail becaue of invalid char '!'
    match InputComponent::find_identifier_end(&mut source) {
        Ok(_) => panic!(),
        Err(_) => {}
    }

    source = SourceView::from_string("WORD");
    // Should fail because of unexpected source end
    match InputComponent::find_identifier_end(&mut source) {
        Ok(_) => panic!(),
        Err(_) => {}
    }
}

#[test]
fn find_string_literal_end() {
    let mut source = SourceView::from_string("hallo' ");

    match InputComponent::find_string_literal_end(&mut source) {
        Ok(i) => assert_eq!(i, 5),
        Err(_) => panic!(),
    }

    // Error because of end of source
    match InputComponent::find_string_literal_end(&mut source) {
        Ok(_) => panic!(),
        Err(_) => {}
    }
}
