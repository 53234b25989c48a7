use bf_rs::parse_string;
use bf_rs::instruction_to_char;
use bf_rs::Instruction;

#[test]
fn parse_string_test() {
    assert_eq!(
        parse_string("a<+<c<]", true),
        vec![
            Instruction::Left,
            Instruction::Increment,
            Instruction::Left,
            Instruction::Left,
            Instruction::Close
        ]
    );
}

#[test]
fn lex_drops_breakpoints_when_disabled() {
    assert_eq!(
        parse_string("a<+<c<]", false),
        vec![
            Instruction::Left,
            Instruction::Increment,
            Instruction::Left,
            Instruction::Left,
            Instruction::Close
        ]
    );
    assert_eq!(parse_string("@@@", false), vec![]);
    assert_eq!(
        parse_string("@@", true),
        vec![Instruction::Break, Instruction::Break]
    );
}

#[test]
fn lex_filters_unrecognized_characters() {
    assert_eq!(parse_string("", true), vec![]);
    assert_eq!(parse_string("hello world", true), vec![]);
    assert_eq!(
        parse_string("+ comment - [x] , y . z < w >", false),
        vec![
            Instruction::Increment,
            Instruction::Decrement,
            Instruction::Open,
            Instruction::Close,
            Instruction::Input,
            Instruction::Output,
            Instruction::Left,
            Instruction::Right
        ]
    );
}

#[test]
fn instruction_characters_round_trip() {
    let all = vec![
        (Instruction::Increment, '+'),
        (Instruction::Decrement, '-'),
        (Instruction::Left, '<'),
        (Instruction::Right, '>'),
        (Instruction::Open, '['),
        (Instruction::Close, ']'),
        (Instruction::Input, ','),
        (Instruction::Output, '.'),
        (Instruction::Break, '@'),
    ];
    for (ins, c) in all {
        assert_eq!(instruction_to_char(&ins), c);
        let mut src = String::new();
        src.push(c);
        assert_eq!(parse_string(&src, true), vec![ins]);
    }
}
