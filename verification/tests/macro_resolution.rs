use bf_rs::parse_string;
use bf_rs::parse_string_macros;
use bf_rs::translate;
use bf_rs::BfError;
use bf_rs::Instruction::{Break, Close, Decrement, Increment, Input, Left, Open, Output, Right};

#[test]
fn macro_parse_test() {
    let code = ">+,@test@.@test@,
test {
    [+<]
}";
    let instructions = vec![
        Right,
        Increment,
        Input,
        Open,
        Increment,
        Left,
        Close,
        Output,
        Open,
        Increment,
        Left,
        Close,
        Input,
    ];

    assert_eq!(parse_string_macros(code, true).unwrap(), instructions)
}

#[test]
fn break_parse_test() {
    let code = "<>@+@abc++@ -";
    let instructions = vec![
        Left, Right, Break, Increment, Break, Increment, Increment, Break, Decrement,
    ];

    assert_eq!(parse_string_macros(code, true).unwrap(), instructions);
}

#[test]
fn break_parse_disabled() {
    let code = "<>@+@abc++@ -";
    let instructions = vec![Left, Right, Increment, Increment, Increment, Decrement];

    assert_eq!(parse_string_macros(code, false).unwrap(), instructions);
}

#[test]
fn macro_calls_macro() {
    let code = "@a@ .+ @b@
a {
    + @b@
}
b {
    -
}";
    let instructions = vec![Increment, Decrement, Output, Increment, Decrement];

    assert_eq!(parse_string_macros(code, true).unwrap(), instructions)
}

#[test]
fn macro_expansion_preserves_instruction_count() {
    let expanded = parse_string_macros("@m@@m@\nm {\n ++- \n}", false).unwrap();
    let plain = parse_string("++-++-", false);
    assert_eq!(expanded.len(), plain.len());
    assert_eq!(expanded, plain);
}

#[test]
fn macro_free_source_lexes_plain() {
    let code = "+-<> hello ,.@";
    assert_eq!(
        parse_string_macros(code, true).unwrap(),
        parse_string(code, true)
    );
    assert_eq!(parse_string_macros("", true).unwrap(), vec![]);
}

#[test]
fn mutually_recursive_macros_rejected() {
    let code = "@a@
a {
    + @b@
}
b {
    - @a@
}";
    assert_eq!(
        parse_string_macros(code, true),
        Err(BfError::RecursiveMacroReference)
    );
}

#[test]
fn three_macro_cycle_rejected() {
    let code = "@a@
a {
    @b@
}
b {
    @c@
}
c {
    @a@
}";
    assert_eq!(
        parse_string_macros(code, true),
        Err(BfError::RecursiveMacroReference)
    );
}

#[test]
fn self_recursive_macro_rejected() {
    assert_eq!(
        parse_string_macros("a {\n + @a@\n}", true),
        Err(BfError::RecursiveMacroReference)
    );
}

#[test]
fn unmatched_open_brace_rejected() {
    assert_eq!(
        parse_string_macros("a {++", true),
        Err(BfError::UnmatchedBrace)
    );
}

#[test]
fn unmatched_close_brace_rejected() {
    assert_eq!(
        parse_string_macros("++}", true),
        Err(BfError::UnmatchedBrace)
    );
}

#[test]
fn stray_close_brace_before_definition_rejected() {
    // One `{` against two `}`: the stray `}` stands in a fragment before a
    // later definition, so the counts disagree and the source is rejected.
    assert_eq!(
        parse_string_macros("a}b{c}", true),
        Err(BfError::UnmatchedBrace)
    );
}

#[test]
fn nested_macro_definition_rejected() {
    assert_eq!(
        parse_string_macros("a { b { } }", true),
        Err(BfError::NestedMacroDefinition)
    );
}

#[test]
fn missing_macro_name_rejected() {
    assert_eq!(
        parse_string_macros("   {+}", true),
        Err(BfError::MissingMacroName)
    );
}

#[test]
fn translate_selects_the_enabled_path() {
    let code = "+ a { - }";
    // With macros on, the definition is consumed and only the fragment lexes.
    assert_eq!(translate(code, false, true).unwrap(), vec![Increment]);
    // With macros off, the braces are ignored and the body's `-` lexes too.
    assert_eq!(
        translate(code, false, false).unwrap(),
        vec![Increment, Decrement]
    );
}

#[test]
fn invalid_macro_name_rejected() {
    assert_eq!(
        parse_string_macros("a+ {-}", true),
        Err(BfError::InvalidMacroName)
    );
}
