use string_auto_indent::{auto_indent, LineEnding};

#[test]
fn test_basic_implementation() {
    let input = r#"Basic Test
        1
            2
                3
        "#;

    let line_ending = LineEnding::from(input);

    // With auto-indent
    assert_eq!(
        auto_indent(input),
        line_ending.denormalize("Basic Test\n1\n    2\n        3\n")
    );

    // Without auto-indent
    assert_eq!(
        input,
        line_ending
            .denormalize("Basic Test\n        1\n            2\n                3\n        ")
    );
}

#[test]
fn test_empty_first_line() {
    let input = r#"
        1
            2
                3
        "#;

    let line_ending = LineEnding::from(input);

    // With auto-indent
    assert_eq!(
        auto_indent(input),
        line_ending.denormalize("1\n    2\n        3\n")
    );

    // Without auto-indent
    assert_eq!(
        input,
        line_ending.denormalize("\n        1\n            2\n                3\n        "),
    );
}

#[test]
fn test_indented_first_line() {
    let input = r#"     <- First Line
        Second Line
        "#;

    let line_ending = LineEnding::from(input);

    // With auto-indent
    assert_eq!(
        auto_indent(input),
        line_ending.denormalize("     <- First Line\nSecond Line\n")
    );

    // Without auto-indent
    assert_eq!(
        input,
        line_ending.denormalize("     <- First Line\n        Second Line\n        "),
    );
}

#[test]
fn test_mixed_indentation() {
    let input = r#"First Line
        Second Line
Third Line
        "#;

    let line_ending = LineEnding::from(input);

    // With auto-indent
    assert_eq!(
        auto_indent(input),
        line_ending.denormalize("First Line\n        Second Line\nThird Line\n",)
    );

    // Without auto-indent
    assert_eq!(
        input,
        line_ending.denormalize("First Line\n        Second Line\nThird Line\n        "),
    );
}

#[test]
fn test_single_line_no_change() {
    let input = "Single line no change";

    let line_ending = LineEnding::from(input);

    // With auto-indent
    assert_eq!(
        auto_indent(input),
        line_ending.denormalize("Single line no change")
    );

    // Without auto-indent
    assert_eq!(input, line_ending.denormalize("Single line no change"));
}

#[test]
fn test_multiple_blank_lines() {
    let input = r#"First Line
        
            A

            B

            C

                D

        E
        "#;

    let line_ending = LineEnding::from(input);

    // With auto-indent
    assert_eq!(
        auto_indent(input),
        line_ending.denormalize("First Line\n\n    A\n\n    B\n\n    C\n\n        D\n\nE\n")
    );

    // Without auto-indent
    assert_eq!(
        input,
        line_ending.denormalize(
            "First Line\n        \n            A\n\n            B\n\n            C\n\n                D\n\n        E\n        "
        ),
    );
}
