use oxide::cursor::Cursor;
use oxide::extractor::arbitrary_property_machine::ArbitraryPropertyMachine;
use oxide::extractor::arbitrary_value_machine::ArbitraryValueMachine;
use oxide::extractor::arbitrary_variable_machine::ArbitraryVariableMachine;
use oxide::extractor::candidate_machine::CandidateMachine;
use oxide::extractor::css_variable_machine::CssVariableMachine;
use oxide::extractor::machine::MachineState;
use oxide::extractor::modifier_machine::ModifierMachine;
use oxide::extractor::named_utility_machine::NamedUtilityMachine;
use oxide::extractor::named_variant_machine::NamedVariantMachine;
use oxide::extractor::string_machine::StringMachine;
use oxide::extractor::utility_machine::UtilityMachine;
use oxide::extractor::variant_machine::VariantMachine;

#[test]
fn test_string_value_extraction() {
    for (input, expected) in [
        // Simple string
        ("'foo'", vec!["'foo'"]),
        // String as part of a candidate
        ("content-['hello_world']", vec!["'hello_world'"]),
        // With nested quotes
        (r#"'"`hello`"'"#, vec![r#"'"`hello`"'"#]),
        // Spaces are not allowed
        ("' hello world '", vec![]),
    ] {
        let mut machine = StringMachine::default();
        let mut cursor = Cursor::new(input.as_bytes());

        let mut actual: Vec<&str> = vec![];

        for i in 0..input.len() {
            cursor.move_to(i);

            if let MachineState::Done(span) = machine.next(&cursor) {
                actual.push(std::str::from_utf8(span.slice(cursor.input)).unwrap());
            }
        }

        assert_eq!(actual, expected);
    }
}

#[test]
fn test_css_variable_extraction() {
    for (input, expected) in [
        // Simple variable
        ("--foo", vec!["--foo"]),
        // With dashes
        ("--my-variable", vec!["--my-variable"]),
        // Inside `var(...)`
        ("var(--my-variable)", vec!["--my-variable"]),
        // Inside a string
        ("'--my-variable'", vec!["--my-variable"]),
        // Multiple variables
        (
            "calc(var(--first) + var(--second))",
            vec!["--first", "--second"],
        ),
        // Escaped character in the middle, skips the next character
        (r#"--spacing-1\/2"#, vec![r#"--spacing-1\/2"#]),
        // Escaped whitespace is not allowed
        (r#"--my-\ variable"#, vec![]),
    ] {
        let mut machine = CssVariableMachine::default();
        let mut cursor = Cursor::new(input.as_bytes());

        let mut actual: Vec<&str> = vec![];

        for i in 0..input.len() {
            cursor.move_to(i);

            if let MachineState::Done(span) = machine.next(&cursor) {
                actual.push(std::str::from_utf8(span.slice(cursor.input)).unwrap());
            }
        }

        assert_eq!(actual, expected);
    }
}

#[test]
fn test_arbitrary_value_extraction() {
    for (input, expected) in [
        // Simple variable
        ("[#0088cc]", vec!["[#0088cc]"]),
        // With parentheses
        (
            "[url(https://tailwindcss.com)]",
            vec!["[url(https://tailwindcss.com)]"],
        ),
        // With strings, where bracket balancing doesn't matter
        ("['[({])}']", vec!["['[({])}']"]),
        // With strings later in the input
        (
            "[url('https://tailwindcss.com?[{]}')]",
            vec!["[url('https://tailwindcss.com?[{]}')]"],
        ),
        // With nested brackets
        ("[[data-foo]]", vec!["[[data-foo]]"]),
        (
            "[&>[data-slot=icon]:last-child]",
            vec!["[&>[data-slot=icon]:last-child]"],
        ),
        // Spaces are not allowed
        ("[ #0088cc ]", vec![]),
        // Unbalanced brackets are not allowed
        ("[foo[bar]", vec![]),
        // Empty brackets are not allowed
        ("[]", vec![]),
    ] {
        let mut machine = ArbitraryValueMachine::default();
        let mut cursor = Cursor::new(input.as_bytes());

        let mut actual: Vec<&str> = vec![];

        for i in 0..input.len() {
            cursor.move_to(i);

            if let MachineState::Done(span) = machine.next(&cursor) {
                actual.push(std::str::from_utf8(span.slice(cursor.input)).unwrap());
            }
        }

        assert_eq!(actual, expected);
    }
}

#[test]
fn test_arbitrary_variable_extraction() {
    for (input, expected) in [
        // Simple utility
        ("(--foo)", vec!["(--foo)"]),
        // With dashes
        ("(--my-color)", vec!["(--my-color)"]),
        // With a fallback
        ("(--my-color,red,blue)", vec!["(--my-color,red,blue)"]),
        // With a fallback containing a string with unbalanced brackets
        (
            "(--my-img,url('https://example.com?q=(][)'))",
            vec!["(--my-img,url('https://example.com?q=(][)'))"],
        ),
        // Arbitrary variable must start with a CSS variable
        (r"(bar)", vec![]),
        // Arbitrary variables must be valid CSS variables
        (r"(--my#color)", vec![]),
    ] {
        let mut machine = ArbitraryVariableMachine::default();
        let mut cursor = Cursor::new(input.as_bytes());

        let mut actual: Vec<&str> = vec![];

        for i in 0..input.len() {
            cursor.move_to(i);

            if let MachineState::Done(span) = machine.next(&cursor) {
                actual.push(std::str::from_utf8(span.slice(cursor.input)).unwrap());
            }
        }

        assert_eq!(actual, expected);
    }
}

#[test]
fn test_arbitrary_property_extraction() {
    for (input, expected) in [
        // Simple arbitrary property
        ("[color:red]", vec!["[color:red]"]),
        // Name with dashes
        ("[background-color:red]", vec!["[background-color:red]"]),
        // Name with leading `-` is valid
        ("[-webkit-value:red]", vec!["[-webkit-value:red]"]),
        // Setting a CSS Variable
        ("[--my-color:red]", vec!["[--my-color:red]"]),
        // Value with nested brackets
        (
            "[background:url(https://example.com)]",
            vec!["[background:url(https://example.com)]"],
        ),
        // Value containing strings
        (
            "[background:url('https://example.com')]",
            vec!["[background:url('https://example.com')]"],
        ),
        // Invalid CSS Variable
        ("[--my#color:red]", vec![]),
        // Spaces are not allowed
        ("[color: red]", vec![]),
        // Multiple colons are not allowed
        ("[color:red:blue]", vec![]),
        // Only alphanumeric characters are allowed in the property name
        ("[background_color:red]", vec![]),
        // A color is required
        ("[red]", vec![]),
        // The property cannot be empty
        ("[:red]", vec![]),
        // Empty brackets are not allowed
        ("[]", vec![]),
        // Missing colon in more complex example
        (r#"[CssClass("gap-y-4")]"#, vec![]),
        // Brackets must be balanced
        ("[background:url(https://example.com]", vec![]),
    ] {
        let mut machine = ArbitraryPropertyMachine::default();
        let mut cursor = Cursor::new(input.as_bytes());

        let mut actual: Vec<&str> = vec![];

        for i in 0..input.len() {
            cursor.move_to(i);

            if let MachineState::Done(span) = machine.next(&cursor) {
                actual.push(std::str::from_utf8(span.slice(cursor.input)).unwrap());
            }
        }

        assert_eq!(actual, expected);
    }
}

#[test]
fn test_modifier_extraction() {
    for (input, expected) in [
        // Simple modifier
        ("foo/bar", vec!["/bar"]),
        ("foo/bar-baz", vec!["/bar-baz"]),
        // Simple modifier with numbers
        ("foo/20", vec!["/20"]),
        // Arbitrary value
        ("foo/[20]", vec!["/[20]"]),
        // Arbitrary value with CSS variable shorthand
        ("foo/(--x)", vec!["/(--x)"]),
        ("foo/(--foo-bar)", vec!["/(--foo-bar)"]),
        // Empty arbitrary value is not allowed
        ("foo/[]", vec![]),
        // Empty arbitrary value shorthand is not allowed
        ("foo/()", vec![]),
        // A CSS variable must start with `--` and must have at least a single character
        ("foo/(-)", vec![]),
        ("foo/(--)", vec![]),
        // Arbitrary value shorthand should be a valid CSS variable
        ("foo/(--my#color)", vec![]),
    ] {
        let mut machine = ModifierMachine::default();
        let mut cursor = Cursor::new(input.as_bytes());

        let mut actual: Vec<&str> = vec![];

        for i in 0..input.len() {
            cursor.move_to(i);

            if let MachineState::Done(span) = machine.next(&cursor) {
                actual.push(std::str::from_utf8(span.slice(cursor.input)).unwrap());
            }
        }

        assert_eq!(actual, expected);
    }
}

#[test]
fn test_named_utility_extraction() {
    for (input, expected) in [
        // Simple utility
        ("flex", vec!["flex"]),
        // Simple single-character utility
        ("a", vec!["a"]),
        // With dashes
        ("items-center", vec!["items-center"]),
        // With numbers
        ("px-5", vec!["px-5"]),
        ("px-2.5", vec!["px-2.5"]),
        // Arbitrary value with bracket notation
        ("bg-[#0088cc]", vec!["bg-[#0088cc]"]),
        // Arbitrary variable
        ("bg-(--my-color)", vec!["bg-(--my-color)"]),
        // Arbitrary variable with fallback
        ("bg-(--my-color,red,blue)", vec!["bg-(--my-color,red,blue)"]),
        // Arbitrary variable must be valid
        (r"bg-(--my-color\)", vec![]),
        // We get `color`, because this machine checks no boundaries.
        (r"bg-(--my#color)", vec!["color"]),
        // Single letter utility with uppercase letter is invalid
        ("A", vec![]),
        // Spaces do not count
        (" a", vec!["a"]),
        ("a ", vec!["a"]),
        (" a ", vec!["a"]),
        (" flex", vec!["flex"]),
        ("flex ", vec!["flex"]),
        (" flex ", vec!["flex"]),
        // A dot must be in-between numbers
        ("opacity-0.5", vec!["opacity-0.5"]),
        ("opacity-.5", vec![]),
        ("opacity-5.", vec![]),
        // A number must be preceded by a `-`, `.` or another number
        ("text-2xs", vec!["text-2xs"]),
        // "foo2" is invalid, but "bar" is not because this machine checks
        // no boundaries.
        ("foo2bar", vec!["bar"]),
        ("foo2-bar", vec!["-bar"]),
        // Random invalid utilities
        ("-$", vec![]),
        ("-_", vec![]),
        ("-foo-", vec![]),
        ("foo-=", vec![]),
        ("foo-#", vec![]),
        ("foo-!", vec![]),
        ("foo-/20", vec![]),
        ("-", vec![]),
        ("--", vec![]),
        ("---", vec![]),
    ] {
        let mut machine = NamedUtilityMachine::default();
        let mut cursor = Cursor::new(input.as_bytes());

        let mut actual: Vec<&str> = vec![];

        for i in 0..input.len() {
            cursor.move_to(i);

            if let MachineState::Done(span) = machine.next(&cursor) {
                actual.push(std::str::from_utf8(span.slice(cursor.input)).unwrap());
            }
        }

        assert_eq!(actual, expected);
    }
}

#[test]
fn test_named_variant_extraction() {
    for (input, expected) in [
        // Simple variant
        ("hover:", vec!["hover:"]),
        // Simple single-character variant
        ("a:", vec!["a:"]),
        ("a/foo:", vec!["a/foo:"]),
        //
        ("group-hover:flex", vec!["group-hover:"]),
        ("group-hover/name:flex", vec!["group-hover/name:"]),
        (
            "group-[data-state=pending]/name:flex",
            vec!["group-[data-state=pending]/name:"],
        ),
        ("supports-(--foo)/name:flex", vec!["supports-(--foo)/name:"]),
    ] {
        let mut machine = NamedVariantMachine::default();
        let mut cursor = Cursor::new(input.as_bytes());

        let mut actual: Vec<&str> = vec![];

        for i in 0..input.len() {
            cursor.move_to(i);

            if let MachineState::Done(span) = machine.next(&cursor) {
                actual.push(std::str::from_utf8(span.slice(cursor.input)).unwrap());
            }
        }

        assert_eq!(actual, expected);
    }
}

#[test]
fn test_utility_extraction() {
    for (input, expected) in [
        // Simple utility
        ("flex", vec!["flex"]),
        // Single character utility
        ("a", vec!["a"]),
        // Important utilities
        ("!flex", vec!["!flex"]),
        ("flex!", vec!["flex!"]),
        ("flex! block", vec!["flex!", "block"]),
        // With dashes
        ("items-center", vec!["items-center"]),
        // Inside a string
        ("'flex'", vec!["flex"]),
        // Multiple utilities
        ("flex items-center", vec!["flex", "items-center"]),
        // Arbitrary property
        ("[color:red]", vec!["[color:red]"]),
        ("![color:red]", vec!["![color:red]"]),
        ("[color:red]!", vec!["[color:red]!"]),
        ("[color:red]/20", vec!["[color:red]/20"]),
        ("![color:red]/20", vec!["![color:red]/20"]),
        ("[color:red]/20!", vec!["[color:red]/20!"]),
        // Modifiers
        ("bg-red-500/20", vec!["bg-red-500/20"]),
        ("bg-red-500/[20%]", vec!["bg-red-500/[20%]"]),
        (
            "bg-red-500/(--my-opacity)",
            vec!["bg-red-500/(--my-opacity)"],
        ),
        // Modifiers with important (legacy)
        ("!bg-red-500/20", vec!["!bg-red-500/20"]),
        ("!bg-red-500/[20%]", vec!["!bg-red-500/[20%]"]),
        (
            "!bg-red-500/(--my-opacity)",
            vec!["!bg-red-500/(--my-opacity)"],
        ),
        // Modifiers with important
        ("bg-red-500/20!", vec!["bg-red-500/20!"]),
        ("bg-red-500/[20%]!", vec!["bg-red-500/[20%]!"]),
        (
            "bg-red-500/(--my-opacity)!",
            vec!["bg-red-500/(--my-opacity)!"],
        ),
        // Arbitrary value with bracket notation
        ("bg-[#0088cc]", vec!["bg-[#0088cc]"]),
        // Arbitrary value with arbitrary property shorthand modifier
        (
            "bg-[#0088cc]/(--my-opacity)",
            vec!["bg-[#0088cc]/(--my-opacity)"],
        ),
        // Arbitrary value with CSS property shorthand
        ("bg-(--my-color)", vec!["bg-(--my-color)"]),
        // Multiple utilities including arbitrary property shorthand
        (
            "bg-(--my-color) flex px-(--my-padding)",
            vec!["bg-(--my-color)", "flex", "px-(--my-padding)"],
        ),
        // Within HTML
        (
            "<div class='flex items-center justify-center'></div>",
            vec![
                "div",
                "class",
                "flex",
                "items-center",
                "justify-center",
                "div",
            ],
        ),
        // A modifier cannot follow a modifier
        ("bg-red-500/20/20", vec![]),
    ] {
        let mut machine = UtilityMachine::default();
        let mut cursor = Cursor::new(input.as_bytes());

        let mut actual: Vec<&str> = vec![];

        for i in 0..input.len() {
            cursor.move_to(i);

            if let MachineState::Done(span) = machine.next(&cursor) {
                actual.push(std::str::from_utf8(span.slice(cursor.input)).unwrap());
            }
        }

        assert_eq!(actual, expected);
    }
}

#[test]
fn test_variant_extraction() {
    for (input, expected) in [
        // Simple variant
        ("hover:flex", vec!["hover:"]),
        // Single character variant
        ("a:flex", vec!["a:"]),
        ("*:flex", vec!["*:"]),
        // With special characters
        ("**:flex", vec!["**:"]),
        // With dashes
        ("data-disabled:flex", vec!["data-disabled:"]),
        // Multiple variants
        ("hover:focus:flex", vec!["hover:", "focus:"]),
        // Arbitrary variant
        ("[&:hover]:flex", vec!["[&:hover]:"]),
        // Arbitrary variant with nested brackets
        (
            "[&>[data-slot=icon]:last-child]:",
            vec!["[&>[data-slot=icon]:last-child]:"],
        ),
        (
            "sm:[&>[data-slot=icon]:last-child]:",
            vec!["sm:", "[&>[data-slot=icon]:last-child]:"],
        ),
        // Modifiers
        ("group-hover/foo:flex", vec!["group-hover/foo:"]),
        ("group-hover/[.parent]:flex", vec!["group-hover/[.parent]:"]),
        // Arbitrary variant with bracket notation
        ("data-[state=pending]:flex", vec!["data-[state=pending]:"]),
        // Arbitrary variant with CSS property shorthand
        ("supports-(--my-color):flex", vec!["supports-(--my-color):"]),
        // Empty arbitrary variant is not allowed
        ("[]:flex", vec![]),
        // Named variant must be followed by `:`
        ("hover", vec![]),
        // A modifier cannot follow a modifier. This machine checks no
        // boundaries, so it finds `bar:`.
        ("group-hover/foo/bar:flex", vec!["bar:"]),
    ] {
        let mut machine = VariantMachine::default();
        let mut cursor = Cursor::new(input.as_bytes());

        let mut actual: Vec<&str> = vec![];

        for i in 0..input.len() {
            cursor.move_to(i);

            if let MachineState::Done(span) = machine.next(&cursor) {
                actual.push(std::str::from_utf8(span.slice(cursor.input)).unwrap());
            }
        }

        assert_eq!(actual, expected);
    }
}

#[test]
fn test_candidate_extraction() {
    for (input, expected) in [
        // Simple utility
        ("flex", vec!["flex"]),
        // Single character utility
        ("a", vec!["a"]),
        // Simple utility with dashes
        ("items-center", vec!["items-center"]),
        // Simple utility with numbers
        ("px-2.5", vec!["px-2.5"]),
        // Simple variant with simple utility
        ("hover:flex", vec!["hover:flex"]),
        // Arbitrary properties
        ("[color:red]", vec!["[color:red]"]),
        ("![color:red]", vec!["![color:red]"]),
        ("[color:red]!", vec!["[color:red]!"]),
        ("[color:red]/20", vec!["[color:red]/20"]),
        ("![color:red]/20", vec!["![color:red]/20"]),
        ("[color:red]/20!", vec!["[color:red]/20!"]),
        // With multiple variants
        ("hover:focus:flex", vec!["hover:focus:flex"]),
        // With complex variants. The machine reports the utilities that it
        // meets inside of the brackets, and starts anew behind each.
        (
            "[&>[data-slot=icon]:last-child]:right-2.5",
            vec!["icon", "last-child", "right-2.5"],
        ),
        // With multiple (complex) variants
        (
            "sm:[&>[data-slot=icon]:last-child]:right-2.5",
            vec!["icon", "last-child", "right-2.5"],
        ),
    ] {
        let mut machine = CandidateMachine::default();
        let mut cursor = Cursor::new(input.as_bytes());

        let mut actual: Vec<&str> = vec![];

        for i in 0..input.len() {
            cursor.move_to(i);

            if let MachineState::Done(span) = machine.next(&cursor) {
                actual.push(std::str::from_utf8(span.slice(cursor.input)).unwrap());
            }
        }

        assert_eq!(actual, expected);
    }
}
