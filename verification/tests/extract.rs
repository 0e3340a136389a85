use oxide::extractor::pre_processors::pre_processor::PreProcessor;
use oxide::extractor::pre_processors::ruby::Ruby;
use oxide::extractor::{Extracted, Extractor};

fn candidates(input: &[u8]) -> Vec<String> {
    let mut extractor = Extractor::new(input);
    extractor
        .extract()
        .iter()
        .filter_map(|x| match x {
            Extracted::Candidate(candidate) => {
                Some(String::from_utf8(candidate.to_vec()).unwrap())
            }
            Extracted::CssVariable(_) => None,
        })
        .collect()
}

#[test]
fn test_candidates_extraction() {
    for (input, expected) in [
        // Simple utility
        ("flex", vec!["flex"]),
        ("_blank", vec!["blank"]),
        // A utility that stands apart from the variant is taken alone.
        ("hover:_blank", vec!["blank"]),
        ("hover:focus:_blank", vec!["blank"]),
        // Single character utility
        ("a", vec!["a"]),
        // Simple variant with simple utility
        ("hover:flex", vec!["hover:flex"]),
        // Multiple utilities
        ("flex block", vec!["flex", "block"]),
        // Simple utility with dashes
        ("items-center", vec!["items-center"]),
        // Simple utility with numbers
        ("px-2.5", vec!["px-2.5"]),
        // Arbitrary properties
        ("[color:red]", vec!["[color:red]"]),
        ("![color:red]", vec!["![color:red]"]),
        ("[color:red]!", vec!["[color:red]!"]),
        ("[color:red]/20", vec!["[color:red]/20"]),
        ("![color:red]/20", vec!["![color:red]/20"]),
        ("[color:red]/20!", vec!["[color:red]/20!"]),
        // In HTML
        (
            r#"<div class="flex items-center px-2.5 bg-[#0088cc] text-(--my-color)"></div>"#,
            vec![
                "flex",
                "items-center",
                "px-2.5",
                "bg-[#0088cc]",
                "text-(--my-color)",
            ],
        ),
        // In an array, looks like an arbitrary property (because it starts with `[`).
        (r#"[flex]"#, vec!["flex"]),
        (r#"["flex"]"#, vec!["flex"]),
        (r#"[p-2.5]"#, vec!["p-2.5"]),
        (r#"["p-2.5"]"#, vec!["p-2.5"]),
        (r#"["flex","p-2.5"]"#, vec!["flex", "p-2.5"]),
        (r#"["flex", "p-2.5"]"#, vec!["flex", "p-2.5"]),
        // Ruby syntax
        (r#"%w[flex]"#, vec!["flex"]),
        (r#"%w[flex items-center]"#, vec!["flex", "items-center"]),
        (r#"%w[[color:red]]"#, vec!["[color:red]"]),
        // C# syntax
        (r#"[CssClass("gap-y-4")]"#, vec!["gap-y-4"]),
        (r#"[CssClass("hover:gap-y-4")]"#, vec!["hover:gap-y-4"]),
        // A utility inside of the brackets is reported, and the reading
        // starts anew behind it.
        (
            r#"[CssClass("gap-y-4")]:flex"#,
            vec!["gap-y-4", "flex"],
        ),
        (
            r#"[CssClass("[&:hover]:flex",'italic')]"#,
            vec!["hover", "flex", "italic"],
        ),
        (
            r#"[flex,[italic,[underline]]]"#,
            vec!["flex", "italic", "underline"],
        ),
        // A `(` directly behind a name ends the search up to the next
        // boundary.
        (r#"[:is(italic):is(underline)]"#, vec![]),
        (r#"[:is(italic):is(underline)]:flex"#, vec![]),
        // Clojure syntax
        (r#"[:div {:class ["p-2"]}"#, vec!["div", "class", "p-2"]),
        (
            r#"[:div {:class ["p-2" "text-green"]}"#,
            vec!["div", "class", "p-2", "text-green"],
        ),
        (r#"[:div {:class ["p-2""#, vec!["div", "class", "p-2"]),
        (r#"               "text-green"]}"#, vec!["text-green"]),
        (r#"[:div.p-2]"#, vec!["p-2"]),
        // Longer example with mixed types of variants and utilities
        (
            "[&>[data-slot=icon]:last-child]:right-2.5",
            vec!["icon", "last-child", "right-2.5"],
        ),
        (
            "sm:[&>[data-slot=icon]:last-child]:right-2.5",
            vec!["icon", "last-child", "right-2.5"],
        ),
        // Keys inside of a JS object could be a variant-less candidate. Vue example.
        ("{ underline: true }", vec!["underline", "true"]),
        (
            r#"            <CheckIcon className={clsx('h-4 w-4', { invisible: index !== 0 })} />"#,
            vec!["h-4", "w-4", "invisible", "index"],
        ),
        // You can have variants but in a string. Vue example.
        (
            "{ 'hover:underline': true }",
            vec!["hover:underline", "true"],
        ),
        // Important marker on both sides is invalid
        ("!flex!", vec![]),
        // Important marker before a modifier is invalid
        ("bg-red-500!/20", vec![]),
        // HTML start of a tag
        ("<div", vec![]),
        // HTML end of a tag
        ("</div>", vec![]),
        // HTML element on its own
        ("<div></div>", vec![]),
        // Modifier followed by a modifier is invalid
        ("bg-red-500/20/20", vec![]),
        ("bg-red-500/20/[20%]", vec![]),
        ("bg-red-500/20/(--my-opacity)", vec![]),
        ("bg-red-500/[20%]/20", vec![]),
        ("bg-red-500/[20%]/[20%]", vec![]),
        ("bg-red-500/[20%]/(--my-opacity)", vec![]),
        ("bg-red-500/(--my-opacity)/20", vec![]),
        ("bg-red-500/(--my-opacity)/[20%]", vec![]),
        ("bg-red-500/(--my-opacity)/(--my-opacity)", vec![]),
        // Arbitrary value followed by an arbitrary value is invalid
        ("bg-[red]-[blue]", vec!["red", "blue"]),
        ("bg-[red][blue]", vec!["red", "blue"]),
        // Arbitrary value followed by an arbitrary variable is invalid
        ("bg-[red]-(--my-color)", vec!["red"]),
        ("bg-[red](--my-color)", vec!["red"]),
        // The important marker ends a utility; the next one follows it.
        ("flex!block", vec!["flex!", "block"]),
        // Invalid variants make the whole candidate invalid
        ("[foo]/bar:flex", vec!["foo"]),
    ] {
        let actual = candidates(input.as_bytes());

        assert_eq!(actual, expected, "input: {}", input);
    }
}

#[test]
fn test_ruby_pre_processor() {
    for (input, expected) in [
        // %w[...]
        ("%w[flex px-2.5]", "%w flex px-2.5 "),
        (
            "%w[flex data-[state=pending]:bg-[#0088cc] flex-col]",
            "%w flex data-[state=pending]:bg-[#0088cc] flex-col ",
        ),
        // %w{...}
        ("%w{flex px-2.5}", "%w flex px-2.5 "),
        (
            "%w{flex data-[state=pending]:bg-(--my-color) flex-col}",
            "%w flex data-[state=pending]:bg-(--my-color) flex-col ",
        ),
        // %w(...)
        ("%w(flex px-2.5)", "%w flex px-2.5 "),
        (
            "%w(flex data-[state=pending]:bg-(--my-color) flex-col)",
            "%w flex data-[state=pending]:bg-(--my-color) flex-col ",
        ),
        // Use backslash to embed spaces in the strings.
        (r#"%w[foo\ bar baz\ bat]"#, r#"%w foo  bar baz  bat "#),
        (r#"%W[foo\ bar baz\ bat]"#, r#"%W foo  bar baz  bat "#),
        // The nested delimiters evaluated to a flat array of strings
        // (not nested array).
        (r#"%w[foo[bar baz]qux]"#, r#"%w foo[bar baz]qux "#),
    ] {
        let actual = Ruby.process(input.as_bytes());

        assert_eq!(String::from_utf8(actual).unwrap(), expected);
    }
}

#[test]
fn test_ruby_extraction() {
    for (input, expected) in [
        // %w[...]
        ("%w[flex px-2.5]", vec!["flex", "px-2.5"]),
        ("%w[px-2.5 flex]", vec!["flex", "px-2.5"]),
        ("%w[2xl:flex]", vec!["2xl:flex"]),
        (
            "%w[flex data-[state=pending]:bg-[#0088cc] flex-col]",
            vec!["flex", "data-[state=pending]:bg-[#0088cc]", "flex-col"],
        ),
        // %w{...}
        ("%w{flex px-2.5}", vec!["flex", "px-2.5"]),
        ("%w{px-2.5 flex}", vec!["flex", "px-2.5"]),
        ("%w{2xl:flex}", vec!["2xl:flex"]),
        (
            "%w{flex data-[state=pending]:bg-(--my-color) flex-col}",
            vec!["flex", "data-[state=pending]:bg-(--my-color)", "flex-col"],
        ),
        // %w(...)
        ("%w(flex px-2.5)", vec!["flex", "px-2.5"]),
        ("%w(px-2.5 flex)", vec!["flex", "px-2.5"]),
        ("%w(2xl:flex)", vec!["2xl:flex"]),
        (
            "%w(flex data-[state=pending]:bg-(--my-color) flex-col)",
            vec!["flex", "data-[state=pending]:bg-(--my-color)", "flex-col"],
        ),
    ] {
        let processed = Ruby.process(input.as_bytes());
        let actual = candidates(&processed);

        for candidate in expected {
            assert!(
                actual.iter().any(|found| found == candidate),
                "{} is missing in {:?}",
                candidate,
                actual
            );
        }
    }
}
