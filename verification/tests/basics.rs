use oxide::cursor::Cursor;
use oxide::extractor::bracket_stack::BracketStack;
use oxide::extractor::candidate_machine::CandidateMachine;
use oxide::extractor::cover::naive_drop_covered_spans;
use oxide::extractor::css_variable_machine::CssVariableMachine;
use oxide::extractor::machine::{MachineState, Span};
use oxide::extractor::named_utility_machine::NamedUtilityMachine;
use oxide::extractor::named_variant_machine::NamedVariantMachine;
use oxide::extractor::pre_processors::pre_processor::PreProcessor;
use oxide::extractor::pre_processors::ruby::Ruby;
use oxide::extractor::string_machine::StringMachine;
use oxide::extractor::utility_machine::UtilityMachine;
use oxide::extractor::arbitrary_value_machine::ArbitraryValueMachine;
use oxide::extractor::arbitrary_variable_machine::ArbitraryVariableMachine;
use oxide::extractor::{Extracted, Extractor};

fn pairs(spans: &[Span]) -> Vec<(usize, usize)> {
    spans.iter().map(|span| (span.start, span.end)).collect()
}

fn spans(pairs: &[(usize, usize)]) -> Vec<Span> {
    pairs.iter().map(|&(start, end)| Span::new(start, end)).collect()
}

fn variables(input: &str) -> Vec<String> {
    let mut extractor = Extractor::new(input.as_bytes());
    extractor
        .extract()
        .iter()
        .filter_map(|x| match x {
            Extracted::CssVariable(bytes) => Some(String::from_utf8(bytes.to_vec()).unwrap()),
            Extracted::Candidate(_) => None,
        })
        .collect()
}

fn candidates(input: &str) -> Vec<String> {
    let mut extractor = Extractor::new(input.as_bytes());
    extractor
        .extract()
        .iter()
        .filter_map(|x| match x {
            Extracted::Candidate(bytes) => Some(String::from_utf8(bytes.to_vec()).unwrap()),
            Extracted::CssVariable(_) => None,
        })
        .collect()
}

#[test]
fn cursor_reads_the_bytes_around_its_position() {
    let mut cursor = Cursor::new(b"abc");
    assert_eq!((cursor.pos, cursor.prev, cursor.curr, cursor.next), (0, 0x00, b'a', b'b'));
    assert!(cursor.at_start);
    assert!(!cursor.at_end);

    cursor.move_to(1);
    assert_eq!((cursor.pos, cursor.prev, cursor.curr, cursor.next), (1, b'a', b'b', b'c'));
    assert!(!cursor.at_start);
    assert!(!cursor.at_end);

    cursor.move_to(2);
    assert_eq!((cursor.pos, cursor.prev, cursor.curr, cursor.next), (2, b'b', b'c', 0x00));
    assert!(cursor.at_end);
}

#[test]
fn cursor_stops_at_the_end_of_the_buffer() {
    let mut cursor = Cursor::new(b"ab");
    cursor.move_to(7);
    assert_eq!((cursor.pos, cursor.prev, cursor.curr, cursor.next), (2, b'b', 0x00, 0x00));
    assert!(cursor.at_end);

    cursor.advance();
    assert_eq!(cursor.pos, 2);

    let mut empty = Cursor::new(b"");
    assert_eq!((empty.pos, empty.prev, empty.curr, empty.next), (0, 0x00, 0x00, 0x00));
    assert!(empty.at_start);
    assert!(empty.at_end);
    empty.advance_twice();
    assert_eq!(empty.pos, 0);
}

#[test]
fn cursor_steps_and_jumps_agree() {
    let input = b"hover:bg-[#0088cc]/20 --x";
    for from in 0..input.len() {
        let mut stepping = Cursor::new(input);
        stepping.move_to(from);
        for distance in 0..6 {
            let mut jumping = Cursor::new(input);
            jumping.move_to(from + distance);
            assert_eq!(
                (stepping.pos, stepping.prev, stepping.curr, stepping.next),
                (jumping.pos, jumping.prev, jumping.curr, jumping.next)
            );
            assert_eq!(stepping.at_start, jumping.at_start);
            assert_eq!(stepping.at_end, jumping.at_end);
            stepping.advance();
        }
    }

    let mut twice = Cursor::new(input);
    twice.advance_twice();
    assert_eq!((twice.pos, twice.curr), (2, b'v'));
}

#[test]
fn span_slices_both_ends_included() {
    let span = Span::new(2, 4);
    assert_eq!((span.start, span.end), (2, 4));
    assert_eq!(span.slice(b"abcdef"), b"cde");
    assert_eq!(Span::new(0, 0).slice(b"abcdef"), b"a");
    assert_eq!(Span::new(5, 5).slice(b"abcdef"), b"f");
    assert_eq!(Span::new(0, 5).slice(b"abcdef"), b"abcdef");
}

#[test]
fn covered_spans_are_dropped() {
    // The outer span wins.
    assert_eq!(
        pairs(&naive_drop_covered_spans(spans(&[(3, 5), (0, 9)]))),
        vec![(0, 9)]
    );
    // Overlapping spans cover nothing.
    assert_eq!(
        pairs(&naive_drop_covered_spans(spans(&[(4, 9), (0, 5)]))),
        vec![(0, 5), (4, 9)]
    );
    // Of spans with one start the longest is kept, of equal spans one.
    assert_eq!(
        pairs(&naive_drop_covered_spans(spans(&[(2, 3), (2, 8), (2, 5), (2, 8)]))),
        vec![(2, 8)]
    );
    // A span that ends where another one ends is covered by the earlier.
    assert_eq!(
        pairs(&naive_drop_covered_spans(spans(&[(6, 8), (1, 8), (9, 9), (0, 0)]))),
        vec![(0, 0), (1, 8), (9, 9)]
    );
    assert_eq!(pairs(&naive_drop_covered_spans(vec![])), vec![]);
    assert_eq!(pairs(&naive_drop_covered_spans(spans(&[(7, 7)]))), vec![(7, 7)]);
}

#[test]
fn no_kept_span_covers_another() {
    let all = spans(&[(5, 9), (0, 3), (1, 2), (5, 7), (4, 9), (0, 3), (8, 12), (2, 3), (10, 11)]);
    let kept = naive_drop_covered_spans(all.clone());
    assert_eq!(pairs(&kept), vec![(0, 3), (4, 9), (8, 12)]);
    for (i, a) in kept.iter().enumerate() {
        for (j, b) in kept.iter().enumerate() {
            if i != j {
                assert!(!(a.start <= b.start && b.end <= a.end));
            }
        }
        assert!(all.iter().any(|span| (span.start, span.end) == (a.start, a.end)));
    }
}

#[test]
fn bracket_stack_pairs_brackets() {
    let mut stack = BracketStack::default();
    assert!(stack.is_empty());
    assert!(!stack.pop(b')'));
    assert!(stack.is_empty());

    stack.push(b'(');
    stack.push(b'[');
    stack.push(b'{');
    assert!(!stack.is_empty());
    assert!(stack.pop(b'}'));
    // The bracket that does not match is taken off too.
    assert!(!stack.pop(b')'));
    assert!(stack.pop(b')'));
    assert!(stack.is_empty());

    stack.push(b'(');
    stack.reset();
    assert!(stack.is_empty());
}

#[test]
fn whole_inputs_give_their_candidates() {
    assert_eq!(
        candidates("flex items-center px-2.5"),
        vec!["flex", "items-center", "px-2.5"]
    );
    assert_eq!(variables("flex items-center px-2.5"), Vec::<String>::new());

    let html = r#"<div class="hover:bg-red-500/20 [color:red]!"></div>"#;
    assert_eq!(candidates(html), vec!["hover:bg-red-500/20", "[color:red]!"]);
    assert_eq!(variables(html), Vec::<String>::new());

    assert_eq!(
        candidates(r#"[CssClass("flex",'italic')]"#),
        vec!["flex", "italic"]
    );
    assert_eq!(candidates("has-[.italic]:flex"), vec!["has-[.italic]:flex"]);

    assert_eq!(candidates("calc(var(--a) + var(--b))"), Vec::<String>::new());
    assert_eq!(variables("calc(var(--a) + var(--b))"), vec!["--a", "--b"]);

    let both = "bg-(--my-color,red) bg-[#0088cc]/(--o)";
    assert_eq!(
        candidates(both),
        vec!["bg-(--my-color,red)", "bg-[#0088cc]/(--o)"]
    );
    assert_eq!(variables(both), vec!["--my-color", "--o"]);

    assert_eq!(candidates("!flex!"), Vec::<String>::new());
    assert_eq!(variables("!flex!"), Vec::<String>::new());
}

#[test]
fn word_array_is_read_as_a_list() {
    let processed = Ruby.process(b"%w[flex px-2.5]");
    assert_eq!(processed, b"%w flex px-2.5 ");

    let found = candidates(std::str::from_utf8(&processed).unwrap());
    assert!(found.iter().any(|candidate| candidate == "flex"));
    assert!(found.iter().any(|candidate| candidate == "px-2.5"));
    assert_eq!(found, vec!["w", "flex", "px-2.5"]);
}

#[test]
fn inputs_without_candidates() {
    for input in ["<div", "</div>", "bg-red-500/20/20", "bg-red-500!/20", "--my-color", ""] {
        assert_eq!(candidates(input), Vec::<String>::new(), "input: {}", input);
    }
    assert_eq!(variables("--my-color"), vec!["--my-color"]);
    assert_eq!(variables(""), Vec::<String>::new());
}

#[test]
fn variables_come_before_candidates() {
    let mut extractor = Extractor::new(b"flex --a px-(--b) --c");
    let kinds: Vec<String> = extractor
        .extract()
        .iter()
        .map(|x| match x {
            Extracted::Candidate(bytes) => format!("c:{}", String::from_utf8_lossy(bytes)),
            Extracted::CssVariable(bytes) => format!("v:{}", String::from_utf8_lossy(bytes)),
        })
        .collect();
    assert_eq!(kinds, vec!["v:--a", "v:--b", "v:--c", "c:flex", "c:px-(--b)"]);
}

#[test]
fn extracted_spans_lie_in_the_input() {
    let input: &[u8] = b"[a)b] 'x\\' --a\\ b hover:[(flex)] \x00-- ]:(";
    let mut extractor = Extractor::new(input);
    let (from, to) = (input.as_ptr() as usize, input.as_ptr() as usize + input.len());
    let all = extractor.extract();
    assert!(!all.is_empty());
    for x in all {
        let bytes = match x {
            Extracted::Candidate(bytes) => bytes,
            Extracted::CssVariable(bytes) => bytes,
        };
        assert!(!bytes.is_empty());
        assert!(from <= bytes.as_ptr() as usize);
        assert!(bytes.as_ptr() as usize + bytes.len() <= to);
    }
}

#[test]
fn what_is_extracted_is_extracted_alone() {
    for input in [
        "hover:focus:flex [color:red]/20! bg-(--my-color,red)",
        r#"<div class="sm:[&>[data-slot=icon]:last-child]:right-2.5 --x --spacing-1\/2"></div>"#,
        "{ underline: true } [CssClass(\"gap-y-4\")] !bg-red-500/[20%]",
    ] {
        let mut extractor = Extractor::new(input.as_bytes());
        let all = extractor.extract();
        assert!(!all.is_empty());
        for x in all {
            match x {
                Extracted::Candidate(bytes) => {
                    let alone = candidates(std::str::from_utf8(bytes).unwrap());
                    assert!(alone.iter().any(|candidate| candidate.as_bytes() == bytes));
                }
                Extracted::CssVariable(bytes) => {
                    let alone = variables(std::str::from_utf8(bytes).unwrap());
                    assert_eq!(alone.last().map(|name| name.as_bytes()), Some(bytes));
                }
            }
        }
    }
}

#[test]
fn a_candidate_in_the_middle_of_another_reading() {
    // The machine that completes the candidate between the quotes was in
    // the middle of an arbitrary value when the candidate began.
    let input = r#"["[color:red]/(--x,(a:b))"]"#;
    assert_eq!(candidates(input), vec!["[color:red]/(--x,(a:b))"]);
    assert_eq!(candidates("[color:red]/(--x,(a:b))"), vec!["color:red"]);

    // Behind a whitespace the same bytes are read as they are read alone.
    assert_eq!(candidates("x [color:red]/(--x,(a:b))"), vec!["x", "color:red"]);
    assert_eq!(candidates("x bg-red/(--x,(a:b)) y"), vec!["x", "bg-red/(--x,(a:b))", "y"]);
    assert_eq!(candidates("bg-red/(--x,(a:b))"), vec!["bg-red/(--x,(a:b))"]);
}

#[test]
fn a_utility_behind_bytes_that_only_a_variant_can_hold() {
    // The variant machine has read `2` and `_` when the utility begins.
    assert_eq!(candidates("2flex"), vec!["flex"]);
    assert_eq!(candidates("x _blank y"), vec!["x", "blank", "y"]);
    assert_eq!(candidates("flex"), vec!["flex"]);
    assert_eq!(candidates("blank"), vec!["blank"]);
    // The marker belongs to the utility, which the variant ends.
    assert_eq!(candidates("!hover:flex"), vec!["hover:flex"]);
}

#[test]
fn the_key_of_an_object_whose_utility_begins_late() {
    assert_eq!(candidates("a1bc: x"), vec!["a1bc", "x"]);
    // Alone, only the utility is found.
    assert_eq!(candidates("a1bc"), vec!["bc"]);
    // A key that is a utility is found alone as well.
    assert_eq!(candidates("{ underline: true }"), vec!["underline", "true"]);
    assert_eq!(candidates("underline"), vec!["underline"]);
}

#[test]
fn rewriting_word_arrays_twice() {
    for input in [
        "%w[flex px-2.5]",
        "%w(a b) and %W{c d}",
        r"%w[foo\ bar]",
        "%w[a[b]c] %w",
        "no word array",
    ] {
        let once = Ruby.process(input.as_bytes());
        let twice = Ruby.process(&once);
        assert_eq!(once.len(), input.len());
        assert_eq!(twice, once, "input: {}", input);
    }

    // A word array inside of a word array is met the second time only.
    let once = Ruby.process(b"%w[%w[a]]");
    assert_eq!(once, b"%w %w[a] ");
    assert_eq!(Ruby.process(&once), b"%w %w a  ");
}

#[test]
fn word_arrays_need_their_marker() {
    assert_eq!(Ruby.process(b"w[flex]"), b"w[flex]");
    assert_eq!(Ruby.process(b"%x[flex]"), b"%x[flex]");
    assert_eq!(Ruby.process(b"xw[flex] %"), b"xw[flex] %");
    assert_eq!(Ruby.process(b"%w<flex>"), b"%w<flex>");
    // An unbalanced bracket takes the byte behind it along.
    assert_eq!(Ruby.process(b"%w[a(b]]c]"), b"%w a(b]]c ");
    // A literal that is never closed.
    assert_eq!(Ruby.process(b"%w(a\\ b"), b"%w a  b");
    assert_eq!(Ruby.process(b"%w"), b"%w");
    assert_eq!(Ruby.process(b"%w{"), b"%w ");
}

#[test]
fn strings_are_reported_once_or_not_at_all() {
    let report = |input: &str| -> Vec<(usize, usize)> {
        let mut machine = StringMachine::default();
        let mut cursor = Cursor::new(input.as_bytes());
        let mut found = vec![];
        for i in 0..input.len() {
            cursor.move_to(i);
            if let MachineState::Done(span) = machine.next(&cursor) {
                found.push((span.start, span.end));
            }
        }
        found
    };
    // Properly terminated.
    assert_eq!(report("'foo'"), vec![(0, 4)]);
    assert_eq!(report("\"\""), vec![(0, 1)]);
    assert_eq!(report(r"`a\`b`"), vec![(0, 5)]);
    assert_eq!(report(r"'a\\'"), vec![(0, 4)]);
    // Not terminated.
    assert_eq!(report("'foo"), vec![]);
    assert_eq!(report("'foo\""), vec![]);
    assert_eq!(report(r"'foo\'"), vec![]);
    assert_eq!(report(r"'foo\"), vec![]);
    // Broken by a whitespace; the next string is found.
    assert_eq!(report("'a b' 'c'"), vec![(6, 8)]);
    assert_eq!(report("'a\\ b' 'c'"), vec![(7, 9)]);
}

#[test]
fn css_variables_begin_with_two_dashes() {
    let report = |input: &str| -> Vec<String> {
        let mut machine = CssVariableMachine::default();
        let mut cursor = Cursor::new(input.as_bytes());
        let mut found = vec![];
        for i in 0..input.len() {
            cursor.move_to(i);
            if let MachineState::Done(span) = machine.next(&cursor) {
                found.push(String::from_utf8(span.slice(cursor.input).to_vec()).unwrap());
            }
        }
        found
    };
    assert_eq!(report("---"), vec!["---"]);
    assert_eq!(report("--"), Vec::<String>::new());
    assert_eq!(report("-- "), Vec::<String>::new());
    assert_eq!(report("-a --b_C-9;"), vec!["--b_C-9"]);
    // The byte behind a backslash is not looked at.
    assert_eq!(report(r"--a\#b"), vec![r"--a\#b"]);
    assert_eq!(report(r"--\(x"), vec![r"--\(x"]);
    assert_eq!(report(r"--a\\b"), vec![r"--a\\b"]);
    // A name cannot end with an escaped byte.
    assert_eq!(report(r"--a\#"), Vec::<String>::new());
    assert_eq!(report(r"--a\# --b"), vec!["--b"]);
    assert_eq!(report("--a#--b"), vec!["--a", "--b"]);
}

#[test]
fn arbitrary_values_close_what_they_open() {
    let report = |input: &str| -> Vec<String> {
        let mut machine = ArbitraryValueMachine::default();
        let mut cursor = Cursor::new(input.as_bytes());
        let mut found = vec![];
        for i in 0..input.len() {
            cursor.move_to(i);
            if let MachineState::Done(span) = machine.next(&cursor) {
                found.push(String::from_utf8(span.slice(cursor.input).to_vec()).unwrap());
            }
        }
        found
    };
    assert_eq!(report("[]"), Vec::<String>::new());
    assert_eq!(report("[a]"), vec!["[a]"]);
    assert_eq!(report("[(a]"), Vec::<String>::new());
    assert_eq!(report("[{(a)}]"), vec!["[{(a)}]"]);
    assert_eq!(report("[{(a})]"), Vec::<String>::new());
    assert_eq!(report(r"[\]]"), vec![r"[\]]"]);
    // An escaped whitespace is a whitespace still.
    assert_eq!(report(r"[a\ b]"), Vec::<String>::new());
    assert_eq!(report(r"[a\#b]"), vec![r"[a\#b]"]);
    assert_eq!(report("['a b']"), Vec::<String>::new());
    assert_eq!(report("[')']"), vec!["[')']"]);
    // A `)` where none is open is read over.
    assert_eq!(report("[a)b]"), vec!["[a)b]"]);
    // A `]` directly behind the `[` ends the value, which is empty.
    assert_eq!(report("[]a]"), Vec::<String>::new());
    assert_eq!(report("[]x] [y]"), vec!["[y]"]);
}

#[test]
fn arbitrary_variables_take_a_fallback() {
    let report = |input: &str| -> Vec<String> {
        let mut machine = ArbitraryVariableMachine::default();
        let mut cursor = Cursor::new(input.as_bytes());
        let mut found = vec![];
        for i in 0..input.len() {
            cursor.move_to(i);
            if let MachineState::Done(span) = machine.next(&cursor) {
                found.push(String::from_utf8(span.slice(cursor.input).to_vec()).unwrap());
            }
        }
        found
    };
    assert_eq!(report("(--a,b:c)"), Vec::<String>::new());
    assert_eq!(report("(--a,(b:c))"), vec!["(--a,(b:c))"]);
    assert_eq!(report("(--a,'b:c')"), vec!["(--a,'b:c')"]);
    assert_eq!(report("(--a,)"), vec!["(--a,)"]);
    assert_eq!(report("(--a b)"), Vec::<String>::new());
    assert_eq!(report("(--a"), Vec::<String>::new());
    assert_eq!(report(r"(--a,b\ c)"), Vec::<String>::new());
}

#[test]
fn dots_stand_between_digits() {
    let report = |input: &str| -> Vec<String> {
        let mut machine = NamedUtilityMachine::default();
        let mut cursor = Cursor::new(input.as_bytes());
        let mut found = vec![];
        for i in 0..input.len() {
            cursor.move_to(i);
            if let MachineState::Done(span) = machine.next(&cursor) {
                found.push(String::from_utf8(span.slice(cursor.input).to_vec()).unwrap());
            }
        }
        found
    };
    assert_eq!(report("p-1.25"), vec!["p-1.25"]);
    assert_eq!(report("p-1.2.5"), vec!["p-1.2.5"]);
    assert_eq!(report("p.5"), Vec::<String>::new());
    assert_eq!(report("p-1..5"), Vec::<String>::new());
    assert_eq!(report("p-1.x"), vec!["x"]);
    assert_eq!(report("pt1"), Vec::<String>::new());
    assert_eq!(report("p-1x2"), Vec::<String>::new());
    assert_eq!(report("p_1"), Vec::<String>::new());
    // Dashes and underscores may follow one another inside of a name.
    assert_eq!(report("foo--bar"), vec!["foo--bar"]);
    assert_eq!(report("foo-_bar"), vec!["foo-_bar"]);
    assert_eq!(report("foo__bar"), vec!["foo__bar"]);
    assert_eq!(report("@container"), vec!["@container"]);
    // Behind `[` anything goes.
    assert_eq!(report("p-[1.x.2a]"), vec!["p-[1.x.2a]"]);
}

#[test]
fn utilities_start_with_a_letter_or_a_marker() {
    let report = |input: &str| -> Vec<String> {
        let mut machine = UtilityMachine::default();
        let mut cursor = Cursor::new(input.as_bytes());
        let mut found = vec![];
        for i in 0..input.len() {
            cursor.move_to(i);
            if let MachineState::Done(span) = machine.next(&cursor) {
                found.push(String::from_utf8(span.slice(cursor.input).to_vec()).unwrap());
            }
        }
        found
    };
    assert_eq!(report("-mx-2"), vec!["-mx-2"]);
    assert_eq!(report("--mx"), vec!["-mx"]);
    assert_eq!(report("-@x"), vec!["x"]);
    assert_eq!(report("!@container"), vec!["!@container"]);
    assert_eq!(report("@container"), vec!["container"]);
    assert_eq!(report("!flex!"), Vec::<String>::new());
    assert_eq!(report("flex/20/20"), Vec::<String>::new());
    assert_eq!(report("flex/20!"), vec!["flex/20!"]);
}

#[test]
fn short_variants_start_where_they_stand() {
    let mut machine = NamedVariantMachine::default();
    let input = b" a: *:";
    let mut cursor = Cursor::new(input);
    let mut found = vec![];
    for i in 0..input.len() {
        cursor.move_to(i);
        if let MachineState::Done(span) = machine.next(&cursor) {
            found.push((span.start, span.end));
        }
    }
    assert_eq!(found, vec![(1, 2), (4, 5)]);
}

#[test]
fn candidates_touch_their_variants() {
    let report = |input: &str| -> Vec<String> {
        let mut machine = CandidateMachine::default();
        let mut cursor = Cursor::new(input.as_bytes());
        let mut found = vec![];
        for i in 0..input.len() {
            cursor.move_to(i);
            if let MachineState::Done(span) = machine.next(&cursor) {
                found.push(String::from_utf8(span.slice(cursor.input).to_vec()).unwrap());
            }
        }
        found
    };
    assert_eq!(report("hover:focus:flex"), vec!["hover:focus:flex"]);
    // A utility that stands apart from the last variant is taken alone.
    assert_eq!(report("hover:[(flex)]"), vec!["flex"]);
    // Bytes that cannot follow a candidate.
    for input in ["flex/", "flex=", "flex#", "flex-", "flex[", "flex(", "flex!!"] {
        assert_eq!(report(input), Vec::<String>::new(), "input: {}", input);
    }
    assert_eq!(report("flex= block"), vec!["block"]);
    // The key of an object is reported from where the candidate began.
    assert_eq!(report("{ underline: true }"), vec!["underline", "true"]);
    assert_eq!(report("*foo: x"), vec!["*foo", "x"]);
    // Behind a utility that is reported alone the machine starts anew.
    assert_eq!(report("flex*bar:baz"), vec!["flex", "*bar:baz"]);
    assert_eq!(report("underline:"), Vec::<String>::new());
    assert_eq!(report("underline:#"), Vec::<String>::new());
    assert_eq!(report("underline:x"), vec!["underline:x"]);
    // Nothing starts with `--`, `<` or `/`.
    assert_eq!(report("--flex <flex /flex flex"), vec!["flex"]);
}

#[test]
fn machines_start_anew_after_a_reset() {
    let input = b"'ab' 'cd'";
    let mut machine = StringMachine::default();
    let mut cursor = Cursor::new(input);
    cursor.move_to(0);
    assert!(matches!(machine.next(&cursor), MachineState::Parsing));
    machine.reset();
    cursor.move_to(1);
    assert!(matches!(machine.next(&cursor), MachineState::Idle));

    let mut machine = CandidateMachine::new();
    let input = b"hover:flex";
    let mut cursor = Cursor::new(input);
    for i in 0..6 {
        cursor.move_to(i);
        assert!(matches!(machine.next(&cursor), MachineState::Parsing));
    }
    machine.reset();
    let mut found = vec![];
    for i in 6..input.len() {
        cursor.move_to(i);
        if let MachineState::Done(span) = machine.next(&cursor) {
            found.push((span.start, span.end));
        }
    }
    assert_eq!(found, vec![(6, 9)]);
}
