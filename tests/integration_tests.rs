use snippet_rs::{parse_lines, split_lines, BlockReader, Snippet, SnippetParser, Step};

const SNIPPET_FILE: &str = "-- snippet1 --
Are we human?
Or are we dancer?
-- end --
-- snippet2 --
This is my church.
This is where I heal my hurts.
-- end --
-- snippet3 with space --
Never gonna give you up
Never gonna let you down
Never gonna run around and desert you

Never gonna make you cry
Never gonna say goodbye
Never gonna tell a lie and hurt you

-- end --
";

const PATH: &str = "./tests/snippets/snippet_test.snip";

fn file_lines() -> Vec<String> {
    split_lines(SNIPPET_FILE)
}

fn first_snip() -> &'static str {
    "\
Are we human?
Or are we dancer?\
"
}

fn second_snip() -> &'static str {
    "\
This is my church.
This is where I heal my hurts."
}

fn third_snip() -> &'static str {
    "\
Never gonna give you up
Never gonna let you down
Never gonna run around and desert you

Never gonna make you cry
Never gonna say goodbye
Never gonna tell a lie and hurt you
\
"
}

#[test]
fn read_next_snippet_test() {
    let mut reader = BlockReader::new();
    let mut read = Vec::new();
    for line in file_lines() {
        if let Some(s) = reader.feed(line) {
            read.push(s);
        }
    }
    assert_eq!(3, read.len());
    assert_eq!(first_snip(), read[0].get_string());
    assert_eq!(second_snip(), read[1].get_string());
    assert_eq!(third_snip(), read[2].get_string());
    assert_eq!("snippet1", read[0].get_title());
    assert_eq!("snippet2", read[1].get_title());
    assert_eq!("snippet3 with space", read[2].get_title());
}

#[test]
fn read_next_snippet_test_with_adding_snippet() {
    // While the file is read, snippets added by hand do not come out.
    let mut parser = SnippetParser::read(PATH.to_string());
    let fourth_snip = "\
Are you on the square?
Are you on the hammer?
Are you ready to stand right here right now
Before the devil?
\
";
    let fourth_snippet = Snippet::new("Square Hammer".to_string(), fourth_snip.to_string());
    parser.add_snippet(fourth_snippet);
    println!("{:?}", parser);
    let mut read = Vec::new();
    for line in file_lines() {
        match parser.advance(Some(line)) {
            Step::Block(s) => read.push(s),
            Step::NeedLine => {}
            Step::End => panic!("the file is still being read"),
        }
    }
    assert_eq!(3, read.len());
    assert_eq!(first_snip(), read[0].get_string());
    assert_eq!(second_snip(), read[1].get_string());
    assert_eq!(third_snip(), read[2].get_string());
    assert_eq!("snippet1", read[0].get_title());
    assert_eq!("snippet2", read[1].get_title());
    assert_eq!("snippet3 with space", read[2].get_title());
    assert!(parser.is_streaming());
}

#[test]
fn get_string() {
    let snippet = Snippet::new("Title".to_string(), "This is my church\nThis is where I heal my hurt.".to_string());
    assert_eq!("This is my church\nThis is where I heal my hurt.", snippet.get_string());
}

#[test]
fn iter() {
    let lines = file_lines();
    let mut pos: usize = 0;
    let mut parser = SnippetParser::read(PATH.to_string());
    assert_eq!(Some(Snippet::new("snippet1".to_string(), first_snip().to_string())), parser.next_from(&lines, &mut pos));
    assert_eq!(Some(Snippet::new("snippet2".to_string(), second_snip().to_string())), parser.next_from(&lines, &mut pos));
    assert_eq!(Some(Snippet::new("snippet3 with space".to_string(), third_snip().to_string())), parser.next_from(&lines, &mut pos));
    assert_eq!(None, parser.next_from(&lines, &mut pos));
}

#[test]
fn iter_with_adding_snippet() {
    let lines = file_lines();
    let mut pos: usize = 0;
    let mut parser = SnippetParser::read(PATH.to_string());
    let fourth_snippet = Snippet::new("My Snippet".to_string(), "Bury all your secrets in my skin\nCome away with innocence and leave me with my sin\nThe air around me still feels like a cage".to_string());
    parser.add_snippet(fourth_snippet.clone());

    assert_eq!(Some(Snippet::new("snippet1".to_string(), first_snip().to_string())), parser.next_from(&lines, &mut pos));
    assert_eq!(Some(Snippet::new("snippet2".to_string(), second_snip().to_string())), parser.next_from(&lines, &mut pos));
    assert_eq!(Some(Snippet::new("snippet3 with space".to_string(), third_snip().to_string())), parser.next_from(&lines, &mut pos));
    assert_eq!(Some(fourth_snippet), parser.next_from(&lines, &mut pos));
    assert_eq!(None, parser.next_from(&lines, &mut pos));
}

#[test]
fn iter_only_manual_adding() {
    let snippet = Snippet::new("Ibiza".to_string(), "What's he fucking doing?\nIbiza".to_string());
    let snippet2 = Snippet::new("The day is my enemy".to_string(), "The day is my enemy\nthe night is my friend".to_string());
    let mut parser = SnippetParser::from_snippets(vec![snippet.clone(), snippet2.clone()]);
    let no_lines: Vec<String> = Vec::new();
    let mut pos: usize = 0;
    let mut got = Vec::new();
    while let Some(s) = parser.next_from(&no_lines, &mut pos) {
        got.push(s);
    }
    assert_eq!(vec![snippet, snippet2], got);
}

#[test]
fn get_snippets() {
    let parser = SnippetParser::read(PATH.to_string());
    let first_snip = Snippet::new("snippet1".to_string(), first_snip().to_string());
    let second_snip = Snippet::new("snippet2".to_string(), second_snip().to_string());
    let third_snip = Snippet::new("snippet3 with space".to_string(), third_snip().to_string());

    let vec: Vec<Snippet> = vec![first_snip, second_snip, third_snip];

    assert_eq!(vec, parser.get_snippets(&file_lines()));
}

#[test]
fn get_snippets_with_adding_snippets() {
    let mut parser = SnippetParser::read(PATH.to_string());
    let first_snip = Snippet::new("snippet1".to_string(), first_snip().to_string());
    let second_snip = Snippet::new("snippet2".to_string(), second_snip().to_string());
    let third_snip = Snippet::new("snippet3 with space".to_string(), third_snip().to_string());
    let fourth_snip = Snippet::new("snippet4 :)".to_string(), "Dancing in September".to_string());

    let vec: Vec<Snippet> = vec![first_snip, second_snip, third_snip, fourth_snip.clone()];
    parser.add_snippet(fourth_snip);

    let snippets = parser.get_snippets(&file_lines());

    assert_eq!(vec, snippets);
}

#[test]
fn get_snippets_only_manual_adding() {
    let mut parser = SnippetParser::new();
    let snippet = Snippet::new("Blackstar".to_string(), "I'm not a pornstar. I'm a blackstar".to_string());
    let snippet2 = Snippet::new("Rebel Rebel".to_string(), "Rebel Rebel, you've torn your dress\nRebel Rebel, your face is a mess.".to_string());

    parser.add_snippet(snippet.clone());
    parser.add_snippet(snippet2.clone());

    assert_eq!(vec![snippet, snippet2], parser.get_snippets(&Vec::new()))
}

#[test]
fn get_snippet() {
    let mut parser = SnippetParser::read(PATH.to_string());
    let first_snip = Snippet::new("snippet1".to_string(), first_snip().to_string());
    let man_snippet = Snippet::new("The day is my enemy".to_string(), "The day is my enemy\nthe night is my friend".to_string());
    parser.add_snippet(man_snippet.clone());

    assert_eq!(first_snip, parser.get_snippet(&file_lines(), "snippet1").unwrap());
    assert_eq!(man_snippet, parser.get_snippet(&file_lines(), "The day is my enemy").unwrap());
}

#[test]
fn to_string() {
    let mut parser = SnippetParser::read(PATH.to_string());
    let extra_snip = Snippet::new("Uprising".to_string(),
        "\
        Rise up and take the power back\n\
        It's time the fat cats had a heart attack".to_string()
    );
    parser.add_snippet(extra_snip);

    let file_contents = "\
    -- snippet1 --
Are we human?
Or are we dancer?
-- end --
-- snippet2 --
This is my church.
This is where I heal my hurts.
-- end --
-- snippet3 with space --
Never gonna give you up
Never gonna let you down
Never gonna run around and desert you

Never gonna make you cry
Never gonna say goodbye
Never gonna tell a lie and hurt you

-- end --
-- Uprising --
Rise up and take the power back
It's time the fat cats had a heart attack
-- end --
";
    assert_eq!(file_contents.to_string(), parser.to_string(&file_lines()));
}

#[test]
fn snippet_to_string_writes_one_block() {
    let s = Snippet::new("t".to_string(), "a\nb".to_string());
    assert_eq!("-- t --\na\nb\n-- end --", s.to_string());
}

#[test]
fn snippet_append_extends_text() {
    let mut s = Snippet::new("t".to_string(), "a".to_string());
    s.append("\nb");
    assert_eq!("a\nb", s.get_string());
    assert_eq!("t", s.get_title());
}

#[test]
fn snippet_error_keeps_message() {
    let e = snippet_rs::SnippetError::new("cannot open");
    assert_eq!("cannot open", e.message());
}

#[test]
fn two_blocks_then_exhaustion() {
    let lines = split_lines("-- a --\nL1\nL2\n-- end --\n-- b --\nOnly\n-- end --");
    let mut parser = SnippetParser::read("f".to_string());
    let mut pos: usize = 0;
    assert_eq!(Some(Snippet::new("a".to_string(), "L1\nL2".to_string())), parser.next_from(&lines, &mut pos));
    assert_eq!(Some(Snippet::new("b".to_string(), "Only".to_string())), parser.next_from(&lines, &mut pos));
    assert_eq!(None, parser.next_from(&lines, &mut pos));
}

#[test]
fn find_by_name_after_append() {
    let mut parser = SnippetParser::new();
    let x = Snippet::new("x".to_string(), "y".to_string());
    parser.add_snippet(x.clone());
    assert_eq!(Some(x), parser.get_snippet(&Vec::new(), "x"));
    assert_eq!(None, parser.get_snippet(&Vec::new(), "missing"));
}

#[test]
fn find_by_name_gives_first_of_equal_titles() {
    let mut parser = SnippetParser::read("f".to_string());
    parser.add_snippet(Snippet::new("a".to_string(), "later".to_string()));
    let lines = split_lines("-- a --\nfirst\n-- end --\n");
    assert_eq!(Some(Snippet::new("a".to_string(), "first".to_string())), parser.get_snippet(&lines, "a"));
    assert_eq!(None, parser.get_snippet(&lines, "A"));
}

#[test]
fn round_trip_through_text() {
    let blocks = vec![
        Snippet::new("one".to_string(), "x\ny".to_string()),
        Snippet::new("two words".to_string(), "".to_string()),
        Snippet::new("three".to_string(), "ends with newline\n".to_string()),
        Snippet::new("-".to_string(), "email--contact\n\nblank above".to_string()),
    ];
    let parser = SnippetParser::from_snippets(blocks.clone());
    let text = parser.to_string(&Vec::new());
    assert_eq!(blocks, parse_lines(&split_lines(&text)));
}

#[test]
fn appended_before_iteration_come_after_file() {
    let lines = split_lines("-- f1 --\nA\n-- end --\n-- f2 --\nB\n-- end --\n");
    let mut parser = SnippetParser::read("f".to_string());
    let m1 = Snippet::new("m1".to_string(), "1".to_string());
    let m2 = Snippet::new("m2".to_string(), "2".to_string());
    parser.add_snippet(m1.clone());
    parser.add_snippet(m2.clone());
    let mut pos: usize = 0;
    let mut got = Vec::new();
    for _ in 0..4 {
        got.push(parser.next_from(&lines, &mut pos).unwrap());
    }
    assert_eq!("f1", got[0].get_title());
    assert_eq!("f2", got[1].get_title());
    assert_eq!(m1, got[2]);
    assert_eq!(m2, got[3]);
    for _ in 0..5 {
        assert_eq!(None, parser.next_from(&lines, &mut pos));
    }
}

#[test]
fn append_during_replay_is_seen() {
    let lines = split_lines("-- f --\nA\n-- end --\n");
    let mut parser = SnippetParser::read("f".to_string());
    let m1 = Snippet::new("m1".to_string(), "1".to_string());
    parser.add_snippet(m1.clone());
    let mut pos: usize = 0;
    assert_eq!("f", parser.next_from(&lines, &mut pos).unwrap().get_title());
    assert_eq!(Some(m1), parser.next_from(&lines, &mut pos));
    assert!(!parser.is_streaming());
    let late = Snippet::new("late".to_string(), "z".to_string());
    parser.add_snippet(late.clone());
    assert_eq!(Some(late), parser.next_from(&lines, &mut pos));
    assert_eq!(None, parser.next_from(&lines, &mut pos));
}

#[test]
fn exhausted_stays_exhausted() {
    let mut parser = SnippetParser::new();
    let mut pos: usize = 0;
    let none: Vec<String> = Vec::new();
    for _ in 0..10 {
        assert_eq!(None, parser.next_from(&none, &mut pos));
    }
    assert_eq!(Step::End, parser.advance(None));
    assert_eq!(Step::End, parser.advance(Some("-- a --".to_string())));
}

#[test]
fn collect_all_is_unaffected_by_iteration() {
    let lines = file_lines();
    let mut parser = SnippetParser::read(PATH.to_string());
    parser.add_snippet(Snippet::new("m".to_string(), "1".to_string()));
    let before = parser.get_snippets(&lines);
    let mut pos: usize = 0;
    parser.next_from(&lines, &mut pos);
    parser.next_from(&lines, &mut pos);
    assert_eq!(before, parser.get_snippets(&lines));
    assert_eq!(before, parser.get_snippets(&lines));
    assert_eq!(4, before.len());
    assert_eq!(Some(Snippet::new("snippet3 with space".to_string(), third_snip().to_string())), parser.next_from(&lines, &mut pos));
}

#[test]
fn unterminated_block_is_dropped() {
    let lines = split_lines("-- a --\nx\n-- end --\n-- b --\nno end here\n");
    let got = parse_lines(&lines);
    assert_eq!(vec![Snippet::new("a".to_string(), "x".to_string())], got);
}

#[test]
fn text_before_first_start_line_is_skipped() {
    let got = parse_lines(&split_lines("plain\ntext\n-- a --\nx\n-- end --\n"));
    assert_eq!(vec![Snippet::new("a".to_string(), "x".to_string())], got);
}

#[test]
fn title_has_dashes_removed_and_is_trimmed() {
    let got = parse_lines(&split_lines("--  my -- title \t --\nbody\n-- end --"));
    assert_eq!(vec![Snippet::new("my  title".to_string(), "body".to_string())], got);
}

#[test]
fn end_marker_inside_a_line_ends_the_block() {
    let got = parse_lines(&split_lines("-- a --\nx\nsee -- end -- here\ny\n-- end --"));
    assert_eq!(vec![Snippet::new("a".to_string(), "x".to_string())], got);
}

#[test]
fn empty_block_has_empty_text() {
    let got = parse_lines(&split_lines("-- a --\n-- end --\n"));
    assert_eq!(vec![Snippet::new("a".to_string(), "".to_string())], got);
}

#[test]
fn split_lines_handles_line_endings() {
    assert_eq!(vec!["a".to_string(), "".to_string(), "b".to_string()], split_lines("a\r\n\nb"));
    assert_eq!(vec!["a".to_string()], split_lines("a\n"));
    assert_eq!(Vec::<String>::new(), split_lines(""));
    assert_eq!(vec!["a\rb".to_string(), "c\r".to_string()], split_lines("a\rb\nc\r"));
}

#[test]
fn advance_asks_for_lines_then_replays() {
    let mut parser = SnippetParser::read("f".to_string());
    parser.add_snippet(Snippet::new("m".to_string(), "1".to_string()));
    assert_eq!(Step::NeedLine, parser.advance(Some("-- a --".to_string())));
    assert_eq!(Step::NeedLine, parser.advance(Some("body".to_string())));
    assert_eq!(Step::Block(Snippet::new("a".to_string(), "body".to_string())), parser.advance(Some("-- end --".to_string())));
    assert_eq!(Step::Block(Snippet::new("m".to_string(), "1".to_string())), parser.advance(None));
    assert_eq!(Step::End, parser.advance(None));
    assert_eq!(Some("f"), parser.path());
}

#[test]
fn run_out_sequence_stays_run_out_after_adding() {
    let lines = split_lines("-- f --\nA\n-- end --\n");
    let mut parser = SnippetParser::read("f".to_string());
    let mut pos: usize = 0;
    assert_eq!("f", parser.next_from(&lines, &mut pos).unwrap().get_title());
    assert_eq!(None, parser.next_from(&lines, &mut pos));
    parser.add_snippet(Snippet::new("late".to_string(), "z".to_string()));
    parser.add_snippet(Snippet::new("later".to_string(), "w".to_string()));
    assert_eq!(None, parser.next_from(&lines, &mut pos));
    assert_eq!(Step::End, parser.advance(None));
    assert_eq!(3, parser.get_snippets(&lines).len());
}

#[test]
fn empty_parser_stays_run_out_after_adding() {
    let mut parser = SnippetParser::new();
    assert_eq!(Step::End, parser.advance(None));
    parser.add_snippet(Snippet::new("x".to_string(), "y".to_string()));
    assert_eq!(Step::End, parser.advance(None));
    let none: Vec<String> = Vec::new();
    let mut pos: usize = 0;
    assert_eq!(None, parser.next_from(&none, &mut pos));
    assert_eq!(Some(Snippet::new("x".to_string(), "y".to_string())), parser.get_snippet(&none, "x"));
}
