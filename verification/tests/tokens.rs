//! Tokens, placeholders and the layout of the assembled script.

use redis_lua::script::{ArgType, Args, Script};
use redis_lua::text::{numbered, parse_usize, trim_end};
use redis_lua::token::{
    byte_range, delimiter, fallback_span_pos, merge_operators, parse_pos, retokenizable,
    retokenize, span_pos, try_retokenize, Delimiter, Pos, Span, SpanInfo, Token, TokenAttr, TokenTree,
};

fn info(span: proc_macro2::Span, id: &mut usize) -> SpanInfo {
    *id += 1;
    SpanInfo {
        span: Span { id: *id },
        start: Pos::new(span.start().line, span.start().column),
        end: Pos::new(span.end().line, span.end().column),
        debug: format!("{:?}", span),
    }
}

fn convert(stream: proc_macro2::TokenStream, id: &mut usize) -> Vec<TokenTree> {
    let mut out = Vec::new();
    for tt in stream {
        out.push(match tt {
            proc_macro2::TokenTree::Group(g) => TokenTree::Group {
                delimiter: match g.delimiter() {
                    proc_macro2::Delimiter::Parenthesis => Delimiter::Parenthesis,
                    proc_macro2::Delimiter::Brace => Delimiter::Brace,
                    proc_macro2::Delimiter::Bracket => Delimiter::Bracket,
                    proc_macro2::Delimiter::None => Delimiter::Invisible,
                },
                info: info(g.span(), id),
                stream: convert(g.stream(), id),
            },
            other => TokenTree::Leaf { text: other.to_string(), info: info(other.span(), id) },
        });
    }
    out
}

fn trees(text: &str) -> Vec<TokenTree> {
    let stream: proc_macro2::TokenStream = text.parse().unwrap();
    convert(stream, &mut 0)
}

fn leaf(text: &str, id: usize, line: usize, from: usize, to: usize) -> TokenTree {
    TokenTree::Leaf {
        text: text.to_string(),
        info: SpanInfo {
            span: Span { id },
            start: Pos::new(line, from),
            end: Pos::new(line, to),
            debug: String::new(),
        },
    }
}

fn texts(tokens: &[Token]) -> Vec<String> {
    tokens.iter().map(|t| t.to_string()).collect()
}

#[test]
fn pos_moves_within_its_line() {
    let p = Pos::new(3, 7);
    assert_eq!((p.line, p.column), (3, 7));
    assert_eq!(p.left(), Pos::new(3, 6));
    assert_eq!(p.right(), Pos::new(3, 8));
    assert_eq!(Pos::new(3, 0).left(), Pos::new(3, 0));
    assert_eq!(Pos::new(3, usize::MAX).right(), Pos::new(3, usize::MAX));
}

#[test]
fn delimiters_have_their_texts() {
    assert_eq!(delimiter(Delimiter::Parenthesis), ("(".to_string(), ")".to_string()));
    assert_eq!(delimiter(Delimiter::Brace), ("{".to_string(), "}".to_string()));
    assert_eq!(delimiter(Delimiter::Bracket), ("[".to_string(), "]".to_string()));
    assert_eq!(delimiter(Delimiter::Invisible), (String::new(), String::new()));
}

#[test]
fn groups_are_flattened_with_markers_at_their_ends() {
    let tokens = retokenize(trees("f(a, b)")).into_vec();
    assert_eq!(texts(&tokens), vec!["f", "(", "a", ",", "b", ")"]);
    let open = &tokens[1];
    let close = &tokens[5];
    assert_eq!((open.start(), open.end()), (Pos::new(1, 1), Pos::new(1, 2)));
    assert_eq!((close.start(), close.end()), (Pos::new(1, 6), Pos::new(1, 7)));
    assert_eq!(open.span(), close.span());
    assert_eq!(open.tree(), open.span().id);
    assert_eq!((tokens[2].start(), tokens[2].end()), (Pos::new(1, 2), Pos::new(1, 3)));
}

#[test]
fn nested_groups_keep_source_order() {
    let tokens = retokenize(trees("t[{1}]")).into_vec();
    assert_eq!(texts(&tokens), vec!["t", "[", "{", "1", "}", "]"]);
}

#[test]
fn invisible_group_gives_empty_markers() {
    let inner = vec![leaf("x", 2, 1, 0, 1)];
    let group = TokenTree::Group {
        delimiter: Delimiter::Invisible,
        info: SpanInfo {
            span: Span { id: 1 },
            start: Pos::new(1, 0),
            end: Pos::new(1, 1),
            debug: String::new(),
        },
        stream: inner,
    };
    let tokens = retokenize(vec![group]).into_vec();
    assert_eq!(texts(&tokens), vec!["", "x", ""]);
}

#[test]
fn sigils_fuse_with_the_token_behind_them() {
    let tokens = retokenize(trees("return @x + $y + z")).into_vec();
    assert_eq!(texts(&tokens), vec!["return", "x", "+", "y", "+", "z"]);
    assert!(tokens[1].is_cap() && tokens[1].is_arg() && !tokens[1].is_var());
    assert!(tokens[3].is_var() && tokens[3].is_arg() && !tokens[3].is_cap());
    assert!(!tokens[5].is_arg());
    assert_eq!(tokens[1].attribute(), TokenAttr::Cap);
    assert_eq!(tokens[3].attribute(), TokenAttr::Var);
    assert_eq!(tokens[0].attribute(), TokenAttr::Plain);
    // the fused token keeps its own place, behind the sigil
    assert_eq!(tokens[1].start(), Pos::new(1, 8));
    assert!(tokens[1].is("x") && !tokens[1].is("@"));
}

#[test]
fn sigil_before_a_sigil_marks_it() {
    let tokens = retokenize(trees("@ @ x")).into_vec();
    assert_eq!(texts(&tokens), vec!["@", "x"]);
    assert!(tokens[0].is_cap());
    assert!(!tokens[1].is_arg());
}

#[test]
fn sigil_at_the_end_is_refused() {
    assert!(!retokenizable(&trees("return @")));
    assert!(try_retokenize(trees("return $")).is_none());
    // inside a group the closing marker follows, and is what gets marked
    let marked = try_retokenize(trees("f(@)")).unwrap().into_vec();
    assert_eq!(texts(&marked), vec!["f", "(", ")"]);
    assert!(marked[2].is_cap());
    assert!(retokenizable(&trees("return @x")));
    assert_eq!(try_retokenize(trees("return @x")).unwrap().len(), 2);
    assert!(Script::try_new(trees("return @"), true).is_none());
}

#[test]
fn tokens_are_equal_by_text_and_attribute() {
    let tokens = retokenize(trees("@x @x $x x")).into_vec();
    assert!(tokens[0] == tokens[1]);
    assert!(tokens[0] != tokens[2]);
    assert!(tokens[2] != tokens[3]);
    assert_ne!(tokens[0].start(), tokens[1].start());
}

#[test]
fn location_without_lines_is_placed_by_its_byte_range() {
    let bare = SpanInfo {
        span: Span { id: 9 },
        start: Pos::new(0, 0),
        end: Pos::new(0, 0),
        debug: "#0 bytes(3..7)".to_string(),
    };
    assert_eq!(span_pos(&bare), Some((Pos::new(1, 3), Pos::new(1, 7))));
    assert_eq!(fallback_span_pos(&bare), Some((Pos::new(1, 3), Pos::new(1, 7))));
    let tokens = retokenize(vec![TokenTree::Leaf { text: "x".to_string(), info: bare }]).into_vec();
    assert_eq!((tokens[0].start(), tokens[0].end()), (Pos::new(1, 3), Pos::new(1, 7)));

    let lines = SpanInfo {
        span: Span { id: 9 },
        start: Pos::new(2, 4),
        end: Pos::new(2, 5),
        debug: "#0 bytes(3..7)".to_string(),
    };
    assert_eq!(span_pos(&lines), Some((Pos::new(2, 4), Pos::new(2, 5))));
}

#[test]
fn location_without_lines_or_byte_range_is_refused() {
    let lost = SpanInfo {
        span: Span { id: 1 },
        start: Pos::new(0, 0),
        end: Pos::new(0, 0),
        debug: "Span".to_string(),
    };
    assert_eq!(span_pos(&lost), None);
    let tree = vec![TokenTree::Leaf { text: "x".to_string(), info: lost }];
    assert!(!retokenizable(&tree));
    assert!(try_retokenize(tree).is_none());
    let half = SpanInfo {
        span: Span { id: 1 },
        start: Pos::new(1, 0),
        end: Pos::new(0, 0),
        debug: String::new(),
    };
    assert!(Token::new("x".to_string(), &half).is_none());
    assert!(Token::new_delim("(".to_string(), &half, true).is_none());
}

#[test]
fn byte_range_is_found_in_debug_text() {
    assert_eq!(parse_pos("bytes(12..34)"), Some((12, 34)));
    assert_eq!(parse_pos("#5 bytes(0..1) and bytes(8..9)"), Some((0, 1)));
    assert_eq!(parse_pos("bytes(12.34)"), None);
    assert_eq!(parse_pos("bytes(..3)"), None);
    assert_eq!(parse_pos(""), None);
    assert_eq!(parse_pos("bytes(99999999999999999999999999..1)"), None);
    assert_eq!(parse_pos("bytes(007..010)"), Some((7, 10)));
}

#[test]
fn byte_range_needs_both_numbers() {
    assert_eq!(byte_range(Some((Some("3".to_string()), Some("7".to_string())))), Some((3, 7)));
    assert_eq!(byte_range(Some((Some("3".to_string()), None))), None);
    assert_eq!(byte_range(Some((None, Some("7".to_string())))), None);
    assert_eq!(byte_range(Some((Some("x".to_string()), Some("7".to_string())))), None);
    assert_eq!(byte_range(Some((Some("3".to_string()), Some("".to_string())))), None);
    assert_eq!(byte_range(None), None);
}

#[test]
fn numbers_are_read_as_the_host_reads_them() {
    assert_eq!(parse_usize("0"), Some(0));
    assert_eq!(parse_usize("+12"), Some(12));
    assert_eq!(parse_usize("0012"), Some(12));
    assert_eq!(parse_usize(""), None);
    assert_eq!(parse_usize("+"), None);
    assert_eq!(parse_usize("-1"), None);
    assert_eq!(parse_usize("12a"), None);
    assert_eq!(parse_usize("１２"), None);
    assert_eq!(parse_usize(&usize::MAX.to_string()), Some(usize::MAX));
    assert_eq!(parse_usize(&format!("{}0", usize::MAX)), None);
    assert_eq!(parse_usize("340282366920938463463374607431768211456"), None);
    for text in ["7", "+7", "", "+", "-7", "7 ", "99999999999999999999"] {
        assert_eq!(parse_usize(text), text.parse::<usize>().ok(), "{:?}", text);
    }
}

#[test]
fn numerals_and_trimming() {
    assert_eq!(numbered("ARGV[", 0, "]"), "ARGV[0]");
    assert_eq!(numbered("a", 10, ""), "a10");
    assert_eq!(numbered("", usize::MAX, ""), usize::MAX.to_string());
    assert_eq!(trim_end("a b \t\n"), "a b");
    assert_eq!(trim_end(" \u{a0}\u{3000}"), "");
    assert_eq!(trim_end("x\u{200b}"), "x\u{200b}");
    for text in ["", " ", "a", "a ", " a", "a\u{2028}", "a\u{85} b\u{1680}"] {
        assert_eq!(trim_end(text), text.trim_end(), "{:?}", text);
    }
}

#[test]
fn same_placeholder_is_registered_once() {
    let tokens = retokenize(trees("@x $x @x $y $x")).into_vec();
    let mut args = Args::new();
    let first = args.add(&tokens[0]);
    let var = args.add(&tokens[1]);
    let again = args.add(&tokens[2]);
    let other = args.add(&tokens[3]);
    let var_again = args.add(&tokens[4]);
    assert_eq!(args.args().len(), 3);
    assert_eq!(first.as_lua(), "__internal_from_args_0");
    assert_eq!(first.as_argv(), "ARGV[1]");
    assert_eq!(first.atype(), ArgType::Cap);
    assert_eq!(first.as_rust(), "x");
    assert_eq!(again.as_lua(), first.as_lua());
    assert_eq!(again.as_argv(), first.as_argv());
    assert_eq!(again.key().start(), tokens[0].start());
    assert_eq!(var.as_lua(), "__internal_from_args_1");
    assert_eq!(var.as_argv(), "ARGV[2]");
    assert_eq!(var.atype(), ArgType::Var);
    assert_eq!(var_again.as_argv(), "ARGV[2]");
    assert_eq!(other.as_lua(), "__internal_from_args_2");
    assert_eq!(other.as_argv(), "ARGV[3]");
}

#[test]
fn placeholders_are_numbered_in_order_of_first_occurrence() {
    let script = Script::new(trees("return $c + @a + $c + $b + @a"), true);
    let args = script.args();
    let names: Vec<&str> = args.iter().map(|a| a.as_rust()).collect();
    assert_eq!(names, vec!["c", "a", "b"]);
    for (i, arg) in args.iter().enumerate() {
        assert_eq!(arg.as_argv(), format!("ARGV[{}]", i + 1));
        assert_eq!(arg.as_lua(), format!("__internal_from_args_{}", i));
    }
    assert_eq!(
        script.script(),
        "return  __internal_from_args_0 +  __internal_from_args_1 +  __internal_from_args_0 +  \
         __internal_from_args_2 +  __internal_from_args_1"
    );
    assert_eq!(
        script.wrap(),
        format!(
            "local __internal_from_args_0 = ARGV[1]; local __internal_from_args_1 = ARGV[2]; \
             local __internal_from_args_2 = ARGV[3]; \n{}",
            script.script()
        )
    );
}

#[test]
fn eleventh_placeholder_has_two_digits() {
    let script = Script::new(trees("f($a, $b, $c, $d, $e, $f, $g, $h, $i, $j, $k)"), true);
    let args = script.args();
    assert_eq!(args.len(), 11);
    assert_eq!(args[10].as_lua(), "__internal_from_args_10");
    assert_eq!(args[10].as_argv(), "ARGV[11]");
    assert_eq!(args[9].as_argv(), "ARGV[10]");
}

#[test]
fn plain_script_keeps_its_tokens() {
    let script = Script::new(trees("return ARGV[1] + @x"), false);
    assert_eq!(script.script(), "return ARGV[1] +  x");
    assert_eq!(script.wrap(), "");
    assert!(script.args().is_empty());
}

#[test]
fn layout_follows_lines_and_columns() {
    let script = Script::new(trees("local a = 1\nlocal  b=a*2;\n\n    return b"), true);
    assert_eq!(script.script(), "local a = 1\nlocal  b=a*2;\nreturn b");
    assert_eq!(script.wrap(), "\nlocal a = 1\nlocal  b=a*2;\nreturn b");
    let empty = Script::new(Vec::new(), true);
    assert_eq!(empty.script(), "");
    assert_eq!(empty.wrap(), "\n");
    assert!(empty.range_to_span((0, 10)).is_empty());
}

#[test]
fn token_on_an_earlier_line_follows_without_a_gap() {
    let script = Script::new(vec![leaf("a", 1, 5, 0, 1), leaf("b", 2, 2, 9, 10)], true);
    assert_eq!(script.script(), "ab");
    let left = Script::new(vec![leaf("a", 1, 1, 4, 5), leaf("b", 2, 1, 2, 3)], true);
    assert_eq!(left.script(), "ab");
}

#[test]
fn white_space_at_the_end_is_cut_off() {
    let script = Script::new(vec![leaf("a", 1, 1, 0, 1), leaf("b \t", 2, 1, 3, 6)], true);
    assert_eq!(script.script(), "a  b");
    // the index still knows the offsets that were written
    assert_eq!(script.range_to_span((6, 6)), vec![Span { id: 2 }]);
}

#[test]
fn offsets_map_back_to_host_locations() {
    let script = Script::new(vec![leaf("a", 1, 1, 0, 1), leaf("b", 2, 1, 5, 6)], true);
    assert_eq!(script.script(), "a    b");
    let a = Span { id: 1 };
    let b = Span { id: 2 };
    assert_eq!(script.range_to_span((0, 0)), vec![a]);
    assert_eq!(script.range_to_span((1, 1)), vec![a]);
    assert_eq!(script.range_to_span((5, 5)), vec![b]);
    assert_eq!(script.range_to_span((6, 6)), vec![b]);
    assert_eq!(script.range_to_span((0, 6)), vec![a, a, b, b]);
    assert_eq!(script.range_to_span((1, 5)), vec![a, b]);
    assert_eq!(script.range_to_span((0, usize::MAX)), vec![a, a, b, b]);
    assert_eq!(script.range_to_span((7, usize::MAX)), Vec::<Span>::new());
    // between the two tokens, inside the blanks, nothing was written
    assert_eq!(script.range_to_span((2, 4)), Vec::<Span>::new());
    assert_eq!(script.range_to_span((3, 3)), Vec::<Span>::new());
    // a range whose end lies before its start is empty
    assert_eq!(script.range_to_span((5, 1)), Vec::<Span>::new());
}

#[test]
fn shared_boundary_belongs_to_the_later_token() {
    let script = Script::new(
        vec![leaf("a", 1, 1, 0, 1), leaf("+", 2, 1, 1, 2), leaf("b", 3, 1, 2, 3)],
        true,
    );
    assert_eq!(script.script(), "a+b");
    assert_eq!(
        script.range_to_span((0, 3)),
        vec![Span { id: 1 }, Span { id: 2 }, Span { id: 3 }, Span { id: 3 }]
    );
    assert_eq!(script.range_to_span((1, 2)), vec![Span { id: 2 }, Span { id: 3 }]);
}

#[test]
fn offsets_count_bytes() {
    let script = Script::new(vec![leaf("\"é\"", 1, 1, 0, 3), leaf("x", 2, 1, 4, 5)], true);
    assert_eq!(script.script(), "\"é\" x");
    assert_eq!(script.script().len(), 6);
    assert_eq!(script.range_to_span((4, 4)), vec![Span { id: 1 }]);
    assert_eq!(script.range_to_span((5, 5)), vec![Span { id: 2 }]);
    assert_eq!(script.range_to_span((6, 6)), vec![Span { id: 2 }]);
}

#[test]
fn placeholder_offsets_map_to_the_placeholder() {
    let script = Script::new(trees("return @x"), true);
    assert_eq!(script.script(), "return  __internal_from_args_0");
    let spans = script.range_to_span((8, 8));
    assert_eq!(spans.len(), 1);
    let whole = script.range_to_span((0, script.script().len()));
    assert_eq!(whole.first(), Some(&Span { id: 1 }));
    assert_eq!(whole.last(), Some(&spans[0]));
}

#[test]
fn every_offset_of_a_token_is_indexed() {
    let text = "local t = {1, 2}\nreturn redis.call(\"get\", KEYS[1]) .. @suffix";
    let script = Script::new(trees(text), true);
    let body = script.script().to_string();
    let tokens = retokenize(trees(text)).into_vec();
    let mut at = 0;
    for token in &tokens {
        let written = if token.is_arg() { "__internal_from_args_0".to_string() } else { token.to_string() };
        let begin = at + body[at..].find(&written).unwrap();
        let end = begin + written.len();
        for offset in begin..=end {
            assert!(!script.range_to_span((offset, offset)).is_empty(), "{}", offset);
        }
        assert_eq!(script.range_to_span((begin, begin)), vec![token.span()]);
        at = end;
    }
}

#[test]
fn layout_adds_white_space_only() {
    let text = "if redis.call(\"exists\", @key) == 1 then\n  return $n * 2\nend";
    let script = Script::new(trees(text), true);
    let mut written = String::new();
    for token in retokenize(trees(text)).into_vec() {
        if token.is("key") {
            written.push_str("__internal_from_args_0");
        } else if token.is("n") {
            written.push_str("__internal_from_args_1");
        } else {
            written.push_str(&token.to_string());
        }
    }
    let body: String = script.script().chars().filter(|c| !c.is_whitespace()).collect();
    let expected: String = written.chars().filter(|c| !c.is_whitespace()).collect();
    assert_eq!(body, expected);
}

#[test]
fn split_operators_are_joined_again() {
    let merged = merge_operators(retokenize(trees("a .. b == c = d . e"))).into_vec();
    assert_eq!(texts(&merged), vec!["a", "..", "b", "==", "c", "=", "d", ".", "e"]);
    assert_eq!((merged[1].start(), merged[1].end()), (Pos::new(1, 2), Pos::new(1, 4)));
    assert_eq!((merged[3].start(), merged[3].end()), (Pos::new(1, 7), Pos::new(1, 9)));
    assert!(!merged[1].is_arg());

    // halves that do not touch stay apart, and so do different halves
    let apart = merge_operators(retokenize(trees("a . . b = = c .= d"))).into_vec();
    assert_eq!(texts(&apart), vec!["a", ".", ".", "b", "=", "=", "c", ".", "=", "d"]);

    // from left to right, each half is joined once
    let three = merge_operators(retokenize(trees("a ... b ==== c"))).into_vec();
    assert_eq!(texts(&three), vec!["a", "..", ".", "b", "==", "==", "c"]);

    // a placeholder is never a half
    let marked = merge_operators(retokenize(trees("@.. $=="))).into_vec();
    assert_eq!(texts(&marked), vec![".", ".", "=", "="]);
    assert!(marked[0].is_cap() && marked[2].is_var());

    assert_eq!(merge_operators(retokenize(Vec::new())).len(), 0);
    assert_eq!(merge_operators(retokenize(trees("."))).len(), 1);

    let script = Script::assemble(merge_operators(retokenize(trees("return a .. b"))), true);
    assert_eq!(script.script(), "return a .. b");
    assert_eq!(script.range_to_span((9, 11)).len(), 3);
    assert_eq!(script.range_to_span((9, 9)), script.range_to_span((10, 10)));
}
