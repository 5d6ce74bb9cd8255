use spellcheck::merge::apply_patches;
use spellcheck::patch::Patch;
use spellcheck::position::{LineColumn, Span};

fn verify_correction(text: &str, patches: Vec<Patch>, expected: &str) {
    let mut sink: Vec<u8> = Vec::with_capacity(1024);
    apply_patches(patches, text, &mut sink);
    assert_eq!(String::from_utf8_lossy(sink.as_slice()), expected);
}

/// The span that covers the columns `from..until` of `line`.
fn columns(line: usize, from: usize, until: usize) -> Span {
    assert!(from < until);
    Span {
        start: LineColumn { line, column: from },
        end: LineColumn { line, column: until - 1 },
    }
}

#[test]
fn patch_full() {
    let patches = vec![
        Patch::Replace {
            replace_span: Span {
                start: LineColumn { line: 1, column: 6 },
                end: LineColumn {
                    line: 2,
                    column: 12,
                },
            },
            replacement: "& Omega".to_owned(),
        },
        Patch::Insert {
            insert_at: LineColumn { line: 3, column: 0 },
            content: "Icecream truck".to_owned(),
        },
    ];
    verify_correction(
        "Alpha beta gamma\nzeta eta beta.\n",
        patches,
        "Alpha & Omega.\nIcecream truck",
    );
}

#[test]
fn patch_replace_1() {
    let bandaids = vec![Patch::Replace {
        replace_span: columns(1_usize, 0, 1),
        replacement: "Y".to_owned(),
    }];
    verify_correction("T🐠🐠U", bandaids, "Y🐠🐠U");
}

#[test]
fn patch_replace_2() {
    let bandaids = vec![Patch::Replace {
        replace_span: columns(1_usize, 1, 3),
        replacement: "Y".to_owned(),
    }];
    verify_correction("T🐠🐠U", bandaids, "TYU");
}

#[test]
fn patch_replace_3() {
    let bandaids = vec![Patch::Replace {
        replace_span: columns(1_usize, 3, 4),
        replacement: "Y".to_owned(),
    }];
    verify_correction("T🐠🐠U", bandaids, "T🐠🐠Y");
}

#[test]
fn patch_injection_1() {
    let patches = vec![Patch::Insert {
        insert_at: LineColumn {
            line: 1_usize,
            column: 0,
        },
        content: "Q".to_owned(),
    }];
    verify_correction("A🐢C", patches, "QA🐢C");
}

#[test]
fn patch_injection_2() {
    let patches = vec![Patch::Insert {
        insert_at: LineColumn {
            line: 1_usize,
            column: 2,
        },
        content: "Q".to_owned(),
    }];
    verify_correction("A🐢C", patches, "A🐢QC");
}

#[test]
fn patch_injection_3() {
    let patches = vec![Patch::Insert {
        insert_at: LineColumn {
            line: 1_usize,
            column: 3,
        },
        content: "Q".to_owned(),
    }];
    verify_correction("A🐢C", patches, "A🐢CQ");
}

fn insert(line: usize, column: usize, content: &str) -> Patch {
    Patch::Insert {
        insert_at: LineColumn { line, column },
        content: content.to_owned(),
    }
}

fn replace(start: (usize, usize), end: (usize, usize), replacement: &str) -> Patch {
    Patch::Replace {
        replace_span: Span {
            start: LineColumn { line: start.0, column: start.1 },
            end: LineColumn { line: end.0, column: end.1 },
        },
        replacement: replacement.to_owned(),
    }
}

#[test]
fn no_patch_leaves_the_buffer_unchanged() {
    verify_correction("", vec![], "");
    verify_correction("plain ascii\n", vec![], "plain ascii\n");
    verify_correction("T🐠🐠U\nß€\n\n", vec![], "T🐠🐠U\nß€\n\n");
}

#[test]
fn no_patch_is_the_identity_byte_for_byte() {
    let text = "a\u{e9}\u{20ac}\u{1f420}\r\n\tz";
    let mut sink: Vec<u8> = Vec::new();
    apply_patches(Vec::new(), text, &mut sink);
    assert_eq!(sink.as_slice(), text.as_bytes());
}

#[test]
fn what_the_sink_held_stays_in_front() {
    let mut sink: Vec<u8> = b"kept|".to_vec();
    apply_patches(vec![insert(1, 1, "-")], "ab", &mut sink);
    assert_eq!(sink.as_slice(), b"kept|a-b");
}

#[test]
fn insert_keeps_every_character_of_the_text() {
    verify_correction("Alpha beta\n", vec![insert(1, 6, "and ")], "Alpha and beta\n");
    verify_correction("one\ntwo\n", vec![insert(2, 0, "> ")], "one\n> two\n");
    verify_correction("one\ntwo\n", vec![insert(1, 3, "!")], "one!\ntwo\n");
}

#[test]
fn insert_into_an_empty_buffer() {
    verify_correction("", vec![insert(1, 0, "text")], "text");
    verify_correction("", vec![insert(7, 3, "text")], "text");
}

#[test]
fn insert_behind_the_end_of_a_line_lands_in_front_of_the_next_line() {
    verify_correction("ab\ncd", vec![insert(1, 9, "X")], "ab\nXcd");
}

#[test]
fn insert_behind_all_of_the_text_appends() {
    verify_correction("ab\ncd", vec![insert(2, 2, "X")], "ab\ncdX");
    verify_correction("ab\ncd", vec![insert(5, 0, "X")], "ab\ncdX");
}

#[test]
fn inserts_at_one_position_keep_their_order() {
    verify_correction(
        "A🐢C",
        vec![insert(1, 2, "Q"), insert(1, 2, "R"), insert(1, 2, "S")],
        "A🐢QRSC",
    );
    verify_correction("A🐢C", vec![insert(1, 0, "1"), insert(1, 0, "2")], "12A🐢C");
    verify_correction("A🐢C", vec![insert(1, 3, "1"), insert(1, 3, "2")], "A🐢C12");
}

#[test]
fn replace_removes_the_span_with_both_ends() {
    verify_correction("0123456789", vec![replace((1, 2), (1, 5), "-")], "01-6789");
    verify_correction("0123456789", vec![replace((1, 0), (1, 9), "")], "");
    verify_correction("ab\ncd\nef", vec![replace((1, 1), (2, 1), "_")], "a_\nef");
}

#[test]
fn replace_of_one_multi_byte_scalar_removes_only_that_scalar() {
    verify_correction("T🐠🐡U", vec![replace((1, 1), (1, 1), "")], "T🐡U");
    verify_correction("T🐠🐡U", vec![replace((1, 2), (1, 2), "<>")], "T🐠<>U");
    verify_correction("a\u{e9}\u{20ac}z", vec![replace((1, 1), (1, 1), "e")], "ae\u{20ac}z");
    verify_correction("a\u{e9}\u{20ac}z", vec![replace((1, 2), (1, 2), "E")], "a\u{e9}Ez");
}

#[test]
fn replaced_output_is_valid_utf8() {
    let mut sink: Vec<u8> = Vec::new();
    apply_patches(
        vec![replace((1, 1), (1, 2), "\u{1f422}"), insert(1, 4, "\u{e9}")],
        "T🐠🐡U\u{20ac}",
        &mut sink,
    );
    assert_eq!(String::from_utf8(sink).unwrap(), "T\u{1f422}U\u{e9}\u{20ac}");
}

#[test]
fn replace_that_ends_behind_all_of_the_text_drops_the_rest() {
    verify_correction("abc", vec![replace((1, 1), (9, 9), "X")], "aX");
}

#[test]
fn replace_that_starts_behind_all_of_the_text_appends() {
    verify_correction("abc", vec![replace((4, 0), (4, 2), "X")], "abcX");
}

#[test]
fn replace_that_ends_between_two_scalars_takes_the_next_one() {
    verify_correction("ab\ncd", vec![replace((1, 0), (1, 5), "X")], "Xd");
}

#[test]
fn two_replacements_that_end_between_the_same_scalars() {
    verify_correction(
        "ab\ncd\n",
        vec![replace((1, 0), (1, 7), "X"), replace((1, 8), (1, 9), "Y")],
        "XYd\n",
    );
}

#[test]
fn patches_of_both_kinds_in_order() {
    verify_correction(
        "fn mian() {\n    retrun 0;\n}\n",
        vec![
            insert(1, 0, "pub "),
            replace((1, 3), (1, 6), "main"),
            replace((2, 4), (2, 9), "return"),
            insert(4, 0, "// end\n"),
        ],
        "pub fn main() {\n    return 0;\n}\n// end\n",
    );
}

#[test]
fn insert_right_behind_a_replaced_span() {
    verify_correction(
        "abcdef",
        vec![replace((1, 1), (1, 2), "X"), insert(1, 3, "Y")],
        "aXYdef",
    );
}

#[test]
fn insert_in_front_of_a_replaced_span_at_the_same_position() {
    verify_correction(
        "abcdef",
        vec![insert(1, 1, "Y"), replace((1, 1), (1, 2), "X")],
        "aYXdef",
    );
}

#[test]
fn carriage_return_does_not_end_a_line() {
    verify_correction("a\r\nb", vec![insert(1, 2, "|")], "a\r|\nb");
    verify_correction("a\r\nb", vec![insert(2, 0, "|")], "a\r\n|b");
}

#[test]
fn a_long_text_is_merged_in_one_pass() {
    let lines = 20_000;
    let mut text = String::new();
    let mut expected = String::new();
    let mut patches = Vec::new();
    for line in 1..=lines {
        text.push_str("a 🐠 wrod here\n");
        if line % 2 == 0 {
            patches.push(replace((line, 4), (line, 7), "word"));
            expected.push_str("a 🐠 word here\n");
        } else {
            patches.push(insert(line, 0, "> "));
            expected.push_str("> a 🐠 wrod here\n");
        }
    }
    verify_correction(&text, patches, &expected);
}
