use spellcheck::action::{Action, Correction, Finish, Step, TEMPORARY};
use spellcheck::bandaid::BandAid;
use spellcheck::interactive::{UserPicked, UserSelection};
use spellcheck::origin::ContentOrigin;
use spellcheck::patch::Patch;
use spellcheck::position::{LineColumn, Span};
use spellcheck::suggestion::{Suggestion, SuggestionSet};
use std::path::PathBuf;

fn span(start: (usize, usize), end: (usize, usize)) -> Span {
    Span {
        start: LineColumn { line: start.0, column: start.1 },
        end: LineColumn { line: end.0, column: end.1 },
    }
}

fn suggestion(at: Span, replacements: &[&str]) -> Suggestion {
    Suggestion {
        span: at,
        replacements: replacements.iter().map(|text| text.to_string()).collect(),
    }
}

fn bandaid(at: Span, content: &str) -> BandAid {
    BandAid { span: at, content: content.to_owned() }
}

fn source(path: &str) -> ContentOrigin {
    ContentOrigin::RustSourceFile(PathBuf::from(path))
}

fn markdown(path: &str) -> ContentOrigin {
    ContentOrigin::CommonMarkFile(PathBuf::from(path))
}

fn two_files() -> SuggestionSet {
    let mut set = SuggestionSet::new();
    set.append(
        source("src/lib.rs"),
        vec![
            suggestion(span((1, 4), (1, 7)), &["word", "ward"]),
            suggestion(span((2, 0), (2, 2)), &[]),
            suggestion(span((3, 1), (3, 1)), &["x"]),
        ],
    );
    set.append(markdown("README.md"), vec![suggestion(span((9, 0), (9, 3)), &["text"])]);
    set
}

#[test]
fn the_temporary_file_has_a_fixed_name() {
    assert_eq!(TEMPORARY, ".spellcheck.tmp");
}

#[test]
fn found_any_needs_a_count_above_zero() {
    assert!(Finish::MistakeCount(1).found_any());
    assert!(Finish::MistakeCount(usize::MAX).found_any());
    assert!(!Finish::MistakeCount(0).found_any());
    assert!(!Finish::Abort.found_any());
}

#[test]
fn origin_names_its_file() {
    assert_eq!(source("a/b.rs").into_path(), PathBuf::from("a/b.rs"));
    assert_eq!(markdown("docs/c.md").into_path(), PathBuf::from("docs/c.md"));
    assert_eq!(
        ContentOrigin::RustDocTest(PathBuf::from("src/d.rs"), span((4, 0), (8, 2))).into_path(),
        PathBuf::from("src/d.rs")
    );
}

#[test]
fn a_cloned_origin_names_the_same_file() {
    let origin = ContentOrigin::RustDocTest(PathBuf::from("src/d.rs"), span((4, 0), (8, 2)));
    let copy = origin.clone();
    assert_eq!(copy, origin);
    assert_eq!(origin.to_path_buf(), PathBuf::from("src/d.rs"));
    assert_eq!(copy.into_path(), PathBuf::from("src/d.rs"));
    assert_eq!(origin.into_path(), PathBuf::from("src/d.rs"));
}

#[test]
fn suggestion_sets_count_over_all_files() {
    assert_eq!(SuggestionSet::new().len(), 0);
    assert_eq!(SuggestionSet::new().total_count(), Some(0));
    let set = two_files();
    assert_eq!(set.per_file.len(), 2);
    assert_eq!(set.len(), 4);
    assert_eq!(set.total_count(), Some(4));
}

#[test]
fn append_keeps_the_order_of_files() {
    let set = two_files();
    assert_eq!(set.per_file[0].0, source("src/lib.rs"));
    assert_eq!(set.per_file[0].1.len(), 3);
    assert_eq!(set.per_file[1].0, markdown("README.md"));
    assert_eq!(set.per_file[1].1.len(), 1);
}

#[test]
fn first_replacement_is_the_first_of_the_list() {
    let at = span((1, 4), (1, 7));
    assert_eq!(
        suggestion(at, &["word", "ward"]).first_replacement(),
        Some(bandaid(at, "word"))
    );
    assert_eq!(suggestion(at, &["only"]).first_replacement(), Some(bandaid(at, "only")));
    assert_eq!(suggestion(at, &[]).first_replacement(), None);
}

#[test]
fn picked_edits_count_over_all_files() {
    let mut picked = UserPicked::new();
    assert_eq!(picked.total_count(), 0);
    assert_eq!(picked.checked_total_count(), Some(0));
    picked.append(source("a.rs"), vec![bandaid(span((1, 0), (1, 1)), "x")]);
    picked.append(source("b.rs"), vec![]);
    picked.append(
        source("c.rs"),
        vec![bandaid(span((1, 0), (1, 1)), "y"), bandaid(span((2, 0), (2, 0)), "z")],
    );
    assert_eq!(picked.total_count(), 3);
    assert_eq!(picked.checked_total_count(), Some(3));
    assert_eq!(picked.bandaids.len(), 3);
    assert_eq!(picked.bandaids[1].0, source("b.rs"));
}

#[test]
fn correct_file_normalises_every_edit_in_order() {
    let correction = Action::Fix.correct_file(
        PathBuf::from("src/lib.rs"),
        vec![bandaid(span((1, 0), (1, 0)), "in"), bandaid(span((1, 2), (1, 5)), "re")],
    );
    assert_eq!(
        correction,
        Correction {
            path: PathBuf::from("src/lib.rs"),
            patches: vec![
                Patch::Insert { insert_at: LineColumn { line: 1, column: 0 }, content: "in".to_owned() },
                Patch::Replace { replace_span: span((1, 2), (1, 5)), replacement: "re".to_owned() },
            ],
        }
    );
}

#[test]
fn write_changes_goes_to_the_file_of_the_origin() {
    let edits = vec![bandaid(span((1, 2), (1, 5)), "re")];
    let patches = vec![Patch::Replace { replace_span: span((1, 2), (1, 5)), replacement: "re".to_owned() }];
    for origin in [
        source("one.rs"),
        markdown("one.rs"),
        ContentOrigin::RustDocTest(PathBuf::from("one.rs"), span((1, 0), (5, 0))),
    ] {
        assert_eq!(
            Action::Reflow.write_changes_to_disk(origin, edits.clone()),
            Correction { path: PathBuf::from("one.rs"), patches: patches.clone() }
        );
    }
}

#[test]
fn correction_applies_its_patches_to_the_content() {
    let correction = Action::Fix.write_changes_to_disk(
        source("src/lib.rs"),
        vec![bandaid(span((1, 4), (1, 7)), "beta"), bandaid(span((2, 0), (2, 0)), "# ")],
    );
    let mut sink = Vec::new();
    correction.apply("The btea\ntitle 🐢\n", &mut sink);
    assert_eq!(String::from_utf8(sink).unwrap(), "The beta\n# title 🐢\n");
}

#[test]
fn correction_without_patches_keeps_the_content() {
    let correction = Action::Fix.write_changes_to_disk(source("src/lib.rs"), vec![]);
    let mut sink = Vec::new();
    correction.apply("as it was 🐠\n", &mut sink);
    assert_eq!(sink.as_slice(), "as it was 🐠\n".as_bytes());
}

#[test]
fn user_pick_is_written_file_by_file() {
    let mut picked = UserPicked::new();
    picked.append(source("a.rs"), vec![bandaid(span((1, 0), (1, 1)), "x")]);
    picked.append(markdown("b.md"), vec![]);
    picked.append(source("c.rs"), vec![bandaid(span((2, 0), (2, 0)), "z")]);
    let corrections = Action::Fix.write_user_pick_changes_to_disk(picked);
    assert_eq!(
        corrections,
        vec![
            Correction {
                path: PathBuf::from("a.rs"),
                patches: vec![Patch::Replace {
                    replace_span: span((1, 0), (1, 1)),
                    replacement: "x".to_owned()
                }],
            },
            Correction { path: PathBuf::from("b.md"), patches: vec![] },
            Correction {
                path: PathBuf::from("c.rs"),
                patches: vec![Patch::Insert {
                    insert_at: LineColumn { line: 2, column: 0 },
                    content: "z".to_owned()
                }],
            },
        ]
    );
}

#[test]
fn user_pick_of_nothing_touches_no_file() {
    assert_eq!(Action::Fix.write_user_pick_changes_to_disk(UserPicked::new()), vec![]);
    let mut picked = UserPicked::new();
    picked.append(source("a.rs"), vec![]);
    picked.append(source("b.rs"), vec![]);
    assert_eq!(Action::Fix.write_user_pick_changes_to_disk(picked), vec![]);
}

#[test]
fn check_counts_every_suggestion() {
    assert_eq!(Action::Check.check(&SuggestionSet::new()), Finish::MistakeCount(0));
    assert_eq!(Action::Check.check(&two_files()), Finish::MistakeCount(4));
}

#[test]
fn run_check_reports_and_writes_nothing() {
    assert_eq!(
        Action::Check.run(two_files()),
        Step::Report { suggestions: two_files(), finish: Finish::MistakeCount(4) }
    );
    assert_eq!(
        Action::Check.run(SuggestionSet::new()),
        Step::Report { suggestions: SuggestionSet::new(), finish: Finish::MistakeCount(0) }
    );
}

#[test]
fn run_fix_asks_for_the_pick() {
    assert_eq!(Action::Fix.run(two_files()), Step::Pick { suggestions: two_files() });
}

#[test]
fn run_reflow_accepts_every_first_replacement() {
    assert_eq!(
        Action::Reflow.run(two_files()),
        Step::Write {
            corrections: vec![
                Correction {
                    path: PathBuf::from("src/lib.rs"),
                    patches: vec![
                        Patch::Replace {
                            replace_span: span((1, 4), (1, 7)),
                            replacement: "word".to_owned()
                        },
                        Patch::Insert {
                            insert_at: LineColumn { line: 3, column: 1 },
                            content: "x".to_owned()
                        },
                    ],
                },
                Correction {
                    path: PathBuf::from("README.md"),
                    patches: vec![Patch::Replace {
                        replace_span: span((9, 0), (9, 3)),
                        replacement: "text".to_owned()
                    }],
                },
            ],
            finish: Finish::MistakeCount(4),
        }
    );
}

#[test]
fn run_reflow_of_nothing_writes_nothing() {
    assert_eq!(
        Action::Reflow.run(SuggestionSet::new()),
        Step::Write { corrections: vec![], finish: Finish::MistakeCount(0) }
    );
}

#[test]
fn resume_after_abort_touches_no_file() {
    let mut picked = UserPicked::new();
    picked.append(source("a.rs"), vec![bandaid(span((1, 0), (1, 1)), "x")]);
    assert_eq!(
        Action::Fix.resume(picked, UserSelection::Abort),
        Step::Write { corrections: vec![], finish: Finish::Abort }
    );
}

#[test]
fn resume_writes_what_was_picked() {
    let mut picked = UserPicked::new();
    picked.append(source("a.rs"), vec![bandaid(span((1, 0), (1, 1)), "x")]);
    picked.append(
        source("b.rs"),
        vec![bandaid(span((1, 0), (1, 0)), "y"), bandaid(span((4, 2), (5, 0)), "z")],
    );
    let expected = Action::Fix.write_user_pick_changes_to_disk(picked.clone());
    assert_eq!(expected.len(), 2);
    assert_eq!(
        Action::Fix.resume(picked, UserSelection::Apply),
        Step::Write { corrections: expected, finish: Finish::MistakeCount(3) }
    );
}

#[test]
fn resume_with_nothing_picked_concludes_with_zero() {
    let step = Action::Fix.resume(UserPicked::new(), UserSelection::Apply);
    assert_eq!(step, Step::Write { corrections: vec![], finish: Finish::MistakeCount(0) });
    match step {
        Step::Write { finish, .. } => assert!(!finish.found_any()),
        _ => unreachable!(),
    }
}

#[test]
fn reflow_from_suggestions_to_corrected_text() {
    let mut set = SuggestionSet::new();
    set.append(
        source("src/lib.rs"),
        vec![
            suggestion(span((1, 4), (1, 8)), &["quick", "quack"]),
            suggestion(span((1, 16), (1, 16)), &["- "]),
            suggestion(span((2, 0), (2, 3)), &[]),
        ],
    );
    let corrections = match Action::Reflow.run(set) {
        Step::Write { corrections, finish } => {
            assert_eq!(finish, Finish::MistakeCount(3));
            corrections
        }
        _ => unreachable!(),
    };
    assert_eq!(corrections.len(), 1);
    let mut sink = Vec::new();
    for correction in corrections {
        assert_eq!(correction.path, PathBuf::from("src/lib.rs"));
        correction.apply("the quikc brown 🦊\njmps\n", &mut sink);
    }
    assert_eq!(String::from_utf8(sink).unwrap(), "the quick brown - 🦊\njmps\n");
}
