use flint::patch::{apply_to, parse, Change, Hunk, PatchError};

fn path() -> &'static str {
    "file.txt"
}

#[test]
fn an_added_file_carries_its_lines() {
    let changes = parse(
        "*** Begin Patch\n\
         *** Add File: hello.txt\n\
         +one\n\
         +two\n\
         *** End Patch\n",
    )
    .expect("parse");
    assert_eq!(
        changes,
        vec![Change::Add {
            path: "hello.txt".to_string(),
            content: "one\ntwo\n".to_string(),
        }]
    );
    assert_eq!(
        apply_to(&changes[0], path(), None).unwrap(),
        Some("one\ntwo\n".to_string())
    );
}

#[test]
fn text_before_the_patch_is_ignored() {
    let changes = parse(
        "Here is the patch you asked for:\n\
         *** Begin Patch\n\
         *** Delete File: gone.txt\n\
         *** End Patch\n",
    )
    .expect("parse");
    assert_eq!(
        changes,
        vec![Change::Delete {
            path: "gone.txt".to_string()
        }]
    );
}

#[test]
fn an_update_replaces_the_lines_it_names() {
    let changes = parse(
        "*** Begin Patch\n\
         *** Update File: file.txt\n\
         @@ fn main() @@\n\
         \x20let a = 1;\n\
         -let b = 2;\n\
         +let b = 3;\n\
         \x20let c = 4;\n\
         *** End Patch\n",
    )
    .expect("parse");
    assert_eq!(changes.len(), 1);
    let current = "let a = 1;\nlet b = 2;\nlet c = 4;\n";
    let out = apply_to(&changes[0], path(), Some(current))
        .expect("apply")
        .unwrap();
    assert_eq!(out, "let a = 1;\nlet b = 3;\nlet c = 4;\n");
}

#[test]
fn an_ambiguous_hunk_is_refused() {
    let changes = parse(
        "*** Begin Patch\n\
         *** Update File: file.txt\n\
         -same\n\
         +different\n\
         *** End Patch\n",
    )
    .expect("parse");
    let current = "same\nsame\n";
    let err = apply_to(&changes[0], path(), Some(current)).unwrap_err().message();
    assert!(err.contains("appears 2 times"), "{err}");
}

#[test]
fn a_hunk_that_does_not_match_says_so_and_names_the_hunk() {
    let changes = parse(
        "*** Begin Patch\n\
         *** Update File: file.txt\n\
         -not in the file\n\
         +whatever\n\
         *** End Patch\n",
    )
    .expect("parse");
    let err = apply_to(&changes[0], path(), Some("something else\n"))
        .unwrap_err()
        .message();
    assert!(err.contains("not in the file"), "{err}");
    assert!(err.contains("hunk 1 of file.txt"), "{err}");
}

#[test]
fn two_hunks_in_one_file_both_apply() {
    let changes = parse(
        "*** Begin Patch\n\
         *** Update File: file.txt\n\
         @@ first @@\n\
         -one\n\
         +ONE\n\
         @@ second @@\n\
         -three\n\
         +THREE\n\
         *** End Patch\n",
    )
    .expect("parse");
    let out = apply_to(&changes[0], path(), Some("one\ntwo\nthree\n"))
        .expect("apply")
        .unwrap();
    assert_eq!(out, "ONE\ntwo\nTHREE\n");
}

#[test]
fn a_blank_line_is_context() {
    let changes = parse(
        "*** Begin Patch\n\
         *** Update File: file.txt\n\
         -a\n\
         \n\
         -b\n\
         +c\n\
         *** End Patch\n",
    )
    .expect("parse");
    let out = apply_to(&changes[0], path(), Some("a\n\nb\n"))
        .expect("apply")
        .unwrap();
    assert_eq!(out, "\nc\n");

    assert!(
        apply_to(&changes[0], path(), Some("a\nb\n")).is_err(),
        "a hunk matched a file whose blank context line was missing"
    );
}

#[test]
fn more_than_one_file_is_one_patch() {
    let changes = parse(
        "*** Begin Patch\n\
         *** Add File: new.txt\n\
         +hello\n\
         *** Update File: old.txt\n\
         -before\n\
         +after\n\
         *** Delete File: dead.txt\n\
         *** End Patch\n",
    )
    .expect("parse");
    assert_eq!(changes.len(), 3);
    assert_eq!(changes[0].verb(), "add");
    assert_eq!(changes[1].verb(), "update");
    assert_eq!(changes[2].verb(), "delete");
}

#[test]
fn adding_a_file_that_exists_is_refused() {
    let changes = parse(
        "*** Begin Patch\n\
         *** Add File: file.txt\n\
         +one\n\
         *** End Patch\n",
    )
    .expect("parse");
    let err = apply_to(&changes[0], path(), Some("already here\n"))
        .unwrap_err()
        .message();
    assert!(err.contains("already exists"), "{err}");
}

#[test]
fn malformed_patches_are_refused_with_the_line_number() {
    for (label, text, expected) in [
        ("no start", "*** End Patch\n", "must start with"),
        ("no end", "*** Begin Patch\n*** Add File: x\n+1\n", "must end with"),
        ("empty", "*** Begin Patch\n*** End Patch\n", "the patch is empty"),
        (
            "unknown directive",
            "*** Begin Patch\n*** Frobnify File: x\n*** End Patch\n",
            "expected `*** Add File:`",
        ),
        (
            "add line without plus",
            "*** Begin Patch\n*** Add File: x\nplain\n*** End Patch\n",
            "must start with `+`",
        ),
        (
            "update with nothing",
            "*** Begin Patch\n*** Update File: x\n*** End Patch\n",
            "has no changes",
        ),
        (
            "hunk line without a marker",
            "*** Begin Patch\n*** Update File: x\nplain\n*** End Patch\n",
            "must start with `+`, `-` or a space",
        ),
        (
            "directive without a path",
            "*** Begin Patch\n*** Add File:\n+x\n*** End Patch\n",
            "needs a file path",
        ),
    ] {
        let err = parse(text).unwrap_err().message();
        assert!(
            err.contains(expected),
            "{label}: expected {expected:?}, got {err:?}"
        );
    }
}

// ---------------------------------------------------------------------------------------
// Further cases
// ---------------------------------------------------------------------------------------

#[test]
fn a_missing_final_newline_is_patched_like_a_present_one() {
    let changes = parse(
        "*** Begin Patch\n*** Update File: f\n-two\n+TWO\n*** End Patch\n",
    )
    .expect("parse");
    let with = apply_to(&changes[0], "f", Some("one\ntwo\n")).unwrap();
    let without = apply_to(&changes[0], "f", Some("one\ntwo")).unwrap();
    assert_eq!(with, without);
    assert_eq!(with, Some("one\nTWO\n".to_string()));
}

#[test]
fn a_hunk_keeps_its_old_and_new_lines() {
    let changes = parse(
        "*** Begin Patch\n*** Update File: f\n keep\n-old\n+new\n*** End Patch\n",
    )
    .expect("parse");
    match &changes[0] {
        Change::Update { path, hunks } => {
            assert_eq!(path, "f");
            assert_eq!(
                hunks,
                &vec![Hunk {
                    old: vec!["keep".to_string(), "old".to_string()],
                    new: vec!["keep".to_string(), "new".to_string()],
                }]
            );
        }
        other => panic!("expected an update, got {other:?}"),
    }
    assert_eq!(changes[0].path(), "f");
}

#[test]
fn deleting_and_updating_a_missing_file_are_refused() {
    let delete = parse("*** Begin Patch\n*** Delete File: d\n*** End Patch\n").unwrap();
    let err = apply_to(&delete[0], "d", None).unwrap_err();
    assert!(err.message().contains("does not exist"), "{}", err.message());
    assert_eq!(apply_to(&delete[0], "d", Some("x")).unwrap(), None);

    let update = parse("*** Begin Patch\n*** Update File: u\n-a\n+b\n*** End Patch\n").unwrap();
    let err = apply_to(&update[0], "u", None).unwrap_err();
    assert!(matches!(err, PatchError::UpdateMissing { .. }), "{err:?}");
}

#[test]
fn a_second_hunk_that_misses_is_named_by_its_number() {
    let changes = parse(
        "*** Begin Patch\n*** Update File: f\n@@\n-a\n+A\n@@\n-zzz\n+Z\n*** End Patch\n",
    )
    .unwrap();
    let err = apply_to(&changes[0], "f", Some("a\nb\n")).unwrap_err().message();
    assert!(err.contains("hunk 2 of f"), "{err}");
}
