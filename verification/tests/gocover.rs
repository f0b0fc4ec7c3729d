use universal_devops_converter::formats::coverage::gocover::{looks_like_import_path, read};
use universal_devops_converter::model::coverage::CoverageDoc;
use universal_devops_converter::registry::Doc;
use universal_devops_converter::warn::{FormatCtx, Warnings};

const PROFILE: &str = "\
mode: set
github.com/acme/proj/main.go:12.13,15.2 2 1
github.com/acme/proj/main.go:18.2,18.16 1 0
github.com/acme/proj/pkg/util.go:8.20,10.3 1 1
";

fn parse(input: &str) -> (CoverageDoc, Warnings) {
    let mut ctx = FormatCtx::new(None);
    let doc = match read(input.as_bytes(), &mut ctx).unwrap() {
        Doc::Coverage(doc) => doc,
        _ => panic!("expected a coverage document"),
    };
    (doc, ctx.into_warnings())
}

#[test]
fn expands_a_block_over_every_line_it_spans() {
    let (doc, _) = parse(PROFILE);
    assert_eq!(doc.files.len(), 2);

    let main = doc
        .files
        .iter()
        .find(|f| f.path.ends_with("main.go"))
        .unwrap();
    // 12..=15 covered, plus 18 uncovered.
    assert_eq!(main.lines_valid(), 5);
    assert_eq!(main.lines_covered(), 4);
    assert_eq!(main.lines.first().unwrap().number, 12);
    assert_eq!(main.lines.last().unwrap().number, 18);
}

#[test]
fn overlapping_blocks_keep_the_highest_count() {
    // `} else {` ends one block and starts another on the same line.
    let (doc, _) = parse("mode: count\nx/a.go:5.2,7.3 2 4\nx/a.go:7.3,9.4 1 9\n");
    let line = doc.files[0].lines.iter().find(|l| l.number == 7).unwrap();
    assert_eq!(line.hits, 9);
}

#[test]
fn says_that_import_paths_will_not_match_the_repository() {
    let (_, warnings) = parse(PROFILE);
    assert!(warnings.messages().iter().any(|m| m.contains("--strip-prefix")));
}

#[test]
fn stays_quiet_when_the_run_already_rewrites_paths() {
    let mut ctx = FormatCtx::new(None);
    ctx.set_path_rewriting(true);
    read(PROFILE.as_bytes(), &mut ctx).unwrap();
    assert!(
        !ctx.warnings()
            .messages()
            .iter()
            .any(|m| m.contains("--strip-prefix")),
        "warned about paths the user has already dealt with"
    );
}

#[test]
fn a_relative_path_is_not_mistaken_for_an_import_path() {
    assert!(looks_like_import_path("github.com/acme/proj/main.go"));
    assert!(!looks_like_import_path("internal/engine/engine.go"));
    assert!(!looks_like_import_path("main.go"));
}

#[test]
fn admits_the_range_approximation_and_the_set_mode() {
    let (_, warnings) = parse(PROFILE);
    assert!(warnings.messages().iter().any(|m| m.contains("closing braces")));
    assert!(warnings.messages().iter().any(|m| m.contains("`set` mode")));
}

#[test]
fn count_mode_carries_real_execution_counts() {
    let (doc, warnings) = parse("mode: count\nx/a.go:1.1,1.10 1 37\n");
    assert_eq!(doc.files[0].lines[0].hits, 37);
    assert!(!warnings.messages().iter().any(|m| m.contains("`set` mode")));
}

#[test]
fn rejects_a_profile_without_a_mode_header() {
    let mut ctx = FormatCtx::new(None);
    assert!(read(b"x/a.go:1.1,1.10 1 1\n", &mut ctx).is_err());
}

#[test]
fn rejects_an_unknown_mode() {
    let mut ctx = FormatCtx::new(None);
    let error = read(b"mode: sideways\nx/a.go:1.1,1.2 1 1\n", &mut ctx)
        .unwrap_err()
        .message();
    assert!(error.contains("unknown counting mode"), "{error}");
}

#[test]
fn rejects_a_header_with_no_blocks() {
    let mut ctx = FormatCtx::new(None);
    assert!(read(b"mode: set\n", &mut ctx).is_err());
}
