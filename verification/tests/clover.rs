use universal_devops_converter::error::Error;
use universal_devops_converter::formats::coverage::clover::{self, read};
use universal_devops_converter::model::coverage::{
    Branch, CoverageDoc, FileCoverage, Function, Line,
};
use universal_devops_converter::registry::Doc;
use universal_devops_converter::warn::FormatCtx;

fn write(doc: &Doc, out: &mut Vec<u8>, ctx: &mut FormatCtx) -> Result<(), Error> {
    out.extend_from_slice(clover::write(doc, ctx)?.as_bytes());
    Ok(())
}

const PHPUNIT: &str = r#"<?xml version="1.0" encoding="UTF-8"?>
<coverage generated="1719410000" clover="3.2.0">
  <project timestamp="1719410000" name="All files">
    <package name="App">
      <file name="/home/runner/work/acme/src/App/Main.php">
        <class name="Main" namespace="App">
          <metrics complexity="3" methods="1" coveredmethods="1" statements="2" coveredstatements="2"/>
        </class>
        <line num="12" type="method" name="run" visibility="public" complexity="2" crap="2" count="4"/>
        <line num="14" type="stmt" count="4"/>
        <line num="16" type="stmt" count="0"/>
        <line num="18" type="cond" truecount="1" falsecount="0"/>
        <metrics loc="20" ncloc="18" classes="1" methods="1" coveredmethods="1" conditionals="2" coveredconditionals="1" statements="2" coveredstatements="1" elements="5" coveredelements="3"/>
      </file>
    </package>
  </project>
</coverage>
"#;

fn parse(input: &str) -> CoverageDoc {
    let mut ctx = FormatCtx::new(None);
    match read(input.as_bytes(), &mut ctx).unwrap() {
        Doc::Coverage(doc) => doc,
        _ => panic!("expected a coverage document"),
    }
}

#[test]
fn reads_statements_methods_and_conditionals() {
    let doc = parse(PHPUNIT);
    assert_eq!(doc.timestamp, Some(1_719_410_000));
    assert_eq!(doc.files.len(), 1);

    let file = &doc.files[0];
    assert_eq!(file.path, "/home/runner/work/acme/src/App/Main.php");
    // The method line counts as an executable line too.
    assert_eq!(file.lines_valid(), 4);
    assert_eq!(file.lines_covered(), 3);
    assert_eq!(
        file.branches(),
        Branch {
            covered: 1,
            total: 2
        }
    );
    assert_eq!(file.functions.len(), 1);
    assert_eq!(file.functions[0].name, "run");
    assert_eq!(file.functions[0].hits, 4);
}

#[test]
fn prefers_the_path_attribute_that_jest_emits() {
    let doc = parse(
        r#"<coverage clover="3.2.0"><project><file name="index.js" path="/abs/src/index.js">
                 <line num="1" type="stmt" count="2"/>
               </file></project></coverage>"#,
    );
    assert_eq!(doc.files[0].path, "/abs/src/index.js");
}

#[test]
fn a_file_may_sit_directly_under_the_project() {
    let doc = parse(
        r#"<coverage clover="3.2.0"><project><file name="a.js">
                 <line num="1" type="stmt" count="1"/>
               </file></project></coverage>"#,
    );
    assert_eq!(doc.files.len(), 1);
}

#[test]
fn clover_rejects_input_without_a_coverage_root() {
    let mut ctx = FormatCtx::new(None);
    assert!(read(b"<report/>", &mut ctx).is_err());
}

#[test]
fn clover_round_trips_through_the_writer() {
    let doc = parse(PHPUNIT);
    let mut buffer = Vec::new();
    let mut ctx = FormatCtx::new(None);
    write(&Doc::Coverage(doc.clone()), &mut buffer, &mut ctx).unwrap();

    let again = parse(&String::from_utf8(buffer).unwrap());
    assert_eq!(again.files[0].lines, doc.files[0].lines);
    assert_eq!(again.files[0].functions, doc.files[0].functions);
    assert_eq!(again.timestamp, doc.timestamp);
}

#[test]
fn reports_branches_that_do_not_fit_two_outcomes() {
    let mut doc = CoverageDoc::default();
    let mut file = FileCoverage::new("a.rs");
    file.lines.push(Line {
        number: 1,
        hits: 3,
        branch: Some(Branch {
            covered: 1,
            total: 4,
        }),
    });
    doc.files.push(file);

    let mut ctx = FormatCtx::new(None);
    write(&Doc::Coverage(doc), &mut Vec::new(), &mut ctx).unwrap();
    assert!(ctx
        .warnings()
        .messages()
        .iter()
        .any(|m| m.contains("two outcomes")));
}

#[test]
fn metrics_agree_with_the_lines_above_them() {
    let doc = parse(PHPUNIT);
    let mut buffer = Vec::new();
    let mut ctx = FormatCtx::new(None);
    write(&Doc::Coverage(doc), &mut buffer, &mut ctx).unwrap();
    let xml = String::from_utf8(buffer).unwrap();

    // 2 stmt lines (one covered), 1 method (covered), 1 cond (1 of 2).
    assert!(xml.contains(r#"statements="2""#), "{xml}");
    assert!(xml.contains(r#"coveredstatements="1""#), "{xml}");
    assert!(xml.contains(r#"methods="1""#), "{xml}");
    assert!(xml.contains(r#"conditionals="2""#), "{xml}");
    assert!(xml.contains(r#"coveredconditionals="1""#), "{xml}");
}

#[test]
fn files_of_one_directory_share_a_package() {
    let mut doc = CoverageDoc::default();
    for path in ["src/a.rs", "src/sub/b.rs", "src/z.rs"] {
        doc.files.push(FileCoverage::new(path));
    }
    doc.sort();

    let mut buffer = Vec::new();
    let mut ctx = FormatCtx::new(None);
    write(&Doc::Coverage(doc), &mut buffer, &mut ctx).unwrap();
    let xml = String::from_utf8(buffer).unwrap();

    assert_eq!(xml.matches("<package ").count(), 2, "{xml}");
    let (first, second) = xml.split_once(r#"<package name="src.sub""#).unwrap();
    assert!(first.contains("a.rs") && first.contains("z.rs"), "{xml}");
    assert!(second.contains("b.rs"), "{xml}");
}

#[test]
fn totals_count_what_the_lines_say() {
    let mut doc = CoverageDoc::default();
    let mut file = FileCoverage::new("a.rs");
    file.lines.push(Line {
        number: 1,
        hits: 5,
        branch: Some(Branch {
            covered: 3,
            total: 4,
        }),
    });
    file.functions.push(Function {
        name: "nowhere".into(),
        signature: None,
        line: None,
        hits: 2,
    });
    doc.files.push(file);

    let mut buffer = Vec::new();
    let mut ctx = FormatCtx::new(None);
    write(&Doc::Coverage(doc), &mut buffer, &mut ctx).unwrap();
    let xml = String::from_utf8(buffer).unwrap();

    assert!(!xml.contains(r#"type="method""#), "{xml}");
    assert!(xml.contains(r#" methods="0""#), "{xml}");
    assert!(xml.contains(r#" coveredmethods="0""#), "{xml}");
    assert!(xml.contains(r#" conditionals="2""#), "{xml}");
    assert!(xml.contains(r#" coveredconditionals="2""#), "{xml}");
}
