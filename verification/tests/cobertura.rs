use universal_devops_converter::error::Error;
use universal_devops_converter::formats::coverage::cobertura::{self, Ratio, read};
use universal_devops_converter::model::coverage::{Branch, CoverageDoc, FileCoverage};
use universal_devops_converter::registry::Doc;
use universal_devops_converter::warn::FormatCtx;

fn write(doc: &Doc, out: &mut Vec<u8>, ctx: &mut FormatCtx) -> Result<(), Error> {
    let ratios = cobertura::needed_ratios(doc)
        .into_iter()
        .map(|(covered, valid)| {
            let rate = if valid == 0 { 1.0 } else { covered as f64 / valid as f64 };
            Ratio {
                covered,
                valid,
                rate: format!("{rate:.4}"),
                percent: format!("{}", (rate * 100.0).round()),
            }
        })
        .collect();
    out.extend_from_slice(cobertura::write(doc, &ratios, ctx)?.as_bytes());
    Ok(())
}

const SAMPLE: &str = r#"<?xml version="1.0"?>
<!DOCTYPE coverage SYSTEM "http://cobertura.sourceforge.net/xml/coverage-04.dtd">
<coverage line-rate="0.66" branch-rate="0.5" timestamp="1700000000">
  <sources><source>/builds/acme</source></sources>
  <packages>
    <package name="src">
      <classes>
        <class name="src.main" filename="src/main.rs" line-rate="0.66">
          <methods>
            <method name="main" signature="()V">
              <lines><line number="10" hits="3"/></lines>
            </method>
          </methods>
          <lines>
            <line number="10" hits="3"/>
            <line number="11" hits="0"/>
            <line number="12" hits="3" branch="true" condition-coverage="50% (1/2)"/>
          </lines>
        </class>
      </classes>
    </package>
  </packages>
</coverage>
"#;

fn parse(input: &str) -> CoverageDoc {
    let mut ctx = FormatCtx::new(None);
    match read(input.as_bytes(), &mut ctx).unwrap() {
        Doc::Coverage(doc) => doc,
        _ => panic!("expected a coverage document"),
    }
}

#[test]
fn reads_lines_branches_methods_and_sources() {
    let doc = parse(SAMPLE);
    assert_eq!(doc.timestamp, Some(1_700_000_000));
    assert_eq!(doc.source_roots, vec!["/builds/acme".to_string()]);

    let file = &doc.files[0];
    assert_eq!(file.path, "src/main.rs");
    assert_eq!(file.lines_valid(), 3);
    assert_eq!(file.lines_covered(), 2);
    assert_eq!(
        file.branches(),
        Branch {
            covered: 1,
            total: 2
        }
    );
    assert_eq!(file.functions.len(), 1);
    assert_eq!(file.functions[0].line, Some(10));
    assert_eq!(file.functions[0].hits, 3);
    assert_eq!(file.functions[0].signature.as_deref(), Some("()V"));
}

#[test]
fn method_lines_do_not_leak_into_the_class_line_set() {
    // The method block repeats line 10; it must be counted once.
    assert_eq!(parse(SAMPLE).files[0].lines.len(), 3);
}

#[test]
fn branch_true_without_detail_becomes_a_single_uncovered_condition() {
    let doc = parse(
        r#"<coverage><packages><package name="p"><classes>
                 <class filename="a.rs"><lines>
                   <line number="1" hits="1" branch="true"/>
                 </lines></class></classes></package></packages></coverage>"#,
    );
    assert_eq!(
        doc.files[0].lines[0].branch,
        Some(Branch {
            covered: 0,
            total: 1
        })
    );
}

#[test]
fn cobertura_rejects_input_without_a_coverage_root() {
    let mut ctx = FormatCtx::new(None);
    assert!(read(b"<report/>", &mut ctx).is_err());
}

#[test]
fn cobertura_round_trips_through_the_writer() {
    let doc = parse(SAMPLE);
    let mut buffer = Vec::new();
    let mut ctx = FormatCtx::new(None);
    write(&Doc::Coverage(doc.clone()), &mut buffer, &mut ctx).unwrap();

    let again = parse(&String::from_utf8(buffer).unwrap());
    assert_eq!(again.files, doc.files);
}

#[test]
fn groups_files_into_packages_by_directory() {
    let mut doc = CoverageDoc::default();
    doc.files.push(FileCoverage::new("src/a.rs"));
    doc.files.push(FileCoverage::new("src/b.rs"));
    doc.files.push(FileCoverage::new("tests/c.rs"));
    doc.sort();

    let mut buffer = Vec::new();
    let mut ctx = FormatCtx::new(None);
    write(&Doc::Coverage(doc), &mut buffer, &mut ctx).unwrap();
    let xml = String::from_utf8(buffer).unwrap();

    assert_eq!(xml.matches("<package ").count(), 2);
    assert!(xml.contains(r#"<package name="src""#));
    assert!(xml.contains(r#"<package name="tests""#));
}

#[test]
fn a_directory_around_another_is_still_one_package() {
    let mut doc = CoverageDoc::default();
    for path in ["src/a.rs", "src/sub/b.rs", "src/z.rs"] {
        doc.files.push(FileCoverage::new(path));
    }
    doc.sort();

    let mut buffer = Vec::new();
    let mut ctx = FormatCtx::new(None);
    write(&Doc::Coverage(doc), &mut buffer, &mut ctx).unwrap();
    let xml = String::from_utf8(buffer).unwrap();

    assert_eq!(xml.matches("<package ").count(), 2, "{xml}");
    let (first, second) = xml.split_once(r#"<package name="src.sub""#).unwrap();
    assert!(first.contains(r#"<package name="src""#), "{xml}");
    assert!(first.contains(r#"filename="src/a.rs""#), "{xml}");
    assert!(first.contains(r#"filename="src/z.rs""#), "{xml}");
    assert!(second.contains(r#"filename="src/sub/b.rs""#), "{xml}");
}
