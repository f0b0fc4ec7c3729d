use universal_devops_converter::error::Error;
use universal_devops_converter::formats::coverage::jacoco::{self, read};
use universal_devops_converter::model::coverage::{Branch, Counter, CoverageDoc, FileCoverage, Line};
use universal_devops_converter::registry::Doc;
use universal_devops_converter::warn::FormatCtx;

fn write(doc: &Doc, out: &mut Vec<u8>, ctx: &mut FormatCtx) -> Result<(), Error> {
    out.extend_from_slice(jacoco::write(doc, ctx)?.as_bytes());
    Ok(())
}

const SAMPLE: &str = r#"<?xml version="1.0" encoding="UTF-8"?>
<report name="acme">
  <package name="com/acme">
    <class name="com/acme/App" sourcefilename="App.java">
      <method name="main" desc="([Ljava/lang/String;)V" line="10">
        <counter type="INSTRUCTION" missed="0" covered="4"/>
      </method>
      <counter type="INSTRUCTION" missed="2" covered="4"/>
      <counter type="COMPLEXITY" missed="1" covered="1"/>
      <counter type="METHOD" missed="0" covered="1"/>
      <counter type="CLASS" missed="0" covered="1"/>
    </class>
    <sourcefile name="App.java">
      <line nr="10" mi="0" ci="4" mb="0" cb="0"/>
      <line nr="11" mi="2" ci="0" mb="0" cb="0"/>
      <line nr="12" mi="0" ci="3" mb="1" cb="1"/>
    </sourcefile>
  </package>
</report>
"#;

fn parse(input: &str) -> CoverageDoc {
    let mut ctx = FormatCtx::new(None);
    match read(input.as_bytes(), &mut ctx).unwrap() {
        Doc::Coverage(doc) => doc,
        _ => panic!("expected a coverage document"),
    }
}

#[test]
fn maps_package_and_sourcefile_to_a_path() {
    let doc = parse(SAMPLE);
    assert_eq!(doc.files.len(), 1);
    assert_eq!(doc.files[0].path, "com/acme/App.java");
}

#[test]
fn instruction_coverage_becomes_binary_hits() {
    let file = &parse(SAMPLE).files[0];
    assert_eq!(file.lines[0].hits, 1);
    assert_eq!(file.lines[1].hits, 0);
    assert_eq!(
        file.branches(),
        Branch {
            covered: 1,
            total: 2
        }
    );
}

#[test]
fn carries_bytecode_counters_and_method_hits() {
    let file = &parse(SAMPLE).files[0];
    assert_eq!(
        file.counters.instruction,
        Some(Counter {
            missed: 2,
            covered: 4
        })
    );
    assert_eq!(
        file.counters.complexity,
        Some(Counter {
            missed: 1,
            covered: 1
        })
    );
    assert_eq!(file.functions[0].name, "main");
    assert_eq!(file.functions[0].hits, 1);
}

#[test]
fn round_trips_lines_and_counters() {
    let doc = parse(SAMPLE);
    let mut buffer = Vec::new();
    let mut ctx = FormatCtx::new(None);
    write(&Doc::Coverage(doc.clone()), &mut buffer, &mut ctx).unwrap();

    let again = parse(&String::from_utf8(buffer).unwrap());
    assert_eq!(again.files[0].lines, doc.files[0].lines);
    assert_eq!(again.files[0].counters, doc.files[0].counters);
    assert!(ctx.warnings().is_empty(), "a JaCoCo source loses nothing");
}

#[test]
fn warns_when_hit_counts_have_to_be_flattened() {
    let mut doc = CoverageDoc::default();
    let mut file = FileCoverage::new("a.rs");
    file.lines.push(Line {
        number: 1,
        hits: 7,
        branch: None,
    });
    doc.files.push(file);

    let mut ctx = FormatCtx::new(None);
    write(&Doc::Coverage(doc), &mut Vec::new(), &mut ctx).unwrap();
    assert!(ctx.warnings().messages().iter().any(|w| w.contains("hit counter")));
}

#[test]
fn rejects_input_without_a_report_root() {
    let mut ctx = FormatCtx::new(None);
    assert!(read(b"<coverage/>", &mut ctx).is_err());
}

#[test]
fn every_directory_is_one_package() {
    let mut doc = CoverageDoc::default();
    for path in ["src/a.rs", "src/sub/b.rs", "src/z.rs"] {
        let mut file = FileCoverage::new(path);
        file.lines.push(Line {
            number: 1,
            hits: 1,
            branch: None,
        });
        doc.files.push(file);
    }
    doc.sort();

    let mut buffer = Vec::new();
    let mut ctx = FormatCtx::new(None);
    write(&Doc::Coverage(doc.clone()), &mut buffer, &mut ctx).unwrap();
    let xml = String::from_utf8(buffer).unwrap();

    assert_eq!(xml.matches("<package ").count(), 2, "{xml}");
    let (first, second) = xml.split_once(r#"<package name="src/sub""#).unwrap();
    assert!(first.contains(r#"<sourcefile name="a.rs""#), "{xml}");
    assert!(first.contains(r#"<sourcefile name="z.rs""#), "{xml}");
    assert!(second.contains(r#"<sourcefile name="b.rs""#), "{xml}");
    let again: Vec<String> = parse(&xml).files.into_iter().map(|f| f.path).collect();
    assert_eq!(again.len(), 3);
    assert!(doc.files.iter().all(|f| again.contains(&f.path)));
}
