//! The laws of the library on concrete values, its edges, its errors and what it
//! has from outside.

use universal_devops_converter::convert::{
    blank, describe, describe_selection, resolve_output_format, Conversion,
};
use universal_devops_converter::detect::detect;
use universal_devops_converter::error::Error;
use universal_devops_converter::formats::coverage::{clover, cobertura, gocover, jacoco, lcov};
use universal_devops_converter::formats::quality::{codeclimate, sarif};
use universal_devops_converter::formats::sbom::{
    cyclonedx_json, cyclonedx_xml, spdx3_json, spdx_json,
};
use universal_devops_converter::formats::sbom::identifiers::{make_legal, Identifiers};
use universal_devops_converter::formats::security::{gitlab, trivy};
use universal_devops_converter::formats::tests::{junit, tap, trx};
use universal_devops_converter::hash::fingerprint;
use universal_devops_converter::json::Json;
use universal_devops_converter::listing::{list_formats, report_warnings, Style};
use universal_devops_converter::model::coverage::{
    Branch, Counter, Counters, CoverageDoc, FileCoverage, Function, Line,
};
use universal_devops_converter::model::findings::{
    Finding, FindingsDoc, Identifier, Severity, Tool,
};
use universal_devops_converter::model::sbom as sbom_model;
use universal_devops_converter::model::sbom::{
    version_at_least, Component, ComponentKind, Dependency, License, SbomDoc,
};
use universal_devops_converter::model::tests::{
    Outcome, Problem, TestCase, TestReport, TestSuite,
};
use universal_devops_converter::paths::{normalize, PathMapper};
use universal_devops_converter::registry::{find, formats, resolve, Category, Doc};
use universal_devops_converter::text::{parse_i64, parse_u32, parse_u64, signed_number};
use universal_devops_converter::warn::{FormatCtx, NoteKind, Warnings};
use universal_devops_converter::xml::escape;

fn ctx() -> FormatCtx {
    FormatCtx::new(None)
}

fn coverage(doc: Doc) -> CoverageDoc {
    match doc {
        Doc::Coverage(doc) => doc,
        _ => panic!("expected a coverage report"),
    }
}

fn findings(doc: Doc) -> FindingsDoc {
    match doc {
        Doc::Findings(doc) => doc,
        _ => panic!("expected findings"),
    }
}

fn tests(doc: Doc) -> TestReport {
    match doc {
        Doc::Tests(report) => report,
        _ => panic!("expected a test report"),
    }
}

fn line(number: u32, hits: u64) -> Line {
    Line { number, hits, branch: None }
}

fn file(path: &str, lines: Vec<Line>) -> FileCoverage {
    let mut file = FileCoverage::new(path);
    file.lines = lines;
    file
}

fn report(files: Vec<FileCoverage>) -> CoverageDoc {
    CoverageDoc { timestamp: None, source_roots: Vec::new(), files }
}

// ---------------------------------------------------------------------------
// Round trips
// ---------------------------------------------------------------------------

fn sample() -> CoverageDoc {
    let mut app = file(
        "com/acme/App.java",
        vec![
            line(3, 7),
            line(4, 0),
            Line { number: 5, hits: 2, branch: Some(Branch { covered: 1, total: 4 }) },
        ],
    );
    app.functions = vec![Function {
        name: "main".to_string(),
        signature: Some("()I".to_string()),
        line: Some(3),
        hits: 7,
    }];
    app.counters = Counters {
        instruction: Some(Counter { missed: 2, covered: 9 }),
        complexity: None,
        method: None,
        class: Some(Counter { missed: 0, covered: 1 }),
    };
    report(vec![app, file("Main.java", vec![line(1, 1)])])
}

#[test]
fn jacoco_keeps_lines_branches_and_the_counters_of_classes() {
    let text = jacoco::write(&Doc::Coverage(sample()), &mut ctx()).unwrap();
    let again = coverage(jacoco::read(text.as_bytes(), &mut ctx()).unwrap());
    assert_eq!(again.files.len(), 2);
    assert_eq!(again.files[0].path, "Main.java");
    let app = &again.files[1];
    assert_eq!(app.path, "com/acme/App.java");
    assert_eq!(app.lines[0], line(3, 1));
    assert_eq!(app.lines[1], line(4, 0));
    assert_eq!(
        app.lines[2],
        Line { number: 5, hits: 1, branch: Some(Branch { covered: 1, total: 4 }) }
    );
    assert_eq!(app.counters, sample().files[0].counters);
    assert_eq!(app.functions[0].name, "main");
    assert_eq!(app.functions[0].signature, Some("()I".to_string()));
    assert_eq!(app.functions[0].hits, 0);
}

#[test]
fn clover_folds_branches_into_two_outcomes() {
    let text = clover::write(&Doc::Coverage(sample()), &mut ctx()).unwrap();
    let again = coverage(clover::read(text.as_bytes(), &mut ctx()).unwrap());
    assert_eq!(again.timestamp, Some(0));
    assert_eq!(again.files[1].lines[0], line(3, 7));
    assert_eq!(again.files[1].lines[2].branch, Some(Branch { covered: 1, total: 2 }));
    assert_eq!(again.files[1].functions[0].hits, 7);
}

#[test]
fn a_tracefile_gives_back_hits_and_functions() {
    let text = lcov::write(&Doc::Coverage(sample()), &mut ctx()).unwrap();
    let again = coverage(lcov::read(text.as_bytes(), &Vec::new(), &mut ctx()).unwrap());
    assert_eq!(again.files[1].lines, sample().files[0].lines);
    assert_eq!(again.files[1].functions[0].name, "main");
    assert_eq!(again.files[1].functions[0].hits, 7);
}

fn finding(rule: &str, severity: Severity) -> Finding {
    let mut finding = Finding::new("Dangerous call", severity);
    finding.rule_id = Some(rule.to_string());
    finding.location.path = "src/app.py".to_string();
    finding.location.begin_line = Some(7);
    finding
}

fn found(list: Vec<Finding>) -> FindingsDoc {
    let mut doc = FindingsDoc::default();
    doc.findings = list;
    doc
}

#[test]
fn sarif_keeps_the_tool_and_what_the_first_finding_says_of_a_rule() {
    let mut first = finding("R1", Severity::Blocker);
    first.title = Some("Injection".to_string());
    first.help = Some("Do not".to_string());
    first.links = vec!["https://a.test".to_string(), "https://b.test".to_string()];
    first.categories = vec!["security".to_string()];
    let mut second = finding("R1", Severity::Minor);
    second.description = "Another".to_string();
    let mut doc = found(vec![first, second]);
    doc.tool = Some(Tool { name: "semgrep".to_string(), version: None, url: None });
    let log = sarif::write(&Doc::Findings(doc), &mut ctx()).unwrap();
    let mut reading = ctx();
    let again = findings(sarif::read(&log, &Vec::new(), &mut reading).unwrap());
    assert!(reading.warnings().is_empty());
    assert_eq!(again.tool.as_ref().unwrap().name, "semgrep");
    assert_eq!(again.findings.len(), 2);
    for finding in &again.findings {
        assert_eq!(finding.title, Some("Injection".to_string()));
        assert_eq!(finding.help, Some("Do not".to_string()));
        assert_eq!(finding.links, vec!["https://a.test".to_string()]);
        assert_eq!(finding.categories, vec!["security".to_string()]);
        assert_eq!(finding.location.end_line, Some(7));
        assert!(finding.fingerprint.is_some());
    }
    let ranks: Vec<Severity> = again.findings.iter().map(|f| f.severity).collect();
    assert!(ranks.contains(&Severity::Major) && ranks.contains(&Severity::Minor));
}

#[test]
fn a_sarif_log_without_findings_is_read_again() {
    let log = sarif::write(&Doc::Findings(FindingsDoc::default()), &mut ctx()).unwrap();
    let again = findings(sarif::read(&log, &Vec::new(), &mut ctx()).unwrap());
    assert!(again.findings.is_empty());
    assert_eq!(again.tool.unwrap().name, "udc");
}

#[test]
fn codeclimate_gives_back_rule_place_and_rank() {
    let doc = found(vec![finding("R1", Severity::Critical)]);
    let json = codeclimate::emit(&Doc::Findings(doc), &mut ctx(), false).unwrap();
    let again = findings(codeclimate::read(&json, &mut ctx()).unwrap());
    assert_eq!(again.findings[0].rule_id, Some("R1".to_string()));
    assert_eq!(again.findings[0].severity, Severity::Critical);
    assert_eq!(again.findings[0].location.begin_line, Some(7));
}

#[test]
fn cyclonedx_gives_back_every_component_and_narrows_an_unknown_kind() {
    let mut doc = SbomDoc::default();
    let mut known = Component::new("lodash");
    known.version = Some("4.17.21".to_string());
    known.supplier = Some("OpenJS".to_string());
    known.licenses = vec![License::Name("".to_string()), License::Id("MIT".to_string())];
    let mut asset = Component::new("keys");
    asset.kind = ComponentKind::CryptographicAsset;
    doc.components = vec![known, asset];
    doc.dependencies = vec![Dependency {
        bom_ref: "a".to_string(),
        depends_on: vec!["c".to_string(), "b".to_string()],
    }];
    let mut writing = FormatCtx::new(Some("1.4"));
    writing.set_version_requested(true);
    let json = cyclonedx_json::write(&Doc::Sbom(Box::new(doc)), &mut writing).unwrap();
    let again = match cyclonedx_json::read(&json, &mut ctx()).unwrap() {
        Doc::Sbom(doc) => *doc,
        _ => panic!("expected a bill of materials"),
    };
    assert_eq!(again.version, Some(1));
    assert_eq!(again.spec.as_ref().unwrap().version, "1.4");
    assert_eq!(again.components.len(), 2);
    assert_eq!(again.components[0].name, "keys");
    assert_eq!(again.components[0].kind, ComponentKind::Library);
    assert_eq!(again.components[1].supplier, Some("OpenJS".to_string()));
    assert_eq!(again.components[1].licenses, vec![License::Id("MIT".to_string())]);
    assert_eq!(again.dependencies[0].depends_on, vec!["b".to_string(), "c".to_string()]);
}

fn bill() -> SbomDoc {
    let mut doc = SbomDoc::default();
    let mut subject = Component::new("acme/api");
    subject.bom_ref = Some("root".to_string());
    subject.kind = ComponentKind::Application;
    let mut first = Component::new("lodash");
    first.bom_ref = Some("a".to_string());
    first.version = Some("4.17.21".to_string());
    first.purl = Some("pkg:npm/lodash@4.17.21".to_string());
    first.licenses = vec![License::Id("MIT".to_string())];
    first.supplier = Some("OpenJS".to_string());
    let mut second = Component::new("lodash");
    second.bom_ref = Some("b".to_string());
    doc.subject = Some(subject);
    doc.components = vec![first, second];
    doc.timestamp = Some("2026-06-26T12:00:00Z".to_string());
    doc.dependencies = vec![Dependency {
        bom_ref: "root".to_string(),
        depends_on: vec!["a".to_string(), "b".to_string(), "gone".to_string()],
    }];
    doc
}

fn sbom(doc: Doc) -> SbomDoc {
    match doc {
        Doc::Sbom(doc) => *doc,
        _ => panic!("expected a bill of materials"),
    }
}

#[test]
fn cyclonedx_xml_gives_back_every_component_and_edge() {
    let mut writing = FormatCtx::new(Some("1.6"));
    writing.set_version_requested(true);
    let text = cyclonedx_xml::write(&Doc::Sbom(Box::new(bill())), &mut writing).unwrap();
    let again = sbom(cyclonedx_xml::read(text.as_bytes(), &mut ctx()).unwrap());
    assert_eq!(again.spec.as_ref().unwrap().version, "1.6");
    assert_eq!(again.version, Some(1));
    assert_eq!(again.subject.as_ref().unwrap().name, "acme/api");
    assert_eq!(again.subject.as_ref().unwrap().kind, ComponentKind::Application);
    assert_eq!(again.components.len(), 2);
    assert!(again.components.contains(&bill().components[0]));
    assert_eq!(again.dependencies[0].depends_on.len(), 3);
    assert_eq!(again.timestamp, bill().timestamp);
}

#[test]
fn spdx_gives_back_every_package_under_a_new_name() {
    let mut writing = FormatCtx::new(Some("2.3"));
    writing.set_version_requested(true);
    let json = spdx_json::write(&Doc::Sbom(Box::new(bill())), &mut writing).unwrap();
    let mut reading = ctx();
    let again = sbom(spdx_json::read(&json, &mut reading).unwrap());
    assert!(reading.warnings().is_empty());
    assert_eq!(again.spec.as_ref().unwrap().version, "SPDX-2.3");
    assert_eq!(again.subject.as_ref().unwrap().name, "acme/api");
    assert_eq!(again.components.len(), 2);
    assert_ne!(again.components[0].bom_ref, again.components[1].bom_ref);
    let known = again.components.iter().find(|c| c.version.is_some()).unwrap();
    assert_eq!(known.purl, Some("pkg:npm/lodash@4.17.21".to_string()));
    assert_eq!(known.licenses, vec![License::Id("MIT".to_string())]);
    assert_eq!(known.supplier, Some("OpenJS".to_string()));
    assert_eq!(again.dependencies[0].depends_on.len(), 2);
    assert_eq!(again.tools[0].name, "udc");
}

#[test]
fn spdx_3_gives_back_every_package_with_its_license() {
    let json = spdx3_json::write(&Doc::Sbom(Box::new(bill())), &mut ctx()).unwrap();
    let mut reading = ctx();
    let again = sbom(spdx3_json::read(&json, &mut reading).unwrap());
    assert!(reading.warnings().is_empty());
    assert_eq!(again.spec.as_ref().unwrap().version, "3.0.1");
    assert_eq!(again.subject.as_ref().unwrap().name, "acme/api");
    assert_eq!(again.components.len(), 2);
    let known = again.components.iter().find(|c| c.version.is_some()).unwrap();
    assert_eq!(known.licenses, vec![License::Id("MIT".to_string())]);
    assert_eq!(again.dependencies[0].depends_on.len(), 2);
}

#[test]
fn spdx_3_without_a_subject_is_about_its_first_package() {
    let mut doc = bill();
    doc.subject = None;
    let json = spdx3_json::write(&Doc::Sbom(Box::new(doc)), &mut ctx()).unwrap();
    let again = sbom(spdx3_json::read(&json, &mut ctx()).unwrap());
    assert_eq!(again.subject.unwrap().version, Some("4.17.21".to_string()));
    assert_eq!(again.components.len(), 1);
}

/// Every character with a meaning in markup, beside entities that are none,
/// a multi-byte character and one outside the basic plane.
const MARKUP: &str = "a<b>&\"c'd &amp; &lt &#65; ]]> <!-- ? é=\u{1F600};/x.rs";

#[test]
fn markup_in_paths_and_names_survives_every_coverage_format() {
    let mut marked = file(MARKUP, vec![line(1, 1), line(2, 0)]);
    marked.functions =
        vec![Function { name: MARKUP.to_string(), signature: None, line: Some(1), hits: 1 }];
    let doc = Doc::Coverage(report(vec![marked]));
    let clover = clover::write(&doc, &mut ctx()).unwrap();
    let cobertura = cobertura::write(&doc, &Vec::new(), &mut ctx()).unwrap();
    let jacoco = jacoco::write(&doc, &mut ctx()).unwrap();
    for again in [
        clover::read(clover.as_bytes(), &mut ctx()).unwrap(),
        cobertura::read(cobertura.as_bytes(), &mut ctx()).unwrap(),
        jacoco::read(jacoco.as_bytes(), &mut ctx()).unwrap(),
    ] {
        let again = coverage(again);
        assert_eq!(again.files.len(), 1);
        assert_eq!(again.files[0].path, MARKUP);
        assert_eq!(again.files[0].lines, vec![line(1, 1), line(2, 0)]);
        assert_eq!(again.files[0].functions[0].name, MARKUP);
    }
}

#[test]
fn a_report_that_names_a_file_twice_is_read_again() {
    let doc = Doc::Coverage(report(vec![
        file("./a\u{1}.rs", vec![line(1, 1)]),
        file("./a\u{1}.rs", vec![line(1, 2)]),
    ]));
    let clover = clover::write(&doc, &mut ctx()).unwrap();
    let cobertura = cobertura::write(&doc, &Vec::new(), &mut ctx()).unwrap();
    let jacoco = jacoco::write(&doc, &mut ctx()).unwrap();
    for again in [
        clover::read(clover.as_bytes(), &mut ctx()),
        cobertura::read(cobertura.as_bytes(), &mut ctx()),
        jacoco::read(jacoco.as_bytes(), &mut ctx()),
    ] {
        assert_eq!(coverage(again.unwrap()).files[0].path, "a.rs");
    }
}

#[test]
fn a_file_without_a_path_is_not_read_again() {
    let doc = Doc::Coverage(report(vec![file("", vec![line(1, 1)])]));
    let clover = clover::write(&doc, &mut ctx()).unwrap();
    let cobertura = cobertura::write(&doc, &Vec::new(), &mut ctx()).unwrap();
    assert!(clover::read(clover.as_bytes(), &mut ctx()).is_err());
    assert!(cobertura::read(cobertura.as_bytes(), &mut ctx()).is_err());
}

#[test]
fn markup_in_attributes_and_texts_survives_junit() {
    let spread = format!("{MARKUP}\n\tand \u{7}more");
    let shown = format!("{MARKUP}\n\tand more");
    let problem = Problem {
        message: Some(spread.clone()),
        kind: Some(MARKUP.to_string()),
        detail: Some(spread.clone()),
    };
    let mut case = TestCase::new(MARKUP, Outcome::Failed(problem));
    case.system_out = Some(spread);
    let mut suite = TestSuite::new(MARKUP);
    suite.cases = vec![case];
    let mut written = TestReport::default();
    written.suites = vec![suite];
    let times = junit::Times {
        total: "0".to_string(),
        suites: vec![junit::SuiteTimes { total: "0".to_string(), cases: vec!["0".to_string()] }],
    };
    let text = junit::write(&Doc::Tests(written), &times, &mut ctx()).unwrap();
    let again = tests(junit::read(text.as_bytes(), &mut ctx()).unwrap());
    assert_eq!(again.suites[0].name, MARKUP);
    let case = &again.suites[0].cases[0];
    assert_eq!(case.name, MARKUP);
    assert_eq!(case.system_out, Some(shown.clone()));
    let problem = match &case.outcome {
        Outcome::Failed(problem) => problem,
        _ => panic!("expected a failure"),
    };
    assert_eq!(problem.message, Some(shown.clone()));
    assert_eq!(problem.kind, Some(MARKUP.to_string()));
    assert_eq!(problem.detail, Some(shown));
}

#[test]
fn jacoco_keeps_the_counters_of_a_file_without_functions() {
    let mut file = FileCoverage::new("src/Empty.java");
    file.counters.complexity = Some(Counter { missed: 2, covered: 5 });
    let mut doc = CoverageDoc::default();
    doc.files.push(file);
    let text = jacoco::write(&Doc::Coverage(doc), &mut ctx()).unwrap();
    let again = coverage(jacoco::read(text.as_bytes(), &mut ctx()).unwrap());
    let kept = again.files[0].counters.complexity.unwrap();
    assert_eq!((kept.missed, kept.covered), (2, 5));
    assert!(again.files[0].functions.is_empty());
}

#[test]
fn what_cyclonedx_xml_says_beyond_the_pivot_is_reported() {
    let text = r#"<bom xmlns="http://cyclonedx.org/schema/bom/1.5"><components>
        <component type="library"><name>a</name><pedigree><notes>fork</notes></pedigree>
          <evidence><identity/></evidence></component>
      </components><formulation/></bom>"#;
    let mut reading = ctx();
    cyclonedx_xml::read(text.as_bytes(), &mut reading).unwrap();
    let notices = reading.into_warnings();
    for word in ["formulation", "evidence", "pedigree"] {
        assert!(notices.messages().iter().any(|m| m.contains(word)), "{word}");
    }
}

#[test]
fn components_nested_in_cyclonedx_xml_become_dependencies() {
    let text = r#"<bom xmlns="http://cyclonedx.org/schema/bom/1.5"><components>
        <component type="library" bom-ref="outer"><name>outer</name><components>
          <component type="library" bom-ref="left"><name>left</name></component>
          <component type="library" bom-ref="right"><name>right</name></component>
        </components></component>
        <component type="library" bom-ref="beside"><name>beside</name></component>
      </components></bom>"#;
    let doc = sbom(cyclonedx_xml::read(text.as_bytes(), &mut ctx()).unwrap());
    assert_eq!(doc.components.len(), 4);
    assert_eq!(doc.dependencies.len(), 1);
    assert_eq!(doc.dependencies[0].bom_ref, "outer");
    assert_eq!(doc.dependencies[0].depends_on, vec!["left".to_string(), "right".to_string()]);
}

#[test]
fn the_path_of_a_component_decides_what_it_is_in_cyclonedx_xml() {
    let text = r#"<bom xmlns="http://cyclonedx.org/schema/bom/1.5"><metadata>
        <timestamp>2026-06-26T12:00:00Z</timestamp>
        <tools><components><component type="application"><name>scanner</name></component></components></tools>
        <component type="application" bom-ref="app"><components>
            <component type="library" bom-ref="left"><name>left</name></component>
            <component type="library" bom-ref="right"><name>right</name></component>
          </components>
          <name>app</name><version>2</version></component>
      </metadata><components>
        <component type="library" bom-ref="fork"><name>fork</name>
          <pedigree><ancestors>
            <component type="library" bom-ref="origin"><name>origin</name><version>0</version></component>
          </ancestors></pedigree>
          <evidence><licenses><license><id>GPL-2.0</id></license></licenses></evidence>
          <version>1</version></component>
        <component type="library" bom-ref="bare"/>
      </components></bom>"#;
    let mut reading = ctx();
    let doc = sbom(cyclonedx_xml::read(text.as_bytes(), &mut reading).unwrap());
    let subject = doc.subject.unwrap();
    assert_eq!((subject.name.as_str(), subject.version.as_deref()), ("app", Some("2")));
    let mut names: Vec<&str> = doc.components.iter().map(|c| c.name.as_str()).collect();
    names.sort();
    assert_eq!(names, ["", "fork", "left", "right"]);
    let fork = doc.components.iter().find(|c| c.name == "fork").unwrap();
    assert_eq!(fork.version.as_deref(), Some("1"));
    assert!(fork.licenses.is_empty());
    assert_eq!(doc.timestamp.as_deref(), Some("2026-06-26T12:00:00Z"));
    assert_eq!(doc.dependencies.len(), 1);
    assert_eq!(doc.dependencies[0].bom_ref, "app");
    assert_eq!(doc.dependencies[0].depends_on, vec!["left".to_string(), "right".to_string()]);
    let notices = reading.into_warnings();
    assert!(notices.messages().iter().any(|m| m.contains("2 nested component(s)")));
}

#[test]
fn components_at_any_depth_are_listed_in_cyclonedx_xml() {
    let text = r#"<bom xmlns="http://cyclonedx.org/schema/bom/1.5"><components>
        <component type="library" bom-ref="a"><name>a</name><components>
          <component type="library" bom-ref="b"><components>
            <component type="library" bom-ref="c"><name>c</name></component>
          </components><name>b</name></component>
        </components><description>outermost</description></component>
      </components></bom>"#;
    let mut reading = ctx();
    let doc = sbom(cyclonedx_xml::read(text.as_bytes(), &mut reading).unwrap());
    let names: Vec<&str> = doc.components.iter().map(|c| c.name.as_str()).collect();
    assert_eq!(names, ["a", "b", "c"]);
    assert_eq!(doc.components[0].description.as_deref(), Some("outermost"));
    let edges: Vec<(&str, &str)> = doc
        .dependencies
        .iter()
        .flat_map(|d| d.depends_on.iter().map(move |to| (d.bom_ref.as_str(), to.as_str())))
        .collect();
    assert_eq!(edges, [("a", "b"), ("b", "c")]);
    let notices = reading.into_warnings();
    assert!(notices.messages().iter().any(|m| m.contains("2 nested component(s)")));
}

#[test]
fn markup_in_a_bill_of_materials_survives_cyclonedx_xml() {
    let marked = || {
        let mut component = Component::new(MARKUP);
        component.bom_ref = Some(MARKUP.to_string());
        component.description = Some(MARKUP.to_string());
        component
    };
    let mut doc = bill();
    doc.components.push(marked());
    let mut writing = FormatCtx::new(Some("1.5"));
    writing.set_version_requested(true);
    let text = cyclonedx_xml::write(&Doc::Sbom(Box::new(doc)), &mut writing).unwrap();
    let again = sbom(cyclonedx_xml::read(text.as_bytes(), &mut ctx()).unwrap());
    assert!(again.components.contains(&marked()));
}

// ---------------------------------------------------------------------------
// Order and merging
// ---------------------------------------------------------------------------

#[test]
fn sorting_depends_on_what_there_is_and_not_on_its_order() {
    let mut a = report(vec![file("b.rs", vec![line(2, 1), line(1, 0)]), file("a.rs", vec![])]);
    let mut b = report(vec![file("a.rs", vec![]), file("b.rs", vec![line(1, 0), line(2, 1)])]);
    a.sort();
    b.sort();
    assert_eq!(a, b);
    assert_eq!(a.files[0].path, "a.rs");
    assert_eq!(a.files[1].lines[0].number, 1);
}

#[test]
fn a_merged_report_covers_what_either_side_covers() {
    let mut mine = report(vec![
        file("a.rs", vec![line(1, 0), line(2, 1), line(3, 0)]),
        file("b.rs", vec![line(1, 1)]),
    ]);
    let theirs = report(vec![
        file("a.rs", vec![line(1, 4), line(2, 1), line(9, 2)]),
        file("c.rs", vec![line(1, 0), line(2, 3)]),
    ]);
    assert_eq!((mine.lines_covered(), theirs.lines_covered()), (2, 4));
    mine.merge(theirs);
    // a.rs 1, 2 and 9, b.rs 1, c.rs 2: line 2 of a.rs counts once.
    assert_eq!(mine.lines_covered(), 5);
    assert_eq!(mine.lines_valid(), 7);
}

#[test]
fn merged_reports_add_their_hits_line_by_line() {
    let mut a = report(vec![file("a.rs", vec![line(1, 2), line(2, 0)])]);
    a.merge(report(vec![file("a.rs", vec![line(2, 3), line(4, 1)]), file("b.rs", vec![])]));
    assert_eq!(a.files.len(), 2);
    assert_eq!(a.files[0].lines, vec![line(1, 2), line(2, 3), line(4, 1)]);
}

#[test]
fn mapped_paths_that_meet_are_one_file() {
    let mapper = PathMapper::new(Some("/builds/acme"), &[]);
    let mut doc = report(vec![
        file("/builds/acme/src/a.rs", vec![line(1, 1)]),
        file("src/./a.rs", vec![line(1, 2)]),
    ]);
    doc.normalize_paths(&mapper);
    assert_eq!(doc.files.len(), 1);
    assert_eq!(doc.files[0].path, "src/a.rs");
    assert_eq!(doc.files[0].lines, vec![line(1, 3)]);
}

#[test]
fn merging_findings_drops_repetitions_only() {
    let mut a = found(vec![finding("R1", Severity::Major)]);
    a.merge(found(vec![finding("R1", Severity::Major), finding("R2", Severity::Major)]));
    assert_eq!(a.findings.len(), 2);
}

#[test]
fn reports_of_different_kinds_do_not_merge() {
    let mut doc = Doc::Coverage(report(vec![]));
    assert!(doc.merge(Doc::Findings(FindingsDoc::default())).is_err());
    assert!(doc.merge(Doc::Coverage(sample())).is_ok());
    assert_eq!(doc.as_coverage().unwrap().files.len(), 2);
    assert!(doc.as_tests().is_err() && doc.as_findings().is_err() && doc.as_sbom().is_err());
}

#[test]
fn a_fingerprint_does_not_move_with_its_line() {
    let mut here = finding("R1", Severity::Major);
    let mut there = finding("R1", Severity::Major);
    there.location.begin_line = Some(70);
    here.ensure_fingerprint();
    there.ensure_fingerprint();
    assert_eq!(here.fingerprint, there.fingerprint);
    let once = here.fingerprint.clone();
    here.ensure_fingerprint();
    assert_eq!(here.fingerprint, once);
}

#[test]
fn fingerprints_have_their_shape_and_keep_parts_apart() {
    let print = fingerprint(&["a", "b"]);
    assert_eq!(print.len(), 32);
    assert!(print.chars().all(|c| c.is_ascii_hexdigit() && !c.is_ascii_uppercase()));
    assert_ne!(print, fingerprint(&["ab", ""]));
}

#[test]
fn names_of_severities_and_kinds_read_back() {
    for severity in [
        Severity::Info,
        Severity::Minor,
        Severity::Major,
        Severity::Critical,
        Severity::Blocker,
    ] {
        assert_eq!(Severity::parse(severity.as_str()), Some(severity));
    }
    for kind in [
        ComponentKind::Application,
        ComponentKind::OperatingSystem,
        ComponentKind::DeviceDriver,
        ComponentKind::MachineLearningModel,
        ComponentKind::CryptographicAsset,
    ] {
        assert_eq!(ComponentKind::parse(kind.as_str()), Some(kind));
    }
    assert_eq!(ComponentKind::parse("gizmo"), None);
}

#[test]
fn later_versions_know_more_kinds() {
    assert_eq!(ComponentKind::Data.narrow_to("1.4"), (ComponentKind::Library, true));
    assert_eq!(ComponentKind::Data.narrow_to("1.5"), (ComponentKind::Data, false));
    assert_eq!(ComponentKind::Data.narrow_to("1.10"), (ComponentKind::Data, false));
    assert!(version_at_least("1.10", "1.9") && !version_at_least("1.9", "1.10"));
    assert!(version_at_least("1.6", "1.6"));
}

// ---------------------------------------------------------------------------
// Paths and texts
// ---------------------------------------------------------------------------

#[test]
fn normalizing_twice_changes_nothing_more() {
    for path in ["a\\b/../c", "/x//y/./z", "../up", "", "./", "C:\\a\\b"] {
        let once = normalize(path);
        assert_eq!(normalize(&once), once);
        assert!(!once.contains('\\'));
    }
    assert_eq!(normalize("a\\b/../c"), "a/c");
}

#[test]
fn normalized_paths_have_clean_segments() {
    assert_eq!(normalize("\\a\\.\\..\\b//c/"), "/b/c");
    assert_eq!(normalize("/../.."), "/");
    assert_eq!(normalize("a/../../b/./../c"), "../c");
    assert_eq!(normalize("./"), "");
}

#[test]
fn a_mapper_without_rules_changes_nothing() {
    for mapper in [PathMapper::new(None, &[]), PathMapper::new(None, &[".".to_string()])] {
        assert!(mapper.is_noop());
        for path in ["./a.rs", "a/./b", "a\\b", "/x//y", ""] {
            assert_eq!(mapper.map(path), path);
        }
    }
}

#[test]
fn absolute_paths_under_the_root_directory_become_relative() {
    let mapper = PathMapper::new(Some("/"), &[]);
    assert_eq!(mapper.map("/src/a.rs"), "src/a.rs");
    assert_eq!(mapper.map("\\src\\a.rs"), "src/a.rs");
    assert_eq!(mapper.map("src/a.rs"), "src/a.rs");
    assert_eq!(mapper.map("/"), "");
    let prefixed = PathMapper::new(None, &["/".to_string()]);
    assert_eq!(prefixed.map("/src/a.rs"), "src/a.rs");
}

#[test]
fn characters_that_xml_cannot_hold_are_dropped() {
    let text = "a\u{fffe}\u{ffff}\u{0}\u{b}\u{1f}\u{7f}b\t\r\n\u{fffd}\u{d7ff}\u{e000}\u{10ffff}";
    assert_eq!(escape(text), "ab\t\r\n\u{fffd}\u{d7ff}\u{e000}\u{10ffff}");
}

#[test]
fn every_spelling_of_an_algorithm_is_read_as_one() {
    for name in [
        "MD5", "SHA-1", "SHA-224", "SHA-256", "SHA-384", "SHA-512", "SHA3-256", "SHA3-384",
        "SHA3-512", "BLAKE2b-256", "BLAKE2b-384", "BLAKE2b-512", "BLAKE3",
    ] {
        assert_eq!(sbom_model::Hash::canonical_algorithm(name), name);
        assert_eq!(sbom_model::Hash::canonical_algorithm(&name.replace('-', "")), name);
        let third = spdx3_json::hash_algorithm(name).unwrap();
        assert_eq!(sbom_model::Hash::canonical_algorithm(third), name);
        assert_eq!(sbom_model::Hash::canonical_algorithm(&format!(" {third} ")), name);
    }
    assert_eq!(sbom_model::Hash::canonical_algorithm("whirlpool"), "WHIRLPOOL");
}

#[test]
fn spdx_3_gives_back_a_sha_3_hash() {
    let mut doc = bill();
    doc.components[0].hashes = vec![sbom_model::Hash::new("SHA3-256", "abc")];
    let json = spdx3_json::write(&Doc::Sbom(Box::new(doc)), &mut ctx()).unwrap();
    let again = sbom(spdx3_json::read(&json, &mut ctx()).unwrap());
    let known = again.components.iter().find(|c| c.version.is_some()).unwrap();
    assert_eq!(known.hashes, vec![sbom_model::Hash::new("SHA3-256", "abc")]);
    assert_eq!(known.hashes[0].algorithm, "SHA3-256");
}

#[test]
fn numbers_are_parsed_within_their_width() {
    assert_eq!(parse_u32("4294967295"), Some(u32::MAX));
    assert_eq!(parse_u32("4294967296"), None);
    assert_eq!(parse_u64("+7"), Some(7));
    assert_eq!(parse_u64("-7"), None);
    assert_eq!(parse_i64("-9223372036854775808"), Some(i64::MIN));
    assert_eq!(parse_i64("9223372036854775808"), None);
    assert_eq!(signed_number(i64::MIN), "-9223372036854775808");
}

// ---------------------------------------------------------------------------
// Readers
// ---------------------------------------------------------------------------

#[test]
fn blocks_that_share_a_line_keep_the_highest_count_in_any_order() {
    let one = "mode: count\na.go:1.1,2.2 1 5\na.go:2.3,3.1 1 9\n";
    let two = "mode: count\na.go:2.3,3.1 1 9\na.go:1.1,2.2 1 5\n";
    let a = coverage(gocover::read(one.as_bytes(), &mut ctx()).unwrap());
    let b = coverage(gocover::read(two.as_bytes(), &mut ctx()).unwrap());
    assert_eq!(a, b);
    assert_eq!(a.files[0].lines, vec![line(1, 5), line(2, 9), line(3, 9)]);
}

#[test]
fn a_run_that_bailed_out_is_never_green() {
    let text = "TAP version 13\nok 1 - adds\nBail out! no database\n";
    let report = tests(tap::read(text.as_bytes(), &mut ctx()).unwrap());
    assert!(report.failures() + report.errors() > 0);
}

#[test]
fn a_marked_assertion_does_not_fail() {
    let text = "1..2\nnot ok 1 - a # TODO later\nnot ok 2 - b # SKIP never\n";
    let report = tests(tap::read(text.as_bytes(), &mut ctx()).unwrap());
    assert_eq!(report.failures(), 0);
    assert_eq!(report.total(), 2);
}

#[test]
fn an_outcome_that_says_nothing_is_no_pass() {
    assert_eq!(trx::outcome_of(&Some("Passed".to_string())), Outcome::Passed);
    assert_ne!(trx::outcome_of(&Some("Inconclusive".to_string())), Outcome::Passed);
    assert_ne!(trx::outcome_of(&Some("gibberish".to_string())), Outcome::Passed);
    assert_ne!(trx::outcome_of(&None), Outcome::Passed);
}

#[test]
fn ranks_stay_apart_on_the_way_to_gitlab() {
    let names: Vec<&str> = [
        Severity::Info,
        Severity::Minor,
        Severity::Major,
        Severity::Critical,
        Severity::Blocker,
    ]
    .iter()
    .map(|s| gitlab::severity_of(*s))
    .collect();
    for i in 0..names.len() {
        for j in 0..i {
            assert_ne!(names[i], names[j]);
        }
    }
    assert_eq!(trivy::severity_of(&Some("CRITICAL".to_string())), Severity::Blocker);
    assert_eq!(gitlab::severity_of(Severity::Blocker), "Critical");
}

#[test]
fn a_fingerprint_becomes_a_uuid() {
    assert_eq!(
        gitlab::as_uuid("0123456789abcdef0123456789abcdef"),
        Some("01234567-89ab-cdef-0123-456789abcdef".to_string())
    );
    assert_eq!(gitlab::as_uuid("0123"), None);
}

#[test]
fn components_of_one_name_get_different_identifiers() {
    let mut first = Component::new("left pad");
    first.bom_ref = Some("a".to_string());
    let mut second = Component::new("left pad");
    second.bom_ref = Some("b".to_string());
    let mut ids = Identifiers::new(vec!["SPDXRef-DOCUMENT".to_string()]);
    ids.assign(&first, "SPDXRef-", "Package");
    ids.assign(&second, "SPDXRef-", "Package");
    let a = ids.resolve("a").unwrap().clone();
    let b = ids.resolve("b").unwrap().clone();
    assert_ne!(a, b);
    for name in [a, b] {
        let rest = name.strip_prefix("SPDXRef-").unwrap();
        assert!(rest.chars().all(|c| c.is_ascii_alphanumeric() || c == '.' || c == '-'));
    }
    assert_eq!(make_legal("@@@", "Package"), "Package");
}

// ---------------------------------------------------------------------------
// The registry and conversions
// ---------------------------------------------------------------------------

#[test]
fn sharing_a_category_is_mutual() {
    for a in formats() {
        for b in formats() {
            assert_eq!(a.shared_category(&b).is_some(), b.shared_category(&a).is_some());
        }
    }
}

#[test]
fn a_selection_resolves_to_itself() {
    for format in formats() {
        let bare = resolve(format.id).unwrap();
        assert_eq!(bare.spec.id, format.id);
        assert_eq!(bare.version, format.default_version);
        let again = resolve(&describe_selection(&bare)).unwrap();
        assert_eq!(again.spec.id, bare.spec.id);
        assert_eq!(again.version, bare.version);
        for name in &format.aliases {
            assert_eq!(find(&name.to_uppercase()).unwrap().id, format.id);
        }
    }
    assert_eq!(resolve(" Trivy@ 2 ").unwrap().version, Some("2"));
}

#[test]
fn every_supported_format_with_a_mark_is_detected() {
    for (input, id) in [
        ("<TestRun xmlns=\"http://microsoft.com/schemas/VisualStudio/TeamTest/2010\"/>", "trx"),
        ("{\"SchemaVersion\": 2, \"Results\": []}", "trivy-json"),
        ("mode: set\nexample.com/a.go:1.1,2.2 1 1\n", "go-coverprofile"),
    ] {
        let format = detect(input.as_bytes(), "input").unwrap();
        assert_eq!(format.id, id);
        assert!(format.read.is_some());
    }
}

#[test]
fn a_selected_version_is_one_that_the_format_knows() {
    for format in formats() {
        for version in &format.versions {
            let selection = resolve(&format!("{}@{version}", format.id)).unwrap();
            assert_eq!(selection.ctx().version(), Some(*version));
            assert!(selection.ctx().version_requested());
        }
        assert_eq!(resolve(format.id).unwrap().ctx().version(), format.default_version);
        for alias in &format.aliases {
            assert_eq!(find(alias).unwrap().id, format.id);
        }
    }
}

#[test]
fn conversions_stay_within_a_category() {
    let plan = Conversion::plan(
        &Some("junit".to_string()),
        &"auto".to_string(),
        &None,
        &Vec::new(),
    )
    .unwrap();
    assert!(plan.origin(b"TN:\nSF:a.rs\nend_of_record\n", "-").is_err());
    assert!(plan.origin(b"<testsuites/>", "-").is_ok());
}

#[test]
fn notices_survive_being_absorbed() {
    let mut all = Warnings::new();
    all.lossy("a was dropped");
    let mut more = Warnings::new();
    more.degraded("b was rounded");
    more.lossy("a was dropped");
    all.absorb(more);
    let messages = all.messages();
    assert!(messages.contains(&"a was dropped".to_string()));
    assert!(messages.contains(&"b was rounded".to_string()));
    assert_eq!(all.notes()[0].kind, NoteKind::Lossy);
    let lines = report_warnings(&all, Style { color: false });
    assert!(lines.iter().any(|l| l.contains("b was rounded")));
}

#[test]
fn an_array_is_never_guessed_at() {
    for text in ["[]", "  [1]", "[{\"check_name\": \"x\"}]"] {
        assert!(matches!(detect(text.as_bytes(), "input"), Err(Error::Detect(_))));
    }
}

#[test]
fn blank_inputs_and_standard_input_are_told() {
    assert!(blank(b" \t\r\n"));
    assert!(!blank(b" x"));
    assert_eq!(describe("report.xml"), "'report.xml'");
    assert_eq!(describe("-"), "stdin");
}

// ---------------------------------------------------------------------------
// Errors
// ---------------------------------------------------------------------------

#[test]
fn every_error_has_its_text() {
    assert_eq!(Error::Io("gone".to_string()).message(), "I/O error: gone");
    assert_eq!(Error::config("no target").message(), "no target");
    assert_eq!(Error::parse("lcov", "empty").message(), "cannot parse lcov input: empty");
    assert_eq!(
        Error::Detect("what is this".to_string()).message(),
        "cannot detect the input format: what is this"
    );
    assert_eq!(
        Error::Strict { count: 3 }.message(),
        "conversion is lossy and --strict is set (3 warning(s), see above)"
    );
}

#[test]
fn every_error_has_an_input_that_gives_it() {
    assert!(matches!(resolve_output_format(&None), Err(Error::Config(_))));
    assert!(matches!(find("nope"), Err(Error::Config(_))));
    assert!(matches!(
        lcov::read(b"no records here", &Vec::new(), &mut ctx()),
        Err(Error::Parse { .. })
    ));
    assert!(matches!(detect(b"gibberish", "input"), Err(Error::Detect(_))));
    assert!(matches!(
        lcov::write(&Doc::Findings(FindingsDoc::default()), &mut ctx()),
        Err(Error::Config(_))
    ));
    let mut plan = Conversion::plan(
        &Some("jacoco".to_string()),
        &"lcov".to_string(),
        &None,
        &Vec::new(),
    )
    .unwrap();
    let bytes = b"SF:a.rs\nDA:1,5\nend_of_record\n";
    let (origin, reader) = plan.origin(bytes, "-").unwrap();
    let input = universal_devops_converter::convert::Input {
        bytes: bytes.to_vec(),
        json: Ok(Json::Null),
        events: Vec::new(),
        counts: Vec::new(),
        scores: Vec::new(),
    };
    plan.read(&origin, reader, &input).unwrap();
    plan.settle().unwrap();
    let times = junit::Times { total: String::new(), suites: Vec::new() };
    plan.write(&Vec::new(), &times).unwrap();
    assert!(plan.conclude(false).is_ok());
    assert!(matches!(plan.conclude(true), Err(Error::Strict { count: 2 })));
}

// ---------------------------------------------------------------------------
// What comes from outside
// ---------------------------------------------------------------------------

#[test]
fn entities_in_attributes_and_texts_are_resolved() {
    let xml = "<testsuites><testsuite name=\"a &amp; b\"><testcase name=\"x\">\
               <failure message=\"1 &lt; 2\">t &gt; u</failure></testcase>\
               </testsuite></testsuites>";
    let report = tests(junit::read(xml.as_bytes(), &mut ctx()).unwrap());
    assert_eq!(report.suites[0].name, "a & b");
    match &report.suites[0].cases[0].outcome {
        Outcome::Failed(problem) => {
            assert_eq!(problem.message, Some("1 < 2".to_string()));
            assert_eq!(problem.detail, Some("t > u".to_string()));
        }
        _ => panic!("expected a failure"),
    }
}

#[test]
fn broken_markup_is_refused() {
    assert!(matches!(
        junit::read(b"<testsuites></wrong>", &mut ctx()),
        Err(Error::Parse { .. })
    ));
}

#[test]
fn bytes_that_are_no_text_are_replaced() {
    let mut bytes = b"SF:a".to_vec();
    bytes.push(0xff);
    bytes.extend_from_slice(b".rs\nDA:1,1\nend_of_record\n");
    let doc = coverage(lcov::read(&bytes, &Vec::new(), &mut ctx()).unwrap());
    assert_eq!(doc.files[0].path, "a\u{fffd}.rs");
    let valid = "SF:\u{e9}t\u{e9}.rs\nDA:1,1\nend_of_record\n";
    let doc = coverage(lcov::read(valid.as_bytes(), &Vec::new(), &mut ctx()).unwrap());
    assert_eq!(doc.files[0].path, "\u{e9}t\u{e9}.rs");
}

#[test]
fn categories_are_listed_in_upper_case() {
    let lines = list_formats(Some(Category::Coverage), Style { color: false }).unwrap();
    assert!(lines.iter().any(|l| l.contains("COVERAGE")));
}

#[test]
fn a_tag_names_a_cwe_in_upper_case() {
    let mut tagged = finding("R1", Severity::Major);
    tagged.identifiers = vec![Identifier {
        kind: "cwe".to_string(),
        value: "cwe-79".to_string(),
        url: None,
    }];
    let log = sarif::write(&Doc::Findings(found(vec![tagged])), &mut ctx()).unwrap();
    let again = findings(sarif::read(&log, &Vec::new(), &mut ctx()).unwrap());
    assert_eq!(again.findings[0].identifiers[0].value, "CWE-79");
}

/// Licenses sort by their quoted form, in which a quotation mark is escaped and
/// so comes behind a letter in upper case.
#[test]
fn licenses_sort_by_their_quoted_form() {
    let mut component = Component::new("x");
    component.licenses =
        vec![License::Id("a\"".to_string()), License::Id("a!".to_string())];
    let mut doc = SbomDoc::default();
    doc.components = vec![component];
    doc.sort();
    assert_eq!(
        doc.components[0].licenses,
        vec![License::Id("a!".to_string()), License::Id("a\"".to_string())]
    );
    let mut component = Component::new("x");
    component.licenses =
        vec![License::Id("a\"".to_string()), License::Id("aZ".to_string())];
    doc.components = vec![component];
    doc.sort();
    assert_eq!(
        doc.components[0].licenses,
        vec![License::Id("aZ".to_string()), License::Id("a\"".to_string())]
    );
}
