use universal_devops_converter::error::Error;
use universal_devops_converter::formats::coverage::lcov;
use universal_devops_converter::model::coverage::{Branch, CoverageDoc};
use universal_devops_converter::registry::Doc;
use universal_devops_converter::warn::FormatCtx;

fn read(input: &[u8], ctx: &mut FormatCtx) -> Result<Doc, Error> {
    let counts = lcov::count_texts(input)
        .into_iter()
        .map(|text| {
            let count = text.parse::<f64>().expect("a number").max(0.0) as u64;
            (text, count)
        })
        .collect();
    lcov::read(input, &counts, ctx)
}

fn write(doc: &Doc, out: &mut Vec<u8>, ctx: &mut FormatCtx) -> Result<(), Error> {
    out.extend_from_slice(lcov::write(doc, ctx)?.as_bytes());
    Ok(())
}

const SAMPLE: &str = "\
TN:
SF:/builds/acme/src/main.rs
FN:10,main
FNDA:3,main
FNF:1
FNH:1
BRDA:12,0,0,2
BRDA:12,0,1,-
BRF:2
BRH:1
DA:10,3
DA:11,0
DA:12,3
LF:3
LH:2
end_of_record
";

fn parse(input: &str) -> CoverageDoc {
    let mut ctx = FormatCtx::new(None);
    match read(input.as_bytes(), &mut ctx).unwrap() {
        Doc::Coverage(doc) => doc,
        _ => panic!("expected a coverage document"),
    }
}

#[test]
fn reads_lines_branches_and_functions() {
    let doc = parse(SAMPLE);
    assert_eq!(doc.files.len(), 1);

    let file = &doc.files[0];
    assert_eq!(file.path, "/builds/acme/src/main.rs");
    assert_eq!(file.lines_valid(), 3);
    assert_eq!(file.lines_covered(), 2);
    assert_eq!(
        file.branches(),
        Branch {
            covered: 1,
            total: 2
        }
    );
    assert_eq!(file.functions.len(), 1);
    assert_eq!(file.functions[0].name, "main");
    assert_eq!(file.functions[0].hits, 3);
    assert_eq!(file.functions[0].line, Some(10));
}

#[test]
fn accepts_the_lcov_2_three_field_fn_record() {
    let doc = parse("SF:a.rs\nFN:4,9,helper\nFNDA:1,helper\nDA:4,1\nend_of_record\n");
    assert_eq!(doc.files[0].functions[0].line, Some(4));
}

#[test]
fn a_branch_only_line_still_counts_as_executable() {
    let doc = parse("SF:a.rs\nBRDA:7,0,0,-\nend_of_record\n");
    let line = &doc.files[0].lines[0];
    assert_eq!(line.number, 7);
    assert_eq!(line.hits, 0);
    assert_eq!(
        line.branch,
        Some(Branch {
            covered: 0,
            total: 1
        })
    );
}

#[test]
fn rejects_input_without_any_file_record() {
    let mut ctx = FormatCtx::new(None);
    assert!(read(b"hello world\n", &mut ctx).is_err());
}

#[test]
fn lcov_round_trips_through_the_writer() {
    let doc = parse(SAMPLE);
    let mut buffer = Vec::new();
    let mut ctx = FormatCtx::new(None);
    write(&Doc::Coverage(doc.clone()), &mut buffer, &mut ctx).unwrap();

    let again = parse(&String::from_utf8(buffer).unwrap());
    assert_eq!(again.files[0].lines, doc.files[0].lines);
    assert_eq!(again.files[0].functions, doc.files[0].functions);
}
