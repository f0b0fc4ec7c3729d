use universal_devops_converter::model::coverage::{CoverageDoc, FileCoverage, Line};

fn line(number: u32, hits: u64) -> Line {
    Line {
        number,
        hits,
        branch: None,
    }
}

#[test]
fn derives_package_and_stem_from_path() {
    let file = FileCoverage::new("src/main/java/com/acme/App.java");
    assert_eq!(file.package(), "src.main.java.com.acme");
    assert_eq!(file.directory(), "src/main/java/com/acme");
    assert_eq!(file.file_name(), "App.java");
    assert_eq!(file.stem(), "App");

    let root = FileCoverage::new("main.rs");
    assert_eq!(root.package(), "");
    assert_eq!(root.directory(), "");
    assert_eq!(root.stem(), "main");
}

#[test]
fn merge_sums_hits_for_shared_lines() {
    let mut a = CoverageDoc::default();
    let mut fa = FileCoverage::new("a.rs");
    fa.lines = vec![line(1, 1), line(2, 0)];
    a.files.push(fa);

    let mut b = CoverageDoc::default();
    let mut fb = FileCoverage::new("a.rs");
    fb.lines = vec![line(2, 3), line(3, 1)];
    b.files.push(fb);

    a.merge(b);
    a.sort();

    assert_eq!(a.files.len(), 1);
    let lines = &a.files[0].lines;
    assert_eq!(lines.len(), 3);
    assert_eq!(lines[1].hits, 3);
    // Line 2 was uncovered in the first document and covered in the second:
    // merging makes it covered, which is the whole point of merging shards.
    assert_eq!(a.lines_covered(), 3);
    assert_eq!(a.lines_valid(), 3);
}

