use universal_devops_converter::detect::detect;
use universal_devops_converter::error::Error;

fn id_of(input: &str) -> String {
    detect(input.as_bytes(), "input").unwrap().id.to_string()
}

#[test]
fn identifies_xml_formats_by_root_element() {
    assert_eq!(id_of("<coverage><packages/></coverage>"), "cobertura");
    assert_eq!(id_of("<report name=\"x\"/>"), "jacoco");
    assert_eq!(id_of("<testsuites/>"), "junit");
    assert_eq!(id_of("<testsuite name=\"a\"/>"), "junit");
    assert_eq!(id_of("<checkstyle version=\"8\"/>"), "checkstyle");
}

#[test]
fn skips_declaration_doctype_and_comments() {
    let input = "\u{feff}<?xml version=\"1.0\"?>\n\
                     <!-- generated <by> a tool -->\n\
                     <!DOCTYPE coverage SYSTEM \"http://x/coverage-04.dtd\">\n\
                     <coverage/>";
    assert_eq!(id_of(input), "cobertura");
}

#[test]
fn handles_a_doctype_with_an_internal_subset() {
    let input = "<!DOCTYPE report [ <!ENTITY x \"y\"> ]>\n<report/>";
    assert_eq!(id_of(input), "jacoco");
}

#[test]
fn tells_clover_from_cobertura_by_their_attributes() {
    // Both root at <coverage>; reading one as the other is silent, so the
    // discriminator has to be explicit.
    assert_eq!(
        id_of(r#"<coverage generated="1719410000" clover="3.2.0"><project/></coverage>"#),
        "clover"
    );
    assert_eq!(
        id_of(r#"<coverage line-rate="0.5" branch-rate="0"><packages/></coverage>"#),
        "cobertura"
    );
}

#[test]
fn strips_namespace_prefixes() {
    assert_eq!(id_of("<ns:testsuites xmlns:ns=\"x\"/>"), "junit");
}

#[test]
fn identifies_lcov_by_its_record_prefixes() {
    assert_eq!(id_of("TN:\nSF:src/a.rs\nDA:1,1\nend_of_record\n"), "lcov");
}

#[test]
fn identifies_sarif_by_its_runs_array() {
    assert_eq!(
        id_of(r#"{"version":"2.1.0","runs":[{"tool":{"driver":{"name":"x"}}}]}"#),
        "sarif"
    );
}

#[test]
fn refuses_to_guess_between_array_shaped_formats() {
    let error = detect(br#"[{"check_name":"x"}]"#, "input").unwrap_err();
    assert!(matches!(error, Error::Detect(_)));
    assert!(error.message().contains("--input-format"));
}

#[test]
fn names_recognized_but_unsupported_formats() {
    let error = detect(br#"{"bomFormat":"CycloneDX"}"#, "input").unwrap_err();
    assert!(error.message().contains("CycloneDX"));
    assert!(error.message().contains("not supported yet"));
}

#[test]
fn gives_up_on_unrecognized_input() {
    assert!(detect(b"hello world", "input").is_err());
}
