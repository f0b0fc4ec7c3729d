use serde_json::Value;

use universal_devops_converter::error::Error;
use universal_devops_converter::formats::sbom::spdx_json::{self, FAMILY, NOASSERTION, UNKNOWN_TIME};
use universal_devops_converter::json::Json;
use universal_devops_converter::model::sbom::{Component, Dependency, License, SbomDoc};
use universal_devops_converter::registry::Doc;
use universal_devops_converter::warn::{FormatCtx, Warnings};

fn json_of(value: &Value) -> Json {
    match value {
        Value::Null => Json::Null,
        Value::Bool(flag) => Json::Bool(*flag),
        Value::Number(number) => Json::Number(number.to_string()),
        Value::String(text) => Json::Text(text.clone()),
        Value::Array(items) => Json::Array(items.iter().map(json_of).collect()),
        Value::Object(members) => Json::Object(
            members.iter().map(|(key, value)| (key.clone(), json_of(value))).collect(),
        ),
    }
}

fn parsed(input: &[u8]) -> Result<Json, Error> {
    let value: Value = serde_json::from_slice(input)
        .map_err(|e| Error::parse("json", &e.to_string()))?;
    Ok(json_of(&value))
}

fn value_of(json: &Json) -> Value {
    match json {
        Json::Null => Value::Null,
        Json::Bool(flag) => Value::Bool(*flag),
        Json::Number(text) => serde_json::from_str(text).expect("a number literal"),
        Json::Text(text) => Value::String(text.clone()),
        Json::Array(items) => Value::Array(items.iter().map(value_of).collect()),
        Json::Object(members) => Value::Object(
            members.iter().map(|(key, value)| (key.clone(), value_of(value))).collect(),
        ),
    }
}

fn print(json: &Json, out: &mut Vec<u8>) {
    out.extend(serde_json::to_vec_pretty(&value_of(json)).expect("a printable document"));
}

fn read(input: &[u8], ctx: &mut FormatCtx) -> Result<Doc, Error> {
    spdx_json::read(&parsed(input)?, ctx)
}

fn write(doc: &Doc, out: &mut Vec<u8>, ctx: &mut FormatCtx) -> Result<(), Error> {
    print(&spdx_json::write(doc, ctx)?, out);
    Ok(())
}

fn parse(input: &str) -> (SbomDoc, Warnings) {
    let mut ctx = FormatCtx::new(Some("2.3"));
    let doc = match read(input.as_bytes(), &mut ctx).unwrap() {
        Doc::Sbom(doc) => *doc,
        _ => panic!("expected a bill of materials"),
    };
    (doc, ctx.into_warnings())
}

fn render(doc: &SbomDoc, version: Option<&'static str>) -> (Value, Warnings) {
    let mut buffer = Vec::new();
    let mut ctx = FormatCtx::new(version.or(Some("2.3")));
    ctx.set_version_requested(version.is_some());
    write(&Doc::Sbom(Box::new(doc.clone())), &mut buffer, &mut ctx).unwrap();
    (
        serde_json::from_slice(&buffer).expect("the writer emits valid JSON"),
        ctx.into_warnings(),
    )
}

const DOCUMENT: &str = r#"{
      "spdxVersion": "SPDX-2.3",
      "dataLicense": "CC0-1.0",
      "SPDXID": "SPDXRef-DOCUMENT",
      "name": "acme/api",
      "documentNamespace": "https://example.test/spdx/acme",
      "creationInfo": { "created": "2026-06-26T12:00:00Z", "creators": ["Tool: syft-1.4.1"] },
      "packages": [
        { "SPDXID": "SPDXRef-App", "name": "acme/api", "versionInfo": "1.2.3",
          "downloadLocation": "NOASSERTION", "primaryPackagePurpose": "APPLICATION" },
        { "SPDXID": "SPDXRef-Lodash", "name": "lodash", "versionInfo": "4.17.21",
          "downloadLocation": "NOASSERTION", "licenseDeclared": "MIT",
          "supplier": "Organization: OpenJS Foundation",
          "copyrightText": "Copyright JS Foundation",
          "checksums": [{ "algorithm": "SHA256", "checksumValue": "abc" }],
          "externalRefs": [{ "referenceCategory": "PACKAGE-MANAGER", "referenceType": "purl",
                             "referenceLocator": "pkg:npm/lodash@4.17.21" }] },
        { "SPDXID": "SPDXRef-Dual", "name": "dual", "downloadLocation": "NOASSERTION",
          "licenseDeclared": "Apache-2.0 OR MIT" }
      ],
      "relationships": [
        { "spdxElementId": "SPDXRef-DOCUMENT", "relatedSpdxElement": "SPDXRef-App",
          "relationshipType": "DESCRIBES" },
        { "spdxElementId": "SPDXRef-App", "relatedSpdxElement": "SPDXRef-Lodash",
          "relationshipType": "DEPENDS_ON" },
        { "spdxElementId": "SPDXRef-Lodash", "relatedSpdxElement": "SPDXRef-App",
          "relationshipType": "CONTAINED_BY" }
      ]
    }"#;

#[test]
fn reads_packages_and_what_the_document_describes() {
    let (doc, _) = parse(DOCUMENT);
    assert_eq!(doc.version_within(FAMILY), Some("SPDX-2.3"));
    // DESCRIBES names the subject, which is not one of the listed
    // components.
    assert_eq!(doc.subject.as_ref().unwrap().name, "acme/api");
    assert_eq!(doc.components.len(), 2);

    let lodash = doc.components.iter().find(|c| c.name == "lodash").unwrap();
    assert_eq!(lodash.purl.as_deref(), Some("pkg:npm/lodash@4.17.21"));
    assert_eq!(lodash.supplier.as_deref(), Some("OpenJS Foundation"));
    assert_eq!(lodash.licenses, vec![License::Id("MIT".into())]);
    // SPDX writes SHA256; the pivot canonicalizes to CycloneDX's spelling
    // so a conversion in either direction produces a valid document.
    assert_eq!(lodash.hashes[0].algorithm, "SHA-256");
}

#[test]
fn spdx_spelling_is_restored_on_the_way_out() {
    let (doc, _) = parse(DOCUMENT);
    let (json, _) = render(&doc, None);
    let lodash = json["packages"]
        .as_array()
        .unwrap()
        .iter()
        .find(|p| p["name"] == "lodash")
        .unwrap();
    assert_eq!(lodash["checksums"][0]["algorithm"], "SHA256");
}

#[test]
fn an_expression_stays_an_expression() {
    let (doc, _) = parse(DOCUMENT);
    let dual = doc.components.iter().find(|c| c.name == "dual").unwrap();
    assert_eq!(
        dual.licenses,
        vec![License::Expression("Apache-2.0 OR MIT".into())]
    );
}

#[test]
fn only_depends_on_becomes_a_dependency_and_the_rest_is_reported() {
    let (doc, warnings) = parse(DOCUMENT);
    assert_eq!(doc.dependencies.len(), 1);
    assert_eq!(doc.dependencies[0].depends_on, ["SPDXRef-Lodash"]);
    // CONTAINED_BY has no pivot equivalent.
    assert!(warnings
        .messages()
        .iter()
        .any(|m| m.contains("other than DEPENDS_ON")));
}

#[test]
fn writing_renames_elements_and_rewrites_the_graph() {
    // A CycloneDX bom-ref is usually a package URL, which an SPDX id cannot
    // hold; reusing it would produce a document no SPDX tool accepts.
    let mut component = Component::new("lodash");
    component.bom_ref = Some("pkg:npm/lodash@4.17.21".into());
    let mut app = Component::new("acme/api");
    app.bom_ref = Some("acme-api".into());

    let doc = SbomDoc {
        subject: Some(app),
        components: vec![component],
        dependencies: vec![Dependency {
            bom_ref: "acme-api".into(),
            depends_on: vec!["pkg:npm/lodash@4.17.21".into()],
        }],
        timestamp: Some("2026-06-26T12:00:00Z".into()),
        ..Default::default()
    };
    let (json, _) = render(&doc, None);

    let ids: Vec<&str> = json["packages"]
        .as_array()
        .unwrap()
        .iter()
        .map(|p| p["SPDXID"].as_str().unwrap())
        .collect();
    assert!(ids.iter().all(|id| id.starts_with("SPDXRef-")), "{ids:?}");
    assert!(!ids.iter().any(|id| id.contains(':')), "{ids:?}");

    // And the edge points at the new names, not the old ones.
    let edge = json["relationships"]
        .as_array()
        .unwrap()
        .iter()
        .find(|r| r["relationshipType"] == "DEPENDS_ON")
        .unwrap();
    assert!(ids.contains(&edge["spdxElementId"].as_str().unwrap()));
    assert!(ids.contains(&edge["relatedSpdxElement"].as_str().unwrap()));
}

#[test]
fn a_licence_known_only_by_name_becomes_noassertion() {
    let mut component = Component::new("odd");
    component
        .licenses
        .push(License::Name("A bespoke licence".into()));
    let (json, warnings) = render(
        &SbomDoc {
            components: vec![component],
            timestamp: Some("2026-06-26T12:00:00Z".into()),
            ..Default::default()
        },
        None,
    );

    assert_eq!(json["packages"][0]["licenseDeclared"], NOASSERTION);
    assert!(warnings.messages().iter().any(|m| m.contains("only by name")));
}

#[test]
fn a_2_3_only_field_is_not_written_into_a_2_2_document() {
    // The 2.2 schema forbids unknown properties, so emitting
    // primaryPackagePurpose there invalidates the whole file.
    let (doc, _) = parse(DOCUMENT);
    assert!(render(&doc, Some("2.3")).0["packages"][0]["primaryPackagePurpose"].is_string());
    assert!(render(&doc, Some("2.2")).0["packages"][0]["primaryPackagePurpose"].is_null());
}

#[test]
fn an_absent_creation_time_is_reproducible_and_admitted() {
    let doc = SbomDoc {
        components: vec![Component::new("x")],
        ..Default::default()
    };
    let (json, warnings) = render(&doc, None);
    assert_eq!(json["creationInfo"]["created"], UNKNOWN_TIME);
    assert!(warnings.messages().iter().any(|m| m.contains("creation time")));
    assert_eq!(
        json,
        render(&doc, None).0,
        "output must not depend on the clock"
    );
}

#[test]
fn rejects_spdx_3_as_another_format() {
    let mut ctx = FormatCtx::new(Some("2.3"));
    let error = read(br#"{"spdxVersion":"SPDX-3.0","@graph":[]}"#, &mut ctx)
        .unwrap_err()
        .message();
    assert!(error.contains("different format"), "{error}");
}

#[test]
fn rejects_json_that_is_not_an_spdx_document() {
    let mut ctx = FormatCtx::new(Some("2.3"));
    assert!(read(br#"{"packages":[]}"#, &mut ctx).is_err());
}

#[test]
fn annotations_are_reported_as_dropped() {
    for input in [
        r#"{"spdxVersion":"SPDX-2.3","annotations":[{"comment":"seen"}]}"#,
        r#"{"spdxVersion":"SPDX-2.3","packages":[{"name":"a"},
              {"name":"b","annotations":[{"comment":"seen"}]}]}"#,
    ] {
        let (_, warnings) = parse(input);
        assert!(warnings.messages().iter().any(|m| m.contains("annotations")));
    }
    let (_, quiet) = parse(r#"{"spdxVersion":"SPDX-2.3","packages":[{"name":"a"}]}"#);
    assert!(quiet.messages().is_empty());
}
