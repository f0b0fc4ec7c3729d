use serde_json::Value;

use universal_devops_converter::error::Error;
use universal_devops_converter::formats::sbom::spdx3_json::{self, FAMILY, SPEC_VERSION};
use universal_devops_converter::json::Json;
use universal_devops_converter::model::sbom;
use universal_devops_converter::model::sbom::{Component, License, SbomDoc};
use universal_devops_converter::registry::Doc;
use universal_devops_converter::warn::{FormatCtx, Warnings};

fn json_of(value: &Value) -> Json {
    match value {
        Value::Null => Json::Null,
        Value::Bool(flag) => Json::Bool(*flag),
        Value::Number(number) => Json::Number(number.to_string()),
        Value::String(text) => Json::Text(text.clone()),
        Value::Array(items) => Json::Array(items.iter().map(json_of).collect()),
        Value::Object(members) => Json::Object(
            members.iter().map(|(key, value)| (key.clone(), json_of(value))).collect(),
        ),
    }
}

fn parsed(input: &[u8]) -> Result<Json, Error> {
    let value: Value = serde_json::from_slice(input)
        .map_err(|e| Error::parse("json", &e.to_string()))?;
    Ok(json_of(&value))
}

fn value_of(json: &Json) -> Value {
    match json {
        Json::Null => Value::Null,
        Json::Bool(flag) => Value::Bool(*flag),
        Json::Number(text) => serde_json::from_str(text).expect("a number literal"),
        Json::Text(text) => Value::String(text.clone()),
        Json::Array(items) => Value::Array(items.iter().map(value_of).collect()),
        Json::Object(members) => Value::Object(
            members.iter().map(|(key, value)| (key.clone(), value_of(value))).collect(),
        ),
    }
}

fn print(json: &Json, out: &mut Vec<u8>) {
    out.extend(serde_json::to_vec_pretty(&value_of(json)).expect("a printable document"));
}

fn read(input: &[u8], ctx: &mut FormatCtx) -> Result<Doc, Error> {
    spdx3_json::read(&parsed(input)?, ctx)
}

fn write(doc: &Doc, out: &mut Vec<u8>, ctx: &mut FormatCtx) -> Result<(), Error> {
    print(&spdx3_json::write(doc, ctx)?, out);
    Ok(())
}

fn parse(input: &str) -> (SbomDoc, Warnings) {
    let mut ctx = FormatCtx::new(Some(SPEC_VERSION));
    let doc = match read(input.as_bytes(), &mut ctx).unwrap() {
        Doc::Sbom(doc) => *doc,
        _ => panic!("expected a bill of materials"),
    };
    (doc, ctx.into_warnings())
}

fn render(doc: &SbomDoc) -> (Value, Warnings) {
    let mut buffer = Vec::new();
    let mut ctx = FormatCtx::new(Some(SPEC_VERSION));
    write(&Doc::Sbom(Box::new(doc.clone())), &mut buffer, &mut ctx).unwrap();
    (
        serde_json::from_slice(&buffer).expect("the writer emits valid JSON"),
        ctx.into_warnings(),
    )
}

/// Elements of one type, in graph order.
fn elements<'a>(json: &'a Value, kind: &str) -> Vec<&'a Value> {
    json["@graph"]
        .as_array()
        .unwrap()
        .iter()
        .filter(|e| e["type"] == kind)
        .collect()
}

const GRAPH: &str = r#"{
      "@context": "https://spdx.org/rdf/3.0.1/spdx-context.jsonld",
      "@graph": [
        { "type": "CreationInfo", "@id": "_:ci", "specVersion": "3.0.1",
          "created": "2026-06-26T12:00:00Z", "createdBy": ["https://acme.test/Agent-syft"] },
        { "type": "software_Package", "spdxId": "https://acme.test/api", "name": "acme/api",
          "software_packageVersion": "1.2.3", "software_primaryPurpose": "application" },
        { "type": "software_Package", "spdxId": "https://acme.test/lodash", "name": "lodash",
          "software_packageVersion": "4.17.21",
          "software_packageUrl": "pkg:npm/lodash@4.17.21",
          "software_primaryPurpose": "library",
          "verifiedUsing": [{ "type": "Hash", "algorithm": "sha256", "hashValue": "abc" }] },
        { "type": "simplelicensing_LicenseExpression", "spdxId": "https://acme.test/lic-mit",
          "simplelicensing_licenseExpression": "MIT" },
        { "type": "Relationship", "spdxId": "https://acme.test/r1",
          "from": "https://acme.test/lodash", "relationshipType": "hasDeclaredLicense",
          "to": ["https://acme.test/lic-mit"] },
        { "type": "Relationship", "spdxId": "https://acme.test/r2",
          "from": "https://acme.test/api", "relationshipType": "dependsOn",
          "to": ["https://acme.test/lodash"] },
        { "type": "Relationship", "spdxId": "https://acme.test/r3",
          "from": "https://acme.test/api", "relationshipType": "contains",
          "to": ["https://acme.test/lodash"] },
        { "type": "SpdxDocument", "spdxId": "https://acme.test/doc", "name": "acme/api",
          "rootElement": ["https://acme.test/api"] }
      ]
    }"#;

#[test]
fn reads_packages_out_of_the_graph() {
    let (doc, _) = parse(GRAPH);
    assert_eq!(doc.version_within(FAMILY), Some("3.0.1"));
    assert_eq!(doc.timestamp.as_deref(), Some("2026-06-26T12:00:00Z"));
    // rootElement names the subject; it is not one of the components.
    assert_eq!(doc.subject.as_ref().unwrap().name, "acme/api");
    assert_eq!(doc.components.len(), 1);

    let lodash = &doc.components[0];
    assert_eq!(lodash.purl.as_deref(), Some("pkg:npm/lodash@4.17.21"));
    // sha256 in SPDX 3, SHA-256 in the pivot.
    assert_eq!(lodash.hashes[0].algorithm, "SHA-256");
}

#[test]
fn a_licence_is_an_element_reached_by_a_relationship() {
    // In SPDX 2 this was a string field; here it takes two hops.
    let (doc, _) = parse(GRAPH);
    assert_eq!(doc.components[0].licenses, vec![License::Id("MIT".into())]);
}

#[test]
fn only_the_relationships_the_pivot_models_survive() {
    let (doc, warnings) = parse(GRAPH);
    assert_eq!(doc.dependencies.len(), 1);
    assert_eq!(doc.dependencies[0].depends_on, ["https://acme.test/lodash"]);
    // `contains` has no pivot equivalent.
    assert!(warnings
        .messages()
        .iter()
        .any(|m| m.contains("other than dependsOn")));
}

#[test]
fn writing_mints_an_iri_for_every_element_and_rewrites_the_graph() {
    let (doc, _) = parse(GRAPH);
    let (json, _) = render(&doc);

    let packages = elements(&json, "software_Package");
    assert_eq!(packages.len(), 2);
    for package in &packages {
        let id = package["spdxId"].as_str().unwrap();
        assert!(id.starts_with("https://"), "{id}");
    }

    // The dependency edge points at the new IRIs, not the old ones.
    let depends = elements(&json, "Relationship")
        .into_iter()
        .find(|r| r["relationshipType"] == "dependsOn")
        .expect("the dependency survived");
    let ids: Vec<&str> = packages
        .iter()
        .map(|p| p["spdxId"].as_str().unwrap())
        .collect();
    assert!(ids.contains(&depends["from"].as_str().unwrap()));
    assert!(ids.contains(&depends["to"][0].as_str().unwrap()));
}

#[test]
fn a_licence_becomes_an_element_plus_a_relationship() {
    let (doc, _) = parse(GRAPH);
    let (json, _) = render(&doc);

    let licenses = elements(&json, "simplelicensing_LicenseExpression");
    assert_eq!(licenses.len(), 1);
    assert_eq!(licenses[0]["simplelicensing_licenseExpression"], "MIT");
    assert!(elements(&json, "Relationship")
        .iter()
        .any(|r| r["relationshipType"] == "hasDeclaredLicense"));
}

#[test]
fn a_supplier_becomes_an_agent_element_rather_than_a_string() {
    // `suppliedBy` references an Agent; a bare name makes the document
    // invalid, which is what the schema check caught.
    let mut component = Component::new("lodash");
    component.supplier = Some("OpenJS Foundation".into());
    let (json, _) = render(&SbomDoc {
        components: vec![component],
        timestamp: Some("2026-06-26T12:00:00Z".into()),
        ..Default::default()
    });

    let agents = elements(&json, "Agent");
    // The tool's own agent, plus the supplier's.
    assert!(agents.iter().any(|a| a["name"] == "OpenJS Foundation"));

    let package = elements(&json, "software_Package")[0];
    let supplier = package["suppliedBy"].as_str().unwrap();
    assert!(supplier.starts_with("https://"), "{supplier}");
}

#[test]
fn the_hash_vocabulary_is_rendered_in_spdx_3_spelling() {
    // Third spelling of the same thing: SHA-256 / SHA256 / sha256.
    let mut component = Component::new("x");
    component.hashes.push(sbom::Hash::new("SHA-256", "abc"));
    let (json, _) = render(&SbomDoc {
        components: vec![component],
        timestamp: Some("2026-06-26T12:00:00Z".into()),
        ..Default::default()
    });
    assert_eq!(
        elements(&json, "software_Package")[0]["verifiedUsing"][0]["algorithm"],
        "sha256"
    );
}

#[test]
fn round_trips_without_losing_a_package() {
    let (doc, _) = parse(GRAPH);
    let (json, _) = render(&doc);
    let (again, _) = parse(&serde_json::to_string(&json).unwrap());

    assert_eq!(again.components.len(), doc.components.len());
    assert_eq!(again.subject.as_ref().unwrap().name, "acme/api");
    assert_eq!(again.components[0].licenses, doc.components[0].licenses);
    assert_eq!(again.dependencies.len(), doc.dependencies.len());
}

#[test]
fn an_absent_creation_time_is_reproducible() {
    let doc = SbomDoc {
        components: vec![Component::new("x")],
        ..Default::default()
    };
    let (json, warnings) = render(&doc);
    assert!(warnings.messages().iter().any(|m| m.contains("creation time")));
    assert_eq!(json, render(&doc).0, "output must not depend on the clock");
}

#[test]
fn rejects_spdx_2_which_is_a_different_format() {
    let mut ctx = FormatCtx::new(Some(SPEC_VERSION));
    assert!(read(
        br#"{"spdxVersion":"SPDX-2.3","SPDXID":"SPDXRef-DOCUMENT","packages":[]}"#,
        &mut ctx
    )
    .is_err());
}

#[test]
fn rejects_an_empty_graph() {
    let mut ctx = FormatCtx::new(Some(SPEC_VERSION));
    assert!(read(
        br#"{"@context":"https://spdx.org/rdf/3.0.1/spdx-context.jsonld","@graph":[]}"#,
        &mut ctx
    )
    .is_err());
}

#[test]
fn annotation_elements_are_reported_as_dropped() {
    let (_, warnings) = parse(
        r#"{"@context":"https://spdx.org/rdf/3.0.1/spdx-context.jsonld","@graph":[
             {"type":"software_Package","spdxId":"urn:a","name":"a"},
             {"type":"Annotation","spdxId":"urn:n","statement":"seen"}]}"#,
    );
    assert!(warnings.messages().iter().any(|m| m.contains("annotations")));
}
