use serde_json::Value;

use universal_devops_converter::error::Error;
use universal_devops_converter::formats::sbom::cyclonedx_json::{self, FAMILY};
use universal_devops_converter::json::Json;
use universal_devops_converter::model::sbom::{License, SbomDoc};
use universal_devops_converter::registry::Doc;
use universal_devops_converter::warn::{FormatCtx, Warnings};

fn json_of(value: &Value) -> Json {
    match value {
        Value::Null => Json::Null,
        Value::Bool(flag) => Json::Bool(*flag),
        Value::Number(number) => Json::Number(number.to_string()),
        Value::String(text) => Json::Text(text.clone()),
        Value::Array(items) => Json::Array(items.iter().map(json_of).collect()),
        Value::Object(members) => Json::Object(
            members.iter().map(|(key, value)| (key.clone(), json_of(value))).collect(),
        ),
    }
}

fn parsed(input: &[u8]) -> Result<Json, Error> {
    let value: Value = serde_json::from_slice(input)
        .map_err(|e| Error::parse("json", &e.to_string()))?;
    Ok(json_of(&value))
}

fn value_of(json: &Json) -> Value {
    match json {
        Json::Null => Value::Null,
        Json::Bool(flag) => Value::Bool(*flag),
        Json::Number(text) => serde_json::from_str(text).expect("a number literal"),
        Json::Text(text) => Value::String(text.clone()),
        Json::Array(items) => Value::Array(items.iter().map(value_of).collect()),
        Json::Object(members) => Value::Object(
            members.iter().map(|(key, value)| (key.clone(), value_of(value))).collect(),
        ),
    }
}

fn print(json: &Json, out: &mut Vec<u8>) {
    out.extend(serde_json::to_vec_pretty(&value_of(json)).expect("a printable document"));
}

fn read(input: &[u8], ctx: &mut FormatCtx) -> Result<Doc, Error> {
    cyclonedx_json::read(&parsed(input)?, ctx)
}

fn write(doc: &Doc, out: &mut Vec<u8>, ctx: &mut FormatCtx) -> Result<(), Error> {
    print(&cyclonedx_json::write(doc, ctx)?, out);
    Ok(())
}

fn parse(input: &str) -> (SbomDoc, Warnings) {
    let mut ctx = FormatCtx::new(Some("1.5"));
    let doc = match read(input.as_bytes(), &mut ctx).unwrap() {
        Doc::Sbom(doc) => *doc,
        _ => panic!("expected a bill of materials"),
    };
    (doc, ctx.into_warnings())
}

fn render(doc: &SbomDoc, version: Option<&'static str>) -> (Value, Warnings) {
    let mut buffer = Vec::new();
    let mut ctx = FormatCtx::new(version.or(Some("1.5")));
    ctx.set_version_requested(version.is_some());
    write(&Doc::Sbom(Box::new(doc.clone())), &mut buffer, &mut ctx).unwrap();
    (
        serde_json::from_slice(&buffer).expect("the writer emits valid JSON"),
        ctx.into_warnings(),
    )
}

const BOM: &str = r#"{
      "bomFormat": "CycloneDX",
      "specVersion": "1.6",
      "serialNumber": "urn:uuid:3e671687-395b-41f5-a30f-a58921a69b79",
      "version": 2,
      "metadata": {
        "timestamp": "2026-06-26T12:00:00Z",
        "component": { "type": "application", "name": "acme/api", "version": "1.2.3" }
      },
      "components": [
        { "bom-ref": "pkg:npm/lodash@4.17.21", "type": "library", "name": "lodash",
          "version": "4.17.21", "purl": "pkg:npm/lodash@4.17.21",
          "licenses": [{ "license": { "id": "MIT" } }],
          "hashes": [{ "alg": "SHA-256", "content": "abc" }] },
        { "bom-ref": "choice", "type": "library", "name": "dual",
          "licenses": [{ "expression": "Apache-2.0 OR MIT" }] },
        { "bom-ref": "keys", "type": "cryptographic-asset", "name": "tls-keypair" }
      ],
      "dependencies": [{ "ref": "pkg:npm/lodash@4.17.21", "dependsOn": [] }]
    }"#;

#[test]
fn reads_the_document_and_its_components() {
    let (doc, _) = parse(BOM);
    assert_eq!(doc.version_within(FAMILY), Some("1.6"));
    assert_eq!(doc.version, Some(2));
    assert_eq!(doc.subject.as_ref().unwrap().name, "acme/api");
    assert_eq!(doc.components.len(), 3);

    let lodash = doc.components.iter().find(|c| c.name == "lodash").unwrap();
    assert_eq!(lodash.purl.as_deref(), Some("pkg:npm/lodash@4.17.21"));
    assert_eq!(lodash.licenses, vec![License::Id("MIT".into())]);
    assert_eq!(lodash.hashes[0].algorithm, "SHA-256");
}

#[test]
fn keeps_a_licence_expression_apart_from_an_identifier() {
    // `Apache-2.0 OR MIT` is a choice; flattening it to an id would turn it
    // into a claim that the component is Apache-2.0.
    let (doc, _) = parse(BOM);
    let dual = doc.components.iter().find(|c| c.name == "dual").unwrap();
    assert_eq!(
        dual.licenses,
        vec![License::Expression("Apache-2.0 OR MIT".into())]
    );
}

#[test]
fn converting_to_its_own_format_keeps_the_source_version() {
    // Without this, every round trip through the
    // format default would silently downgrade the document.
    let (doc, _) = parse(BOM);
    let (json, _) = render(&doc, None);
    assert_eq!(json["specVersion"], "1.6");
    assert_eq!(
        json["$schema"],
        "http://cyclonedx.org/schema/bom-1.6.schema.json"
    );
}

#[test]
fn an_explicit_version_overrides_the_source() {
    let (doc, _) = parse(BOM);
    let (json, _) = render(&doc, Some("1.4"));
    assert_eq!(json["specVersion"], "1.4");
}

#[test]
fn a_component_type_the_target_does_not_know_is_narrowed_and_reported() {
    let (doc, _) = parse(BOM);

    let (json, warnings) = render(&doc, Some("1.4"));
    let kinds: Vec<&str> = json["components"]
        .as_array()
        .unwrap()
        .iter()
        .map(|c| c["type"].as_str().unwrap())
        .collect();
    // 1.4 has no cryptographic-asset; emitting it would invalidate the
    // whole document rather than that one component.
    assert!(!kinds.contains(&"cryptographic-asset"), "{kinds:?}");
    assert!(warnings
        .messages()
        .iter()
        .any(|m| m.contains("`cryptographic-asset` is not a component type in 1.4")));

    // 1.6 knows it, so nothing is touched.
    let (json, warnings) = render(&doc, Some("1.6"));
    let kinds: Vec<&str> = json["components"]
        .as_array()
        .unwrap()
        .iter()
        .map(|c| c["type"].as_str().unwrap())
        .collect();
    assert!(kinds.contains(&"cryptographic-asset"), "{kinds:?}");
    assert!(!warnings
        .messages()
        .iter()
        .any(|m| m.contains("not a component type")));
}

#[test]
fn nested_components_are_flattened_and_reported() {
    let (doc, warnings) = parse(
        r#"{"bomFormat":"CycloneDX","specVersion":"1.4","components":[
                 {"type":"library","name":"outer","components":[
                   {"type":"library","name":"inner"}]}]}"#,
    );
    let names: Vec<&str> = doc.components.iter().map(|c| c.name.as_str()).collect();
    assert!(
        names.contains(&"outer") && names.contains(&"inner"),
        "{names:?}"
    );
    assert!(warnings.messages().iter().any(|m| m.contains("flattened")));
}

#[test]
fn vulnerabilities_are_reported_as_out_of_scope_rather_than_dropped_quietly() {
    let (_, warnings) = parse(
        r#"{"bomFormat":"CycloneDX","specVersion":"1.6","components":[],
                "vulnerabilities":[{"id":"CVE-2024-1234"}]}"#,
    );
    assert!(warnings
        .messages()
        .iter()
        .any(|m| m.contains("vulnerability record")));
}

#[test]
fn round_trips_without_losing_a_component() {
    let (doc, _) = parse(BOM);
    let (json, _) = render(&doc, None);
    let (again, _) = parse(&serde_json::to_string(&json).unwrap());

    assert_eq!(again.components.len(), doc.components.len());
    assert_eq!(again.spec, doc.spec);
    assert_eq!(again.document_id, doc.document_id);
    assert_eq!(again.components, doc.components);
}

#[test]
fn an_identity_that_is_not_a_urn_uuid_is_dropped_rather_than_emitted() {
    // SPDX's documentNamespace is any URI; CycloneDX only accepts urn:uuid,
    // so carrying one straight over would invalidate the document.
    let doc = SbomDoc {
        document_id: Some("https://example.test/spdx/minimal".into()),
        ..Default::default()
    };
    let (json, warnings) = render(&doc, Some("1.5"));
    assert!(json.get("serialNumber").is_none());
    assert!(warnings.messages().iter().any(|m| m.contains("urn:uuid")));

    let doc = SbomDoc {
        document_id: Some("urn:uuid:3e671687-395b-41f5-a30f-a58921a69b79".into()),
        ..Default::default()
    };
    let (json, _) = render(&doc, Some("1.5"));
    assert_eq!(
        json["serialNumber"],
        "urn:uuid:3e671687-395b-41f5-a30f-a58921a69b79"
    );
}

#[test]
fn rejects_json_that_is_not_a_bom() {
    let mut ctx = FormatCtx::new(Some("1.5"));
    assert!(read(br#"{"specVersion":"1.6","components":[]}"#, &mut ctx).is_err());
    assert!(read(br#"{"bomFormat":"CycloneDX"}"#, &mut ctx).is_err());
}

#[test]
fn a_hash_algorithm_is_canonicalized_on_the_way_in() {
    let (doc, _) = parse(
        r#"{ "bomFormat": "CycloneDX", "specVersion": "1.5", "components": [
          { "type": "library", "name": "x", "hashes": [{ "alg": "SHA256", "content": "abc" }] }
        ] }"#,
    );
    assert_eq!(doc.components[0].hashes[0].algorithm, "SHA-256");
    assert_eq!(doc.components[0].hashes[0].value, "abc");
}

#[test]
fn a_nested_component_becomes_a_dependency_of_the_one_around_it() {
    let (doc, _) = parse(
        r#"{"bomFormat":"CycloneDX","specVersion":"1.4","components":[
                 {"bom-ref":"outer","type":"library","name":"outer","components":[
                   {"bom-ref":"left","type":"library","name":"left","components":[
                     {"bom-ref":"deep","type":"library","name":"deep"}]},
                   {"bom-ref":"right","type":"library","name":"right"},
                   {"type":"library","name":"nameless"}]}],
               "dependencies":[{"ref":"outer","dependsOn":["other","left"]}]}"#,
    );
    let edges: Vec<(String, Vec<String>)> =
        doc.dependencies.iter().map(|d| (d.bom_ref.clone(), d.depends_on.clone())).collect();
    assert_eq!(
        edges,
        vec![
            ("left".to_string(), vec!["deep".to_string()]),
            ("outer".to_string(), vec!["left".to_string(), "other".to_string(), "right".to_string()]),
        ]
    );
    assert_eq!(doc.components.len(), 5);
}

#[test]
fn a_version_without_a_json_form_is_refused() {
    let (doc, _) = parse(BOM);
    let mut ctx = FormatCtx::new(Some("1.1"));
    ctx.set_version_requested(true);
    let refusal = cyclonedx_json::write(&Doc::Sbom(Box::new(doc.clone())), &mut ctx).unwrap_err();
    assert!(matches!(&refusal, Error::Config(message) if message.contains("version 1.1")));
    assert!(ctx.into_warnings().messages().is_empty());
    let (json, _) = render(&doc, Some("1.2"));
    assert_eq!(json["specVersion"], "1.2");
}

#[test]
fn what_the_pivot_does_not_model_is_reported_as_lost() {
    let (_, warnings) = parse(
        r#"{"bomFormat":"CycloneDX","specVersion":"1.5",
               "metadata":{"component":{"type":"application","name":"app","pedigree":{"notes":"fork"}}},
               "components":[{"type":"library","name":"outer","components":[
                 {"type":"library","name":"inner","evidence":{"identity":{"field":"purl"}}}]}],
               "formulation":[{"bom-ref":"f"}]}"#,
    );
    for word in ["formulation", "evidence", "pedigree"] {
        assert!(warnings.messages().iter().any(|m| m.contains(word)), "{word}");
    }
    let (_, quiet) = parse(r#"{"bomFormat":"CycloneDX","specVersion":"1.5","formulation":[]}"#);
    assert!(quiet.messages().is_empty());
}

#[test]
fn what_the_subject_contains_is_flattened_like_the_rest() {
    let (doc, warnings) = parse(
        r#"{"bomFormat":"CycloneDX","specVersion":"1.5",
               "metadata":{"component":{"bom-ref":"app","type":"application","name":"app","components":[
                 {"bom-ref":"left","type":"library","name":"left"},
                 {"bom-ref":"right","type":"library","name":"right"}]}},
               "components":[{"bom-ref":"beside","type":"library","name":"beside"}]}"#,
    );
    assert_eq!(doc.subject.as_ref().unwrap().name, "app");
    let names: Vec<&str> = doc.components.iter().map(|c| c.name.as_str()).collect();
    assert_eq!(names, ["beside", "left", "right"]);
    assert_eq!(doc.dependencies.len(), 1);
    assert_eq!(doc.dependencies[0].bom_ref, "app");
    assert_eq!(doc.dependencies[0].depends_on, ["left", "right"]);
    assert!(warnings.messages().iter().any(|m| m.contains("2 nested component(s)")));
}

fn text(text: &str) -> Json {
    Json::Text(text.to_string())
}

fn object(members: Vec<(&str, Json)>) -> Json {
    Json::Object(members.into_iter().map(|(key, value)| (key.to_string(), value)).collect())
}

#[test]
fn the_last_value_of_a_repeated_key_counts_where_anything_may_stand() {
    let bom = |tools: Json, components: Json| {
        object(vec![
            ("bomFormat", text("CycloneDX")),
            ("specVersion", text("1.5")),
            ("metadata", object(vec![("tools", tools)])),
            ("components", components),
        ])
    };
    let tool = object(vec![
        ("name", text("old")),
        ("version", text("1")),
        ("name", text("new")),
    ]);
    let tools = object(vec![
        ("components", Json::Array(vec![])),
        ("components", Json::Array(vec![tool])),
    ]);
    let mut ctx = FormatCtx::new(Some("1.5"));
    let doc = match cyclonedx_json::read(&bom(tools, Json::Array(vec![])), &mut ctx).unwrap() {
        Doc::Sbom(doc) => *doc,
        _ => panic!("expected a bill of materials"),
    };
    assert_eq!(doc.tools.len(), 1);
    assert_eq!(doc.tools[0].name, "new");
    assert_eq!(doc.tools[0].version, Some("1".to_string()));

    // A component has declared fields, and none of them may be repeated.
    let twice = object(vec![
        ("type", text("library")),
        ("name", text("old")),
        ("name", text("new")),
    ]);
    assert!(cyclonedx_json::read(&bom(Json::Null, Json::Array(vec![twice])), &mut ctx).is_err());
}
