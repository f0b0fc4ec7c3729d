//! Every sample report, converted to every format it can become.

use serde_json::Value;

use universal_devops_converter::convert::{
    preparation, read_as, write_as, Input, Output, Preparation,
};
use universal_devops_converter::error::Error;
use universal_devops_converter::formats::coverage::cobertura::{self, Ratio};
use universal_devops_converter::formats::coverage::lcov;
use universal_devops_converter::formats::quality::sarif::{self, Score};
use universal_devops_converter::formats::tests::gotest;
use universal_devops_converter::formats::tests::junit::{SuiteTimes, Times};
use universal_devops_converter::json::Json;
use universal_devops_converter::model::tests::{Elapsed, TestReport};
use universal_devops_converter::registry::{find, formats, Doc, FormatSpec, ReadFn};
use universal_devops_converter::warn::FormatCtx;

fn json_of(value: &Value) -> Json {
    match value {
        Value::Null => Json::Null,
        Value::Bool(flag) => Json::Bool(*flag),
        Value::Number(number) => Json::Number(number.to_string()),
        Value::String(text) => Json::Text(text.clone()),
        Value::Array(items) => Json::Array(items.iter().map(json_of).collect()),
        Value::Object(members) => Json::Object(
            members.iter().map(|(key, value)| (key.clone(), json_of(value))).collect(),
        ),
    }
}

fn value_of(json: &Json) -> Value {
    match json {
        Json::Null => Value::Null,
        Json::Bool(flag) => Value::Bool(*flag),
        Json::Number(text) => serde_json::from_str(text).expect("a number literal"),
        Json::Text(text) => Value::String(text.clone()),
        Json::Array(items) => Value::Array(items.iter().map(value_of).collect()),
        Json::Object(members) => Value::Object(
            members.iter().map(|(key, value)| (key.clone(), value_of(value))).collect(),
        ),
    }
}

fn count(text: String) -> (String, u64) {
    let count = text.parse::<f64>().expect("a number").max(0.0) as u64;
    (text, count)
}

fn score(text: String) -> Option<Score> {
    let value = text.parse::<f64>().ok()?;
    Some(Score {
        text,
        at_least_nine: value >= 9.0,
        at_least_seven: value >= 7.0,
        at_least_four: value >= 4.0,
        above_zero: value > 0.0,
    })
}

fn seconds(elapsed: &Elapsed) -> f64 {
    let number = |text: &String| text.trim().parse::<f64>().expect("a number");
    match elapsed {
        Elapsed::Seconds(text) => number(text),
        Elapsed::Span { days, hours, minutes, seconds } => {
            days.as_ref().map_or(0.0, number) * 86400.0
                + number(hours) * 3600.0
                + number(minutes) * 60.0
                + number(seconds)
        }
    }
}

fn shown(seconds: f64) -> String {
    format!("{:.3}", if seconds == 0.0 { 0.0 } else { seconds })
}

fn times_of(report: &TestReport) -> Times {
    let sum = |list: Vec<Elapsed>| list.iter().map(seconds).sum::<f64>();
    Times {
        total: shown(report.suites.iter().map(|suite| sum(suite.elapsed())).sum()),
        suites: report
            .suites
            .iter()
            .map(|suite| SuiteTimes {
                total: shown(sum(suite.elapsed())),
                cases: suite
                    .cases
                    .iter()
                    .map(|case| shown(case.time.as_ref().map_or(0.0, seconds)))
                    .collect(),
            })
            .collect(),
    }
}

fn ratios_of(doc: &Doc) -> Vec<Ratio> {
    cobertura::needed_ratios(doc)
        .into_iter()
        .map(|(covered, valid)| {
            let rate = if valid == 0 { 1.0 } else { covered as f64 / valid as f64 };
            Ratio {
                covered,
                valid,
                rate: format!("{rate:.4}"),
                percent: format!("{}", (rate * 100.0).round()),
            }
        })
        .collect()
}

fn parsed(bytes: &[u8]) -> Result<Json, String> {
    match serde_json::from_slice::<Value>(bytes) {
        Ok(value) => Ok(json_of(&value)),
        Err(problem) => Err(problem.to_string()),
    }
}

fn prepared(bytes: &[u8], reader: ReadFn) -> Input {
    let mut input = Input {
        bytes: bytes.to_vec(),
        json: Ok(Json::Null),
        events: Vec::new(),
        counts: Vec::new(),
        scores: Vec::new(),
    };
    match preparation(reader) {
        Preparation::Nothing => {}
        Preparation::Json => input.json = parsed(bytes),
        Preparation::Events => {
            input.events = gotest::event_lines(bytes)
                .iter()
                .map(|line| parsed(line.as_bytes()).ok())
                .collect();
        }
        Preparation::Counts => {
            input.counts = lcov::count_texts(bytes).into_iter().map(count).collect();
        }
        Preparation::Scores => {
            input.json = parsed(bytes);
            if let Ok(log) = &input.json {
                input.scores = sarif::score_texts(log).into_iter().filter_map(score).collect();
            }
        }
    }
    input
}

const LCOV: &str = "\
TN:
SF:/builds/acme/src/main.rs
FN:10,main
FNDA:3,main
FNF:1
FNH:1
BRDA:12,0,0,2
BRDA:12,0,1,-
BRF:2
BRH:1
DA:10,3
DA:11,0
DA:12,3
LF:3
LH:2
end_of_record
";

const CLOVER: &str = r#"<?xml version="1.0" encoding="UTF-8"?>
<coverage generated="1719410000" clover="3.2.0">
  <project timestamp="1719410000" name="All files">
    <package name="App">
      <file name="/home/runner/work/acme/src/App/Main.php">
        <class name="Main" namespace="App">
          <metrics complexity="3" methods="1" coveredmethods="1" statements="2" coveredstatements="2"/>
        </class>
        <line num="12" type="method" name="run" visibility="public" complexity="2" crap="2" count="4"/>
        <line num="14" type="stmt" count="4"/>
        <line num="16" type="stmt" count="0"/>
        <line num="18" type="cond" truecount="1" falsecount="0"/>
        <metrics loc="20" ncloc="18" classes="1" methods="1" coveredmethods="1" conditionals="2" coveredconditionals="1" statements="2" coveredstatements="1" elements="5" coveredelements="3"/>
      </file>
    </package>
  </project>
</coverage>
"#;

const COBERTURA: &str = r#"<?xml version="1.0"?>
<!DOCTYPE coverage SYSTEM "http://cobertura.sourceforge.net/xml/coverage-04.dtd">
<coverage line-rate="0.66" branch-rate="0.5" timestamp="1700000000">
  <sources><source>/builds/acme</source></sources>
  <packages>
    <package name="src">
      <classes>
        <class name="src.main" filename="src/main.rs" line-rate="0.66">
          <methods>
            <method name="main" signature="()V">
              <lines><line number="10" hits="3"/></lines>
            </method>
          </methods>
          <lines>
            <line number="10" hits="3"/>
            <line number="11" hits="0"/>
            <line number="12" hits="3" branch="true" condition-coverage="50% (1/2)"/>
          </lines>
        </class>
      </classes>
    </package>
  </packages>
</coverage>
"#;

const PROFILE: &str = "\
mode: set
github.com/acme/proj/main.go:12.13,15.2 2 1
github.com/acme/proj/main.go:18.2,18.16 1 0
github.com/acme/proj/pkg/util.go:8.20,10.3 1 1
";

const ISTANBUL: &str = r#"{
      "/home/runner/work/acme/acme/src/index.js": {
        "path": "/home/runner/work/acme/acme/src/index.js",
        "statementMap": {
          "0": { "start": { "line": 1, "column": 0 }, "end": { "line": 1, "column": 24 } },
          "1": { "start": { "line": 4, "column": 2 }, "end": { "line": 4, "column": 30 } },
          "2": { "start": { "line": 4, "column": 32 }, "end": { "line": 4, "column": 48 } },
          "3": { "start": { "line": 8, "column": 2 }, "end": { "line": 8, "column": 12 } }
        },
        "fnMap": {
          "0": {
            "name": "handler",
            "decl": { "start": { "line": 3, "column": 9 }, "end": { "line": 3, "column": 16 } },
            "loc": { "start": { "line": 3, "column": 25 }, "end": { "line": 9, "column": 1 } }
          }
        },
        "branchMap": {
          "0": {
            "type": "if",
            "loc": { "start": { "line": 6, "column": 2 }, "end": { "line": 7, "column": 3 } },
            "locations": [
              { "start": { "line": 6, "column": 2 } },
              { "start": { "line": 6, "column": 2 } }
            ]
          }
        },
        "s": { "0": 4, "1": 2, "2": 7, "3": 0 },
        "f": { "0": 4 },
        "b": { "0": [3, 0] }
      }
    }"#;

const JACOCO: &str = r#"<?xml version="1.0" encoding="UTF-8"?>
<report name="acme">
  <package name="com/acme">
    <class name="com/acme/App" sourcefilename="App.java">
      <method name="main" desc="([Ljava/lang/String;)V" line="10">
        <counter type="INSTRUCTION" missed="0" covered="4"/>
      </method>
      <counter type="INSTRUCTION" missed="2" covered="4"/>
      <counter type="COMPLEXITY" missed="1" covered="1"/>
      <counter type="METHOD" missed="0" covered="1"/>
      <counter type="CLASS" missed="0" covered="1"/>
    </class>
    <sourcefile name="App.java">
      <line nr="10" mi="0" ci="4" mb="0" cb="0"/>
      <line nr="11" mi="2" ci="0" mb="0" cb="0"/>
      <line nr="12" mi="0" ci="3" mb="1" cb="1"/>
    </sourcefile>
  </package>
</report>
"#;

const JUNIT: &str = r#"<?xml version="1.0" encoding="UTF-8"?>
<testsuites name="run">
  <testsuite name="acme.CalcTest" tests="4" time="1.25" timestamp="2026-01-02T03:04:05">
    <properties><property name="env" value="ci"/></properties>
    <testcase name="adds" classname="acme.CalcTest" time="0.5"/>
    <testcase name="divides" classname="acme.CalcTest" time="0.25">
      <failure message="expected 2 but was 3" type="AssertionError">at Calc.divide(Calc.java:12)</failure>
    </testcase>
    <testcase name="explodes" classname="acme.CalcTest" time="0.5">
      <error message="boom" type="RuntimeException"/>
    </testcase>
    <testcase name="later" classname="acme.CalcTest">
      <skipped message="not implemented"/>
    </testcase>
    <system-out>build log</system-out>
  </testsuite>
</testsuites>
"#;

const STREAM: &str = r##"{"Time":"2026-06-26T12:00:00.1Z","Action":"start","Package":"github.com/acme/proj/calc"}
{"Time":"2026-06-26T12:00:00.2Z","Action":"run","Package":"github.com/acme/proj/calc","Test":"TestAdds"}
{"Time":"2026-06-26T12:00:00.2Z","Action":"output","Package":"github.com/acme/proj/calc","Test":"TestAdds","Output":"=== RUN   TestAdds\n"}
{"Time":"2026-06-26T12:00:00.3Z","Action":"output","Package":"github.com/acme/proj/calc","Test":"TestAdds","Output":"--- PASS: TestAdds (0.00s)\n"}
{"Time":"2026-06-26T12:00:00.3Z","Action":"pass","Package":"github.com/acme/proj/calc","Test":"TestAdds","Elapsed":0.004}
{"Time":"2026-06-26T12:00:00.4Z","Action":"run","Package":"github.com/acme/proj/calc","Test":"TestDivides"}
{"Time":"2026-06-26T12:00:00.4Z","Action":"output","Package":"github.com/acme/proj/calc","Test":"TestDivides","Output":"=== RUN   TestDivides\n"}
{"Time":"2026-06-26T12:00:00.5Z","Action":"output","Package":"github.com/acme/proj/calc","Test":"TestDivides","Output":"    calc_test.go:23: expected 2, got 3\n"}
{"Time":"2026-06-26T12:00:00.5Z","Action":"output","Package":"github.com/acme/proj/calc","Test":"TestDivides","Output":"--- FAIL: TestDivides (0.00s)\n"}
{"Time":"2026-06-26T12:00:00.5Z","Action":"fail","Package":"github.com/acme/proj/calc","Test":"TestDivides","Elapsed":0.002}
{"Time":"2026-06-26T12:00:00.6Z","Action":"run","Package":"github.com/acme/proj/calc","Test":"TestLater"}
{"Time":"2026-06-26T12:00:00.6Z","Action":"output","Package":"github.com/acme/proj/calc","Test":"TestLater","Output":"    calc_test.go:31: needs network\n"}
{"Time":"2026-06-26T12:00:00.6Z","Action":"skip","Package":"github.com/acme/proj/calc","Test":"TestLater","Elapsed":0}
{"Time":"2026-06-26T12:00:00.7Z","Action":"fail","Package":"github.com/acme/proj/calc","Elapsed":0.021}
{"Time":"2026-06-26T12:00:01.0Z","Action":"output","Package":"github.com/acme/proj/broken","Output":"# github.com/acme/proj/broken\n"}
{"Time":"2026-06-26T12:00:01.0Z","Action":"output","Package":"github.com/acme/proj/broken","Output":"./main.go:7:2: undefined: missing\n"}
{"Time":"2026-06-26T12:00:01.0Z","Action":"fail","Package":"github.com/acme/proj/broken","Elapsed":0}
"##;

const TAP: &str = "\
TAP version 13
1..4
ok 1 - adds numbers
not ok 2 - divides numbers
  ---
  message: 'expected 2, got 3'
  at: calc_test.js:23
  ...
ok 3 - later # SKIP needs network
not ok 4 - streams # TODO not implemented yet
";

const TRX: &str = r#"<?xml version="1.0" encoding="utf-8"?>
<TestRun id="7e4a8b21-0000-0000-0000-000000000001" name="runner 2026-06-26 12:00:00"
         xmlns="http://microsoft.com/schemas/VisualStudio/TeamTest/2010">
  <Times creation="2026-06-26T12:00:00.0000000+00:00" start="2026-06-26T12:00:01.0000000+00:00"
         finish="2026-06-26T12:00:03.0000000+00:00"/>
  <Results>
    <UnitTestResult executionId="e1" testId="t1" testName="Acme.Tests.CalcTests.Adds"
                    computerName="build-01" duration="00:00:00.5120000" outcome="Passed"/>
    <UnitTestResult executionId="e2" testId="t2" testName="Acme.Tests.CalcTests.Divides"
                    computerName="build-01" duration="00:00:00.3010000" outcome="Failed">
      <Output>
        <StdOut>dividing now</StdOut>
        <ErrorInfo>
          <Message>Assert.AreEqual failed. Expected:&lt;2&gt;. Actual:&lt;3&gt;.</Message>
          <StackTrace>   at Acme.Tests.CalcTests.Divides() in /src/CalcTests.cs:line 42</StackTrace>
        </ErrorInfo>
      </Output>
    </UnitTestResult>
    <UnitTestResult executionId="e3" testId="t3" testName="Acme.Tests.CalcTests.Later"
                    duration="00:00:00.0000000" outcome="NotExecuted"/>
    <UnitTestResult executionId="e4" testId="t4" testName="Acme.Tests.SlowTests.Waits"
                    duration="00:01:30.0000000" outcome="Timeout"/>
    <UnitTestResult executionId="e5" testId="t5" testName="Acme.Tests.DataTests.Rows"
                    outcome="Failed">
      <InnerResults>
        <UnitTestResult executionId="e5a" testId="t5" testName="Rows (a: 1)"
                        duration="00:00:00.0100000" outcome="Passed"/>
        <UnitTestResult executionId="e5b" testId="t5" testName="Rows (a: 2)"
                        duration="00:00:00.0200000" outcome="Failed">
          <Output><ErrorInfo><Message>row two failed</Message></ErrorInfo></Output>
        </UnitTestResult>
      </InnerResults>
    </UnitTestResult>
  </Results>
  <TestDefinitions>
    <UnitTest name="Adds" storage="acme.tests.dll" id="t1">
      <TestMethod codeBase="acme.tests.dll" className="Acme.Tests.CalcTests" name="Adds"/>
    </UnitTest>
    <UnitTest name="Divides" storage="acme.tests.dll" id="t2">
      <TestMethod codeBase="acme.tests.dll" className="Acme.Tests.CalcTests" name="Divides"/>
    </UnitTest>
    <UnitTest name="Later" storage="acme.tests.dll" id="t3">
      <TestMethod codeBase="acme.tests.dll" className="Acme.Tests.CalcTests" name="Later"/>
    </UnitTest>
    <UnitTest name="Waits" storage="acme.tests.dll" id="t4">
      <TestMethod codeBase="acme.tests.dll" className="Acme.Tests.SlowTests" name="Waits"/>
    </UnitTest>
    <UnitTest name="Rows" storage="acme.tests.dll" id="t5">
      <TestMethod codeBase="acme.tests.dll" className="Acme.Tests.DataTests" name="Rows"/>
    </UnitTest>
  </TestDefinitions>
  <ResultSummary outcome="Failed">
    <Counters total="5" executed="4" passed="2" failed="2" timeout="1"/>
  </ResultSummary>
</TestRun>
"#;

const CHECKSTYLE: &str = r#"<?xml version="1.0"?>
<checkstyle version="8.36">
  <file name="/builds/acme/proj/src/app.js">
    <error line="12" column="5" severity="warning" message="Unexpected var" source="no-var"/>
  </file>
</checkstyle>
"#;

const ESLINT: &str = r#"[
      {
        "filePath": "/home/runner/work/acme/acme/src/index.js",
        "messages": [
          {
            "ruleId": "no-unused-vars",
            "severity": 2,
            "message": "'fs' is defined but never used.",
            "line": 3,
            "column": 1,
            "nodeType": "Identifier",
            "messageId": "unusedVar",
            "endLine": 3,
            "endColumn": 10
          },
          {
            "ruleId": "no-var",
            "severity": 1,
            "message": "Unexpected var, use let or const instead.",
            "line": 11,
            "column": 5,
            "endLine": 11,
            "endColumn": 8,
            "fix": { "range": [120, 123], "text": "let" }
          }
        ],
        "suppressedMessages": [
          { "ruleId": "no-console", "severity": 1, "message": "Unexpected console statement.",
            "line": 20, "column": 3 }
        ],
        "errorCount": 1,
        "warningCount": 1
      },
      {
        "filePath": "/home/runner/work/acme/acme/src/broken.js",
        "messages": [
          {
            "ruleId": null,
            "fatal": true,
            "severity": 2,
            "message": "Parsing error: Unexpected token }",
            "line": 7,
            "column": 1
          }
        ],
        "suppressedMessages": [],
        "errorCount": 1,
        "warningCount": 0
      },
      { "filePath": "/home/runner/work/acme/acme/src/clean.js", "messages": [],
        "suppressedMessages": [], "errorCount": 0, "warningCount": 0 }
    ]"#;

const SARIF: &str = r#"{
      "$schema": "https://json.schemastore.org/sarif-2.1.0.json",
      "version": "2.1.0",
      "runs": [{
        "invocations": [{
          "executionSuccessful": true,
          "startTimeUtc": "2026-06-26T12:00:00.123456Z",
          "endTimeUtc": "2026-06-26T12:00:09.987654Z"
        }],
        "tool": {"driver": {
          "name": "semgrep",
          "semanticVersion": "1.75.0",
          "rules": [{
            "id": "python.lang.security.audit",
            "name": "audit",
            "shortDescription": {"text": "Audit finding"},
            "help": {"text": "Do not do that"},
            "helpUri": "https://example.test/rule",
            "defaultConfiguration": {"level": "warning"},
            "properties": {"tags": ["security", "external/cwe/cwe-079"], "security-severity": "8.1"}
          }]
        }},
        "results": [
          {
            "ruleId": "python.lang.security.audit",
            "ruleIndex": 0,
            "message": {"text": "Dangerous call"},
            "locations": [{"physicalLocation": {
              "artifactLocation": {"uri": "file:///builds/acme/app.py"},
              "region": {"startLine": 7, "startColumn": 3, "endLine": 9}
            }}],
            "partialFingerprints": {"primaryLocationLineHash": "deadbeef"}
          },
          {
            "ruleId": "python.lang.security.audit",
            "ruleIndex": 0,
            "level": "error",
            "message": {"text": "Another one"},
            "locations": [{"physicalLocation": {"artifactLocation": {"uri": "app.py"}}}],
            "codeFlows": [{"threadFlows": []}]
          }
        ]
      }]
    }"#;

const CODECLIMATE: &str = r#"[
      {
        "type": "issue",
        "check_name": "no-var",
        "description": "Unexpected var",
        "categories": ["Style"],
        "location": {"path": "src/app.js", "lines": {"begin": 12, "end": 12}},
        "severity": "minor",
        "fingerprint": "abc123"
      },
      {
        "check_name": "complexity",
        "content": {"body": "Split this function"},
        "location": {"path": "src/app.js", "positions": {"begin": {"line": 40, "column": 3}}},
        "severity": "major"
      }
    ]"#;

const TRIVY: &str = r#"{
      "SchemaVersion": 2,
      "CreatedAt": "2026-06-26T12:00:00.123456789Z",
      "ArtifactName": "acme/api:1.2.3",
      "ArtifactType": "container_image",
      "Metadata": { "OS": { "Family": "debian", "Name": "12.5" } },
      "Results": [
        {
          "Target": "acme/api:1.2.3 (debian 12.5)",
          "Class": "os-pkgs",
          "Type": "debian",
          "Vulnerabilities": [
            {
              "VulnerabilityID": "CVE-2024-1234",
              "PkgName": "libssl3",
              "InstalledVersion": "3.0.11-1",
              "FixedVersion": "3.0.11-2",
              "Title": "openssl: out-of-bounds read",
              "Description": "A very long paragraph nobody reads in a list view.",
              "Severity": "HIGH",
              "CweIDs": ["CWE-125"],
              "PrimaryURL": "https://avd.aquasec.com/nvd/cve-2024-1234",
              "References": ["https://openssl.org/news/secadv/20240101.txt"]
            }
          ]
        },
        {
          "Target": "package-lock.json",
          "Class": "lang-pkgs",
          "Type": "npm",
          "Vulnerabilities": [
            {
              "VulnerabilityID": "GHSA-abcd-1234-efgh",
              "PkgName": "lodash",
              "PkgIdentifier": { "PURL": "pkg:npm/lodash@4.17.20" },
              "InstalledVersion": "4.17.20",
              "FixedVersion": "4.17.21",
              "Title": "Prototype pollution in lodash",
              "Severity": "CRITICAL"
            }
          ]
        },
        {
          "Target": "Dockerfile",
          "Class": "config",
          "Type": "dockerfile",
          "Misconfigurations": [
            {
              "ID": "DS002",
              "Title": "Image user should not be root",
              "Message": "Specify at least 1 USER command",
              "Severity": "MEDIUM",
              "Resolution": "Add a USER command",
              "PrimaryURL": "https://avd.aquasec.com/misconfig/ds002",
              "CauseMetadata": { "StartLine": 1, "EndLine": 12 }
            }
          ]
        },
        {
          "Target": ".env",
          "Class": "secret",
          "Secrets": [
            {
              "RuleID": "aws-access-key-id",
              "Category": "AWS",
              "Severity": "CRITICAL",
              "Title": "AWS Access Key ID",
              "StartLine": 3,
              "EndLine": 3
            }
          ]
        }
      ]
    }"#;

/// A report of every format that can be read.
fn samples() -> Vec<(&'static str, &'static str)> {
    vec![
        ("lcov", LCOV),
        ("clover", CLOVER),
        ("cobertura", COBERTURA),
        ("go-coverprofile", PROFILE),
        ("istanbul", ISTANBUL),
        ("jacoco", JACOCO),
        ("junit", JUNIT),
        ("go-test-json", STREAM),
        ("tap", TAP),
        ("trx", TRX),
        ("checkstyle", CHECKSTYLE),
        ("eslint", ESLINT),
        ("sarif", SARIF),
        ("codeclimate", CODECLIMATE),
        ("trivy-json", TRIVY),
        ("codeclimate-gitlab", CODECLIMATE),
    ]
}

fn read(format: &FormatSpec, bytes: &[u8]) -> Result<Doc, Error> {
    let mut ctx = FormatCtx::new(format.default_version);
    let reader = format.reader()?;
    read_as(reader, &prepared(bytes, reader), &mut ctx)
}

fn render(format: &FormatSpec, doc: &Doc) -> Result<Vec<u8>, Error> {
    let mut ctx = FormatCtx::new(format.default_version);
    let ratios = ratios_of(doc);
    let times = match doc {
        Doc::Tests(report) => times_of(report),
        _ => Times { total: shown(0.0), suites: Vec::new() },
    };
    match write_as(format.writer()?, doc, &ratios, &times, &mut ctx)? {
        Output::Text(text) => Ok(text.into_bytes()),
        Output::Json(json) => {
            Ok(serde_json::to_vec_pretty(&value_of(&json)).expect("a printable document"))
        }
    }
}

/// The formats that a report of this one can become.
fn targets_for(source: &FormatSpec) -> Vec<FormatSpec> {
    formats()
        .into_iter()
        .filter(|f| f.write.is_some() && f.shared_category(source).is_some())
        .collect()
}

#[test]
fn every_sample_converts_to_every_format_of_its_category() {
    let mut conversions = 0;
    for (id, text) in samples() {
        let source = find(id).unwrap();
        let doc = read(&source, text.as_bytes()).unwrap();
        for target in targets_for(&source) {
            let bytes = render(&target, &doc).unwrap();
            assert!(!bytes.is_empty(), "{id} -> {} produced no output", target.id);
            conversions += 1;
        }
    }
    assert!(conversions > samples().len());
}

#[test]
fn every_written_sample_can_be_read_back() {
    for (id, text) in samples() {
        let source = find(id).unwrap();
        let doc = read(&source, text.as_bytes()).unwrap();
        for target in targets_for(&source) {
            if target.read.is_none() {
                continue;
            }
            let bytes = render(&target, &doc).unwrap();
            assert!(read(&target, &bytes).is_ok(), "{id} -> {}", target.id);
        }
    }
}

#[test]
fn every_sample_is_written_the_same_way_twice() {
    for (id, text) in samples() {
        let source = find(id).unwrap();
        for target in targets_for(&source) {
            let first = render(&target, &read(&source, text.as_bytes()).unwrap()).unwrap();
            let second = render(&target, &read(&source, text.as_bytes()).unwrap()).unwrap();
            assert_eq!(first, second, "{id} -> {}", target.id);
        }
    }
}

/// Writing what was read back changes nothing more.
#[test]
fn a_second_trip_through_a_format_changes_nothing() {
    for (id, text) in samples() {
        let source = find(id).unwrap();
        let doc = read(&source, text.as_bytes()).unwrap();
        for target in targets_for(&source) {
            if target.read.is_none() {
                continue;
            }
            let once = read(&target, &render(&target, &doc).unwrap()).unwrap();
            let twice = read(&target, &render(&target, &once).unwrap()).unwrap();
            assert_eq!(
                render(&target, &once).unwrap(),
                render(&target, &twice).unwrap(),
                "{id} -> {}",
                target.id
            );
        }
    }
}

#[test]
fn every_readable_format_has_a_sample() {
    for format in formats() {
        if format.read.is_some() {
            assert!(samples().iter().any(|(id, _)| *id == format.id), "{}", format.id);
        }
    }
}

#[test]
fn no_format_reads_a_blank_input() {
    for format in formats() {
        if format.read.is_some() {
            assert!(read(&format, b"").is_err(), "{}", format.id);
            assert!(read(&format, b"   \n").is_err(), "{}", format.id);
        }
    }
}
