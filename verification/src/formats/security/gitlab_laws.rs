//! What writing a GitLab security report promises.

use vstd::prelude::*;

use crate::formats::security::gitlab::{
    analyzer_item, dependency_item, entry, identifier_item, identifier_items, is_hex, link_items,
    location_item, report, severity_word, stable_hex, uuid, vulnerability_item, Profile,
};
use crate::hash::fingerprint_of;
use crate::json::{members, JsonView};
use crate::model::findings::{FindingView, FindingsDocView, Severity, ToolView};
use crate::text::{decimal, lower, replace_char};
use crate::value::{filter_mapped, kept_items_are_listed, listed_items_were_kept};

verus! {

/// Whether an object has this text under this key.
pub open spec fn states(object: JsonView, key: Seq<char>, text: Seq<char>) -> bool {
    object.members().contains((key, JsonView::Text(text)))
}

/// A blocker is critical to GitLab, a critical finding high, a major one medium, a
/// minor one low, and information is information.
pub proof fn severities_have_their_words(severity: Severity)
    ensures
        severity_word(severity) == match severity {
            Severity::Blocker => "Critical"@,
            Severity::Critical => "High"@,
            Severity::Major => "Medium"@,
            Severity::Minor => "Low"@,
            Severity::Info => "Info"@,
        },
{
}

/// A vulnerability has the finding's identity, title, description, severity,
/// guidance, identifiers, place and links.
pub proof fn vulnerabilities_say_what_the_finding_does(f: FindingView, location: JsonView)
    ensures
        ({
            let v = vulnerability_item(f, location);
            &&& states(v, "id"@, uuid(stable_hex(f)))
            &&& (f.title matches Some(title) ==> states(v, "name"@, title))
            &&& states(v, "description"@, f.description)
            &&& states(v, "severity"@, severity_word(f.severity))
            &&& (f.help matches Some(help) ==> states(v, "solution"@, help))
            &&& v.members().contains(("identifiers"@, JsonView::Array(identifier_items(f))))
            &&& v.members().contains(("location"@, location))
            &&& f.links.len() > 0 ==> v.members().contains(
                ("links"@, JsonView::Array(link_items(f.links))),
            )
        }),
{
    let list = vulnerability_item(f, location).members();
    assert(list[0].0 == "id"@);
    let mut n: int = 1;
    if f.title is Some {
        assert(list[1].0 == "name"@);
        n = 2;
    }
    assert(list[n].0 == "description"@ && list[n + 1].0 == "severity"@);
    n = n + 2;
    if f.help is Some {
        assert(list[n].0 == "solution"@);
        n = n + 1;
    }
    assert(list[n].0 == "identifiers"@ && list[n + 1].0 == "location"@);
    if f.links.len() > 0 {
        assert(list[n + 2].0 == "links"@);
    }
}

/// A vulnerability is identified by every identifier of the finding, or, where it
/// has none, by its rule alone.
pub proof fn findings_are_identified(f: FindingView, i: int)
    ensures
        0 <= i < f.identifiers.len() ==> {
            let item = identifier_items(f)[i];
            &&& identifier_items(f).len() == f.identifiers.len()
            &&& states(item, "type"@, lower(f.identifiers[i].kind))
            &&& states(item, "name"@, f.identifiers[i].value)
            &&& states(item, "value"@, f.identifiers[i].value)
            &&& (f.identifiers[i].url matches Some(url) ==> states(item, "url"@, url))
        },
        f.identifiers.len() == 0 ==> match f.rule_id {
            Some(rule) => {
                let item = identifier_items(f)[0];
                &&& identifier_items(f).len() == 1
                &&& states(item, "type"@, "udc_rule"@)
                &&& states(item, "name"@, rule)
                &&& states(item, "value"@, rule)
                &&& f.links.len() > 0 ==> states(item, "url"@, f.links[0])
            },
            None => identifier_items(f).len() == 0,
        },
{
    if 0 <= i < f.identifiers.len() {
        let item = identifier_items(f)[i];
        assert(item == identifier_item(f.identifiers[i]));
        let list = item.members();
        assert(list[0].0 == "type"@ && list[1].0 == "name"@ && list[2].0 == "value"@);
        assert(f.identifiers[i].url is Some ==> list[3].0 == "url"@);
    }
    if f.identifiers.len() == 0 && f.rule_id is Some {
        let list = identifier_items(f)[0].members();
        assert(list[0].0 == "type"@ && list[1].0 == "name"@ && list[2].0 == "value"@);
        assert(f.links.len() > 0 ==> list[3].0 == "url"@);
    }
}

/// A finding is reported exactly where it is identified and, depending on the
/// report, can be placed: in a dependency report it has a file and a named
/// package, in a container report an image, an operating system and a named
/// package. In a code report any place will do.
pub proof fn complete_findings_are_reported(f: FindingView, profile: Profile)
    ensures
        ({
            let identified = f.identifiers.len() > 0 || f.rule_id is Some;
            let packaged = f.component matches Some(c) && c.name.len() > 0;
            let imaged = f.location.image matches Some(image) && image.len() > 0;
            let hosted = f.location.operating_system matches Some(system) && system.len() > 0;
            entry(f, profile) is Some <==> identified && match profile {
                Profile::Sast => true,
                Profile::DependencyScanning => f.location.path.len() > 0 && packaged,
                Profile::ContainerScanning => packaged && imaged && hosted,
            }
        }),
{
}

proof fn packages_are_written_whole(f: FindingView)
    requires
        dependency_item(f) is Some,
    ensures
        dependency_item(f) == Some(package_of(f)),
{
    let list = dependency_item(f)->0.members();
    assert(list[0].1.members() =~= seq![("name"@, JsonView::Text(f.component->0.name))]);
    assert(list[0].1 == JsonView::Object(list[0].1.members()));
    assert(list =~= package_of(f).members());
}

/// A place in the code has its file and its lines; one among the dependencies its
/// file and its package, one in a container its package, image and system.
pub proof fn places_are_written_whole(f: FindingView, profile: Profile)
    requires
        location_item(f, profile) is Some,
    ensures
        ({
            let item = location_item(f, profile)->0;
            let first = f.location.begin_line;
            let last = f.location.end_line;
            match profile {
                Profile::Sast => {
                    &&& f.location.path.len() > 0 ==> states(item, "file"@, f.location.path)
                    &&& (first matches Some(line) ==> item.members().contains(
                        ("start_line"@, JsonView::Number(decimal(line as nat))),
                    ))
                    &&& (last matches Some(line) ==> item.members().contains(
                        ("end_line"@, JsonView::Number(decimal(line as nat))),
                    ))
                },
                Profile::DependencyScanning => {
                    &&& states(item, "file"@, f.location.path)
                    &&& item.members().contains(("dependency"@, package_of(f)))
                },
                Profile::ContainerScanning => {
                    &&& item.members().contains(("dependency"@, package_of(f)))
                    &&& states(item, "image"@, f.location.image->0)
                    &&& states(item, "operating_system"@, f.location.operating_system->0)
                },
            }
        }),
{
    let list = location_item(f, profile)->0.members();
    if profile != Profile::Sast {
        packages_are_written_whole(f);
    }
    match profile {
        Profile::Sast => {
            let mut n: int = 0;
            if f.location.path.len() > 0 {
                assert(list[0].0 == "file"@);
                n = 1;
            }
            if f.location.begin_line is Some {
                assert(list[n].0 == "start_line"@);
                n = n + 1;
            }
            if f.location.end_line is Some {
                assert(list[n].0 == "end_line"@);
            }
        },
        Profile::DependencyScanning => {
            assert(list[0].0 == "file"@ && list[1].0 == "dependency"@);
        },
        Profile::ContainerScanning => {
            assert(list[0].0 == "dependency"@ && list[1].0 == "image"@);
            assert(list[2].0 == "operating_system"@);
        },
    }
}

/// The package of a finding with its version, which is empty where none is known.
pub open spec fn package_of(f: FindingView) -> JsonView {
    JsonView::Object(
        seq![
            (
                "package"@,
                JsonView::Object(seq![("name"@, JsonView::Text(f.component->0.name))]),
            ),
            (
                "version"@,
                JsonView::Text(
                    match f.component->0.version {
                        Some(version) => version,
                        None => ""@,
                    },
                ),
            ),
        ],
    )
}

/// The vulnerabilities of a report.
pub open spec fn vulnerabilities(doc: FindingsDocView, profile: Profile) -> Seq<JsonView> {
    filter_mapped(doc.findings, |f: FindingView| entry(f, profile))
}

/// The report holds every finding that can be reported, and nothing else.
pub proof fn reports_hold_the_findings(doc: FindingsDocView, profile: Profile, i: int, k: int)
    ensures
        report(doc, profile).members().contains(
            ("vulnerabilities"@, JsonView::Array(vulnerabilities(doc, profile))),
        ),
        0 <= i < doc.findings.len() ==> (entry(doc.findings[i], profile) matches Some(v)
            ==> vulnerabilities(doc, profile).contains(v)),
        0 <= k < vulnerabilities(doc, profile).len() ==> exists|i: int|
            0 <= i < doc.findings.len() && entry(#[trigger] doc.findings[i], profile) == Some(
                vulnerabilities(doc, profile)[k],
            ),
{
    let g = |f: FindingView| entry(f, profile);
    assert(report(doc, profile).members()[2].0 == "vulnerabilities"@);
    if 0 <= i < doc.findings.len() && entry(doc.findings[i], profile) is Some {
        assert(g(doc.findings[i]) == entry(doc.findings[i], profile));
        kept_items_are_listed(doc.findings, g, i);
    }
    if 0 <= k < vulnerabilities(doc, profile).len() {
        listed_items_were_kept(doc.findings, g, k);
        let w = choose|w: int|
            0 <= w < doc.findings.len() && g(#[trigger] doc.findings[w]) == Some(
                vulnerabilities(doc, profile)[k],
            );
        assert(entry(doc.findings[w], profile) == Some(vulnerabilities(doc, profile)[k]));
    }
}

/// The report names its kind, its analyzer and scanner, and the window of the
/// scan; where that is unknown it is the beginning of time.
pub proof fn reports_name_their_scan(doc: FindingsDocView, profile: Profile)
    ensures
        ({
            let item = report(doc, profile).members()[1];
            let scan = item.1;
            &&& item.0 == "scan"@
            &&& scan.members().contains(("analyzer"@, analyzer_item(doc.tool)))
            &&& scan.members().contains(("scanner"@, analyzer_item(doc.tool)))
            &&& states(scan, "status"@, "success"@)
            &&& states(
                scan,
                "type"@,
                match profile {
                    Profile::Sast => "sast"@,
                    Profile::DependencyScanning => "dependency_scanning"@,
                    Profile::ContainerScanning => "container_scanning"@,
                },
            )
            &&& states(
                scan,
                "start_time"@,
                match doc.scan.start {
                    Some(time) => time,
                    None => "1970-01-01T00:00:00"@,
                },
            )
            &&& states(
                scan,
                "end_time"@,
                match doc.scan.end {
                    Some(time) => time,
                    None => "1970-01-01T00:00:00"@,
                },
            )
        }),
{
    let scan = report(doc, profile).members()[1].1.members();
    assert(scan[0].0 == "analyzer"@ && scan[1].0 == "scanner"@ && scan[2].0 == "type"@);
    assert(scan[3].0 == "status"@ && scan[4].0 == "start_time"@ && scan[5].0 == "end_time"@);
}

/// An analyzer is known by its name in lower case, with hyphens for spaces, and has
/// its version, vendor and address.
pub proof fn analyzers_are_named(tool: Option<ToolView>)
    ensures
        ({
            let item = analyzer_item(tool);
            let name = match tool {
                Some(t) => t.name,
                None => "udc"@,
            };
            &&& states(item, "id"@, replace_char(lower(name), ' ', '-'))
            &&& states(item, "name"@, name)
            &&& states(
                item,
                "version"@,
                match tool {
                    Some(t) => match t.version {
                        Some(version) => version,
                        None => "unknown"@,
                    },
                    None => "unknown"@,
                },
            )
            &&& item.members().contains(("vendor"@, members().text("name"@, name).done()))
            &&& (tool matches Some(t) ==> (t.url matches Some(url) ==> states(item, "url"@, url)))
        }),
{
    let list = analyzer_item(tool).members();
    assert(list[0].0 == "id"@ && list[1].0 == "name"@ && list[2].0 == "version"@);
    assert(list[3].0 == "vendor"@);
    if let Some(t) = tool {
        if t.url is Some {
            assert(list[4].0 == "url"@);
        }
    }
}

/// A vulnerability's identity is its fingerprint where that is one of this form, a
/// fingerprint of it where it is not, and without one that of where the finding is
/// and what it says.
pub proof fn identities_are_fingerprints(f: FindingView)
    ensures
        match f.fingerprint {
            Some(print) => if is_hex(print) {
                stable_hex(f) == print
            } else {
                stable_hex(f) == fingerprint_of(seq![print])
            },
            None => stable_hex(f) == fingerprint_of(seq![f.location.path, f.description]),
        },
{
}

} // verus!
