use third_party_notices::collect::{cargo_package_url, check_package_license, npm_package_url};
use third_party_notices::error::NoticeError;
use third_party_notices::expr::{single_requirement, LicenseExpression, RawNode};
use third_party_notices::notices::{Dep, Notices};
use third_party_notices::parse::parse_allow_list_entry;
use third_party_notices::render::{html, json, markdown};
use third_party_notices::req::LicenseRequirement;
use third_party_notices::scan::{add_notice_text, authors_notice, is_candidate_file_name, scan_text};

fn allow(entries: &[&str]) -> Vec<LicenseRequirement> {
    entries
        .iter()
        .map(|e| parse_allow_list_entry(e).expect("allow-list entry must parse"))
        .collect()
}


/// One collector step, as app code performs it: check the license first,
/// then append the record.
fn add_package(
    notices: &mut Notices,
    a: &Vec<LicenseRequirement>,
    ignore: &Vec<String>,
    name: String,
    package_url: String,
    license: Option<String>,
    dep_notices: Vec<String>,
) -> Result<bool, NoticeError> {
    if !check_package_license(notices, a, ignore, &name, &license)? {
        return Ok(false);
    }
    let license_id = license.unwrap();
    notices.append_dependency(Dep {
        name,
        package_url,
        license_id,
        notices: dep_notices,
    });
    Ok(true)
}

#[test]
fn allow_list_entry_single_ok() {
    let req = parse_allow_list_entry("Apache-2.0").unwrap();
    assert_eq!(req.req_str, "Apache-2.0");
    assert_eq!(req.license_id.as_deref(), Some("Apache-2.0"));
    assert!(req.exception_id.is_none());
    assert!(!req.or_later);
}

#[test]
fn allow_list_entry_multiple_rejected() {
    let r = parse_allow_list_entry("MIT OR Apache-2.0");
    match r {
        Err(NoticeError::NotSingleRequirement { entry }) => {
            assert_eq!(entry, "MIT OR Apache-2.0");
        }
        _ => panic!("an allow-list entry with two requirements must be rejected"),
    }
}

#[test]
fn evaluate_or_satisfied() {
    let expr = LicenseExpression::parse("MIT OR Apache-2.0").unwrap();
    let a = allow(&["Apache-2.0"]);
    assert!(expr.evaluate(&a).is_ok());
}

#[test]
fn evaluate_and_unsatisfied_reports_failures() {
    let expr = LicenseExpression::parse("MIT AND Apache-2.0").unwrap();
    let a = allow(&["Apache-2.0"]);
    let failed = expr.evaluate(&a).unwrap_err();
    assert_eq!(failed.len(), 1);
    assert_eq!(failed[0].req_str, "MIT");
}

#[test]
fn evaluate_with_exception() {
    let expr = LicenseExpression::parse("Apache-2.0 WITH LLVM-exception").unwrap();
    assert!(expr.evaluate(&allow(&["Apache-2.0 WITH LLVM-exception"])).is_ok());
    assert!(expr.evaluate(&allow(&["Apache-2.0"])).is_err());
}

#[test]
fn parse_failure_is_reported() {
    match LicenseExpression::parse("AND OR") {
        Err(NoticeError::ParseFailure { .. }) => {}
        _ => panic!("a malformed expression must fail to parse"),
    }
}

#[test]
fn or_expression_records_all_requirements() {
    let mut notices = Notices::default();
    let a = allow(&["Apache-2.0"]);
    let expr = LicenseExpression::parse("MIT OR Apache-2.0").unwrap();
    third_party_notices::notices::handle_license(&expr, &a, &mut notices).unwrap();
    assert_eq!(notices.licences.len(), 2);
    assert_eq!(notices.licences[0].req_str, "MIT");
    assert_eq!(notices.licences[1].req_str, "Apache-2.0");
}

#[test]
fn requirement_set_deduplicates() {
    let mut notices = Notices::default();
    let mit_a = parse_allow_list_entry("MIT").unwrap();
    let mit_b = parse_allow_list_entry("MIT").unwrap();
    let apache = parse_allow_list_entry("Apache-2.0").unwrap();
    notices.add_license(mit_a);
    notices.add_license(apache);
    notices.add_license(mit_b);
    assert_eq!(notices.licences.len(), 2);
    assert_eq!(notices.licences[0].req_str, "MIT");
    assert_eq!(notices.licences[1].req_str, "Apache-2.0");
}

#[test]
fn scanner_discards_template_placeholder() {
    let mut out: Vec<String> = Vec::new();
    scan_text(&mut out, "Copyright (c) <year> <copyright holders>\n");
    assert!(out.is_empty());
}

#[test]
fn scanner_retains_real_statement() {
    let mut out: Vec<String> = Vec::new();
    scan_text(&mut out, "Copyright \u{a9} 2023 Jane Doe\n");
    assert_eq!(out, vec!["Copyright \u{a9} 2023 Jane Doe".to_string()]);
}

#[test]
fn scanner_extracts_from_middle_of_line() {
    let mut out: Vec<String> = Vec::new();
    scan_text(&mut out, "// Copyright (C) 2020 Someone\nno statement here\n");
    assert_eq!(out, vec!["Copyright (C) 2020 Someone".to_string()]);
}

#[test]
fn scanner_deduplicates_across_calls() {
    let mut out: Vec<String> = Vec::new();
    scan_text(&mut out, "Copyright (c) 2020 A\n");
    scan_text(&mut out, "Copyright (c) 2020 A\nCopyright (c) 2021 B\n");
    assert_eq!(
        out,
        vec![
            "Copyright (c) 2020 A".to_string(),
            "Copyright (c) 2021 B".to_string()
        ]
    );
}

#[test]
fn scanner_needs_marker_after_word() {
    let mut out: Vec<String> = Vec::new();
    scan_text(&mut out, "Copyright 2023 Jane Doe\n");
    assert!(out.is_empty());
}

#[test]
fn candidate_file_names_match() {
    assert!(is_candidate_file_name("LICENSE.txt"));
    assert!(is_candidate_file_name("license"));
    assert!(is_candidate_file_name("COPYING.md"));
    assert!(is_candidate_file_name("NOTICE.txt"));
    assert!(is_candidate_file_name("Readme.rst"));
    assert!(!is_candidate_file_name("package.json"));
    assert!(!is_candidate_file_name("main.go"));
}

#[test]
fn notice_file_captured_verbatim() {
    let mut out: Vec<String> = Vec::new();
    let body = "This product includes software.\nDeveloped elsewhere.\n".to_string();
    add_notice_text(&mut out, body.clone());
    assert_eq!(out, vec![body.clone()]);
    add_notice_text(&mut out, body.clone());
    assert_eq!(out.len(), 1);
}

#[test]
fn missing_license_aborts_without_record() {
    let mut notices = Notices::default();
    let a = allow(&["MIT"]);
    let r = add_package(
        &mut notices,
        &a,
        &Vec::new(),
        "leftpad".to_string(),
        "https://example.invalid/leftpad".to_string(),
        None,
        Vec::new(),
    );
    match r {
        Err(NoticeError::MissingLicense { package }) => assert_eq!(package, "leftpad"),
        _ => panic!("a dependency without a license must abort the run"),
    }
    assert!(notices.dependencies.is_empty());
    assert!(notices.licences.is_empty());
}

#[test]
fn disallowed_license_aborts_without_record() {
    let mut notices = Notices::default();
    let a = allow(&["Apache-2.0"]);
    let r = add_package(
        &mut notices,
        &a,
        &Vec::new(),
        "gpltool".to_string(),
        "https://example.invalid/gpltool".to_string(),
        Some("GPL-3.0-only".to_string()),
        Vec::new(),
    );
    match r {
        Err(NoticeError::NotAllowed { failed }) => {
            assert_eq!(failed.len(), 1);
            assert_eq!(failed[0].req_str, "GPL-3.0-only");
        }
        _ => panic!("a disallowed license must abort the run"),
    }
    assert!(notices.dependencies.is_empty());
    assert!(notices.licences.is_empty());
}

#[test]
fn ignored_package_excluded() {
    let mut notices = Notices::default();
    let a = allow(&["MIT"]);
    let ignore = vec!["internal-tool".to_string()];
    let r = add_package(
        &mut notices,
        &a,
        &ignore,
        "internal-tool".to_string(),
        "https://example.invalid/internal-tool".to_string(),
        Some("GPL-3.0-only".to_string()),
        Vec::new(),
    );
    assert_eq!(r.unwrap(), false);
    assert!(notices.dependencies.is_empty());
    assert!(notices.licences.is_empty());

    let r2 = add_package(
        &mut notices,
        &a,
        &ignore,
        "serde".to_string(),
        "https://crates.io/crates/serde/1.0.0".to_string(),
        Some("MIT".to_string()),
        Vec::new(),
    );
    assert_eq!(r2.unwrap(), true);
    assert_eq!(notices.dependencies.len(), 1);
    assert_eq!(notices.dependencies[0].name, "serde");
    assert_eq!(notices.licences.len(), 1);
    assert_eq!(notices.licences[0].req_str, "MIT");
}

#[test]
fn processed_package_record_fields() {
    let mut notices = Notices::default();
    let a = allow(&["MIT"]);
    let r = add_package(
        &mut notices,
        &a,
        &Vec::new(),
        "serde".to_string(),
        "https://crates.io/crates/serde/1.0.0".to_string(),
        Some("MIT".to_string()),
        vec!["Copyright (c) 2020 A".to_string()],
    );
    assert_eq!(r.unwrap(), true);
    let d = &notices.dependencies[0];
    assert_eq!(d.name, "serde");
    assert_eq!(d.package_url, "https://crates.io/crates/serde/1.0.0");
    assert_eq!(d.license_id, "MIT");
    assert_eq!(d.notices, vec!["Copyright (c) 2020 A".to_string()]);
}

#[test]
fn cargo_url_synthesis() {
    let u = cargo_package_url(
        &"serde".to_string(),
        &"1.0.0".to_string(),
        true,
        &"registry+https://github.com/rust-lang/crates.io-index".to_string(),
    );
    assert_eq!(u, "https://crates.io/crates/serde/1.0.0");
    let v = cargo_package_url(
        &"local".to_string(),
        &"0.1.0".to_string(),
        false,
        &"git+https://example.invalid/repo".to_string(),
    );
    assert_eq!(v, "git+https://example.invalid/repo");
}

#[test]
fn npm_url_synthesis() {
    let u = npm_package_url(&"left-pad".to_string(), &"1.3.0".to_string());
    assert_eq!(u, "https://www.npmjs.com/package/left-pad/v/1.3.0");
}

#[test]
fn authors_line() {
    assert!(authors_notice(&Vec::new()).is_none());
    let s = authors_notice(&vec!["Jane Doe".to_string(), "John Q".to_string()]).unwrap();
    assert_eq!(s, "Authors: Jane Doe, John Q");
}

#[test]
fn not_allowed_message_enumerates_all() {
    let expr = LicenseExpression::parse("MIT AND GPL-3.0-only").unwrap();
    let failed = expr.evaluate(&Vec::new()).unwrap_err();
    let msg = NoticeError::NotAllowed { failed }.message();
    assert_eq!(
        msg,
        "None of the following licenses were allowed in the `allowed_licenses` configuration: MIT, GPL-3.0-only"
    );
}

#[test]
fn missing_license_message_names_package() {
    let msg = NoticeError::MissingLicense {
        package: "leftpad".to_string(),
    }
    .message();
    assert_eq!(msg, "Package leftpad does not have a license");
}

fn sample_notices() -> Notices {
    let mut notices = Notices::default();
    let a = allow(&["MIT", "Apache-2.0"]);
    add_package(
        &mut notices,
        &a,
        &Vec::new(),
        "alpha".to_string(),
        "https://crates.io/crates/alpha/1.0.0".to_string(),
        Some("MIT".to_string()),
        vec!["Copyright (c) 2020 Alpha Authors".to_string()],
    )
    .unwrap();
    add_package(
        &mut notices,
        &a,
        &Vec::new(),
        "beta".to_string(),
        "https://www.npmjs.com/package/beta/v/2.0.0".to_string(),
        Some("Apache-2.0".to_string()),
        Vec::new(),
    )
    .unwrap();
    notices
}

#[test]
fn license_text_resolution_mit() {
    let notices = sample_notices();
    let texts = notices.get_license_texts().unwrap();
    assert_eq!(texts.len(), 2);
    assert_eq!(texts[0].0, "MIT");
    assert!(texts[0].1.contains("Permission is hereby granted"));
    assert_eq!(texts[1].0, "Apache-2.0");
    assert!(texts[1].1.contains("Apache License"));
}

#[test]
fn license_text_with_exception_appended() {
    let mut notices = Notices::default();
    let a = allow(&["Apache-2.0 WITH LLVM-exception"]);
    let expr = LicenseExpression::parse("Apache-2.0 WITH LLVM-exception").unwrap();
    third_party_notices::notices::handle_license(&expr, &a, &mut notices).unwrap();
    let texts = notices.get_license_texts().unwrap();
    assert_eq!(texts.len(), 1);
    assert_eq!(texts[0].0, "Apache-2.0 WITH LLVM-exception");
    assert!(texts[0].1.contains("Apache License"));
    assert!(texts[0].1.contains("WITH EXCEPTION:"));
    assert!(texts[0].1.contains("LLVM Exceptions to the Apache 2.0 License"));
}

#[test]
fn corpus_missing_for_license_reference() {
    let mut notices = Notices::default();
    let a = allow(&["LicenseRef-proprietary"]);
    let expr = LicenseExpression::parse("LicenseRef-proprietary").unwrap();
    third_party_notices::notices::handle_license(&expr, &a, &mut notices).unwrap();
    match notices.get_license_texts() {
        Err(NoticeError::CorpusMissing { .. }) => {}
        _ => panic!("a license reference has no corpus text"),
    }
}

#[test]
fn renderers_list_same_entries() {
    let notices = sample_notices();
    let h = html(&notices).unwrap();
    let j = json(&notices).unwrap();
    let m = markdown(&notices).unwrap();
    for needle in ["alpha", "beta", "MIT", "Apache-2.0"] {
        assert!(h.contains(needle));
        assert!(j.contains(needle));
        assert!(m.contains(needle));
    }
    assert!(h.contains("<td>alpha</td>"));
    assert!(h.contains("<h3>MIT</h3>"));
    assert!(j.contains("\"name\": \"alpha\""));
    assert!(j.contains("\"license_id\": \"Apache-2.0\""));
    assert!(m.contains("### MIT"));
    assert!(m.contains("```"));
}

#[test]
fn html_escapes_notices() {
    let mut notices = Notices::default();
    let a = allow(&["MIT"]);
    add_package(
        &mut notices,
        &a,
        &Vec::new(),
        "gamma".to_string(),
        "https://example.invalid/gamma".to_string(),
        Some("MIT".to_string()),
        vec!["Copyright <X & Y>".to_string(), "Second line".to_string()],
    )
    .unwrap();
    let h = html(&notices).unwrap();
    assert!(h.contains("Copyright &lt;X &amp; Y&gt;<br />Second line"));
}

#[test]
fn json_of_empty_aggregate() {
    let notices = Notices::default();
    let j = json(&notices).unwrap();
    assert_eq!(
        j,
        "{\n  \"dependencies\": [\n\n  ],\n  \"licenses\": [\n\n  ]\n}\n"
    );
}

#[test]
fn json_escapes_strings() {
    let mut notices = Notices::default();
    let a = allow(&["MIT"]);
    add_package(
        &mut notices,
        &a,
        &Vec::new(),
        "delta".to_string(),
        "https://example.invalid/delta".to_string(),
        Some("MIT".to_string()),
        vec!["He said \"hi\"\tthen left\n".to_string()],
    )
    .unwrap();
    let j = json(&notices).unwrap();
    assert!(j.contains("He said \\\"hi\\\"\\tthen left\\n"));
}

#[test]
fn same_dependency_name_twice_is_kept() {
    let mut notices = Notices::default();
    let a = allow(&["MIT"]);
    for url in [
        "https://crates.io/crates/shared/1.0.0",
        "https://www.npmjs.com/package/shared/v/1.0.0",
    ] {
        add_package(
            &mut notices,
            &a,
            &Vec::new(),
            "shared".to_string(),
            url.to_string(),
            Some("MIT".to_string()),
            Vec::new(),
        )
        .unwrap();
    }
    assert_eq!(notices.dependencies.len(), 2);
    assert_eq!(notices.licences.len(), 1);
}

#[test]
fn requirement_equality_is_structural() {
    let a = parse_allow_list_entry("MIT").unwrap();
    let b = parse_allow_list_entry("MIT").unwrap();
    let c = parse_allow_list_entry("Apache-2.0").unwrap();
    assert!(a.same_as(&b));
    assert!(!a.same_as(&c));
}

#[test]
fn dep_construction() {
    let d = Dep {
        name: "alpha".to_string(),
        package_url: "https://crates.io/crates/alpha/1.0.0".to_string(),
        license_id: "MIT".to_string(),
        notices: Vec::new(),
    };
    let mut notices = Notices::default();
    notices.append_dependency(d);
    assert_eq!(notices.dependencies.len(), 1);
}

#[test]
fn postfix_tree_construction() {
    let mit = parse_allow_list_entry("MIT").unwrap();
    let apache = parse_allow_list_entry("Apache-2.0").unwrap();
    let nodes = vec![RawNode::Leaf(mit), RawNode::Leaf(apache), RawNode::Or];
    let expr = LicenseExpression::from_postfix(&nodes).unwrap();
    assert!(expr.evaluate(&allow(&["Apache-2.0"])).is_ok());
    assert!(expr.evaluate(&allow(&["GPL-3.0-only"])).is_err());
    let reqs = expr.requirements();
    assert_eq!(reqs.len(), 2);
    assert_eq!(reqs[0].req_str, "MIT");
    assert_eq!(reqs[1].req_str, "Apache-2.0");
}

#[test]
fn malformed_postfix_rejected() {
    assert!(LicenseExpression::from_postfix(&vec![RawNode::And]).is_none());
    assert!(LicenseExpression::from_postfix(&Vec::new()).is_none());
    let mit = parse_allow_list_entry("MIT").unwrap();
    let apache = parse_allow_list_entry("Apache-2.0").unwrap();
    assert!(
        LicenseExpression::from_postfix(&vec![RawNode::Leaf(mit), RawNode::Leaf(apache)]).is_none()
    );
}

#[test]
fn single_requirement_of_nodes() {
    let mit = parse_allow_list_entry("MIT").unwrap();
    let apache = parse_allow_list_entry("Apache-2.0").unwrap();
    let one = single_requirement(&vec![RawNode::Leaf(mit.clone())]).unwrap();
    assert_eq!(one.req_str, "MIT");
    assert!(single_requirement(&Vec::new()).is_none());
    assert!(
        single_requirement(&vec![RawNode::Leaf(mit), RawNode::Leaf(apache), RawNode::And])
            .is_none()
    );
}

#[test]
fn missing_license_stops_a_collection_sequence() {
    let mut notices = Notices::default();
    let a = allow(&["MIT"]);
    let packages: Vec<(&str, Option<&str>)> =
        vec![("good", Some("MIT")), ("broken", None), ("later", Some("MIT"))];
    let mut aborted = None;
    for (name, license) in packages {
        let r = add_package(
            &mut notices,
            &a,
            &Vec::new(),
            name.to_string(),
            format!("https://crates.io/crates/{name}/1.0.0"),
            license.map(|l| l.to_string()),
            Vec::new(),
        );
        if let Err(e) = r {
            aborted = Some(e);
            break;
        }
    }
    match aborted {
        Some(NoticeError::MissingLicense { package }) => assert_eq!(package, "broken"),
        _ => panic!("the run must abort at the first dependency without a license"),
    }
    assert_eq!(notices.dependencies.len(), 1);
    assert_eq!(notices.dependencies[0].name, "good");
}

#[test]
fn or_later_is_a_distinct_requirement() {
    let plain = parse_allow_list_entry("Apache-2.0").unwrap();
    let later = parse_allow_list_entry("Apache-2.0+").unwrap();
    assert!(later.or_later);
    assert!(!plain.or_later);
    assert!(!plain.same_as(&later));
    let mut notices = Notices::default();
    notices.add_license(plain);
    notices.add_license(later);
    assert_eq!(notices.licences.len(), 2);
}
