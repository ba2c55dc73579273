use std::io::Write;

use cpe_explorer::compress::{compress, dedup_by_key, sort_by_name};
use cpe_explorer::cpedict::{parse_cpe_node, parse_dictionary, XmlAttribute, XmlElement};
use cpe_explorer::cpestructures::{Cpe23Entry, Cpe23Name, CpeEntry};
use cpe_explorer::error::CpeError;
use cpe_explorer::filter::{field_matches, CpeField, FieldFilter, FilterConfig};
use cpe_explorer::grammar::{CpeGrammar, GrammarChoice};
use cpe_explorer::nvdarchive::{archive_format, decompress_or_return, ArchiveFormat};
use cpe_explorer::resolve::{resolve, resolve_chain, Diagnostic};

fn entry(legacy: &str, name: &str, deprecated: bool, replaced_by: Option<&str>) -> CpeEntry {
    let structured = Cpe23Entry::new(
        Cpe23Name::new(name),
        replaced_by.is_some(),
        replaced_by.map(|_| "NAME_CORRECTION".to_string()),
        None,
        replaced_by.map(|r| r.to_string()),
    );
    CpeEntry::new(legacy.to_string(), deprecated, None, structured)
}

fn element(tag: &str, attrs: &[(&str, &str)], children: Vec<XmlElement>) -> XmlElement {
    XmlElement {
        tag: tag.to_string(),
        attributes: attrs
            .iter()
            .map(|(n, v)| XmlAttribute { name: n.to_string(), value: v.to_string() })
            .collect(),
        children,
    }
}

fn convert(node: roxmltree::Node) -> XmlElement {
    XmlElement {
        tag: node.tag_name().name().to_string(),
        attributes: node
            .attributes()
            .map(|a| XmlAttribute { name: a.name().to_string(), value: a.value().to_string() })
            .collect(),
        children: node.children().filter(|n| n.is_element()).map(convert).collect(),
    }
}

const W1: &str = "cpe:2.3:a:acme:widget:1.0:*:*:*:*:*:*:*";
const W2: &str = "cpe:2.3:a:acme:widget:2.0:*:*:*:*:*:*:*";

#[test]
fn round_trip_keeps_text() {
    for s in [
        W1,
        "cpe:2.3:o:microsoft:windows_10:1909:*:*:*:*:*:x64:*",
        "cpe:2.3:a:foo\\:bar:baz\\\\:-:*:*:en:*:*:*:\\*",
        "cpe:2.3:a:v:p:1:2:3:4:5:6:7:trailing\\",
    ] {
        let n = Cpe23Name::parse(s).unwrap();
        assert_eq!(n.get_name(), s);
    }
}

#[test]
fn escaped_colon_stays_in_field() {
    let n = Cpe23Name::parse("cpe:2.3:a:foo\\:bar:product:1.0:*:*:*:*:*:*:*").unwrap();
    assert_eq!(n.vendor, "foo\\:bar");
    assert_eq!(n.product, "product");
    assert_eq!(n.version, "1.0");
    assert_eq!(n.other, "*");
}

#[test]
fn escaped_backslash_does_not_escape_colon() {
    let n = Cpe23Name::parse("cpe:2.3:a:foo\\\\:bar:1.0:*:*:*:*:*:*:*").unwrap();
    assert_eq!(n.vendor, "foo\\\\");
    assert_eq!(n.product, "bar");
}

#[test]
fn parse_reads_every_field() {
    let n = Cpe23Name::parse("cpe:2.3:h:v:p:ver:upd:ed:lang:swed:tsw:thw:oth").unwrap();
    assert_eq!(n.cpe_version, "2.3");
    assert_eq!(n.part, "h");
    assert_eq!(
        n.get_version_tuple(),
        (
            &"ver".to_string(),
            &"upd".to_string(),
            &"ed".to_string(),
            &"lang".to_string(),
            &"swed".to_string(),
            &"tsw".to_string(),
            &"thw".to_string(),
            &"oth".to_string()
        )
    );
    assert_eq!(n.get_field(CpeField::TargetHw), "thw");
}

#[test]
fn malformed_names_are_refused() {
    assert_eq!(Cpe23Name::parse("cpe:2.3:a:acme:widget:1.0:*:*:*:*:*:*").err(), Some(CpeError::MalformedName));
    assert_eq!(Cpe23Name::parse("cpe:2.3:a:acme:widget:1.0:*:*:*:*:*:*:*:*").err(), Some(CpeError::MalformedName));
    assert_eq!(Cpe23Name::parse("cpx:2.3:a:acme:widget:1.0:*:*:*:*:*:*:*").err(), Some(CpeError::MalformedName));
    assert_eq!(Cpe23Name::parse("cpe:2.2:a:acme:widget:1.0:*:*:*:*:*:*:*").err(), Some(CpeError::MalformedName));
    assert_eq!(Cpe23Name::parse("").err(), Some(CpeError::MalformedName));
    assert_eq!(
        Cpe23Name::parse("cpe:2.3:a:acme\\:widget:1.0:*:*:*:*:*:*:*").err(),
        Some(CpeError::MalformedName)
    );
}

#[test]
fn weak_equality_uses_vendor_and_product() {
    let a = entry("cpe:/a:acme:widget:1.0", W1, false, None);
    let b = entry("cpe:/a:acme:widget:2.0", W2, true, None);
    let c = entry("x", "cpe:2.3:a:acme:gadget:1.0:*:*:*:*:*:*:*", false, None);
    let d = entry("y", "cpe:2.3:a:other:widget:1.0:*:*:*:*:*:*:*", false, None);
    assert!(a == b);
    assert!(a != c);
    assert!(a != d);
    assert!(a.get_cpe23_parts() == b.get_cpe23_parts());
    assert_eq!(a.get_vendor_product(), (&"acme".to_string(), &"widget".to_string()));
}

#[test]
fn sort_orders_by_full_name() {
    let entries = vec![
        entry("c", "cpe:2.3:o:acme:widget:1.0:*:*:*:*:*:*:*", false, None),
        entry("b", W2, false, None),
        entry("a", W1, false, None),
        entry("d", "cpe:2.3:a:acme:widget:10:*:*:*:*:*:*:*", false, None),
    ];
    let sorted = sort_by_name(&entries, &vec![0, 1, 2, 3]);
    assert_eq!(sorted, vec![2, 3, 1, 0]);
}

#[test]
fn sort_keeps_position_between_equal_names() {
    let entries = vec![
        entry("x", W2, false, None),
        entry("y", W1, false, None),
        entry("z", W1, false, None),
    ];
    assert_eq!(sort_by_name(&entries, &vec![2, 0, 1]), vec![1, 2, 0]);
}

#[test]
fn compress_keeps_smallest_name_of_key() {
    let entries = vec![entry("b", W2, false, None), entry("a", W1, false, None)];
    let kept = compress(&entries, &vec![0, 1]);
    assert_eq!(kept.len(), 1);
    assert_eq!(entries[kept[0]].get_cpe23_name(), W1);
}

#[test]
fn compress_groups_by_key() {
    let entries = vec![
        entry("1", "cpe:2.3:a:acme:widget:3.0:*:*:*:*:*:*:*", false, None),
        entry("2", "cpe:2.3:a:acme:gadget:1.0:*:*:*:*:*:*:*", false, None),
        entry("3", W2, false, None),
        entry("4", "cpe:2.3:a:acme:gadget:0.9:*:*:*:*:*:*:*", false, None),
        entry("5", "cpe:2.3:a:zeta:widget:1.0:*:*:*:*:*:*:*", false, None),
    ];
    let kept = compress(&entries, &vec![0, 1, 2, 3, 4]);
    assert_eq!(kept, vec![3, 2, 4]);
    assert_eq!(compress(&entries, &vec![]), Vec::<usize>::new());
}

#[test]
fn dedup_only_compares_neighbours() {
    let entries = vec![
        entry("1", W1, false, None),
        entry("2", "cpe:2.3:a:acme:gadget:1.0:*:*:*:*:*:*:*", false, None),
        entry("3", W2, false, None),
    ];
    assert_eq!(dedup_by_key(&entries, &vec![0, 2, 1]), vec![0, 1]);
    assert_eq!(dedup_by_key(&entries, &vec![0, 1, 2]), vec![0, 1, 2]);
}

#[test]
fn negated_filter_is_complement() {
    let acme = "acme".to_string();
    let other = "other".to_string();
    for v in [&acme, &other] {
        assert_eq!(field_matches(v, "!ACME"), !field_matches(v, "ACME"));
        assert_eq!(field_matches(v, "!acme"), !field_matches(v, "acme"));
    }
    assert!(field_matches(&acme, "AcMe"));
    assert!(!field_matches(&other, "AcMe"));
    assert!(field_matches(&other, "!AcMe"));
    assert!(!field_matches(&acme, "!AcMe"));
    assert!(field_matches(&"".to_string(), ""));
    assert!(!field_matches(&"".to_string(), "!"));
    assert!(field_matches(&"x".to_string(), "!"));
}

#[test]
fn field_filter_lowercases_once() {
    let f = FieldFilter::new(CpeField::Vendor, "!ACME");
    assert!(f.negated);
    assert_eq!(f.literal, "acme");
    let g = FieldFilter::new(CpeField::Product, "WidGet");
    assert!(!g.negated);
    assert_eq!(g.literal, "widget");
    let n = Cpe23Name::new(W1);
    assert!(!f.passes(&n));
    assert!(g.passes(&n));
}

#[test]
fn select_combines_filters() {
    let entries = vec![
        entry("1", W1, false, None),
        entry("2", W2, true, None),
        entry("3", "cpe:2.3:a:other:widget:1.0:*:*:*:*:*:*:*", false, None),
    ];
    let grammar = CpeGrammar::new(GrammarChoice::Nvd).unwrap();
    let by_vendor = FilterConfig {
        field_filters: vec![FieldFilter::new(CpeField::Vendor, "ACME")],
        validity: None,
        deprecation: None,
    };
    assert_eq!(by_vendor.select(&entries, &grammar), vec![0, 1]);
    let active = FilterConfig { field_filters: vec![], validity: None, deprecation: Some(false) };
    assert_eq!(active.select(&entries, &grammar), vec![0, 2]);
    let deprecated = FilterConfig { field_filters: vec![], validity: None, deprecation: Some(true) };
    assert_eq!(deprecated.select(&entries, &grammar), vec![1]);
    let not_acme_v1 = FilterConfig {
        field_filters: vec![
            FieldFilter::new(CpeField::Vendor, "!acme"),
            FieldFilter::new(CpeField::Version, "1.0"),
        ],
        validity: None,
        deprecation: None,
    };
    assert_eq!(not_acme_v1.select(&entries, &grammar), vec![2]);
}

#[test]
fn validity_filter_uses_grammar() {
    let entries = vec![
        entry("1", W1, false, None),
        entry("2", "cpe:2.3:a:ac me:widget:1.0:*:*:*:*:*:*:*", false, None),
    ];
    let nvd = CpeGrammar::new(GrammarChoice::Nvd).unwrap();
    assert!(nvd.is_match(W1));
    assert!(!nvd.is_match("cpe:/a:acme:widget:1.0"));
    let cve = CpeGrammar::new(GrammarChoice::Cve).unwrap();
    assert!(cve.is_match("cpe:/a:acme:widget:1.0"));
    let valid = FilterConfig { field_filters: vec![], validity: Some(true), deprecation: None };
    assert_eq!(valid.select(&entries, &nvd), vec![0]);
    let invalid = FilterConfig { field_filters: vec![], validity: Some(false), deprecation: None };
    assert_eq!(invalid.select(&entries, &nvd), vec![1]);
}

#[test]
fn record_passes_checks_each_flag() {
    let e = entry("1", W1, true, None);
    let config = FilterConfig { field_filters: vec![], validity: Some(true), deprecation: Some(true) };
    assert!(config.record_passes(&e, true));
    assert!(!config.record_passes(&e, false));
}

#[test]
fn resolver_reports_unresolved_reference() {
    let entries = vec![
        entry("cpe:/a:acme:widget:1.0", W1, true, Some("cpe:2.3:a:acme:missing:1.0:*:*:*:*:*:*:*")),
        entry("cpe:/a:acme:widget:2.0", W2, false, None),
    ];
    let r = resolve(&entries[0], &entries);
    assert!(r.matches.is_empty());
    assert_eq!(
        r.diagnostic,
        Some(Diagnostic::Unresolved("cpe:2.3:a:acme:missing:1.0:*:*:*:*:*:*:*".to_string()))
    );
    let none = resolve(&entries[1], &entries);
    assert!(none.matches.is_empty());
    assert_eq!(none.diagnostic, None);
}

#[test]
fn resolver_matches_legacy_and_structured_names() {
    let entries = vec![
        entry("cpe:/a:acme:widget:1.0", W1, true, Some(W2)),
        entry("cpe:/a:acme:widget:2.0", W2, false, None),
        entry("cpe:/a:acme:widget:2.0-dup", W2, false, None),
        entry("cpe:/a:acme:widget:0.9", "cpe:2.3:a:acme:widget:0.9:*:*:*:*:*:*:*", true, Some("cpe:/a:acme:widget:1.0")),
    ];
    let r = resolve(&entries[0], &entries);
    assert_eq!(r.matches, vec![1, 2]);
    assert_eq!(r.diagnostic, None);
    assert!(entries[3].has_name(&"cpe:/a:acme:widget:0.9".to_string()));
    assert!(entries[3].has_name(&"cpe:2.3:a:acme:widget:0.9:*:*:*:*:*:*:*".to_string()));
    assert!(!entries[3].has_name(&W1.to_string()));
    let chain = resolve_chain(3, &entries, 5);
    assert_eq!(chain.path, vec![3, 0, 1]);
    assert_eq!(chain.end, None);
    let cut = resolve_chain(3, &entries, 1);
    assert_eq!(cut.path, vec![3, 0]);
    assert_eq!(cut.end, Some(Diagnostic::HopLimitReached));
}

#[test]
fn resolver_detects_cycle() {
    let entries = vec![entry("a", W1, true, Some(W2)), entry("b", W2, true, Some("a"))];
    let chain = resolve_chain(0, &entries, 10);
    assert_eq!(chain.path, vec![0, 1]);
    assert_eq!(chain.end, Some(Diagnostic::CycleDetected));
    let lost = vec![entry("a", W1, true, Some("nowhere"))];
    let chain = resolve_chain(0, &lost, 10);
    assert_eq!(chain.path, vec![0]);
    assert_eq!(chain.end, Some(Diagnostic::Unresolved("nowhere".to_string())));
}

const MINIMAL: &str = r#"<?xml version="1.0"?>
<cpe-list xmlns="http://cpe.mitre.org/dictionary/2.0" xmlns:cpe-23="http://scap.nist.gov/schema/cpe-extension/2.3">
  <generator><product_name>NVD</product_name></generator>
  <cpe-item name="cpe:/a:acme:widget:1.0">
    <title>Acme Widget 1.0</title>
    <cpe-23:cpe23-item name="cpe:2.3:a:acme:widget:1.0:*:*:*:*:*:*:*"/>
  </cpe-item>
</cpe-list>
"#;

#[test]
fn xml_archive_with_one_record() {
    let path = "/data/official-cpe-dictionary_v2.3.xml";
    assert_eq!(archive_format(path), Ok(ArchiveFormat::PlainXml));
    let text = decompress_or_return(path, &MINIMAL.as_bytes().to_vec()).unwrap();
    let doc = roxmltree::Document::parse(&text).unwrap();
    let root = convert(doc.root_element());
    let entries = parse_dictionary(&root).unwrap();
    assert_eq!(entries.len(), 1);
    assert!(!entries[0].is_deprecated());
    assert!(!entries[0].cpe23.is_deprecated());
    assert!(!entries[0].get_cpe23().is_deprecated());
    assert_eq!(entries[0].get_cpe23().get_deprecated_by(), &None);
    assert_eq!(entries[0].deprecated_by(), &None);
    assert_eq!(entries[0].get_cpe_name(), "cpe:/a:acme:widget:1.0");
    assert_eq!(entries[0].get_cpe23_name(), W1);
}

#[test]
fn unsupported_archive_extension() {
    assert_eq!(archive_format("dictionary.bin"), Err(CpeError::UnsupportedArchiveFormat));
    assert_eq!(archive_format("dictionary"), Err(CpeError::UnsupportedArchiveFormat));
    assert_eq!(archive_format(".gz"), Err(CpeError::UnsupportedArchiveFormat));
    assert_eq!(archive_format("dir.xml/dictionary"), Err(CpeError::UnsupportedArchiveFormat));
    assert_eq!(archive_format("dictionary.XML"), Err(CpeError::UnsupportedArchiveFormat));
    assert_eq!(archive_format("a.tar.gz"), Ok(ArchiveFormat::Gzip));
    assert_eq!(archive_format("dir/nvd.zip"), Ok(ArchiveFormat::Deflate));
    assert_eq!(archive_format("dir/nvd.xml//"), Ok(ArchiveFormat::PlainXml));
    assert_eq!(
        decompress_or_return("dictionary.bin", &MINIMAL.as_bytes().to_vec()),
        Err(CpeError::UnsupportedArchiveFormat)
    );
}

#[test]
fn gzip_and_deflate_archives_decode() {
    let text = "<cpe-list>é</cpe-list>";
    let mut gz = flate2::write::GzEncoder::new(Vec::new(), flate2::Compression::default());
    gz.write_all(text.as_bytes()).unwrap();
    let gz = gz.finish().unwrap();
    assert_eq!(decompress_or_return("d.gz", &gz).unwrap(), text);
    let mut df = flate2::write::DeflateEncoder::new(Vec::new(), flate2::Compression::default());
    df.write_all(text.as_bytes()).unwrap();
    let df = df.finish().unwrap();
    assert_eq!(decompress_or_return("d.zip", &df).unwrap(), text);
    assert_eq!(decompress_or_return("d.gz", &df), Err(CpeError::IoFailure));
    assert_eq!(decompress_or_return("d.xml", &vec![0xff, 0xfe]), Err(CpeError::IoFailure));
    assert_eq!(decompress_or_return("d.xml", &text.as_bytes().to_vec()).unwrap(), text);
}

#[test]
fn record_with_deprecation() {
    let node = element(
        "cpe-item",
        &[("name", "cpe:/a:acme:widget:1.0"), ("deprecated", "true"), ("deprecation_date", "2020-01-01")],
        vec![element(
            "cpe23-item",
            &[("name", W1)],
            vec![element(
                "deprecation",
                &[("date", "2020-01-02")],
                vec![element("deprecated-by", &[("name", W2), ("type", "NAME_CORRECTION")], vec![])],
            )],
        )],
    );
    let e = parse_cpe_node(&node).unwrap();
    assert!(e.is_deprecated());
    assert_eq!(e.get_deprecated_date(), &Some("2020-01-01".to_string()));
    assert!(e.cpe23.is_deprecated());
    assert_eq!(e.cpe23.get_deprecated_date(), &Some("2020-01-02".to_string()));
    assert_eq!(e.deprecated_by(), &Some(W2.to_string()));
    assert_eq!(e.cpe23.get_deprecated_type(), &Some("NAME_CORRECTION".to_string()));
    assert_eq!(e.get_names(), (&"cpe:/a:acme:widget:1.0".to_string(), W1.to_string()));
}

#[test]
fn record_errors() {
    let no_name = element("cpe-item", &[], vec![element("cpe23-item", &[("name", W1)], vec![])]);
    assert_eq!(parse_cpe_node(&no_name).err(), Some(CpeError::MissingAttribute));
    let no_item = element("cpe-item", &[("name", "x")], vec![element("title", &[], vec![])]);
    assert_eq!(parse_cpe_node(&no_item).err(), Some(CpeError::MissingElement));
    let no_item_name = element("cpe-item", &[("name", "x")], vec![element("cpe23-item", &[], vec![])]);
    assert_eq!(parse_cpe_node(&no_item_name).err(), Some(CpeError::MissingAttribute));
    let empty_deprecation = element(
        "cpe-item",
        &[("name", "x")],
        vec![element("cpe23-item", &[("name", W1)], vec![element("deprecation", &[], vec![])])],
    );
    assert_eq!(parse_cpe_node(&empty_deprecation).err(), Some(CpeError::MissingElement));
    let bad_name = element("cpe-item", &[("name", "x")], vec![element("cpe23-item", &[("name", "cpe:2.3:a")], vec![])]);
    assert_eq!(parse_cpe_node(&bad_name).err(), Some(CpeError::MalformedName));
    let root = element(
        "cpe-list",
        &[],
        vec![
            element("generator", &[], vec![]),
            element("cpe-item", &[("name", "x")], vec![element("cpe23-item", &[("name", W1)], vec![])]),
            bad_name,
        ],
    );
    assert_eq!(parse_dictionary(&root).err(), Some(CpeError::MalformedName));
}

#[test]
fn record_takes_last_item_and_first_attribute() {
    let node = element(
        "cpe-item",
        &[("name", "first"), ("name", "second")],
        vec![
            element("cpe23-item", &[("name", W2)], vec![]),
            element("cpe23-item", &[("name", W1)], vec![]),
        ],
    );
    let e = parse_cpe_node(&node).unwrap();
    assert_eq!(e.get_cpe_name(), "first");
    assert_eq!(e.get_cpe23_name(), W1);
    assert!(e.has_vendor(&"acme".to_string()));
    assert!(e.has_product(&"widget".to_string()));
    assert!(!e.has_product(&"gadget".to_string()));
    assert_eq!(e.get_vendor(), "acme");
    assert_eq!(e.get_product(), "widget");
}

#[test]
fn records_order_by_canonical_name() {
    let a = entry("z", W1, false, None);
    let b = entry("a", W2, false, None);
    assert!(a < b);
    assert!(a == b);
    assert_eq!(a.partial_cmp(&b), Some(std::cmp::Ordering::Less));
    assert_eq!(b.partial_cmp(&a), Some(std::cmp::Ordering::Greater));
    assert_eq!(a.partial_cmp(&a.clone()), Some(std::cmp::Ordering::Equal));
    let shorter = entry("s", "cpe:2.3:a:acme:widget:1.0:*:*:*:*:*:*:", false, None);
    assert!(shorter < a);
    let accented = entry("e", "cpe:2.3:a:\u{e9}clair:widget:1.0:*:*:*:*:*:*:*", false, None);
    let zeta = entry("z", "cpe:2.3:a:zeta:widget:1.0:*:*:*:*:*:*:*", false, None);
    assert!(zeta < accented);
    let entries = vec![accented, zeta];
    assert_eq!(sort_by_name(&entries, &vec![0, 1]), vec![1, 0]);
}

#[test]
fn dedup_keeps_key_groups_split_by_part() {
    let entries = vec![
        entry("1", W1, false, None),
        entry("2", "cpe:2.3:a:acme:x:1.0:*:*:*:*:*:*:*", false, None),
        entry("3", "cpe:2.3:h:acme:widget:1.0:*:*:*:*:*:*:*", false, None),
    ];
    assert_eq!(compress(&entries, &vec![2, 1, 0]), vec![0, 1, 2]);
}
