use cheek_ai::catalog::{is_academic_profile, profile_validity, validate_document_profile, CatalogCategory, DocumentProfile, ProfileValidity, SubjectCatalog};
use cheek_ai::domains::{infer_domain_from_discipline, looks_like_paper_type, match_domain, normalize_document_profile, normalize_domain, normalize_optional_text, ProfileError};

fn catalog() -> SubjectCatalog {
    SubjectCatalog {
        year: 2022,
        categories: vec![
            CatalogCategory { category: "工学".to_string(), disciplines: vec!["计算机科学与技术".to_string(), "软件工程".to_string()] },
            CatalogCategory { category: "理学".to_string(), disciplines: vec!["数学".to_string()] },
            CatalogCategory { category: "交叉学科".to_string(), disciplines: vec!["国家安全学".to_string()] },
        ],
    }
}

fn profile(category: &str, discipline: Option<&str>) -> DocumentProfile {
    DocumentProfile {
        category: category.to_string(),
        summary: "摘要".to_string(),
        discipline: discipline.map(|d| d.to_string()),
        ..DocumentProfile::default()
    }
}

#[test]
fn validity_labels() {
    assert_eq!(ProfileValidity::Valid.as_str(), "valid");
    assert_eq!(ProfileValidity::Invalid.as_str(), "invalid");
    let mut p = profile("工学", None);
    p.validity = "valid".to_string();
    assert_eq!(profile_validity(&p), ProfileValidity::Valid);
    p.validity = "whatever".to_string();
    assert_eq!(profile_validity(&p), ProfileValidity::Partial);
    assert_eq!(catalog().catalog_year(), 2022);
}

#[test]
fn validate_against_catalog() {
    let c = catalog();
    let mut p = profile(" 工学 ", Some(" 软件工程 "));
    assert_eq!(validate_document_profile(&mut p, &c), ProfileValidity::Valid);
    assert_eq!(p.category, "工学");
    assert_eq!(p.validity, "valid");

    let mut q = profile("工学", Some("数学"));
    assert_eq!(validate_document_profile(&mut q, &c), ProfileValidity::Partial);

    let mut moved = profile("unknown", Some("数学"));
    assert_eq!(validate_document_profile(&mut moved, &c), ProfileValidity::Valid);
    assert_eq!(moved.category, "理学");

    let mut stays = profile("unknown", None);
    assert_eq!(validate_document_profile(&mut stays, &c), ProfileValidity::Partial);
    assert_eq!(stays.category, "交叉学科");

    let empty = SubjectCatalog { year: 2022, categories: vec![] };
    let mut invalid = profile("工学", None);
    assert_eq!(validate_document_profile(&mut invalid, &empty), ProfileValidity::Invalid);
    assert_eq!(invalid.validity, "invalid");
}

#[test]
fn academic_profiles() {
    let c = catalog();
    let mut p = profile("工学", Some("软件工程"));
    assert!(is_academic_profile(&p, &c));
    p.validity = "invalid".to_string();
    assert!(!is_academic_profile(&p, &c));
    let mut t = profile("unknown", None);
    t.paper_type = Some("Research Paper".to_string());
    assert!(is_academic_profile(&t, &c));
    let plain = profile("unknown", None);
    assert!(!is_academic_profile(&plain, &c));
}

#[test]
fn domain_inference() {
    assert_eq!(infer_domain_from_discipline(Some(" 计算机科学 ")), Some("工学"));
    assert_eq!(infer_domain_from_discipline(Some("Applied ECONOMICS")), Some("经济学"));
    assert_eq!(infer_domain_from_discipline(Some("   ")), None);
    assert_eq!(infer_domain_from_discipline(None), None);
    assert_eq!(infer_domain_from_discipline(Some("xyz")), None);
    assert_eq!(match_domain("医学门类", None), Some("医学"));
    assert_eq!(match_domain("理科", None), Some("理学"));
    assert_eq!(match_domain("商科", Some("金融学")), Some("经济学"));
    assert_eq!(match_domain("经管", Some("计算机")), Some("管理学"));
    assert_eq!(normalize_domain("", Some("物理学")), "理学");
    assert_eq!(normalize_domain("??", None), "交叉学科");
    assert!(looks_like_paper_type(" 毕业设计 "));
    assert!(looks_like_paper_type("Survey"));
    assert!(!looks_like_paper_type("工学"));
    assert_eq!(normalize_optional_text(Some("  a ".to_string())), Some("a".to_string()));
    assert_eq!(normalize_optional_text(Some("   ".to_string())), None);
}

#[test]
fn profile_normalization() {
    let c = catalog();
    let raw = DocumentProfile {
        category: " 学位论文 ".to_string(),
        summary: " 一篇论文 ".to_string(),
        discipline: Some("软件工程".to_string()),
        subfield: Some("  ".to_string()),
        paper_type: None,
        conventions: vec![" a ".to_string(), "".to_string(), "b".to_string()],
        validity: String::new(),
    };
    let p = normalize_document_profile(raw.clone(), &c).unwrap();
    assert_eq!(p.category, "工学");
    assert_eq!(p.paper_type, Some("学位论文".to_string()));
    assert_eq!(p.summary, "一篇论文");
    assert_eq!(p.subfield, None);
    assert_eq!(p.conventions, vec!["a".to_string(), "b".to_string()]);
    assert_eq!(p.validity, "valid");
    let mut blank = raw;
    blank.summary = "  ".to_string();
    assert_eq!(normalize_document_profile(blank, &c).unwrap_err(), ProfileError::MissingSummary);
}
