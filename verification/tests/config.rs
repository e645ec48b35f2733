use ferret::config::{
    default_file_types, default_max_hash_size, default_org_method, default_threads, find_listing,
    Category, FerretConfig, OrganizationConfig, PerformanceConfig,
};

#[test]
fn default_categories_are_the_twelve_known_ones() {
    let types = default_file_types();
    let names: Vec<&str> = types.iter().map(|c| c.name.as_str()).collect();
    assert_eq!(
        names,
        vec![
            "documents",
            "images",
            "videos",
            "audio",
            "archives",
            "code",
            "web",
            "spreadsheets",
            "presentations",
            "executables",
            "databases",
            "fonts"
        ]
    );
    assert_eq!(types[0].extensions.len(), 9);
    assert_eq!(types[5].extensions.len(), 14);
    assert_eq!(types[11].extensions, vec!["ttf", "otf", "woff", "woff2", "eot"]);
}

#[test]
fn category_lookup_ignores_case() {
    let config = FerretConfig::init(Some(2));
    assert_eq!(config.get_category("pdf"), Some("documents".to_string()));
    assert_eq!(config.get_category("PDF"), Some("documents".to_string()));
    assert_eq!(config.get_category("Jpeg"), Some("images".to_string()));
    assert_eq!(config.get_category("rs"), Some("code".to_string()));
    assert_eq!(config.get_category("woff2"), Some("fonts".to_string()));
    assert_eq!(config.get_category("unknown"), None);
    assert_eq!(config.get_category(""), None);
}

#[test]
fn category_lookup_lowers_the_table_too() {
    let mut config = FerretConfig::init(None);
    config.file_types = vec![
        Category { name: "shouting".to_string(), extensions: vec!["LOG".to_string()] },
        Category { name: "second".to_string(), extensions: vec!["log".to_string(), "x".to_string()] },
    ];
    assert_eq!(config.get_category("log"), Some("shouting".to_string()));
    assert_eq!(config.get_category("x"), Some("second".to_string()));
}

#[test]
fn first_listing_wins() {
    let table = vec![
        vec!["a".to_string()],
        vec!["b".to_string(), "c".to_string()],
        vec!["c".to_string()],
    ];
    assert_eq!(find_listing(&table, &"c".to_string()), Some(1));
    assert_eq!(find_listing(&table, &"a".to_string()), Some(0));
    assert_eq!(find_listing(&table, &"d".to_string()), None);
    assert_eq!(find_listing(&Vec::new(), &"a".to_string()), None);
}

#[test]
fn fresh_configuration_has_the_documented_defaults() {
    let config = FerretConfig::init(Some(8));
    assert_eq!(config.performance.threads, 8);
    assert_eq!(config.performance.max_hash_size_mb, 1024);
    assert_eq!(config.organization.default_method, "type");
    assert_eq!(config.organization.categories.len(), 12);
    assert_eq!(config.file_types.len(), 12);
    assert_eq!(FerretConfig::init(None).performance.threads, 4);
    assert_eq!(default_threads(None), 4);
    assert_eq!(default_threads(Some(16)), 16);
    assert_eq!(default_max_hash_size(), 1024);
    assert_eq!(default_org_method(), "type");
    let organization = OrganizationConfig::default();
    assert_eq!(organization.default_method, "type");
    assert_eq!(organization.categories[1].name, "images");
}

#[test]
fn hashing_ceiling_in_bytes() {
    let config = PerformanceConfig::new(None);
    assert_eq!(config.max_hash_size_bytes(), Some(1024 * 1024 * 1024));
    let none = PerformanceConfig { threads: 1, max_hash_size_mb: 0 };
    assert_eq!(none.max_hash_size_bytes(), Some(0));
    let edge = PerformanceConfig { threads: 1, max_hash_size_mb: u64::MAX / (1024 * 1024) };
    assert_eq!(edge.max_hash_size_bytes(), Some((u64::MAX / (1024 * 1024)) * 1024 * 1024));
    let over = PerformanceConfig { threads: 1, max_hash_size_mb: u64::MAX / (1024 * 1024) + 1 };
    assert_eq!(over.max_hash_size_bytes(), None);
}
