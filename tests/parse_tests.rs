use tv::{parse_attribute_filter, parse_query, parse_scan_query, TvError};

#[test]
fn test_parse_query_simple_module() {
    let query = parse_query("module.vpc.source").unwrap();
    assert_eq!(query.block_type, "module");
    assert_eq!(query.block_label, Some("vpc".to_string()));
    assert_eq!(query.attribute, "source");
    assert_eq!(query.index, None);
}

#[test]
fn test_parse_query_with_index() {
    let query = parse_query("module.vpc.source[\"ref\"]").unwrap();
    assert_eq!(query.block_type, "module");
    assert_eq!(query.block_label, Some("vpc".to_string()));
    assert_eq!(query.attribute, "source");
    assert_eq!(query.index, Some("ref".to_string()));
}

#[test]
fn test_parse_query_with_index_no_quotes() {
    let query = parse_query("module.vpc.source[ref]").unwrap();
    assert_eq!(query.block_type, "module");
    assert_eq!(query.block_label, Some("vpc".to_string()));
    assert_eq!(query.attribute, "source");
    assert_eq!(query.index, Some("ref".to_string()));
}

#[test]
fn test_parse_query_terraform_nested() {
    let query = parse_query("terraform.required_providers.aws.source").unwrap();
    assert_eq!(query.block_type, "terraform");
    assert_eq!(query.block_label, None);
    assert_eq!(query.nested_blocks, vec!["required_providers".to_string(), "aws".to_string()]);
    assert_eq!(query.attribute, "source");
}

#[test]
fn test_parse_query_terraform_simple() {
    let query = parse_query("terraform.backend").unwrap();
    assert_eq!(query.block_type, "terraform");
    assert_eq!(query.block_label, None);
    assert_eq!(query.attribute, "backend");
}

#[test]
fn test_parse_query_too_short() {
    let result = parse_query("module");
    assert!(result.is_err());
}

#[test]
fn test_parse_query_unclosed_bracket() {
    let result = parse_query("module.vpc.source[ref");
    assert!(result.is_err());
}

#[test]
fn test_parse_scan_query_module_wildcard() {
    let query = parse_scan_query("module.*").unwrap();
    assert_eq!(query.block_type, "module");
    assert_eq!(query.block_label, None);
    assert_eq!(query.attribute, None);
    assert!(query.filter.is_none());
}

#[test]
fn test_parse_scan_query_module_specific() {
    let query = parse_scan_query("module.vpc").unwrap();
    assert_eq!(query.block_type, "module");
    assert_eq!(query.block_label, Some("vpc".to_string()));
    assert_eq!(query.attribute, None);
}

#[test]
fn test_parse_scan_query_module_with_attribute() {
    let query = parse_scan_query("module.vpc.source").unwrap();
    assert_eq!(query.block_type, "module");
    assert_eq!(query.block_label, Some("vpc".to_string()));
    assert_eq!(query.attribute, Some("source".to_string()));
}

#[test]
fn test_parse_scan_query_wildcard_with_attribute() {
    let query = parse_scan_query("module.*.source").unwrap();
    assert_eq!(query.block_type, "module");
    assert_eq!(query.block_label, None);
    assert_eq!(query.attribute, Some("source".to_string()));
}

#[test]
fn test_parse_scan_query_terraform_no_label() {
    let query = parse_scan_query("terraform.required_providers").unwrap();
    assert_eq!(query.block_type, "terraform");
    assert_eq!(query.block_label, None);
    assert_eq!(query.nested_blocks, vec![] as Vec<String>);
    assert_eq!(query.attribute, Some("required_providers".to_string()));
}

#[test]
fn parse_tests_test_parse_scan_query_with_filter() {
    let query = parse_scan_query("module.*.source[url==\"https://example.com\"]").unwrap();
    assert_eq!(query.block_type, "module");
    assert_eq!(query.attribute, Some("source".to_string()));
    assert!(query.filter.is_some());
}

#[test]
fn test_parse_scan_query_unclosed_bracket() {
    let result = parse_scan_query("module.*.source[url==\"test\"");
    assert!(result.is_err());
}

#[test]
fn test_parse_attribute_filter_double_equals() {
    let filter = parse_attribute_filter("url==\"https://example.com\"").unwrap();
    assert_eq!(filter.attribute, "url");
    assert_eq!(filter.value, "https://example.com");
}

#[test]
fn test_parse_attribute_filter_single_equals() {
    let filter = parse_attribute_filter("ref=\"v1.0.0\"").unwrap();
    assert_eq!(filter.attribute, "ref");
    assert_eq!(filter.value, "v1.0.0");
}

#[test]
fn test_parse_attribute_filter_no_quotes() {
    let filter = parse_attribute_filter("ref==v1.0.0").unwrap();
    assert_eq!(filter.attribute, "ref");
    assert_eq!(filter.value, "v1.0.0");
}

#[test]
fn test_parse_attribute_filter_with_spaces() {
    let filter = parse_attribute_filter("url == \"https://example.com\"").unwrap();
    assert_eq!(filter.attribute, "url");
    assert_eq!(filter.value, "https://example.com");
}

#[test]
fn test_parse_attribute_filter_invalid() {
    let result = parse_attribute_filter("invalid");
    assert!(result.is_err());
}

#[test]
fn test_parse_query_multiple_nested() {
    let query = parse_query("terraform.required_providers.aws.version").unwrap();
    assert_eq!(query.block_type, "terraform");
    assert_eq!(query.nested_blocks, vec!["required_providers".to_string(), "aws".to_string()]);
    assert_eq!(query.attribute, "version");
}

#[test]
fn test_parse_query_with_url_index() {
    let query = parse_query("module.vpc.source[\"url\"]").unwrap();
    assert_eq!(query.index, Some("url".to_string()));
}

#[test]
fn test_parse_query_with_path_index() {
    let query = parse_query("module.vpc.source[\"path\"]").unwrap();
    assert_eq!(query.index, Some("path".to_string()));
}

#[test]
fn query_errors_name_their_kind() {
    assert_eq!(parse_query("module").unwrap_err(), TvError::TooShort);
    assert_eq!(parse_query("module.vpc.source[ref").unwrap_err(), TvError::UnclosedBracket);
    assert_eq!(parse_scan_query("module.*.source[ref").unwrap_err(), TvError::UnclosedBracket);
    assert_eq!(parse_attribute_filter("").unwrap_err(), TvError::InvalidFilter);
    assert_eq!(parse_scan_query("module.*.source[ref]").unwrap_err(), TvError::InvalidFilter);
}

#[test]
fn simple_path_gives_type_label_attribute() {
    let q = parse_query("resource.web.ami").unwrap();
    assert_eq!(q.block_type, "resource");
    assert_eq!(q.block_label, Some("web".to_string()));
    assert!(q.nested_blocks.is_empty());
    assert_eq!(q.attribute, "ami");
    assert_eq!(q.index, None);
}

#[test]
fn quoted_and_bare_index_parse_alike() {
    let a = parse_query("module.vpc.source[\"x\"]").unwrap();
    let b = parse_query("module.vpc.source[x]").unwrap();
    assert_eq!(a.block_type, b.block_type);
    assert_eq!(a.block_label, b.block_label);
    assert_eq!(a.nested_blocks, b.nested_blocks);
    assert_eq!(a.attribute, b.attribute);
    assert_eq!(a.index, b.index);
    assert_eq!(a.index, Some("x".to_string()));
}

#[test]
fn index_may_hold_dots() {
    let q = parse_query("module.vpc.source[\"a.b\"]").unwrap();
    assert_eq!(q.block_label, Some("vpc".to_string()));
    assert_eq!(q.attribute, "source");
    assert_eq!(q.index, Some("a.b".to_string()));
}

#[test]
fn scan_trailing_wildcard_keeps_nested_path() {
    let q = parse_scan_query("terraform.required_providers.*").unwrap();
    assert_eq!(q.block_type, "terraform");
    assert_eq!(q.block_label, None);
    assert_eq!(q.nested_blocks, vec!["required_providers".to_string()]);
    assert_eq!(q.attribute, None);
}

#[test]
fn scan_resource_and_data_take_labels() {
    let q = parse_scan_query("data.ami.id").unwrap();
    assert_eq!(q.block_label, Some("ami".to_string()));
    assert_eq!(q.attribute, Some("id".to_string()));
    let r = parse_scan_query("variable.region").unwrap();
    assert_eq!(r.block_label, None);
    assert_eq!(r.attribute, Some("region".to_string()));
}
