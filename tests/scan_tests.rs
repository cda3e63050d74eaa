use tv::{matches_filter, parse_attribute_filter, parse_scan_query, scan_files, TvError};

const SIMPLE_MODULE_TF: &str = r#"module "vpc" {
  source = "git::https://github.com/terraform-aws-modules/terraform-aws-vpc.git?ref=v5.0.0"
  
  name = "my-vpc"
  cidr = "10.0.0.0/16"
}
"#;

const MODULE_WITH_PATH_TF: &str = r#"module "example" {
  source = "git::https://github.com/org/repo.git//modules/vpc?ref=v1.0.0"
}
"#;

const TERRAFORM_BLOCK_TF: &str = r#"terraform {
  required_providers {
    aws = {
      source = "hashicorp/aws"
      version = "6.15.0"
    }
  }
}
"#;

const REGISTRY_MODULE_TF: &str = r#"module "vpc" {
  source  = "terraform-aws-modules/vpc/aws"
  version = "5.0.0"
}
"#;

const MULTIPLE_MODULES_TF: &str = r#"module "vpc" {
  source = "git::https://github.com/terraform-aws-modules/terraform-aws-vpc.git?ref=v5.0.0"
}

module "eks" {
  source = "git::https://github.com/terraform-aws-modules/terraform-aws-eks.git?ref=v18.0.0"
}
"#;

fn docs(files: &[(&str, &str)]) -> Vec<(String, String)> {
    files.iter().map(|(n, c)| (n.to_string(), c.to_string())).collect()
}

#[test]
fn test_scan_all_modules() {
    let files = docs(&[("main.tf", SIMPLE_MODULE_TF), ("other.tf", REGISTRY_MODULE_TF)]);
    let results = scan_files("module.*", &files).unwrap();
    assert_eq!(results.len(), 2);
}

#[test]
fn test_scan_specific_module() {
    let files = docs(&[("main.tf", SIMPLE_MODULE_TF), ("other.tf", REGISTRY_MODULE_TF)]);
    let results = scan_files("module.vpc", &files).unwrap();
    assert_eq!(results.len(), 2);
}

#[test]
fn test_scan_module_with_source_attribute() {
    let files = docs(&[("main.tf", SIMPLE_MODULE_TF), ("other.tf", REGISTRY_MODULE_TF)]);
    let results = scan_files("module.*.source", &files).unwrap();
    assert_eq!(results.len(), 2);
}

#[test]
fn test_scan_module_with_version_attribute() {
    let files = docs(&[("main.tf", SIMPLE_MODULE_TF), ("other.tf", REGISTRY_MODULE_TF)]);
    let results = scan_files("module.*.version", &files).unwrap();
    assert_eq!(results.len(), 1);
}

#[test]
fn test_scan_terraform_block() {
    let files = docs(&[("main.tf", TERRAFORM_BLOCK_TF), ("other.tf", SIMPLE_MODULE_TF)]);
    let results = scan_files("terraform", &files).unwrap();
    assert_eq!(results.len(), 1);
}

#[test]
fn test_scan_terraform_provider() {
    let files = docs(&[("main.tf", TERRAFORM_BLOCK_TF), ("other.tf", SIMPLE_MODULE_TF)]);
    let results = scan_files("terraform.required_providers.aws", &files).unwrap();
    assert_eq!(results.len(), 1);
}

#[test]
fn test_scan_with_url_filter() {
    let files = docs(&[("main.tf", SIMPLE_MODULE_TF), ("other.tf", MODULE_WITH_PATH_TF)]);
    let results = scan_files(
        "module.*.source[url==\"git::https://github.com/terraform-aws-modules/terraform-aws-vpc.git\"]",
        &files,
    )
    .unwrap();
    assert_eq!(results.len(), 1);
}

#[test]
fn test_scan_with_ref_filter() {
    let files = docs(&[("main.tf", SIMPLE_MODULE_TF), ("other.tf", MODULE_WITH_PATH_TF)]);
    let results = scan_files("module.*.source[ref==\"v5.0.0\"]", &files).unwrap();
    assert_eq!(results.len(), 1);
}

#[test]
fn test_scan_with_path_filter() {
    let files = docs(&[("main.tf", SIMPLE_MODULE_TF), ("other.tf", MODULE_WITH_PATH_TF)]);
    let results = scan_files("module.*.source[path==\"modules/vpc\"]", &files).unwrap();
    assert_eq!(results.len(), 1);
}

#[test]
fn test_scan_nested_directories() {
    let files = docs(&[
        ("main.tf", SIMPLE_MODULE_TF),
        ("subdir/nested.tf", REGISTRY_MODULE_TF),
        ("subdir/deep/deep.tf", TERRAFORM_BLOCK_TF),
    ]);
    let results = scan_files("module.*", &files).unwrap();
    assert_eq!(results.len(), 2);
}

#[test]
fn test_scan_no_matches() {
    let files = docs(&[("main.tf", SIMPLE_MODULE_TF)]);
    let results = scan_files("terraform.required_providers", &files).unwrap();
    assert_eq!(results.len(), 0);
}

#[test]
fn test_parse_scan_query_simple_wildcard() {
    let query = parse_scan_query("module.*").unwrap();
    assert_eq!(query.block_type, "module");
    assert_eq!(query.block_label, None);
    assert_eq!(query.attribute, None);
}

#[test]
fn test_parse_scan_query_specific_module() {
    let query = parse_scan_query("module.vpc").unwrap();
    assert_eq!(query.block_type, "module");
    assert_eq!(query.block_label, Some("vpc".to_string()));
    assert_eq!(query.attribute, None);
}

#[test]
fn test_parse_scan_query_with_attribute() {
    let query = parse_scan_query("module.*.source").unwrap();
    assert_eq!(query.block_type, "module");
    assert_eq!(query.block_label, None);
    assert_eq!(query.attribute, Some("source".to_string()));
}

#[test]
fn test_parse_scan_query_terraform_nested() {
    let query = parse_scan_query("terraform.required_providers.aws").unwrap();
    assert_eq!(query.block_type, "terraform");
    assert_eq!(query.block_label, None);
    assert_eq!(query.nested_blocks, vec!["required_providers".to_string()]);
    assert_eq!(query.attribute, Some("aws".to_string()));
}

#[test]
fn scan_tests_test_parse_scan_query_with_filter() {
    let query = parse_scan_query("module.*.source[url==\"https://example.com\"]").unwrap();
    assert_eq!(query.block_type, "module");
    assert_eq!(query.attribute, Some("source".to_string()));
    assert!(query.filter.is_some());
    let filter = query.filter.unwrap();
    assert_eq!(filter.attribute, "url");
    assert_eq!(filter.value, "https://example.com");
}

#[test]
fn test_parse_scan_query_with_double_equals_filter() {
    let query = parse_scan_query("module.*.source[ref==\"v1.0.0\"]").unwrap();
    assert!(query.filter.is_some());
    let filter = query.filter.unwrap();
    assert_eq!(filter.attribute, "ref");
    assert_eq!(filter.value, "v1.0.0");
}

#[test]
fn test_scan_multiple_modules_in_one_file() {
    let files = docs(&[("main.tf", MULTIPLE_MODULES_TF)]);
    let results = scan_files("module.*", &files).unwrap();
    assert_eq!(results.len(), 2);
}

#[test]
fn test_scan_specific_module_in_multi_module_file() {
    let files = docs(&[("main.tf", MULTIPLE_MODULES_TF)]);
    let results = scan_files("module.eks", &files).unwrap();
    assert_eq!(results.len(), 1);

    let results_vpc = scan_files("module.vpc", &files).unwrap();
    assert_eq!(results_vpc.len(), 1);
}

#[test]
fn test_scan_returns_module_names() {
    let files = docs(&[("main.tf", MULTIPLE_MODULES_TF)]);
    let results = scan_files("module.*", &files).unwrap();
    assert_eq!(results.len(), 2);

    let module_names: Vec<String> = results.iter().map(|(_, name)| name.clone()).collect();
    assert!(module_names.contains(&"vpc".to_string()));
    assert!(module_names.contains(&"eks".to_string()));
}

#[test]
fn scan_ref_filter_returns_exactly_first_file() {
    let with_ref = "module \"vpc\" {\n  source = \"git::https://github.com/a/b.git?ref=v5.0.0\"\n}\n";
    let without = "module \"vpc\" {\n  source = \"git::https://github.com/a/b.git\"\n}\n";
    let files = docs(&[("one.tf", with_ref), ("two.tf", without)]);
    let results = scan_files("module.*.source[ref==\"v5.0.0\"]", &files).unwrap();
    assert_eq!(results, vec![("one.tf".to_string(), "vpc".to_string())]);
}

#[test]
fn scan_reports_in_file_then_block_order() {
    let files = docs(&[("a.tf", MULTIPLE_MODULES_TF), ("b.tf", REGISTRY_MODULE_TF)]);
    let results = scan_files("module.*", &files).unwrap();
    assert_eq!(
        results,
        vec![
            ("a.tf".to_string(), "vpc".to_string()),
            ("a.tf".to_string(), "eks".to_string()),
            ("b.tf".to_string(), "vpc".to_string()),
        ]
    );
}

#[test]
fn scan_label_less_block_reports_empty_label() {
    let files = docs(&[("t.tf", TERRAFORM_BLOCK_TF)]);
    let results = scan_files("terraform", &files).unwrap();
    assert_eq!(results, vec![("t.tf".to_string(), String::new())]);
}

#[test]
fn scan_errors() {
    let bad = docs(&[("a.tf", SIMPLE_MODULE_TF), ("b.tf", "module {")]);
    assert_eq!(scan_files("module.*", &bad).unwrap_err(), TvError::DocumentParse);
    let good = docs(&[("a.tf", SIMPLE_MODULE_TF)]);
    assert_eq!(scan_files("module.*.source[ref", &good).unwrap_err(), TvError::UnclosedBracket);
    assert_eq!(scan_files("module.*.source[ref]", &good).unwrap_err(), TvError::InvalidFilter);
    assert_eq!(scan_files("module.*", &Vec::new()).unwrap(), Vec::<(String, String)>::new());
}

#[test]
fn filter_compares_extracted_component() {
    let f = parse_attribute_filter("ref==v1").unwrap();
    assert_eq!(matches_filter("\"a.com/r?ref=v1\"", &f).unwrap(), true);
    assert_eq!(matches_filter("\"a.com/r?ref=v10\"", &f).unwrap(), false);
    assert_eq!(matches_filter("\"a.com/r\"", &f).unwrap(), false);
}
