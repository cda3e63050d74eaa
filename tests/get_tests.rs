use tv::{
    extract_param_from_source, extract_path_from_source, extract_url_from_source, get_value,
    TvError,
};

const SIMPLE_MODULE_TF: &str = r#"module "vpc" {
  source = "git::https://github.com/terraform-aws-modules/terraform-aws-vpc.git?ref=v5.0.0"
  
  name = "my-vpc"
  cidr = "10.0.0.0/16"
}
"#;

const MODULE_WITH_PATH_TF: &str = r#"module "example" {
  source = "git::https://github.com/org/repo.git//modules/vpc?ref=v1.0.0"
}
"#;

const TERRAFORM_BLOCK_TF: &str = r#"terraform {
  required_providers {
    aws = {
      source = "hashicorp/aws"
      version = "6.15.0"
    }
  }
}
"#;

const REGISTRY_MODULE_TF: &str = r#"module "vpc" {
  source  = "terraform-aws-modules/vpc/aws"
  version = "5.0.0"
}
"#;

#[test]
fn test_get_simple_module_source() {
    let result = get_value("module.vpc.source", SIMPLE_MODULE_TF).unwrap();
    assert_eq!(result, Some("git::https://github.com/terraform-aws-modules/terraform-aws-vpc.git?ref=v5.0.0".to_string()));
}

#[test]
fn test_get_simple_module_name() {
    let result = get_value("module.vpc.name", SIMPLE_MODULE_TF).unwrap();
    assert_eq!(result, Some("my-vpc".to_string()));
}

#[test]
fn test_get_module_source_with_ref_index() {
    let result = get_value("module.vpc.source[\"ref\"]", SIMPLE_MODULE_TF).unwrap();
    assert_eq!(result, Some("v5.0.0".to_string()));
}

#[test]
fn test_get_module_source_with_url_index() {
    let result = get_value("module.vpc.source[\"url\"]", SIMPLE_MODULE_TF).unwrap();
    assert_eq!(result, Some("git::https://github.com/terraform-aws-modules/terraform-aws-vpc.git".to_string()));
}

#[test]
fn test_get_module_source_with_path_index() {
    let result = get_value("module.example.source[\"path\"]", MODULE_WITH_PATH_TF).unwrap();
    assert_eq!(result, Some("modules/vpc".to_string()));
}

#[test]
fn test_get_nonexistent_attribute() {
    let result = get_value("module.vpc.nonexistent", SIMPLE_MODULE_TF).unwrap();
    assert_eq!(result, None);
}

#[test]
fn test_get_nonexistent_module() {
    let result = get_value("module.nonexistent.source", SIMPLE_MODULE_TF).unwrap();
    assert_eq!(result, None);
}

#[test]
fn test_get_terraform_block_nested_attribute() {
    let result = get_value("terraform.required_providers.aws.source", TERRAFORM_BLOCK_TF).unwrap();
    assert_eq!(result, Some("hashicorp/aws".to_string()));
}

#[test]
fn test_get_terraform_block_nested_version() {
    let result = get_value("terraform.required_providers.aws.version", TERRAFORM_BLOCK_TF).unwrap();
    assert_eq!(result, Some("6.15.0".to_string()));
}

#[test]
fn test_get_registry_module_version() {
    let result = get_value("module.vpc.version", REGISTRY_MODULE_TF).unwrap();
    assert_eq!(result, Some("5.0.0".to_string()));
}

#[test]
fn test_extract_param_ref() {
    let source = "git::https://github.com/org/repo.git?ref=v1.0.0";
    let result = extract_param_from_source(source, "ref").unwrap();
    assert_eq!(result, Some("v1.0.0".to_string()));
}

#[test]
fn test_extract_param_ref_with_path() {
    let source = "git::https://github.com/org/repo.git//modules/vpc?ref=v1.0.0";
    let result = extract_param_from_source(source, "ref").unwrap();
    assert_eq!(result, Some("v1.0.0".to_string()));
}

#[test]
fn test_extract_param_nonexistent() {
    let source = "git::https://github.com/org/repo.git?ref=v1.0.0";
    let result = extract_param_from_source(source, "nonexistent").unwrap();
    assert_eq!(result, None);
}

#[test]
fn test_extract_url_with_git_prefix() {
    let source = "git::https://github.com/org/repo.git?ref=v1.0.0";
    let result = extract_url_from_source(source);
    assert_eq!(result, "git::https://github.com/org/repo.git");
}

#[test]
fn test_extract_url_with_path() {
    let source = "git::https://github.com/org/repo.git//modules/vpc?ref=v1.0.0";
    let result = extract_url_from_source(source);
    assert_eq!(result, "git::https://github.com/org/repo.git");
}

#[test]
fn test_extract_url_without_git_prefix() {
    let source = "https://github.com/org/repo.git?ref=v1.0.0";
    let result = extract_url_from_source(source);
    assert_eq!(result, "https://github.com/org/repo.git");
}

#[test]
fn test_extract_path_with_path() {
    let source = "git::https://github.com/org/repo.git//modules/vpc?ref=v1.0.0";
    let result = extract_path_from_source(source);
    assert_eq!(result, Some("modules/vpc".to_string()));
}

#[test]
fn test_extract_path_without_path() {
    let source = "git::https://github.com/org/repo.git?ref=v1.0.0";
    let result = extract_path_from_source(source);
    assert_eq!(result, None);
}

#[test]
fn test_extract_path_with_query() {
    let source = "git::https://github.com/org/repo.git//path/to/module?ref=v1.0.0";
    let result = extract_path_from_source(source);
    assert_eq!(result, Some("path/to/module".to_string()));
}

#[test]
fn extract_components_of_full_source() {
    let s = "git::https://github.com/o/r.git//p?ref=v1";
    assert_eq!(extract_url_from_source(s), "git::https://github.com/o/r.git");
    assert_eq!(extract_path_from_source(s), Some("p".to_string()));
    assert_eq!(extract_param_from_source(s, "ref").unwrap(), Some("v1".to_string()));
}

#[test]
fn extract_from_quoted_value_text() {
    let v = " \"git::https://x.com/r.git?ref=v2&depth=1\" ";
    assert_eq!(extract_param_from_source(v, "ref").unwrap(), Some("v2".to_string()));
    assert_eq!(extract_param_from_source(v, "depth").unwrap(), Some("1".to_string()));
    assert_eq!(extract_param_from_source(v, "url").unwrap(), Some("git::https://x.com/r.git".to_string()));
    assert_eq!(extract_param_from_source(v, "path").unwrap(), None);
}

#[test]
fn extract_url_local_and_registry_sources() {
    assert_eq!(extract_url_from_source("./modules/vpc"), "./modules/vpc");
    assert_eq!(extract_url_from_source("terraform-aws-modules/vpc/aws"), "terraform-aws-modules/vpc/aws");
    assert_eq!(extract_url_from_source("github.com/o/r.git//sub?ref=1"), "github.com/o/r.git");
    assert_eq!(extract_url_from_source(""), "");
}

#[test]
fn extract_path_empty_after_delimiter() {
    assert_eq!(extract_path_from_source("https://x.com/r.git//?ref=1"), None);
    assert_eq!(extract_path_from_source("x.com/r//sub"), Some("sub".to_string()));
}

#[test]
fn get_scenario_ref_then_url() {
    let doc = "module \"vpc\" {\n  source = \"git::https://github.com/a/b.git?ref=v5.0.0\"\n}\n";
    assert_eq!(get_value("module.vpc.source[\"ref\"]", doc).unwrap(), Some("v5.0.0".to_string()));
    assert_eq!(get_value("module.vpc.source[\"url\"]", doc).unwrap(), Some("git::https://github.com/a/b.git".to_string()));
}

#[test]
fn get_inline_nested_object_single_line() {
    let doc = "terraform {\n  required_providers {\n    aws = { source = \"hashicorp/aws\", version = \"6.15.0\" }\n  }\n}\n";
    assert_eq!(get_value("terraform.required_providers.aws.version", doc).unwrap(), Some("6.15.0".to_string()));
    assert_eq!(get_value("terraform.required_providers.aws.source", doc).unwrap(), Some("hashicorp/aws".to_string()));
    assert_eq!(get_value("terraform.required_providers.aws.missing", doc).unwrap(), None);
}

#[test]
fn get_reads_first_selected_block_only() {
    let doc = "terraform {\n  a = \"1\"\n}\n\nterraform {\n  b = \"2\"\n}\n";
    assert_eq!(get_value("terraform.b", doc).unwrap(), None);
    assert_eq!(get_value("terraform.a", doc).unwrap(), Some("1".to_string()));
    let two = "module \"vpc\" {\n  name = \"a\"\n}\nmodule \"vpc\" {\n  version = \"2\"\n}\n";
    assert_eq!(get_value("module.vpc.version", two).unwrap(), None);
}

#[test]
fn extract_param_matches_whole_keys_of_query() {
    assert_eq!(extract_param_from_source("a?xref=1", "ref").unwrap(), None);
    assert_eq!(extract_param_from_source("a?xref=1&ref=2", "ref").unwrap(), Some("2".to_string()));
    assert_eq!(extract_param_from_source("a/ref=1?depth=2", "ref").unwrap(), None);
    assert_eq!(extract_param_from_source("a&ref=1?x=2", "ref").unwrap(), None);
    assert_eq!(extract_param_from_source("a?ref=", "ref").unwrap(), Some(String::new()));
}

#[test]
fn question_mark_before_double_slash_starts_query() {
    assert_eq!(extract_path_from_source("https://h/r?x=a//b"), None);
    assert_eq!(extract_url_from_source("https://h/r?x=a//b"), "https://h/r");
    assert_eq!(extract_path_from_source("h/r?x=a//b"), None);
}

#[test]
fn get_first_matching_label_wins() {
    let doc = "module \"a\" {\n  v = \"1\"\n}\nmodule \"a\" {\n  v = \"2\"\n}\n";
    assert_eq!(get_value("module.a.v", doc).unwrap(), Some("1".to_string()));
}

#[test]
fn get_errors() {
    assert_eq!(get_value("module", SIMPLE_MODULE_TF).unwrap_err(), TvError::TooShort);
    assert_eq!(get_value("module.vpc.name", "module \"vpc\" {").unwrap_err(), TvError::DocumentParse);
}
