use tv::{
    extract_from_object_string, get_value, set_value, update_in_object_string,
    update_param_in_source, update_path_in_source, update_url_in_source, extract_path_from_source,
    TvError,
};

const SIMPLE_MODULE_TF: &str = r#"module "vpc" {
  source = "git::https://github.com/terraform-aws-modules/terraform-aws-vpc.git?ref=v5.0.0"
  
  name = "my-vpc"
  cidr = "10.0.0.0/16"
}
"#;

const MODULE_WITH_PATH_TF: &str = r#"module "example" {
  source = "git::https://github.com/org/repo.git//modules/vpc?ref=v1.0.0"
}
"#;

const TERRAFORM_BLOCK_TF: &str = r#"terraform {
  required_providers {
    aws = {
      source = "hashicorp/aws"
      version = "6.15.0"
    }
  }
}
"#;

const REGISTRY_MODULE_TF: &str = r#"module "vpc" {
  source  = "terraform-aws-modules/vpc/aws"
  version = "5.0.0"
}
"#;

#[test]
fn test_set_simple_attribute() {
    let out = set_value("module.vpc.name", "new-vpc", SIMPLE_MODULE_TF).unwrap();
    let result = get_value("module.vpc.name", &out).unwrap();
    assert_eq!(result, Some("new-vpc".to_string()));
}

#[test]
fn test_set_module_source() {
    let out = set_value("module.vpc.source", "git::https://github.com/new/repo.git?ref=v2.0.0", SIMPLE_MODULE_TF).unwrap();
    let result = get_value("module.vpc.source", &out).unwrap();
    assert_eq!(result, Some("git::https://github.com/new/repo.git?ref=v2.0.0".to_string()));
}

#[test]
fn test_set_module_source_ref() {
    let out = set_value("module.vpc.source[\"ref\"]", "v6.0.0", SIMPLE_MODULE_TF).unwrap();
    let result = get_value("module.vpc.source[\"ref\"]", &out).unwrap();
    assert_eq!(result, Some("v6.0.0".to_string()));

    let source = get_value("module.vpc.source[\"url\"]", &out).unwrap();
    assert_eq!(source, Some("git::https://github.com/terraform-aws-modules/terraform-aws-vpc.git".to_string()));
}

#[test]
fn test_set_module_source_url() {
    let out = set_value("module.vpc.source[\"url\"]", "git::https://github.com/myorg/myvpc.git", SIMPLE_MODULE_TF).unwrap();
    let result = get_value("module.vpc.source[\"url\"]", &out).unwrap();
    assert_eq!(result, Some("git::https://github.com/myorg/myvpc.git".to_string()));

    let ref_val = get_value("module.vpc.source[\"ref\"]", &out).unwrap();
    assert_eq!(ref_val, Some("v5.0.0".to_string()));
}

#[test]
fn test_set_module_source_path() {
    let out = set_value("module.example.source[\"path\"]", "modules/new-vpc", MODULE_WITH_PATH_TF).unwrap();
    let result = get_value("module.example.source[\"path\"]", &out).unwrap();
    assert_eq!(result, Some("modules/new-vpc".to_string()));

    let url = get_value("module.example.source[\"url\"]", &out).unwrap();
    assert_eq!(url, Some("git::https://github.com/org/repo.git".to_string()));
}

#[test]
fn test_set_terraform_nested_attribute() {
    let out = set_value("terraform.required_providers.aws.version", "7.0.0", TERRAFORM_BLOCK_TF).unwrap();
    let result = get_value("terraform.required_providers.aws.version", &out).unwrap();
    assert_eq!(result, Some("7.0.0".to_string()));
}

#[test]
fn test_set_registry_module_version() {
    let out = set_value("module.vpc.version", "6.0.0", REGISTRY_MODULE_TF).unwrap();
    let result = get_value("module.vpc.version", &out).unwrap();
    assert_eq!(result, Some("6.0.0".to_string()));
}

#[test]
fn test_update_param_ref() {
    let source = "\"git::https://github.com/org/repo.git?ref=v1.0.0\"";
    let result = update_param_in_source(source, "ref", "v2.0.0").unwrap();
    assert_eq!(result, "\"git::https://github.com/org/repo.git?ref=v2.0.0\"");
}

#[test]
fn test_update_param_add_new() {
    let source = "\"git::https://github.com/org/repo.git\"";
    let result = update_param_in_source(source, "ref", "v1.0.0").unwrap();
    assert_eq!(result, "\"git::https://github.com/org/repo.git?ref=v1.0.0\"");
}

#[test]
fn test_update_param_multiple_params() {
    let source = "\"git::https://github.com/org/repo.git?ref=v1.0.0&depth=1\"";
    let result = update_param_in_source(source, "ref", "v2.0.0").unwrap();
    assert_eq!(result, "\"git::https://github.com/org/repo.git?ref=v2.0.0&depth=1\"");
}

#[test]
fn test_update_url_preserves_query() {
    let source = "git::https://github.com/org/repo.git?ref=v1.0.0";
    let result = update_url_in_source(source, "git::https://github.com/neworg/newrepo.git");
    assert_eq!(result, "git::https://github.com/neworg/newrepo.git?ref=v1.0.0");
}

#[test]
fn test_update_url_preserves_path_and_query() {
    let source = "git::https://github.com/org/repo.git//modules/vpc?ref=v1.0.0";
    let result = update_url_in_source(source, "git::https://github.com/neworg/newrepo.git");
    assert_eq!(result, "git::https://github.com/neworg/newrepo.git//modules/vpc?ref=v1.0.0");
}

#[test]
fn test_update_url_simple() {
    let source = "git::https://github.com/org/repo.git";
    let result = update_url_in_source(source, "git::https://github.com/neworg/newrepo.git");
    assert_eq!(result, "git::https://github.com/neworg/newrepo.git");
}

#[test]
fn test_update_path_new_path() {
    let source = "git::https://github.com/org/repo.git?ref=v1.0.0";
    let result = update_path_in_source(source, "modules/vpc");
    assert_eq!(result, "git::https://github.com/org/repo.git//modules/vpc?ref=v1.0.0");
}

#[test]
fn test_update_path_replace_path() {
    let source = "git::https://github.com/org/repo.git//old/path?ref=v1.0.0";
    let result = update_path_in_source(source, "new/path");
    assert_eq!(result, "git::https://github.com/org/repo.git//new/path?ref=v1.0.0");
}

#[test]
fn test_update_path_remove_path() {
    let source = "git::https://github.com/org/repo.git//old/path?ref=v1.0.0";
    let result = update_path_in_source(source, "");
    assert_eq!(result, "git::https://github.com/org/repo.git?ref=v1.0.0");
}

#[test]
fn test_update_path_with_leading_slash() {
    let source = "git::https://github.com/org/repo.git?ref=v1.0.0";
    let result = update_path_in_source(source, "/modules/vpc");
    assert_eq!(result, "git::https://github.com/org/repo.git//modules/vpc?ref=v1.0.0");
}

#[test]
fn update_param_twice_is_once() {
    for s in [
        "git::https://github.com/org/repo.git?ref=v0",
        "git::https://github.com/org/repo.git",
        "x.com/r?depth=1",
        "",
    ] {
        let once = update_param_in_source(s, "ref", "v1").unwrap();
        let twice = update_param_in_source(&once, "ref", "v1").unwrap();
        assert_eq!(once, twice);
    }
}

#[test]
fn update_param_appends_with_ampersand() {
    let r = update_param_in_source("x.com/r?depth=1", "ref", "v1").unwrap();
    assert_eq!(r, "\"x.com/r?depth=1&ref=v1\"");
}

#[test]
fn update_param_url_and_path_are_quoted() {
    let u = update_param_in_source("\"a.com/r.git//p?ref=1\"", "url", "b.com/s.git").unwrap();
    assert_eq!(u, "\"b.com/s.git//p?ref=1\"");
    let p = update_param_in_source("\"a.com/r.git//p?ref=1\"", "path", "q").unwrap();
    assert_eq!(p, "\"a.com/r.git//q?ref=1\"");
}

#[test]
fn update_url_keeps_path() {
    let s = "git::https://github.com/o/r.git//sub/dir?ref=v1";
    let t = update_url_in_source(s, "git::https://example.com/x.git");
    assert_eq!(extract_path_from_source(&t), Some("sub/dir".to_string()));
    assert_eq!(t, "git::https://example.com/x.git//sub/dir?ref=v1");
}

#[test]
fn update_param_appends_instead_of_matching_inside_key() {
    let r = update_param_in_source("a?xref=1", "ref", "v").unwrap();
    assert_eq!(r, "\"a?xref=1&ref=v\"");
    let once = update_param_in_source("a?xref=1", "ref", "v").unwrap();
    assert_eq!(update_param_in_source(&once, "ref", "v").unwrap(), once);
}

#[test]
fn update_path_after_query_question_mark() {
    assert_eq!(update_path_in_source("https://h/r?x=a//b", "p"), "https://h/r//p?x=a//b");
    assert_eq!(update_path_in_source("https://h/r?x=a//b", ""), "https://h/r?x=a//b");
}

#[test]
fn git_prefix_colon_is_no_scheme() {
    let s = "git:://a//b";
    assert_eq!(tv::extract_url_from_source(s), "git::");
    assert_eq!(extract_path_from_source(s), Some("a//b".to_string()));
    assert_eq!(update_path_in_source(s, ""), "git::");
    assert_eq!(update_path_in_source(s, "c"), "git:://c");
    assert_eq!(tv::extract_url_from_source(&update_path_in_source(s, "c")), "git::");
}

#[test]
fn update_path_keeps_url() {
    let s = "git::https://github.com/o/r.git//old?ref=v1";
    let t = update_path_in_source(s, "new/dir");
    assert_eq!(tv::extract_url_from_source(&t), "git::https://github.com/o/r.git");
}

#[test]
fn update_url_keeps_query_before_double_slash() {
    assert_eq!(update_url_in_source("a.com/r?x=1//p", "b.com"), "b.com?x=1//p");
}

#[test]
fn set_scenario_ref_keeps_url() {
    let doc = "module \"vpc\" {\n  source = \"git::https://github.com/a/b.git?ref=v5.0.0\"\n}\n";
    let out = set_value("module.vpc.source[\"ref\"]", "v6.0.0", doc).unwrap();
    assert_eq!(get_value("module.vpc.source[\"ref\"]", &out).unwrap(), Some("v6.0.0".to_string()));
    assert_eq!(get_value("module.vpc.source[\"url\"]", &out).unwrap(), Some("git::https://github.com/a/b.git".to_string()));
}

#[test]
fn set_inline_object_keeps_sibling() {
    let doc = "terraform {\n  required_providers {\n    aws = { source = \"hashicorp/aws\", version = \"6.15.0\" }\n  }\n}\n";
    let out = set_value("terraform.required_providers.aws.version", "7.0.0", doc).unwrap();
    assert_eq!(get_value("terraform.required_providers.aws.version", &out).unwrap(), Some("7.0.0".to_string()));
    assert_eq!(get_value("terraform.required_providers.aws.source", &out).unwrap(), Some("hashicorp/aws".to_string()));
    let out2 = set_value("terraform.required_providers.aws.version", "7.0.0", TERRAFORM_BLOCK_TF).unwrap();
    assert_eq!(get_value("terraform.required_providers.aws.source", &out2).unwrap(), Some("hashicorp/aws".to_string()));
}

#[test]
fn set_adds_missing_query_parameter() {
    let out = set_value("module.vpc.source[\"depth\"]", "1", SIMPLE_MODULE_TF).unwrap();
    assert_eq!(get_value("module.vpc.source[\"depth\"]", &out).unwrap(), Some("1".to_string()));
    assert_eq!(get_value("module.vpc.source[\"ref\"]", &out).unwrap(), Some("v5.0.0".to_string()));
}

#[test]
fn set_errors() {
    assert_eq!(set_value("module.eks.name", "x", SIMPLE_MODULE_TF).unwrap_err(), TvError::BlockNotFound);
    assert_eq!(set_value("module.vpc.missing", "x", SIMPLE_MODULE_TF).unwrap_err(), TvError::AttributeNotFound);
    assert_eq!(set_value("terraform.required_providers.gcp.version", "1", TERRAFORM_BLOCK_TF).unwrap_err(), TvError::AttributeNotFound);
    assert_eq!(set_value("terraform.required_providers.aws.missing", "1", TERRAFORM_BLOCK_TF).unwrap_err(), TvError::KeyNotFound);
    assert_eq!(set_value("module.vpc.name", "a\"b", SIMPLE_MODULE_TF).unwrap_err(), TvError::ExpressionParse);
    assert_eq!(set_value("module.vpc.name", "x", "module {").unwrap_err(), TvError::DocumentParse);
    assert_eq!(set_value("module", "x", SIMPLE_MODULE_TF).unwrap_err(), TvError::TooShort);
}

#[test]
fn object_string_read_and_write() {
    let obj = "{ source = \"hashicorp/aws\", version = \"6.15.0\" }";
    let path = vec!["version".to_string()];
    assert_eq!(extract_from_object_string(obj, &path, None).unwrap(), Some("6.15.0".to_string()));
    let out = update_in_object_string(obj, &path, "7.0.0", None).unwrap();
    assert_eq!(out, "{ source = \"hashicorp/aws\", version = \"7.0.0\"}");
    assert_eq!(extract_from_object_string(&out, &path, None).unwrap(), Some("7.0.0".to_string()));
}

#[test]
fn object_string_multiline_keeps_layout() {
    let obj = "{\n  source = \"hashicorp/aws\"\n  version = \"6.15.0\"\n}";
    let path = vec!["source".to_string()];
    let out = update_in_object_string(obj, &path, "x/y", None).unwrap();
    assert_eq!(out, "{\n  source = \"x/y\"\n  version = \"6.15.0\"\n}");
}

#[test]
fn object_string_nested_and_indexed() {
    let obj = "{ m = { src = \"a.com/r?ref=1\" } }";
    let path = vec!["m".to_string(), "src".to_string()];
    assert_eq!(extract_from_object_string(obj, &path, Some("ref")).unwrap(), Some("1".to_string()));
    let flat = "{ src = \"a.com/r?ref=1\", x = \"2\" }";
    let key_path = vec!["src".to_string()];
    let out = update_in_object_string(flat, &key_path, "9", Some("ref")).unwrap();
    assert_eq!(extract_from_object_string(&out, &key_path, Some("ref")).unwrap(), Some("9".to_string()));
    assert_eq!(extract_from_object_string(&out, &vec!["x".to_string()], None).unwrap(), Some("2".to_string()));
}

#[test]
fn object_string_errors() {
    let obj = "{ a = \"1\" }";
    let empty: Vec<String> = vec![];
    assert_eq!(update_in_object_string(obj, &empty, "x", None).unwrap_err(), TvError::EmptyPath);
    assert_eq!(update_in_object_string(obj, &vec!["b".to_string()], "x", None).unwrap_err(), TvError::KeyNotFound);
    assert_eq!(extract_from_object_string(obj, &empty, None).unwrap(), None);
    assert_eq!(extract_from_object_string(obj, &vec!["b".to_string()], None).unwrap(), None);
}
