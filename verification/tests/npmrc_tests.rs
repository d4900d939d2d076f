use check_npm_version::npm_config::{parse_npmrc, NpmConfig};

#[test]
fn defaults_use_the_public_registry() {
    let c = NpmConfig::new();
    assert_eq!(c.get_scope_registry(""), "https://registry.npmjs.org/");
    assert_eq!(c.get_scope_registry("@acme"), "https://registry.npmjs.org/");
    assert_eq!(c.get_package_registry("express"), "https://registry.npmjs.org/");
    assert_eq!(c.get_package_registry("@acme/tool"), "https://registry.npmjs.org/");
    assert!(c.get_auth_token("https://registry.npmjs.org/").is_none());
    assert_eq!(c.package_url("express"), "https://registry.npmjs.org/express");
}

#[test]
fn npmrc_lines_set_registries_and_tokens() {
    let text = "; a comment\n# another\n\n  registry = https://npm.example.com/  \n@acme:registry=https://acme.example.com/npm\n//acme.example.com/npm/:_authToken=SECRET-REDACTED\nnot a setting\nother=1\n";
    let file = parse_npmrc(text);
    let mut c = NpmConfig::new();
    c.load_file(&file);
    assert_eq!(c.get_scope_registry(""), "https://npm.example.com/");
    assert_eq!(c.get_scope_registry("@acme"), "https://acme.example.com/npm");
    assert_eq!(c.get_scope_registry("@other"), "https://npm.example.com/");
    assert_eq!(c.get_package_registry("@acme/tool"), "https://acme.example.com/npm");
    assert_eq!(c.get_package_registry("@acme"), "https://npm.example.com/");
    assert_eq!(c.get_package_registry("left-pad"), "https://npm.example.com/");
    assert_eq!(c.get_auth_token("https://acme.example.com/npm/").map(|s| s.as_str()), Some("SECRET-REDACTED"));
    assert_eq!(c.get_auth_token("http://acme.example.com/npm/").map(|s| s.as_str()), Some("SECRET-REDACTED"));
    assert!(c.get_auth_token("//acme.example.com/npm/").is_none());
    assert_eq!(c.package_url("@acme/tool"), "https://acme.example.com/npm/@acme/tool");
    assert_eq!(c.package_url("left-pad"), "https://npm.example.com/left-pad");
    assert!(c.package_auth_token("@acme/tool").is_none());
}

#[test]
fn later_files_override_earlier_ones() {
    let mut c = NpmConfig::new();
    c.load_file(&parse_npmrc("registry=https://first.example.com/\n@a:registry=https://a.example.com/\n"));
    c.load_file(&parse_npmrc("registry=https://second.example.com/\r\n"));
    assert_eq!(c.get_scope_registry(""), "https://second.example.com/");
    assert_eq!(c.get_scope_registry("@a"), "https://a.example.com/");
}

#[test]
fn a_later_line_overrides_an_earlier_one() {
    let file = parse_npmrc("registry=https://one.example.com/\nregistry=https://two.example.com/");
    assert_eq!(file.registries.get("").map(|s| s.as_str()), Some("https://two.example.com/"));
}

#[test]
fn the_default_token_goes_to_the_default_registry() {
    let file = parse_npmrc("registry=https://npm.example.com/\n_authToken=SECRET-REDACTED\n");
    let mut c = NpmConfig::new();
    c.load_file(&file);
    assert_eq!(c.get_auth_token("https://npm.example.com/").map(|s| s.as_str()), Some("SECRET-REDACTED"));
    assert!(c.get_auth_token("").is_none());
    assert_eq!(c.package_auth_token("express").map(|s| s.as_str()), Some("SECRET-REDACTED"));
}

#[test]
fn a_default_token_without_a_registry_goes_to_the_registry_in_force() {
    let mut c = NpmConfig::new();
    c.load_file(&parse_npmrc("registry=https://home.example.com/\n"));
    c.load_file(&parse_npmrc("_authToken=SECRET-REDACTED\n"));
    assert_eq!(c.get_auth_token("https://home.example.com/").map(|s| s.as_str()), Some("SECRET-REDACTED"));
    assert!(c.get_auth_token("").is_none());
    let mut d = NpmConfig::new();
    d.load_file(&parse_npmrc("_authToken=abc\n"));
    assert_eq!(d.get_auth_token("https://registry.npmjs.org/").map(|s| s.as_str()), Some("abc"));
}

#[test]
fn project_settings_win_over_home_and_builtin_ones() {
    let builtin = parse_npmrc("registry=https://builtin.example.com/\n@a:registry=https://a0.example.com/\n@b:registry=https://b0.example.com/\n");
    let home = parse_npmrc("@a:registry=https://a1.example.com/\n//t.example.com/:_authToken=home\n");
    let project = parse_npmrc("@a:registry=https://a2.example.com/\n");
    let c = NpmConfig::from_files(Some(&builtin), Some(&home), Some(&project));
    assert_eq!(c.get_scope_registry(""), "https://builtin.example.com/");
    assert_eq!(c.get_scope_registry("@a"), "https://a2.example.com/");
    assert_eq!(c.get_scope_registry("@b"), "https://b0.example.com/");
    assert_eq!(c.get_auth_token("https://t.example.com/").map(|s| s.as_str()), Some("home"));
    let none = NpmConfig::from_files(None, None, None);
    assert_eq!(none.get_scope_registry("@a"), "https://registry.npmjs.org/");
}

#[test]
fn registry_without_trailing_slash_gets_one_in_urls() {
    let mut c = NpmConfig::new();
    c.load_file(&parse_npmrc("registry=https://npm.example.com"));
    assert_eq!(c.package_url("x"), "https://npm.example.com/x");
}

#[test]
fn a_token_key_with_a_port_names_the_registry_with_its_port() {
    let file = parse_npmrc("//npm.myco.com:8443/:_authToken=abcdefgh123\n");
    let mut c = NpmConfig::new();
    c.load_file(&file);
    assert_eq!(c.get_auth_token("https://npm.myco.com:8443/").map(|s| s.as_str()), Some("abcdefgh123"));
    assert_eq!(c.get_auth_token("http://npm.myco.com:8443/").map(|s| s.as_str()), Some("abcdefgh123"));
    assert!(c.get_auth_token("https://npm.myco.com").is_none());
}

#[test]
fn each_key_takes_the_value_of_its_last_line() {
    let file = parse_npmrc("//r.example.com/:_authToken=first\n@s:registry=https://s1.example.com/\n//r.example.com/:_authToken=second\n@s:registry=https://s2.example.com/\n");
    let mut c = NpmConfig::new();
    c.load_file(&file);
    assert_eq!(c.get_auth_token("https://r.example.com/").map(|s| s.as_str()), Some("second"));
    assert_eq!(c.get_scope_registry("@s"), "https://s2.example.com/");
}
