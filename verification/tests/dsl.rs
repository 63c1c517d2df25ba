use androkit::project::dsl::{
    application_id, application_plugin_aliases, block_body, child_block_body, child_block_names,
    flavor_dimensions, included_modules, is_application_module, project_dir, string_assignment,
    strip_comments,
};

#[test]
fn included_modules_groovy_and_kotlin() {
    let groovy = "include ':app', ':core'\ninclude ':feature:home'";
    assert_eq!(
        included_modules(groovy),
        vec![":app", ":core", ":feature:home"]
    );
    let kotlin = "include(\":app\")\ninclude(\":data\")";
    assert_eq!(included_modules(kotlin), vec![":app", ":data"]);
}

#[test]
fn detects_application_plugin() {
    assert!(is_application_module(
        "plugins { id 'com.android.application' }",
        &[]
    ));
    assert!(!is_application_module(
        "plugins { id 'com.android.library' }",
        &[]
    ));
}

#[test]
fn reads_application_id_both_dialects() {
    let groovy = r#"android { defaultConfig { applicationId "com.foo.bar" } }"#;
    assert_eq!(application_id(groovy), Some("com.foo.bar".to_string()));
    let kotlin = r#"android { defaultConfig { applicationId = "com.foo.kts" } }"#;
    assert_eq!(application_id(kotlin), Some("com.foo.kts".to_string()));
}

#[test]
fn child_block_names_handles_kotlin_helpers() {
    let body = r#"
        getByName("debug") { }
        create("release") { }
        staging { }
    "#;
    let names = child_block_names(body);
    assert_eq!(names, vec!["debug", "release", "staging"]);
}

#[test]
fn block_body_ignores_substring_identifiers() {
    // "buildTypes" must not match inside "myBuildTypesExtra".
    let src = r#"
        myBuildTypesExtra { nope {} }
        buildTypes { debug {} }
    "#;
    let body = block_body(src, "buildTypes").unwrap();
    assert!(body.contains("debug"));
    assert!(!body.contains("nope"));
}

#[test]
fn strips_comments() {
    let src = "a // comment {\n/* block { } */ b {";
    let out = strip_comments(src);
    assert!(!out.contains("comment"));
    assert!(!out.contains("block"));
    assert!(out.contains("b {"));
}

#[test]
fn included_modules_skip_duplicates_and_non_paths() {
    let s = "include ':app', ':app'\n// include ':old'\ninclude 'lib'\nrootProject.name = ':x'\ninclude(\":core\")";
    assert_eq!(included_modules(s), vec![":app", ":core"]);
}

#[test]
fn child_block_names_skip_duplicates() {
    let body = "debug {}\ndebug {}\ngetByName('release') {}\n";
    assert_eq!(child_block_names(body), vec!["debug", "release"]);
}

#[test]
fn application_plugin_detected_through_catalog_alias() {
    let catalog = "[versions]\nagp = \"8.5.0\"\n\n[plugins]\nandroid-application = { id = \"com.android.application\", version.ref = \"agp\" }\nandroid_library = { id = \"com.android.library\", version.ref = \"agp\" }\n";
    let aliases = application_plugin_aliases(catalog);
    assert_eq!(aliases, vec!["libs.plugins.android.application"]);
    let script = "plugins {\n    alias(libs.plugins.android.application)\n}";
    assert!(is_application_module(script, &aliases));
    assert!(!is_application_module(script, &[]));
    assert!(!is_application_module("plugins { alias(libs.plugins.android.library) }", &aliases));
}

#[test]
fn string_assignment_needs_separator_after_key() {
    assert_eq!(string_assignment("applicationIdSuffix \".dev\"\n", "applicationId"), None);
    assert_eq!(string_assignment("  dimension 'env'\n", "dimension"), Some("env".to_string()));
    assert_eq!(string_assignment("namespace(\"com.n\")", "namespace"), Some("com.n".to_string()));
}

#[test]
fn application_id_comes_only_from_default_config() {
    assert_eq!(application_id("android { applicationId 'com.top' }"), None);
    assert_eq!(application_id("defaultConfig { applicationId 'x' }"), None);
    let flavored = "android {\n productFlavors {\n  dev {\n   applicationId \"com.x.dev\"\n  }\n }\n}";
    assert_eq!(application_id(flavored), None);
    let both = "android {\n defaultConfig { applicationId \"com.x\" }\n productFlavors { dev { applicationId \"com.x.dev\" } }\n}";
    assert_eq!(application_id(both), Some("com.x".to_string()));
}

#[test]
fn block_body_takes_first_top_level_block() {
    let src = "x { android { a } }\nandroid { b }";
    assert_eq!(block_body(src, "android").as_deref(), Some(" b "));
    assert_eq!(block_body("x { android { a } }", "android"), None);
}

#[test]
fn block_body_skips_call_group_before_brace() {
    assert_eq!(block_body("android(x) { a }", "android").as_deref(), Some(" a "));
    assert_eq!(block_body("android (f(1), 2)\n { b }", "android").as_deref(), Some(" b "));
    assert_eq!(block_body("android(x) = 3", "android"), None);
}

#[test]
fn non_ascii_text_is_kept_and_scanned() {
    assert_eq!(strip_comments("é // ü\nñ /* ö */ ß"), "é \nñ  ß");
    assert_eq!(block_body("é android { a }", "android").as_deref(), Some(" a "));
    assert_eq!(block_body("café { x }\nandroid { «b» }", "android").as_deref(), Some(" «b» "));
    assert_eq!(child_block_names("naïve { }\ncreate(\"größe\") { }"), vec!["naïve", "größe"]);
}

#[test]
fn flavor_dimensions_follow_declared_order() {
    let android = "flavorDimensions += listOf(\"color\", \"tier\")\nproductFlavors {\n create(\"free\") { dimension = \"tier\" }\n create(\"blue\") { dimension = \"color\" }\n create(\"paid\") { dimension = \"tier\" }\n}";
    let groups = flavor_dimensions(android);
    assert_eq!(groups, vec![vec!["blue"], vec!["free", "paid"]]);
    assert!(flavor_dimensions("buildTypes { debug {} }").is_empty());
}

#[test]
fn child_block_body_finds_wrapped_declarations() {
    let parent = "create(\"dev\") { dimension \"env\" }\nprod { dimension \"env2\" }";
    assert_eq!(child_block_body(parent, "dev").as_deref(), Some(" dimension \"env\" "));
    assert_eq!(child_block_body(parent, "prod").as_deref(), Some(" dimension \"env2\" "));
    assert_eq!(child_block_body(parent, "none"), None);
}

#[test]
fn project_dir_follows_relocation() {
    let settings = "include ':lib'\nproject(':lib').projectDir = file('libs/core')\n";
    assert_eq!(project_dir(settings, ":lib"), Some("libs/core".to_string()));
    assert_eq!(project_dir(settings, ":app"), None);
}

#[test]
fn unterminated_block_has_no_body() {
    assert_eq!(block_body("android { defaultConfig {", "android"), None);
    assert_eq!(block_body("android = 3", "android"), None);
}
