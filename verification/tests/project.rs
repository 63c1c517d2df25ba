use androkit::project::{
    cartesian, gradle_path_to_dir, parse_variants, resolve_default_variant, variant_name,
};

#[test]
fn no_flavors_yields_build_types_with_debug_first() {
    let script = r#"
        android {
            defaultConfig { applicationId "com.example.app" }
            buildTypes {
                release { minifyEnabled true }
            }
        }
    "#;
    let variants = parse_variants(script);
    let names: Vec<&str> = variants.iter().map(|v| v.name.as_str()).collect();
    assert_eq!(names, vec!["debug", "release"]);
    assert_eq!(
        resolve_default_variant(&variants),
        Some("debug".to_string())
    );
}

#[test]
fn single_dimension_flavors_combine_with_build_types() {
    let script = r#"
        android {
            flavorDimensions "env"
            productFlavors {
                dev { dimension "env" }
                prod { dimension "env" }
            }
            buildTypes {
                debug {}
                release {}
            }
        }
    "#;
    let variants = parse_variants(script);
    let names: Vec<String> = variants.iter().map(|v| v.name.clone()).collect();
    assert!(names.contains(&"devDebug".to_string()));
    assert!(names.contains(&"devRelease".to_string()));
    assert!(names.contains(&"prodDebug".to_string()));
    assert!(names.contains(&"prodRelease".to_string()));
    assert_eq!(names.len(), 4);
    assert_eq!(
        resolve_default_variant(&variants),
        Some("devDebug".to_string())
    );
}

#[test]
fn multi_dimension_flavors_produce_full_product() {
    let script = r#"
        android {
            flavorDimensions "tier", "color"
            productFlavors {
                free { dimension "tier" }
                paid { dimension "tier" }
                blue { dimension "color" }
            }
            buildTypes { debug {} release {} }
        }
    "#;
    let variants = parse_variants(script);
    let names: Vec<String> = variants.iter().map(|v| v.name.clone()).collect();
    // 2 (tier) x 1 (color) x 2 (build types) = 4 variants
    assert!(names.contains(&"freeBlueDebug".to_string()));
    assert!(names.contains(&"paidBlueRelease".to_string()));
    assert_eq!(names.len(), 4);
}

#[test]
fn variant_name_camelcases() {
    assert_eq!(variant_name(&["dev".into()], "debug"), "devDebug");
    assert_eq!(
        variant_name(&["free".into(), "blue".into()], "release"),
        "freeBlueRelease"
    );
    assert_eq!(variant_name(&[], "debug"), "Debug");
}

#[test]
fn gradle_path_to_dir_maps_nested_modules() {
    assert_eq!(gradle_path_to_dir(":app"), "app");
    assert_eq!(gradle_path_to_dir(":feature:home"), "feature/home");
    assert_eq!(gradle_path_to_dir(":"), ".");
}

#[test]
fn custom_build_types_follow_debug_and_release() {
    let script = r#"
        android {
            buildTypes {
                staging {}
                release {}
                create("qa") {}
            }
        }
    "#;
    let variants = parse_variants(script);
    let names: Vec<&str> = variants.iter().map(|v| v.name.as_str()).collect();
    assert_eq!(names, vec!["debug", "release", "staging", "qa"]);
    assert_eq!(variants[2].build_type, "staging");
    assert!(variants[2].flavors.is_empty());
}

#[test]
fn variant_count_is_product_of_dimensions_and_build_types() {
    let script = r#"
        android {
            productFlavors {
                a { dimension "x" }
                b { dimension "x" }
                c { dimension "y" }
                d { dimension "y" }
                e { dimension "y" }
            }
            buildTypes { beta {} }
        }
    "#;
    let variants = parse_variants(script);
    // 2 (x) x 3 (y) x 3 (debug, release, beta)
    assert_eq!(variants.len(), 18);
    assert_eq!(variants[0].name, "aCDebug");
    assert_eq!(variants[0].flavors, vec!["a", "c"]);
    assert_eq!(variants[17].name, "bEBeta");
}

#[test]
fn flavors_without_dimension_share_one_group() {
    let script = "android {\n productFlavors {\n free {}\n paid {}\n }\n}";
    let names: Vec<String> = parse_variants(script).iter().map(|v| v.name.clone()).collect();
    assert_eq!(names, vec!["freeDebug", "freeRelease", "paidDebug", "paidRelease"]);
}

#[test]
fn cartesian_keeps_group_order() {
    let groups = vec![
        vec!["a".to_string(), "b".to_string()],
        vec!["x".to_string(), "y".to_string(), "z".to_string()],
    ];
    let combos = cartesian(&groups);
    assert_eq!(combos.len(), 6);
    assert_eq!(combos[0], vec!["a", "x"]);
    assert_eq!(combos[1], vec!["a", "y"]);
    assert_eq!(combos[3], vec!["b", "x"]);
    assert_eq!(combos[5], vec!["b", "z"]);
    assert_eq!(cartesian(&[]), vec![Vec::<String>::new()]);
    assert!(cartesian(&[vec!["a".to_string()], vec![]]).is_empty());
}

#[test]
fn default_variant_falls_back_to_first() {
    let script = "android {\n productFlavors {\n free {}\n }\n buildTypes {}\n}";
    let variants = parse_variants(script);
    assert_eq!(resolve_default_variant(&variants), Some("freeDebug".to_string()));
    assert_eq!(resolve_default_variant(&[]), None);
}

#[test]
fn missing_android_block_still_has_default_build_types() {
    let variants = parse_variants("plugins { id 'java' }");
    let names: Vec<&str> = variants.iter().map(|v| v.name.as_str()).collect();
    assert_eq!(names, vec!["debug", "release"]);
}
