use micropb_gen::Config;
use micropb_gen::CustomField;
use micropb_gen::GenConfig;
use micropb_gen::OverrideError;
use micropb_gen::PathTree;

#[test]
fn skip_is_inherited() {
    let mut tree = PathTree::new();
    tree.insert("a", Config::new().skip(true));
    let resolved = tree.resolve("a.b");
    assert_eq!(resolved.skip, Some(true));
}

#[test]
fn child_overrides_parent_container_type() {
    let mut tree = PathTree::new();
    tree.insert("a", Config::new().vec_type("TypeX"));
    tree.insert("a.b", Config::new().vec_type("TypeY"));
    assert_eq!(tree.resolve("a.b").vec_type.unwrap(), "TypeY");
    assert_eq!(tree.resolve("a").vec_type.unwrap(), "TypeX");
}

#[test]
fn rename_is_erased_by_empty_descendant() {
    let mut tree = PathTree::new();
    tree.insert("a", Config::new().rename_field("foo").max_len(5));
    tree.insert("a.b", Config::new());
    let resolved = tree.resolve("a.b");
    // the wholesale-policy attribute is erased by the bag at `a.b`
    assert!(resolved.rename_field.is_none());
    // while overlay attributes are still inherited from `a`
    assert_eq!(resolved.max_len, Some(5));
    // at `a` itself the rename still applies
    assert_eq!(tree.resolve("a").rename_field.unwrap(), "foo");
}

#[test]
fn unregistered_path_resolves_to_default() {
    let tree = PathTree::new();
    let resolved = tree.resolve("x.y.z");
    assert!(resolved.max_len.is_none());
    assert!(resolved.max_bytes.is_none());
    assert!(resolved.int_type.is_none());
    assert!(resolved.field_attributes.is_none());
    assert!(resolved.boxed.is_none());
    assert!(resolved.vec_type.is_none());
    assert!(resolved.string_type.is_none());
    assert!(resolved.map_type.is_none());
    assert!(resolved.no_hazzer.is_none());
    assert!(resolved.custom_field.is_none());
    assert!(resolved.rename_field.is_none());
    assert!(resolved.enum_int_type.is_none());
    assert!(resolved.type_attributes.is_none());
    assert!(resolved.hazzer_attributes.is_none());
    assert!(resolved.no_debug_derive.is_none());
    assert!(resolved.skip.is_none());
    // the renamed identifier falls back to the supplied name
    assert_eq!(
        resolved.rust_field_name("orig", "x.y.z").unwrap().to_string(),
        "orig"
    );
    // attribute-injection fragments are empty
    assert_eq!(resolved.field_attr_parsed("x.y.z").unwrap().to_string(), "");
    assert_eq!(resolved.type_attr_parsed("x.y.z").unwrap().to_string(), "");
}

#[test]
fn untouched_attribute_stays_absent() {
    let mut tree = PathTree::new();
    tree.insert("a", Config::new().skip(true));
    tree.insert("a.b", Config::new().vec_type("V").max_len(2));
    tree.insert("a.b.c", Config::new().boxed(true));
    let resolved = tree.resolve("a.b.c");
    // attributes never set by any bag on the path stay absent
    assert!(resolved.max_bytes.is_none());
    assert!(resolved.string_type.is_none());
    assert!(resolved.enum_int_type.is_none());
    // attributes that were set arrive
    assert_eq!(resolved.skip, Some(true));
    assert_eq!(resolved.max_len, Some(2));
    assert_eq!(resolved.boxed, Some(true));
}

#[test]
fn resolution_folds_in_ancestor_order() {
    let mut tree = PathTree::new();
    let at_a = Config::new().vec_type("FromA").skip(true);
    let at_ab = Config::new().vec_type("FromAB");
    let at_abc = Config::new().vec_type("FromABC");
    tree.insert("a", at_a.clone());
    tree.insert("a.b", at_ab.clone());
    tree.insert("a.b.c", at_abc.clone());

    let resolved = tree.resolve("a.b.c");

    // equal to folding the three bags in exactly root-to-leaf order
    let mut folded = Config::new();
    folded.merge(&at_a);
    folded.merge(&at_ab);
    folded.merge(&at_abc);
    assert_eq!(resolved.vec_type, folded.vec_type);
    assert_eq!(resolved.skip, folded.skip);
    assert_eq!(resolved.vec_type.as_deref(), Some("FromABC"));

    // reversing the fold changes the result where the bags disagree
    let mut reversed = Config::new();
    reversed.merge(&at_abc);
    reversed.merge(&at_ab);
    reversed.merge(&at_a);
    assert_eq!(reversed.vec_type.as_deref(), Some("FromA"));
    assert_ne!(reversed.vec_type, resolved.vec_type);
}

#[test]
fn malformed_container_type_fails_only_at_conversion() {
    let mut tree = PathTree::new();
    tree.insert("m.f", Config::new().vec_type("not<<valid").max_len(8));
    // resolution of the surrounding bag still succeeds
    let resolved = tree.resolve("m.f");
    assert_eq!(resolved.max_len, Some(8));
    assert_eq!(resolved.vec_type.as_deref(), Some("not<<valid"));
    // the fragment conversion fails, naming the path and the attribute
    match resolved.vec_type_parsed("m.f") {
        Err(OverrideError::MalformedOverride { path, attribute }) => {
            assert_eq!(path, "m.f");
            assert_eq!(attribute, "vec_type");
        }
        _ => panic!("expected a malformed override"),
    }
}

#[test]
fn last_write_wins_at_a_path() {
    let mut tree = PathTree::new();
    tree.insert("a.b", Config::new().max_len(1));
    tree.insert("a.b", Config::new().max_len(2));
    assert_eq!(tree.resolve("a.b").max_len, Some(2));
    // the first bag is gone entirely, not merged into the second
    tree.insert("a.b", Config::new().boxed(true));
    let resolved = tree.resolve("a.b");
    assert!(resolved.max_len.is_none());
    assert_eq!(resolved.boxed, Some(true));
}

#[test]
fn empty_path_holds_no_bag() {
    let mut tree = PathTree::new();
    tree.insert("", Config::new().skip(true));
    let resolved = tree.resolve("");
    assert!(resolved.skip.is_none());
    let resolved = tree.resolve("a");
    assert!(resolved.skip.is_none());
}

#[test]
fn bags_on_path_lists_prefix_bags_root_first() {
    let mut tree = PathTree::new();
    tree.insert("a", Config::new().max_len(1));
    tree.insert("a.b.c", Config::new().max_len(3));
    // no bag at `a.b`: it is structural only and contributes nothing
    let bags = tree.bags_on_path("a.b.c");
    assert_eq!(bags.len(), 2);
    assert_eq!(bags[0].max_len, Some(1));
    assert_eq!(bags[1].max_len, Some(3));
    assert_eq!(tree.bags_on_path("z").len(), 0);
    assert_eq!(tree.bags_on_path("").len(), 0);
}

#[test]
fn sibling_paths_stay_independent() {
    let mut tree = PathTree::new();
    tree.insert("pkg.MsgA", Config::new().skip(true));
    tree.insert("pkg.MsgB", Config::new().boxed(true));
    let a = tree.resolve("pkg.MsgA.field");
    let b = tree.resolve("pkg.MsgB.field");
    assert_eq!(a.skip, Some(true));
    assert!(a.boxed.is_none());
    assert_eq!(b.boxed, Some(true));
    assert!(b.skip.is_none());
}

#[test]
fn gen_config_registers_and_resolves() {
    let mut gen = GenConfig::new();
    assert!(!gen.size_cache);
    assert!(!gen.use_std);
    assert_eq!(gen.default_pkg_filename, "");
    gen.configure("pkg.Msg", Config::new().no_debug_derive(true));
    gen.configure(
        "pkg.Msg.field",
        Config::new().custom_field(CustomField::Type("MyType".to_owned())),
    );
    let resolved = gen.resolve("pkg.Msg.field");
    assert_eq!(resolved.no_debug_derive, Some(true));
    assert!(matches!(resolved.custom_field, Some(CustomField::Type(t)) if t == "MyType"));
    let resolved = gen.resolve("pkg.Msg");
    assert!(resolved.custom_field.is_none());
}
