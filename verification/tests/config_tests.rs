use micropb_gen::Config;
use micropb_gen::CustomField;
use micropb_gen::IntType;
use micropb_gen::OverrideError;
use micropb_gen::ParsedCustomField;
use quote::ToTokens;

fn tokens(s: &str) -> String {
    syn::parse_str::<proc_macro2::TokenStream>(s)
        .unwrap()
        .to_string()
}

#[test]
fn merge() {
    let mut mergee = Config::new()
        .rename_field("rename")
        .skip(true)
        .vec_type("vec")
        .string_type("str");
    let merger = Config::new().skip(false).vec_type("array");
    mergee.merge(&merger);

    assert!(!mergee.skip.unwrap());
    assert_eq!(mergee.vec_type.unwrap(), "array");
    assert_eq!(mergee.string_type.unwrap(), "str");
    // max_len was never set
    assert!(mergee.max_len.is_none());
    // rename_field gets overwritten unconditionally when merging
    assert!(mergee.rename_field.is_none());
}

#[test]
fn parse() {
    let mut config = Config::new()
        .vec_type("heapless::Vec")
        .string_type("heapless::String")
        .map_type("Map")
        .hazzer_attributes("#[derive(Eq)]")
        .type_attributes("#[derive(Hash)]");

    assert_eq!(
        config
            .vec_type_parsed("m.f")
            .unwrap()
            .unwrap()
            .to_token_stream()
            .to_string(),
        tokens("heapless::Vec")
    );
    assert_eq!(
        config
            .string_type_parsed("m.f")
            .unwrap()
            .unwrap()
            .to_token_stream()
            .to_string(),
        tokens("heapless::String")
    );
    assert_eq!(
        config
            .map_type_parsed("m.f")
            .unwrap()
            .unwrap()
            .to_token_stream()
            .to_string(),
        "Map"
    );
    assert_eq!(
        config.hazzer_attr_parsed("m").unwrap().to_string(),
        tokens("#[derive(Eq)]")
    );
    assert_eq!(
        config.type_attr_parsed("m").unwrap().to_string(),
        tokens("#[derive(Hash)]")
    );

    assert_eq!(config.field_attr_parsed("m.f").unwrap().to_string(), "");
    config.field_attributes = Some("#[default]".to_owned());
    assert_eq!(
        config.field_attr_parsed("m.f").unwrap().to_string(),
        tokens("#[default]")
    );

    assert_eq!(
        config.rust_field_name("name", "m.f").unwrap().to_string(),
        "name"
    );
    config.rename_field = Some("rename".to_string());
    assert_eq!(
        config.rust_field_name("name", "m.f").unwrap().to_string(),
        "rename"
    );

    config.custom_field = Some(CustomField::Type("Vec<u16, 4>".to_owned()));
    let ParsedCustomField::Type(typ) = config.custom_field_parsed("m.f").unwrap() else {
        unreachable!()
    };
    assert_eq!(typ.to_token_stream().to_string(), tokens("Vec<u16, 4>"));

    config.custom_field = Some(CustomField::Delegate("name".to_owned()));
    let ParsedCustomField::Delegate(del) = config.custom_field_parsed("m.f").unwrap() else {
        unreachable!()
    };
    assert_eq!(del.to_string(), "name");
}

#[test]
fn merge_overlay_takes_present_value() {
    let a = Config::new().max_len(3).boxed(true);
    let b = Config::new().max_len(7);
    let mut m = a.clone();
    m.merge(&b);
    // present in b: replaced; absent in b: inherited from a
    assert_eq!(m.max_len, Some(7));
    assert_eq!(m.boxed, Some(true));
    assert!(m.max_bytes.is_none());
}

#[test]
fn merge_wholesale_erases_absent_value() {
    let a = Config::new()
        .rename_field("foo")
        .custom_field(CustomField::Delegate("acc".to_owned()));
    let b = Config::new().max_len(1);
    let mut m = a.clone();
    m.merge(&b);
    assert!(m.rename_field.is_none());
    assert!(m.custom_field.is_none());
    assert_eq!(m.max_len, Some(1));

    let c = Config::new().rename_field("bar");
    let mut m2 = a.clone();
    m2.merge(&c);
    assert_eq!(m2.rename_field.unwrap(), "bar");
}

#[test]
fn merge_is_associative() {
    let a = Config::new().vec_type("A").skip(true).rename_field("ra");
    let b = Config::new().vec_type("B").max_len(4);
    let c = Config::new().string_type("C").boxed(false);

    let mut left = a.clone();
    left.merge(&b);
    left.merge(&c);

    let mut bc = b.clone();
    bc.merge(&c);
    let mut right = a.clone();
    right.merge(&bc);

    assert_eq!(left.vec_type, right.vec_type);
    assert_eq!(left.string_type, right.string_type);
    assert_eq!(left.skip, right.skip);
    assert_eq!(left.max_len, right.max_len);
    assert_eq!(left.boxed, right.boxed);
    assert_eq!(left.rename_field, right.rename_field);
    assert!(left.custom_field.is_none() && right.custom_field.is_none());
}

#[test]
fn setters_set_one_attribute() {
    let c = Config::new()
        .max_bytes(9)
        .int_type(IntType::U8)
        .enum_int_type(IntType::I32)
        .no_hazzer(true)
        .no_debug_derive(true)
        .field_attributes("#[serde(skip)]");
    assert_eq!(c.max_bytes, Some(9));
    assert!(matches!(c.int_type, Some(IntType::U8)));
    assert!(matches!(c.enum_int_type, Some(IntType::I32)));
    assert_eq!(c.no_hazzer, Some(true));
    assert_eq!(c.no_debug_derive, Some(true));
    assert_eq!(c.field_attributes.as_deref(), Some("#[serde(skip)]"));
    assert!(c.skip.is_none());
    assert!(c.vec_type.is_none());
}

#[test]
fn int_type_names_and_signs() {
    assert_eq!(IntType::I8.rust_name(), "i8");
    assert_eq!(IntType::U16.rust_name(), "u16");
    assert_eq!(IntType::Usize.rust_name(), "usize");
    assert_eq!(IntType::I64.rust_name(), "i64");
    assert!(IntType::I8.is_signed());
    assert!(IntType::Isize.is_signed());
    assert!(!IntType::U8.is_signed());
    assert!(!IntType::Usize.is_signed());
}

#[test]
fn malformed_overrides_are_reported() {
    let c = Config::new().field_attributes("#[unbalanced");
    match c.field_attr_parsed("pkg.Msg.f") {
        Err(OverrideError::MalformedOverride { path, attribute }) => {
            assert_eq!(path, "pkg.Msg.f");
            assert_eq!(attribute, "field_attributes");
        }
        _ => panic!("expected a malformed override"),
    }

    let c = Config::new().rename_field("not an ident");
    match c.rust_field_name("orig", "pkg.Msg.f") {
        Err(OverrideError::MalformedOverride { path, attribute }) => {
            assert_eq!(path, "pkg.Msg.f");
            assert_eq!(attribute, "rename_field");
        }
        _ => panic!("expected a malformed override"),
    }

    let c = Config::new().string_type("1bad::path");
    assert!(matches!(
        c.string_type_parsed("p"),
        Err(OverrideError::MalformedOverride { .. })
    ));
    let c = Config::new().map_type("::");
    assert!(matches!(
        c.map_type_parsed("p"),
        Err(OverrideError::MalformedOverride { .. })
    ));
    let c = Config::new().type_attributes("#[derive(Eq)");
    assert!(matches!(
        c.type_attr_parsed("p"),
        Err(OverrideError::MalformedOverride { .. })
    ));
    let c = Config::new().hazzer_attributes("((");
    assert!(matches!(
        c.hazzer_attr_parsed("p"),
        Err(OverrideError::MalformedOverride { .. })
    ));
    let c = Config::new().custom_field(CustomField::Delegate("not ident".to_owned()));
    match c.custom_field_parsed("p") {
        Err(OverrideError::MalformedOverride { path, attribute }) => {
            assert_eq!(path, "p");
            assert_eq!(attribute, "custom_field");
        }
        _ => panic!("expected a malformed override"),
    }
}

#[test]
fn missing_custom_field_is_reported() {
    let c = Config::new();
    assert!(matches!(
        c.custom_field_parsed("pkg.Msg.f"),
        Err(OverrideError::MissingCustomField)
    ));
}
