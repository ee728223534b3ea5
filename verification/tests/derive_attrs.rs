use bevy_proto::derive::asset_container::ContainerAttributes as AssetContainerAttributes;
use bevy_proto::derive::attr::{debug_attribute, unsupported_arg, AttrTarget, DeriveType};
use bevy_proto::derive::fields::{
    detect_optional, extract_asset_type, input_field_type, AssetArg, AssetConfig, AssetIdKind, EntityConfig,
    FieldConfig, InputFieldType, PathShape, Segment, TypeShape,
};
use bevy_proto::derive::io::{ConversionPlan, InputType, InputVis, OutputType, SchematicIo};
use bevy_proto::derive::schematic_container::{ContainerAttributes, SchematicKind};

fn path_ty(text: &str, ident: &str, arg: Option<TypeShape>) -> TypeShape {
    TypeShape {
        text: String::from(text),
        path: Some(PathShape {
            qself: false,
            last: Some(Segment {
                ident: String::from(ident),
                has_arguments: arg.is_some(),
                first_type_arg: arg.map(Box::new),
            }),
        }),
    }
}

fn plain_ty(text: &str) -> TypeShape {
    path_ty(text, text, None)
}

#[test]
fn attr_names_of_derives() {
    assert_eq!(DeriveType::Schematic.attr_name(), "schematic");
    assert_eq!(DeriveType::AssetSchematic.attr_name(), "asset_schematic");
}

#[test]
fn targets_are_named() {
    assert_eq!(AttrTarget::Field.text(), "field");
    assert_eq!(AttrTarget::InputVisibility.text(), "input visibility");
}

#[test]
fn debug_attribute_separates_every_entry() {
    let entries = vec![String::from("a"), String::new(), String::from("b")];
    assert_eq!(debug_attribute(&entries), "a, , b");
    assert_eq!(debug_attribute(&Vec::new()), "");
}

#[test]
fn unsupported_argument_messages() {
    assert_eq!(unsupported_arg(None).message, "unsupported argument");
    let expected = vec![String::from("bundle"), String::from("resource")];
    assert_eq!(
        unsupported_arg(Some(&expected)).message,
        "unsupported argument, expected one of: [\"bundle\", \"resource\"]"
    );
}

#[test]
fn preload_and_unique_exclude_each_other() {
    let mut c = AssetConfig::new();
    assert_eq!(c.try_set_preload(true), Ok(()));
    assert!(c.preload());
    let e = c.try_set_unique(true).unwrap_err();
    assert_eq!(e.message, "cannot use `unique` argument with `preload`");
    assert!(!c.unique());
    let again = c.try_set_preload(false).unwrap_err();
    assert_eq!(again.message, "asset already configured as `preload = true`");
    assert_eq!(c.asset_id(), AssetIdKind::Next);

    let mut u = AssetConfig::new();
    assert_eq!(u.try_set_unique(true), Ok(()));
    assert_eq!(u.asset_id(), AssetIdKind::Random);
    assert_eq!(
        u.try_set_preload(true).unwrap_err().message,
        "cannot use `preload` argument with `unique`"
    );
}

#[test]
fn inline_and_path_exclude_each_other() {
    let mut c = AssetConfig::new();
    assert_eq!(c.try_set_path(String::from("\"a.png\"")), Ok(()));
    assert_eq!(
        c.try_set_inline(true).unwrap_err().message,
        "cannot use `inline` argument with `path`"
    );
    let mut d = AssetConfig::new();
    assert_eq!(d.try_set_inline(true), Ok(()));
    assert_eq!(
        d.try_set_path(String::from("\"a.png\"")).unwrap_err().message,
        "cannot use `path` argument with `inline`"
    );
}

#[test]
fn asset_config_description() {
    let mut c = AssetConfig::new();
    c.try_set_preload(true).unwrap();
    c.try_set_custom_type(plain_ty("Image")).unwrap();
    assert_eq!(c.describe(), "(preload = true, , , type = Image, )");
}

#[test]
fn extracting_asset_types() {
    let handle = path_ty("Handle<Image>", "Handle", Some(plain_ty("Image")));
    assert_eq!(extract_asset_type(&handle).unwrap().text, "Image");
    let option = path_ty("Option<Handle<Image>>", "Option", Some(handle));
    assert_eq!(extract_asset_type(&option).unwrap().text, "Image");
    let vec = path_ty("Vec<Image>", "Vec", Some(plain_ty("Image")));
    assert_eq!(
        extract_asset_type(&vec).unwrap_err().message,
        "could not automatically extract asset type: please specify it manually using `asset(type = path::to::YourAssetType)`"
    );
    let other = TypeShape { text: String::from("[u8; 4]"), path: None };
    assert!(extract_asset_type(&other).is_err());
}

#[test]
fn entity_path_is_set_once() {
    let mut e = EntityConfig::new();
    assert_eq!(e.try_set_path(String::from("\"./@1\"")), Ok(()));
    assert_eq!(
        e.try_set_path(String::from("\"..\"")).unwrap_err().message,
        "field already configured as `path = \"./@1\"`"
    );
    assert_eq!(e.describe(), "(path = \"./@1\")");
}

#[test]
fn field_kinds_exclude_each_other() {
    let mut f = FieldConfig::new(DeriveType::Schematic);
    assert_eq!(
        f.try_set_optional(true).unwrap_err().message,
        "cannot set `optional` on a field that is not marked as an `entity` or `asset`"
    );
    assert_eq!(f.try_init_asset_kind(), Ok(()));
    assert_eq!(f.try_init_asset_kind(), Ok(()));
    assert_eq!(f.try_set_asset_arg(AssetArg::Inline(true)), Ok(()));
    assert_eq!(
        f.try_init_entity_kind().unwrap_err().message,
        "field already configured as `asset(, inline = true, , , )`"
    );
    assert_eq!(f.try_set_optional(true), Ok(()));
    assert_eq!(
        f.try_set_optional(false).unwrap_err().message,
        "field already configured as `optional = true`"
    );
    assert_eq!(f.describe(), "#[schematic(optional = true, Some(asset(, inline = true, , , )))]");
    assert!(f.requires_input_field());
}

#[test]
fn static_paths_need_no_input_field() {
    let mut f = FieldConfig::default();
    f.try_init_entity_kind().unwrap();
    f.try_set_entity_path(String::from("\"/\"")).unwrap();
    assert!(!f.requires_input_field());
    let plain = FieldConfig::default();
    assert!(plain.requires_input_field());
    assert_eq!(plain.describe(), "#[schematic(, None)]");
}

#[test]
fn input_field_types() {
    let defined = path_ty("Handle<Image>", "Handle", Some(plain_ty("Image")));
    let plain = FieldConfig::default();
    assert!(matches!(input_field_type(&plain, &defined), Ok(InputFieldType::Defined)));

    let mut asset = FieldConfig::default();
    asset.try_init_asset_kind().unwrap();
    asset.try_set_asset_arg(AssetArg::Inline(true)).unwrap();
    match input_field_type(&asset, &defined) {
        Ok(InputFieldType::Asset { ty, inline, optional }) => {
            assert_eq!(ty.text, "Image");
            assert!(inline);
            assert!(!optional);
        }
        _ => panic!("expected an asset input field"),
    }

    let mut entity = FieldConfig::default();
    entity.try_init_entity_kind().unwrap();
    entity.try_set_optional(true).unwrap();
    assert!(matches!(
        input_field_type(&entity, &defined),
        Ok(InputFieldType::EntityAccess { optional: true })
    ));

    let mut from = FieldConfig::default();
    from.try_init_from_kind(plain_ty("Foo")).unwrap();
    match input_field_type(&from, &defined) {
        Ok(InputFieldType::From { ty, optional }) => {
            assert_eq!(ty.text, "Foo");
            assert!(!optional);
        }
        _ => panic!("expected a from input field"),
    }
    assert_eq!(
        from.try_init_asset_kind().unwrap_err().message,
        "field already configured as `from = Foo`"
    );
}

#[test]
fn schematic_kind_is_set_once() {
    let mut c = ContainerAttributes::new();
    assert_eq!(c.kind(), &SchematicKind::Undefined);
    assert_eq!(c.try_set_kind(&String::from("bundle")), Ok(()));
    assert_eq!(c.kind(), &SchematicKind::Bundle);
    assert_eq!(
        c.try_set_kind(&String::from("resource")).unwrap_err().message,
        "schematic kind already configured as #[schematic(kind = \"bundle\")]"
    );
    let mut d = ContainerAttributes::new();
    assert_eq!(
        d.try_set_kind(&String::from("thing")).unwrap_err().message,
        "unsupported argument, expected one of: [\"bundle\", \"resource\"]"
    );
    assert_eq!(d.try_set_kind(&String::from("resource")), Ok(()));
    assert_eq!(d.kind(), &SchematicKind::Resource);
}

#[test]
fn no_preload_is_set_once() {
    let mut c = AssetContainerAttributes::new();
    assert!(!c.no_preload());
    assert_eq!(c.try_set_no_preload(true), Ok(()));
    assert!(c.no_preload());
    assert_eq!(
        c.try_set_no_preload(true).unwrap_err().message,
        "asset already configured as `no_preload = true`"
    );
}

#[test]
fn input_and_output_types() {
    let mut io = SchematicIo::new(String::from("Foo"), String::from("pub"));
    assert_eq!(io.input_ty(), &InputType::Reflexive);
    assert_eq!(io.generated_input(), None);
    let generated = InputType::new_generated(io.ident());
    assert_eq!(generated, InputType::Generated(String::from("FooInput")));
    assert_eq!(io.try_set_input_ty(generated), Ok(()));
    assert_eq!(
        io.try_set_input_ty(InputType::Existing(String::from("Bar"))).unwrap_err().message,
        "input type already specified as FooInput"
    );
    assert_eq!(io.generated_input(), Some((String::from("FooInput"), String::from("pub"))));
    assert_eq!(io.try_set_input_vis(InputVis::Restricted(String::from("pub (crate)"))), Ok(()));
    assert_eq!(
        io.generated_input(),
        Some((String::from("FooInput"), String::from("pub (crate)")))
    );
    assert_eq!(
        io.try_set_input_vis(InputVis::Public).unwrap_err().message,
        "input visibility already configured as `vis = pub (crate)`"
    );
    assert_eq!(io.try_set_output_ty(OutputType::Custom(String::from("Baz"))), Ok(()));
    assert_eq!(
        io.try_set_output_ty(OutputType::Reflexive).unwrap_err().message,
        "output type already specified as Baz"
    );

    let mut existing = SchematicIo::new(String::from("Foo"), String::new());
    existing.try_set_input_ty(InputType::Existing(String::from("Bar"))).unwrap();
    assert_eq!(
        existing.try_set_input_ty(InputType::Generated(String::from("FooInput"))).unwrap_err().message,
        "an input type needs to be generated, but it's already specified as Bar"
    );
}

#[test]
fn optional_fields_are_detected() {
    let plain = FieldConfig::default();
    let option = path_ty("Option<Entity>", "Option", Some(plain_ty("Entity")));
    assert!(detect_optional(&plain, &option));
    assert!(!detect_optional(&plain, &plain_ty("Entity")));
    let bare_option = plain_ty("Option");
    assert!(!detect_optional(&plain, &bare_option));
    let mut marked = FieldConfig::default();
    marked.try_init_entity_kind().unwrap();
    marked.try_set_optional(true).unwrap();
    assert!(detect_optional(&marked, &plain_ty("Entity")));
}

#[test]
fn preloaded_asset_fields() {
    let mut f = FieldConfig::default();
    assert!(!f.preloads());
    f.try_init_asset_kind().unwrap();
    assert!(!f.preloads());
    f.try_set_asset_arg(AssetArg::Preload(true)).unwrap();
    assert!(f.preloads());
}

#[test]
fn required_inputs_are_generated() {
    let mut io = SchematicIo::new(String::from("Foo"), String::new());
    assert_eq!(io.conversion_plan(), ConversionPlan::Direct);
    assert!(io.hides_output());
    assert_eq!(io.require_input(), Ok(()));
    assert_eq!(io.input_ty(), &InputType::Generated(String::from("FooInput")));
    assert_eq!(io.require_input(), Ok(()));
    assert_eq!(io.conversion_plan(), ConversionPlan::ToSelf);
    io.try_set_output_ty(OutputType::Custom(String::from("Out"))).unwrap();
    assert_eq!(io.conversion_plan(), ConversionPlan::ToSelfThenOutput(String::from("Out")));
    io.try_set_input_vis(InputVis::Public).unwrap();
    assert!(!io.hides_output());

    let mut existing = SchematicIo::new(String::from("Foo"), String::new());
    existing.try_set_input_ty(InputType::Existing(String::from("Bar"))).unwrap();
    assert_eq!(
        existing.require_input().unwrap_err().message,
        "an input type needs to be generated, but it's already specified as Bar"
    );
}

#[test]
fn asset_settings_in_any_order_stay_consistent() {
    let mut c = AssetConfig::new();
    assert!(c.try_set_unique(true).is_ok());
    assert!(c.try_set_preload(true).is_err());
    assert!(c.try_set_path(String::from("\"a.png\"")).is_ok());
    assert!(c.try_set_inline(true).is_err());
    assert!(c.unique() && !c.preload());
    assert!(!c.inline() && c.path().is_some());
    assert_eq!(c.asset_id(), AssetIdKind::Random);
    let mut d = AssetConfig::new();
    assert!(d.try_set_inline(false).is_ok());
    assert!(d.try_set_path(String::from("\"b.png\"")).is_ok());
    assert!(d.try_set_preload(false).is_ok());
    assert!(d.try_set_unique(true).is_ok());
    assert!(d.unique() && !d.preload() && !d.inline());
    assert_eq!(d.path(), &Some(String::from("\"b.png\"")));
}
