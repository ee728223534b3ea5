use bevy_proto::derive::attr::DeriveType;
use bevy_proto::derive::fields::{
    field_conversion, field_preload, preload_conversion, AssetArg, AssetIdKind, FieldConfig, FieldConversion,
    FieldPreload, PathShape, PreloadConversion, Segment, TypeShape,
};
use bevy_proto::derive::io::{InputVis, SchematicIo};
use bevy_proto::derive::layout::{input_layout, insert_kind, InsertTarget};
use bevy_proto::derive::schematic_container::SchematicKind;

fn plain_ty(text: &str) -> TypeShape {
    TypeShape {
        text: String::from(text),
        path: Some(PathShape {
            qself: false,
            last: Some(Segment { ident: String::from(text), has_arguments: false, first_type_arg: None }),
        }),
    }
}

fn plain_field() -> FieldConfig {
    FieldConfig::new(DeriveType::Schematic)
}

fn from_field() -> FieldConfig {
    let mut c = FieldConfig::new(DeriveType::Schematic);
    c.try_init_from_kind(plain_ty("Other")).unwrap();
    c
}

fn entity_field(path: Option<&str>) -> FieldConfig {
    let mut c = FieldConfig::new(DeriveType::Schematic);
    c.try_init_entity_kind().unwrap();
    if let Some(path) = path {
        c.try_set_entity_path(String::from(path)).unwrap();
    }
    c
}

fn asset_field(args: Vec<AssetArg>) -> FieldConfig {
    let mut c = FieldConfig::new(DeriveType::Schematic);
    c.try_init_asset_kind().unwrap();
    for arg in args {
        c.try_set_asset_arg(arg).unwrap();
    }
    c
}

fn generated_io() -> SchematicIo {
    let mut io = SchematicIo::new(String::from("Foo"), String::from("pub"));
    io.require_input().unwrap();
    io
}

#[test]
fn layout_reads_tuple_fields_after_a_dropped_field() {
    let io = generated_io();
    let fields = vec![
        entity_field(Some("\"child\"")),
        plain_field(),
        asset_field(vec![]),
        asset_field(vec![AssetArg::Path(String::from("\"a.png\""))]),
        from_field(),
    ];
    let layout = input_layout(&io, &fields, false).unwrap();
    assert_eq!(layout.name, "FooInput");
    assert_eq!(layout.vis, "pub");
    assert_eq!(layout.declared, vec![false, true, true, false, true]);
    assert_eq!(layout.input_index, vec![0, 0, 1, 2, 2]);
    assert!(layout.preload_impl);
    assert!(layout.hidden);
}

#[test]
fn layout_without_generated_input_is_none() {
    let io = SchematicIo::new(String::from("Foo"), String::from("pub"));
    assert!(input_layout(&io, &vec![plain_field()], false).is_none());
}

#[test]
fn layout_with_public_input_is_visible_and_without_preload() {
    let mut io = generated_io();
    io.try_set_input_vis(InputVis::Public).unwrap();
    let layout = input_layout(&io, &Vec::new(), true).unwrap();
    assert_eq!(layout.vis, "pub");
    assert!(!layout.hidden);
    assert!(!layout.preload_impl);
    assert!(layout.declared.is_empty());
}

#[test]
fn layout_with_inherited_input_is_hidden_with_empty_vis() {
    let mut io = SchematicIo::new(String::from("Foo"), String::from("pub(crate)"));
    io.require_input().unwrap();
    io.try_set_input_vis(InputVis::Inherited).unwrap();
    let layout = input_layout(&io, &vec![plain_field()], false).unwrap();
    assert_eq!(layout.vis, "");
    assert!(layout.hidden);
    assert_eq!(layout.input_index, vec![0]);
}

#[test]
fn conversions_of_each_field_kind() {
    assert_eq!(field_conversion(&plain_field()), FieldConversion::Direct);
    assert_eq!(
        field_conversion(&from_field()),
        FieldConversion::FromInput { id: AssetIdKind::Next, optional: false }
    );
    assert_eq!(
        field_conversion(&entity_field(None)),
        FieldConversion::FromInput { id: AssetIdKind::Next, optional: false }
    );
    assert_eq!(
        field_conversion(&entity_field(Some("\"child\""))),
        FieldConversion::EntityPath { path: String::from("\"child\""), optional: false }
    );
    assert_eq!(
        field_conversion(&asset_field(vec![AssetArg::Path(String::from("\"a.png\""))])),
        FieldConversion::AssetPath { path: String::from("\"a.png\"") }
    );
    assert_eq!(
        field_conversion(&asset_field(vec![AssetArg::Unique(true)])),
        FieldConversion::FromInput { id: AssetIdKind::Random, optional: false }
    );
    let mut optional = entity_field(None);
    optional.try_set_optional(true).unwrap();
    assert_eq!(
        field_conversion(&optional),
        FieldConversion::FromInput { id: AssetIdKind::Next, optional: true }
    );
}

#[test]
fn preload_conversions_of_each_field_kind() {
    assert_eq!(preload_conversion(&plain_field()), PreloadConversion::Direct);
    assert_eq!(preload_conversion(&entity_field(None)), PreloadConversion::Skip);
    assert_eq!(preload_conversion(&entity_field(Some("\"child\""))), PreloadConversion::Skip);
    assert_eq!(
        preload_conversion(&from_field()),
        PreloadConversion::FromInput { id: AssetIdKind::Next, optional: false }
    );
    assert_eq!(
        preload_conversion(&asset_field(vec![AssetArg::Path(String::from("\"a.png\""))])),
        PreloadConversion::AddDependency { path: String::from("\"a.png\""), optional: false }
    );
    assert_eq!(
        preload_conversion(&asset_field(vec![AssetArg::Unique(true)])),
        PreloadConversion::FromInput { id: AssetIdKind::Random, optional: false }
    );
}

#[test]
fn only_preloaded_assets_are_preloaded() {
    assert_eq!(field_preload(&plain_field()), None);
    assert_eq!(field_preload(&entity_field(None)), None);
    assert_eq!(field_preload(&asset_field(vec![])), None);
    assert_eq!(
        field_preload(&asset_field(vec![
            AssetArg::Preload(true),
            AssetArg::Path(String::from("\"a.png\"")),
        ])),
        Some(FieldPreload::PathHandle { path: String::from("\"a.png\""), inline: false, optional: false })
    );
    assert_eq!(
        field_preload(&asset_field(vec![AssetArg::Preload(true), AssetArg::Inline(true)])),
        Some(FieldPreload::FromInput { inline: true, optional: false, id: AssetIdKind::Next })
    );
}

#[test]
fn resources_are_inserted_as_resources() {
    assert_eq!(insert_kind(&SchematicKind::Resource), InsertTarget::Resource);
    assert_eq!(insert_kind(&SchematicKind::Bundle), InsertTarget::Component);
    assert_eq!(insert_kind(&SchematicKind::Undefined), InsertTarget::Component);
}

#[test]
fn duplicated_field_config_describes_the_same() {
    let original = asset_field(vec![AssetArg::Preload(true), AssetArg::Inline(true)]);
    assert_eq!(original.duplicate().describe(), original.describe());
    let entity = entity_field(Some("\"child\""));
    assert_eq!(entity.duplicate().describe(), entity.describe());
}
