//! The configuration of one field of a derived schematic: plain field,
//! `from` conversion, entity or asset, and the settings of each.
use vstd::prelude::*;

use crate::derive::attr::{
    already_configured, already_configured_text, arg_description, arg_text, bool_str, bool_text,
    debug_attribute, finish, invariant_error, invariant_text, join_entries, texts, AttrError,
    AttrTarget, DeriveType, attr_name_text,
};
use crate::text::push_str;

verus! {

// ---------------------------------------------------------------------------
// Types as the configuration reads them
// ---------------------------------------------------------------------------

/// A type as the configuration reads it: its tokens as written, and, for a
/// path type, whether it has a qualified self type and its last segment.
#[derive(Debug)]
pub struct TypeShape {
    pub text: String,
    pub path: Option<PathShape>,
}

/// A path type.
#[derive(Debug)]
pub struct PathShape {
    pub qself: bool,
    pub last: Option<Segment>,
}

/// The last segment of a path type: its identifier, whether it has any
/// arguments, and its first generic argument when the arguments are in
/// angle brackets and the first of them is a type.
#[derive(Debug)]
pub struct Segment {
    pub ident: String,
    pub has_arguments: bool,
    pub first_type_arg: Option<Box<TypeShape>>,
}

/// The asset type of a field type: the argument of a `Handle`, looking
/// through any number of `Option`s.
pub open spec fn extract_spec(t: TypeShape) -> Option<TypeShape>
    decreases t,
{
    match t.path {
        Some(p) => if p.qself {
            None
        } else {
            match p.last {
                Some(seg) => match seg.first_type_arg {
                    Some(inner) => if seg.ident@ == "Handle"@ {
                        Some(*inner)
                    } else if seg.ident@ == "Option"@ {
                        extract_spec(*inner)
                    } else {
                        None
                    },
                    None => None,
                },
                None => None,
            }
        },
        None => None,
    }
}

pub open spec fn extract_error_text() -> Seq<char> {
    "could not automatically extract asset type: please specify it manually using `asset(type = path::to::YourAssetType)`"@
}

fn extract_error() -> (r: AttrError)
    ensures
        r.message@ == extract_error_text(),
{
    let mut out: Vec<char> = Vec::new();
    push_str(
        &mut out,
        "could not automatically extract asset type: please specify it manually using `asset(type = path::to::YourAssetType)`",
    );
    AttrError { message: finish(&out) }
}

fn str_is(s: &String, lit: &str) -> (r: bool)
    ensures
        r == (s@ == lit@),
{
    let mut t = String::new();
    let mut out: Vec<char> = Vec::new();
    push_str(&mut out, lit);
    t = finish(&out);
    s.eq(&t)
}

/// Extract the asset type from a `Handle` or an `Option` of one.
pub fn extract_asset_type(ty: &TypeShape) -> (r: Result<&TypeShape, AttrError>)
    ensures
        match extract_spec(*ty) {
            Some(t) => r matches Ok(x) && *x == t,
            None => r matches Err(e) && e.message@ == extract_error_text(),
        },
    decreases ty,
{
    match &ty.path {
        Some(p) => {
            if p.qself {
                return Err(extract_error());
            }
            match &p.last {
                Some(seg) => match &seg.first_type_arg {
                    Some(inner) => {
                        if str_is(&seg.ident, "Handle") {
                            Ok(&**inner)
                        } else if str_is(&seg.ident, "Option") {
                            extract_asset_type(&**inner)
                        } else {
                            Err(extract_error())
                        }
                    },
                    None => Err(extract_error()),
                },
                None => Err(extract_error()),
            }
        },
        None => Err(extract_error()),
    }
}

// ---------------------------------------------------------------------------
// Asset and entity settings
// ---------------------------------------------------------------------------

/// How the ids of generated assets are made: random for unique assets,
/// else the next stable id.
#[derive(Debug, Clone, Copy, PartialEq, Eq)]
pub enum AssetIdKind {
    Random,
    Next,
}

/// The configuration of an asset-containing field.
#[derive(Debug)]
pub struct AssetConfig {
    /// `asset(preload)`: whether the asset is preloaded.
    preload: Option<bool>,
    /// `asset(unique)`: whether a new asset handle is created.
    unique: Option<bool>,
    /// `asset(inline)`: whether the asset may be defined inline.
    inline: Option<bool>,
    /// `asset(path = "...")`: a static path to the asset, as written.
    path: Option<String>,
    /// `asset(type = ...)`: the asset's type.
    custom_type: Option<TypeShape>,
    /// `asset(untyped)`: whether the asset is untyped.
    untyped: Option<bool>,
}

/// The mathematical value of an asset configuration.
pub struct AssetConfigView {
    pub preload: Option<bool>,
    pub unique: Option<bool>,
    pub inline: Option<bool>,
    pub path: Option<Seq<char>>,
    pub custom_type: Option<Seq<char>>,
    pub untyped: Option<bool>,
}

pub open spec fn flag(b: Option<bool>) -> bool {
    match b {
        Some(v) => v,
        None => false,
    }
}

pub open spec fn bool_arg(b: Option<bool>) -> Option<Seq<char>> {
    match b {
        Some(v) => Some(bool_text(v)),
        None => None,
    }
}

/// No asset is both preloaded and unique, inline and at a static path, or
/// of a given type and untyped.
pub open spec fn asset_config_ok(c: AssetConfigView) -> bool {
    &&& !(flag(c.preload) && flag(c.unique))
    &&& !(flag(c.inline) && c.path is Some)
    &&& !(c.custom_type is Some && flag(c.untyped))
}

/// How an asset configuration is described.
pub open spec fn asset_config_text(c: AssetConfigView) -> Seq<char> {
    "("@ + join_entries(
        seq![
            arg_text("preload"@, bool_arg(c.preload)),
            arg_text("inline"@, bool_arg(c.inline)),
            arg_text("untyped"@, bool_arg(c.untyped)),
            arg_text("type"@, c.custom_type),
            arg_text("path"@, c.path),
        ],
    ) + ")"@
}

impl View for AssetConfig {
    type V = AssetConfigView;

    closed spec fn view(&self) -> AssetConfigView {
        AssetConfigView {
            preload: self.preload,
            unique: self.unique,
            inline: self.inline,
            path: match self.path {
                Some(p) => Some(p@),
                None => None,
            },
            custom_type: match self.custom_type {
                Some(t) => Some(t.text@),
                None => None,
            },
            untyped: self.untyped,
        }
    }
}

fn describe_bool(name: &str, value: Option<bool>) -> (r: String)
    ensures
        r@ == arg_text(name@, bool_arg(value)),
{
    match value {
        Some(v) => arg_description(name, Some(bool_str(v))),
        None => arg_description(name, None),
    }
}

fn describe_text(name: &str, value: &Option<String>) -> (r: String)
    ensures
        r@ == arg_text(
            name@,
            match value {
                Some(v) => Some(v@),
                None => None,
            },
        ),
{
    match value {
        Some(v) => arg_description(name, Some(v.as_str())),
        None => arg_description(name, None),
    }
}

impl AssetConfig {
    /// The asset type given by the user, if any.
    pub closed spec fn custom_type_shape(&self) -> Option<TypeShape> {
        self.custom_type
    }

    /// No setting made.
    pub fn new() -> (r: AssetConfig)
        ensures
            r@ == empty_asset_config(),
            r@ == (AssetConfigView {
                preload: None,
                unique: None,
                inline: None,
                path: None,
                custom_type: None,
                untyped: None,
            }),
    {
        AssetConfig {
            preload: None,
            unique: None,
            inline: None,
            path: None,
            custom_type: None,
            untyped: None,
        }
    }

    /// Whether the asset is preloaded.
    pub fn preload(&self) -> (r: bool)
        ensures
            r == flag(self@.preload),
    {
        match self.preload {
            Some(v) => v,
            None => false,
        }
    }

    /// Set `preload`; refused for a unique asset, or when already set.
    pub fn try_set_preload(&mut self, value: bool) -> (r: Result<(), AttrError>)
        ensures
            flag(old(self)@.unique) ==> (r matches Err(e) && e.message@ == invariant_text(
                "preload"@,
                "unique"@,
            )) && final(self)@ == old(self)@,
            !flag(old(self)@.unique) && old(self)@.preload is Some ==> (r matches Err(e)
                && e.message@ == already_configured_text(
                AttrTarget::Asset,
                "preload"@,
                bool_text(old(self)@.preload->0),
            )) && final(self)@ == old(self)@,
            !flag(old(self)@.unique) && old(self)@.preload is None ==> r is Ok && final(self)@
                == (AssetConfigView { preload: Some(value), ..old(self)@ }),
            final(self)@ == asset_setting_step(old(self)@, AssetSetting::Preload(value)),
    {
        if self.unique() {
            return Err(invariant_error("preload", "unique"));
        }
        match self.preload {
            Some(v) => Err(already_configured(AttrTarget::Asset, "preload", bool_str(v))),
            None => {
                self.preload = Some(value);
                Ok(())
            },
        }
    }

    /// Whether a new asset handle is created.
    pub fn unique(&self) -> (r: bool)
        ensures
            r == flag(self@.unique),
    {
        match self.unique {
            Some(v) => v,
            None => false,
        }
    }

    /// Set `unique`; refused for a preloaded asset, or when already set.
    pub fn try_set_unique(&mut self, value: bool) -> (r: Result<(), AttrError>)
        ensures
            flag(old(self)@.preload) ==> (r matches Err(e) && e.message@ == invariant_text(
                "unique"@,
                "preload"@,
            )) && final(self)@ == old(self)@,
            !flag(old(self)@.preload) && old(self)@.unique is Some ==> (r matches Err(e)
                && e.message@ == already_configured_text(
                AttrTarget::Asset,
                "unique"@,
                bool_text(old(self)@.unique->0),
            )) && final(self)@ == old(self)@,
            !flag(old(self)@.preload) && old(self)@.unique is None ==> r is Ok && final(self)@
                == (AssetConfigView { unique: Some(value), ..old(self)@ }),
            final(self)@ == asset_setting_step(old(self)@, AssetSetting::Unique(value)),
    {
        if self.preload() {
            return Err(invariant_error("unique", "preload"));
        }
        match self.unique {
            Some(v) => Err(already_configured(AttrTarget::Asset, "unique", bool_str(v))),
            None => {
                self.unique = Some(value);
                Ok(())
            },
        }
    }

    /// Whether the asset may be defined inline.
    pub fn inline(&self) -> (r: bool)
        ensures
            r == flag(self@.inline),
    {
        match self.inline {
            Some(v) => v,
            None => false,
        }
    }

    /// Set `inline`; refused for an asset at a static path, or when already
    /// set.
    pub fn try_set_inline(&mut self, value: bool) -> (r: Result<(), AttrError>)
        ensures
            old(self)@.path is Some ==> (r matches Err(e) && e.message@ == invariant_text(
                "inline"@,
                "path"@,
            )) && final(self)@ == old(self)@,
            old(self)@.path is None && old(self)@.inline is Some ==> (r matches Err(e)
                && e.message@ == already_configured_text(
                AttrTarget::Asset,
                "inline"@,
                bool_text(old(self)@.inline->0),
            )) && final(self)@ == old(self)@,
            old(self)@.path is None && old(self)@.inline is None ==> r is Ok && final(self)@ == (
            AssetConfigView { inline: Some(value), ..old(self)@ }),
            final(self)@ == asset_setting_step(old(self)@, AssetSetting::Inline(value)),
    {
        if self.path.is_some() {
            return Err(invariant_error("inline", "path"));
        }
        match self.inline {
            Some(v) => Err(already_configured(AttrTarget::Asset, "inline", bool_str(v))),
            None => {
                self.inline = Some(value);
                Ok(())
            },
        }
    }

    /// The static path of the asset, as written.
    pub fn path(&self) -> (r: &Option<String>)
        ensures
            match r {
                Some(p) => self@.path == Some(p@),
                None => self@.path is None,
            },
    {
        &self.path
    }

    /// Set the static path; refused for an inline asset, or when already
    /// set.
    pub fn try_set_path(&mut self, value: String) -> (r: Result<(), AttrError>)
        ensures
            flag(old(self)@.inline) ==> (r matches Err(e) && e.message@ == invariant_text(
                "path"@,
                "inline"@,
            )) && final(self)@ == old(self)@,
            !flag(old(self)@.inline) && old(self)@.path is Some ==> (r matches Err(e)
                && e.message@ == already_configured_text(
                AttrTarget::Asset,
                "path"@,
                old(self)@.path->0,
            )) && final(self)@ == old(self)@,
            !flag(old(self)@.inline) && old(self)@.path is None ==> r is Ok && final(self)@ == (
            AssetConfigView { path: Some(value@), ..old(self)@ }),
            final(self)@ == asset_setting_step(old(self)@, AssetSetting::Path(value@)),
    {
        if self.inline() {
            return Err(invariant_error("path", "inline"));
        }
        match &self.path {
            Some(v) => Err(already_configured(AttrTarget::Asset, "path", v.as_str())),
            None => {
                self.path = Some(value);
                Ok(())
            },
        }
    }

    /// The asset type given by the user, if any.
    pub fn custom_type(&self) -> (r: &Option<TypeShape>)
        ensures
            match r {
                Some(t) => self@.custom_type == Some(t.text@),
                None => self@.custom_type is None,
            },
    {
        &self.custom_type
    }

    /// Set the asset type; refused for an untyped asset, or when already
    /// set.
    pub fn try_set_custom_type(&mut self, value: TypeShape) -> (r: Result<(), AttrError>)
        ensures
            flag(old(self)@.untyped) ==> (r matches Err(e) && e.message@ == invariant_text(
                "type"@,
                "untyped"@,
            )) && final(self)@ == old(self)@,
            !flag(old(self)@.untyped) && old(self)@.custom_type is Some ==> (r matches Err(e)
                && e.message@ == already_configured_text(
                AttrTarget::Asset,
                "type"@,
                old(self)@.custom_type->0,
            )) && final(self)@ == old(self)@,
            !flag(old(self)@.untyped) && old(self)@.custom_type is None ==> r is Ok
                && final(self)@ == (AssetConfigView {
                custom_type: Some(value.text@),
                ..old(self)@
            }),
            final(self)@ == asset_setting_step(old(self)@, AssetSetting::CustomType(value.text@)),
    {
        if self.untyped() {
            return Err(invariant_error("type", "untyped"));
        }
        match &self.custom_type {
            Some(v) => Err(already_configured(AttrTarget::Asset, "type", v.text.as_str())),
            None => {
                self.custom_type = Some(value);
                Ok(())
            },
        }
    }

    /// Whether the asset is untyped.
    pub fn untyped(&self) -> (r: bool)
        ensures
            r == flag(self@.untyped),
    {
        match self.untyped {
            Some(v) => v,
            None => false,
        }
    }

    /// How the ids of the field's assets are made: random when the asset is
    /// unique, else stable.
    pub fn asset_id(&self) -> (r: AssetIdKind)
        ensures
            r == if flag(self@.unique) {
                AssetIdKind::Random
            } else {
                AssetIdKind::Next
            },
    {
        if self.unique() {
            AssetIdKind::Random
        } else {
            AssetIdKind::Next
        }
    }

    /// The asset type: the one given by the user, else the one extracted
    /// from the field's type.
    pub fn try_extract_asset_type<'a>(&'a self, defined_ty: &'a TypeShape) -> (r: Result<
        &'a TypeShape,
        AttrError,
    >)
        ensures
            match self.custom_type_shape() {
                Some(t) => r matches Ok(x) && *x == t,
                None => match extract_spec(*defined_ty) {
                    Some(t) => r matches Ok(x) && *x == t,
                    None => r matches Err(e) && e.message@ == extract_error_text(),
                },
            },
    {
        match &self.custom_type {
            Some(t) => Ok(t),
            None => extract_asset_type(defined_ty),
        }
    }

    /// The configuration as it would be written in the attribute
    /// (`unique` is not shown).
    pub fn describe(&self) -> (r: String)
        ensures
            r@ == asset_config_text(self@),
    {
        let mut entries: Vec<String> = Vec::new();
        entries.push(describe_bool("preload", self.preload));
        entries.push(describe_bool("inline", self.inline));
        entries.push(describe_bool("untyped", self.untyped));
        let ty_text: Option<String> = match &self.custom_type {
            Some(t) => Some(t.text.clone()),
            None => None,
        };
        entries.push(describe_text("type", &ty_text));
        entries.push(describe_text("path", &self.path));
        let body = debug_attribute(&entries);
        proof {
            assert(texts(entries@) =~= seq![
                arg_text("preload"@, bool_arg(self@.preload)),
                arg_text("inline"@, bool_arg(self@.inline)),
                arg_text("untyped"@, bool_arg(self@.untyped)),
                arg_text("type"@, self@.custom_type),
                arg_text("path"@, self@.path),
            ]);
        }
        let mut out: Vec<char> = Vec::new();
        push_str(&mut out, "(");
        push_str(&mut out, body.as_str());
        push_str(&mut out, ")");
        finish(&out)
    }
}

/// Every setting that an asset configuration accepts keeps it consistent:
/// never preloaded and unique, inline and at a path, or typed and untyped.
pub proof fn law_asset_settings_keep_consistency(c: AssetConfigView, v: bool, text: Seq<char>)
    requires
        asset_config_ok(c),
    ensures
        !flag(c.unique) && c.preload is None ==> asset_config_ok(
            AssetConfigView { preload: Some(v), ..c },
        ),
        !flag(c.preload) && c.unique is None ==> asset_config_ok(
            AssetConfigView { unique: Some(v), ..c },
        ),
        c.path is None && c.inline is None ==> asset_config_ok(
            AssetConfigView { inline: Some(v), ..c },
        ),
        !flag(c.inline) && c.path is None ==> asset_config_ok(
            AssetConfigView { path: Some(text), ..c },
        ),
        !flag(c.untyped) && c.custom_type is None ==> asset_config_ok(
            AssetConfigView { custom_type: Some(text), ..c },
        ),
{
}

/// One setting of an asset configuration, as an `asset(...)` argument
/// gives it.
pub enum AssetSetting {
    Preload(bool),
    Unique(bool),
    Inline(bool),
    Path(Seq<char>),
    CustomType(Seq<char>),
}

/// The configuration after one setting: the setting is taken when it is not
/// already made and does not conflict with another, else refused with the
/// configuration unchanged.
pub open spec fn asset_setting_step(c: AssetConfigView, s: AssetSetting) -> AssetConfigView {
    match s {
        AssetSetting::Preload(v) => if !flag(c.unique) && c.preload is None {
            AssetConfigView { preload: Some(v), ..c }
        } else {
            c
        },
        AssetSetting::Unique(v) => if !flag(c.preload) && c.unique is None {
            AssetConfigView { unique: Some(v), ..c }
        } else {
            c
        },
        AssetSetting::Inline(v) => if c.path is None && c.inline is None {
            AssetConfigView { inline: Some(v), ..c }
        } else {
            c
        },
        AssetSetting::Path(p) => if !flag(c.inline) && c.path is None {
            AssetConfigView { path: Some(p), ..c }
        } else {
            c
        },
        AssetSetting::CustomType(t) => if !flag(c.untyped) && c.custom_type is None {
            AssetConfigView { custom_type: Some(t), ..c }
        } else {
            c
        },
    }
}

/// The configuration after the settings in order.
pub open spec fn apply_asset_settings(c: AssetConfigView, ss: Seq<AssetSetting>) -> AssetConfigView
    decreases ss.len(),
{
    if ss.len() == 0 {
        c
    } else {
        asset_setting_step(apply_asset_settings(c, ss.drop_last()), ss.last())
    }
}

/// The configuration with no setting made.
pub open spec fn empty_asset_config() -> AssetConfigView {
    AssetConfigView {
        preload: None,
        unique: None,
        inline: None,
        path: None,
        custom_type: None,
        untyped: None,
    }
}

/// Whatever settings are tried, in whatever order and whichever are
/// refused, an asset configuration made from none stays consistent: never
/// preloaded and unique, inline and at a path, or typed and untyped.
pub proof fn law_asset_settings_reachable_consistent(ss: Seq<AssetSetting>)
    ensures
        asset_config_ok(apply_asset_settings(empty_asset_config(), ss)),
    decreases ss.len(),
{
    if ss.len() > 0 {
        law_asset_settings_reachable_consistent(ss.drop_last());
    }
}

/// The configuration of an entity field.
#[derive(Debug)]
pub struct EntityConfig {
    /// `entity(path = "...")`: a static path to an entity in the tree, as
    /// written.
    path: Option<String>,
}

pub open spec fn entity_config_text(path: Option<Seq<char>>) -> Seq<char> {
    "("@ + join_entries(seq![arg_text("path"@, path)]) + ")"@
}

impl EntityConfig {
    pub closed spec fn path_view(&self) -> Option<Seq<char>> {
        match self.path {
            Some(p) => Some(p@),
            None => None,
        }
    }

    /// No setting made.
    pub fn new() -> (r: EntityConfig)
        ensures
            r.path_view() is None,
    {
        EntityConfig { path: None }
    }

    /// The static path, as written.
    pub fn path(&self) -> (r: &Option<String>)
        ensures
            match r {
                Some(p) => self.path_view() == Some(p@),
                None => self.path_view() is None,
            },
    {
        &self.path
    }

    /// Set the static path; refused when already set.
    pub fn try_set_path(&mut self, value: String) -> (r: Result<(), AttrError>)
        ensures
            old(self).path_view() is Some ==> (r matches Err(e) && e.message@
                == already_configured_text(
                AttrTarget::Field,
                "path"@,
                old(self).path_view()->0,
            )) && final(self).path_view() == old(self).path_view(),
            old(self).path_view() is None ==> r is Ok && final(self).path_view() == Some(value@),
    {
        match &self.path {
            Some(v) => Err(already_configured(AttrTarget::Field, "path", v.as_str())),
            None => {
                self.path = Some(value);
                Ok(())
            },
        }
    }

    /// The configuration as it would be written in the attribute.
    pub fn describe(&self) -> (r: String)
        ensures
            r@ == entity_config_text(self.path_view()),
    {
        let mut entries: Vec<String> = Vec::new();
        entries.push(describe_text("path", &self.path));
        let body = debug_attribute(&entries);
        assert(texts(entries@) =~= seq![arg_text("path"@, self.path_view())]);
        let mut out: Vec<char> = Vec::new();
        push_str(&mut out, "(");
        push_str(&mut out, body.as_str());
        push_str(&mut out, ")");
        finish(&out)
    }
}

} // verus!

verus! {

// ---------------------------------------------------------------------------
// Field configuration
// ---------------------------------------------------------------------------

/// What a field does.
#[derive(Debug)]
pub enum FieldKind {
    /// `from = Type`: the field is converted from the given type.
    From(TypeShape),
    /// `entity`: the field holds an entity of the tree.
    Entity(EntityConfig),
    /// `asset`: the field holds an asset.
    Asset(AssetConfig),
}

/// One argument of an `asset(...)` attribute.
#[derive(Debug)]
pub enum AssetArg {
    Preload(bool),
    Unique(bool),
    Inline(bool),
    Path(String),
    Type(TypeShape),
}

/// How a field kind is described.
pub open spec fn kind_text(k: FieldKind) -> Seq<char> {
    match k {
        FieldKind::From(t) => "from = "@ + t.text@,
        FieldKind::Entity(c) => "entity"@ + entity_config_text(c.path_view()),
        FieldKind::Asset(c) => "asset"@ + asset_config_text(c@),
    }
}

pub open spec fn already_kind_text(k: FieldKind) -> Seq<char> {
    "field already configured as `"@ + kind_text(k) + "`"@
}

pub open spec fn optional_refused_text() -> Seq<char> {
    "cannot set `optional` on a field that is not marked as an `entity` or `asset`"@
}

/// How an optional field kind is described (as `Option`'s debug form).
pub open spec fn option_kind_text(k: Option<FieldKind>) -> Seq<char> {
    match k {
        None => "None"@,
        Some(k) => "Some("@ + kind_text(k) + ")"@,
    }
}

/// How a field configuration is described, as its attribute.
pub open spec fn field_config_text(d: DeriveType, optional: Option<bool>, kind: Option<FieldKind>) -> Seq<char> {
    "#["@ + attr_name_text(d) + "("@ + join_entries(
        seq![arg_text("optional"@, bool_arg(optional)), option_kind_text(kind)],
    ) + ")]"@
}

/// The base configuration of a field of a `Schematic` or `AssetSchematic`.
#[derive(Debug)]
pub struct FieldConfig {
    /// The derive the field belongs to (for messages).
    derive_type: DeriveType,
    /// What the field does.
    kind: Option<FieldKind>,
    /// `optional`: whether the field is wrapped in an `Option`.
    optional: Option<bool>,
}

fn describe_kind(k: &FieldKind) -> (r: String)
    ensures
        r@ == kind_text(*k),
{
    let mut out: Vec<char> = Vec::new();
    match k {
        FieldKind::From(t) => {
            push_str(&mut out, "from = ");
            push_str(&mut out, t.text.as_str());
        },
        FieldKind::Entity(c) => {
            push_str(&mut out, "entity");
            let d = c.describe();
            push_str(&mut out, d.as_str());
        },
        FieldKind::Asset(c) => {
            push_str(&mut out, "asset");
            let d = c.describe();
            push_str(&mut out, d.as_str());
        },
    }
    finish(&out)
}

fn kind_error(k: &FieldKind) -> (r: AttrError)
    ensures
        r.message@ == already_kind_text(*k),
{
    let d = describe_kind(k);
    let mut out: Vec<char> = Vec::new();
    push_str(&mut out, "field already configured as `");
    push_str(&mut out, d.as_str());
    push_str(&mut out, "`");
    AttrError { message: finish(&out) }
}

impl FieldConfig {
    pub closed spec fn derive_type_view(&self) -> DeriveType {
        self.derive_type
    }

    pub closed spec fn kind_view(&self) -> Option<FieldKind> {
        self.kind
    }

    pub closed spec fn optional_view(&self) -> Option<bool> {
        self.optional
    }

    /// A field of the given derive with no configuration.
    pub fn new(derive_type: DeriveType) -> (r: FieldConfig)
        ensures
            r.derive_type_view() == derive_type,
            r.kind_view() is None,
            r.optional_view() is None,
    {
        FieldConfig { derive_type, kind: None, optional: None }
    }

    /// Make the field a `from` field; refused when its kind is set.
    pub fn try_init_from_kind(&mut self, ty: TypeShape) -> (r: Result<(), AttrError>)
        ensures
            final(self).derive_type_view() == old(self).derive_type_view(),
            final(self).optional_view() == old(self).optional_view(),
            match old(self).kind_view() {
                None => r is Ok && final(self).kind_view() == Some(FieldKind::From(ty)),
                Some(k) => (r matches Err(e) && e.message@ == already_kind_text(k)) && final(self).kind_view() == old(self).kind_view(),
            },
    {
        match &self.kind {
            None => {
                self.kind = Some(FieldKind::From(ty));
                Ok(())
            },
            Some(current) => Err(kind_error(current)),
        }
    }

    /// Make the field an entity field (again); refused when it is of
    /// another kind.
    pub fn try_init_entity_kind(&mut self) -> (r: Result<(), AttrError>)
        ensures
            final(self).derive_type_view() == old(self).derive_type_view(),
            final(self).optional_view() == old(self).optional_view(),
            match old(self).kind_view() {
                None => r is Ok && (final(self).kind_view() matches Some(FieldKind::Entity(c))
                    && c.path_view() is None),
                Some(FieldKind::Entity(_)) => r is Ok && final(self).kind_view() == old(self).kind_view(),
                Some(k) => (r matches Err(e) && e.message@ == already_kind_text(k)) && final(self).kind_view() == old(self).kind_view(),
            },
    {
        match &self.kind {
            None => {
                self.kind = Some(FieldKind::Entity(EntityConfig::new()));
                Ok(())
            },
            Some(FieldKind::Entity(_)) => Ok(()),
            Some(current) => Err(kind_error(current)),
        }
    }

    /// Make the field an asset field (again); refused when it is of
    /// another kind.
    pub fn try_init_asset_kind(&mut self) -> (r: Result<(), AttrError>)
        ensures
            final(self).derive_type_view() == old(self).derive_type_view(),
            final(self).optional_view() == old(self).optional_view(),
            match old(self).kind_view() {
                None => r is Ok && (final(self).kind_view() matches Some(FieldKind::Asset(c))
                    && c@ == (AssetConfigView {
                    preload: None,
                    unique: None,
                    inline: None,
                    path: None,
                    custom_type: None,
                    untyped: None,
                })),
                Some(FieldKind::Asset(_)) => r is Ok && final(self).kind_view() == old(self).kind_view(),
                Some(k) => (r matches Err(e) && e.message@ == already_kind_text(k)) && final(self).kind_view() == old(self).kind_view(),
            },
    {
        match &self.kind {
            None => {
                self.kind = Some(FieldKind::Asset(AssetConfig::new()));
                Ok(())
            },
            Some(FieldKind::Asset(_)) => Ok(()),
            Some(current) => Err(kind_error(current)),
        }
    }

    /// Apply one argument of an `asset(...)` attribute to an asset field.
    pub fn try_set_asset_arg(&mut self, arg: AssetArg) -> (r: Result<(), AttrError>)
        requires
            old(self).kind_view() matches Some(FieldKind::Asset(_)),
        ensures
            final(self).derive_type_view() == old(self).derive_type_view(),
            final(self).optional_view() == old(self).optional_view(),
            final(self).kind_view() matches Some(FieldKind::Asset(_)),
            ({
                let c0 = old(self).kind_view()->Some_0->Asset_0@;
                let c1 = final(self).kind_view()->Some_0->Asset_0@;
                match arg {
                    AssetArg::Preload(v) => if flag(c0.unique) {
                        (r matches Err(e) && e.message@ == invariant_text("preload"@, "unique"@))
                            && c1 == c0
                    } else if c0.preload is Some {
                        (r matches Err(e) && e.message@ == already_configured_text(
                            AttrTarget::Asset,
                            "preload"@,
                            bool_text(c0.preload->0),
                        )) && c1 == c0
                    } else {
                        r is Ok && c1 == (AssetConfigView { preload: Some(v), ..c0 })
                    },
                    AssetArg::Unique(v) => if flag(c0.preload) {
                        (r matches Err(e) && e.message@ == invariant_text("unique"@, "preload"@))
                            && c1 == c0
                    } else if c0.unique is Some {
                        (r matches Err(e) && e.message@ == already_configured_text(
                            AttrTarget::Asset,
                            "unique"@,
                            bool_text(c0.unique->0),
                        )) && c1 == c0
                    } else {
                        r is Ok && c1 == (AssetConfigView { unique: Some(v), ..c0 })
                    },
                    AssetArg::Inline(v) => if c0.path is Some {
                        (r matches Err(e) && e.message@ == invariant_text("inline"@, "path"@))
                            && c1 == c0
                    } else if c0.inline is Some {
                        (r matches Err(e) && e.message@ == already_configured_text(
                            AttrTarget::Asset,
                            "inline"@,
                            bool_text(c0.inline->0),
                        )) && c1 == c0
                    } else {
                        r is Ok && c1 == (AssetConfigView { inline: Some(v), ..c0 })
                    },
                    AssetArg::Path(p) => if flag(c0.inline) {
                        (r matches Err(e) && e.message@ == invariant_text("path"@, "inline"@))
                            && c1 == c0
                    } else if c0.path is Some {
                        (r matches Err(e) && e.message@ == already_configured_text(
                            AttrTarget::Asset,
                            "path"@,
                            c0.path->0,
                        )) && c1 == c0
                    } else {
                        r is Ok && c1 == (AssetConfigView { path: Some(p@), ..c0 })
                    },
                    AssetArg::Type(t) => if flag(c0.untyped) {
                        (r matches Err(e) && e.message@ == invariant_text("type"@, "untyped"@))
                            && c1 == c0
                    } else if c0.custom_type is Some {
                        (r matches Err(e) && e.message@ == already_configured_text(
                            AttrTarget::Asset,
                            "type"@,
                            c0.custom_type->0,
                        )) && c1 == c0
                    } else {
                        r is Ok && c1 == (AssetConfigView { custom_type: Some(t.text@), ..c0 })
                    },
                }
            }),
    {
        let kind = self.kind.take();
        match kind {
            Some(FieldKind::Asset(mut c)) => {
                let r = match arg {
                    AssetArg::Preload(v) => c.try_set_preload(v),
                    AssetArg::Unique(v) => c.try_set_unique(v),
                    AssetArg::Inline(v) => c.try_set_inline(v),
                    AssetArg::Path(p) => c.try_set_path(p),
                    AssetArg::Type(t) => c.try_set_custom_type(t),
                };
                self.kind = Some(FieldKind::Asset(c));
                r
            },
            _ => {
                self.kind = kind;
                Ok(())
            },
        }
    }

    /// Set the static path of an entity field.
    pub fn try_set_entity_path(&mut self, path: String) -> (r: Result<(), AttrError>)
        requires
            old(self).kind_view() matches Some(FieldKind::Entity(_)),
        ensures
            final(self).derive_type_view() == old(self).derive_type_view(),
            final(self).optional_view() == old(self).optional_view(),
            final(self).kind_view() matches Some(FieldKind::Entity(_)),
            ({
                let p0 = old(self).kind_view()->Some_0->Entity_0.path_view();
                let p1 = final(self).kind_view()->Some_0->Entity_0.path_view();
                if p0 is Some {
                    (r matches Err(e) && e.message@ == already_configured_text(
                        AttrTarget::Field,
                        "path"@,
                        p0->0,
                    )) && p1 == p0
                } else {
                    r is Ok && p1 == Some(path@)
                }
            }),
    {
        let kind = self.kind.take();
        match kind {
            Some(FieldKind::Entity(mut c)) => {
                let r = c.try_set_path(path);
                self.kind = Some(FieldKind::Entity(c));
                r
            },
            _ => {
                self.kind = kind;
                Ok(())
            },
        }
    }

    /// What the field does, if configured.
    pub fn kind(&self) -> (r: &Option<FieldKind>)
        ensures
            *r == self.kind_view(),
    {
        &self.kind
    }

    /// Whether the field is wrapped in an `Option`.
    pub fn optional(&self) -> (r: bool)
        ensures
            r == flag(self.optional_view()),
    {
        match self.optional {
            Some(v) => v,
            None => false,
        }
    }

    /// Set `optional`: only entity and asset fields take it, and only once.
    pub fn try_set_optional(&mut self, value: bool) -> (r: Result<(), AttrError>)
        ensures
            final(self).derive_type_view() == old(self).derive_type_view(),
            final(self).kind_view() == old(self).kind_view(),
            match old(self).kind_view() {
                None | Some(FieldKind::From(_)) => (r matches Err(e) && e.message@
                    == optional_refused_text()) && final(self).optional_view() == old(self).optional_view(),
                _ => match old(self).optional_view() {
                    Some(v) => (r matches Err(e) && e.message@ == already_configured_text(
                        AttrTarget::Field,
                        "optional"@,
                        bool_text(v),
                    )) && final(self).optional_view() == old(self).optional_view(),
                    None => r is Ok && final(self).optional_view() == Some(value),
                },
            },
    {
        match &self.kind {
            None | Some(FieldKind::From(_)) => {
                let mut out: Vec<char> = Vec::new();
                push_str(
                    &mut out,
                    "cannot set `optional` on a field that is not marked as an `entity` or `asset`",
                );
                Err(AttrError { message: finish(&out) })
            },
            _ => match self.optional {
                Some(v) => Err(already_configured(AttrTarget::Field, "optional", bool_str(v))),
                None => {
                    self.optional = Some(value);
                    Ok(())
                },
            },
        }
    }

    /// Whether the generated input type needs a field for this one: an
    /// entity or asset at a static path needs none.
    pub fn requires_input_field(&self) -> (r: bool)
        ensures
            r == needs_input_field(*self),
    {
        match &self.kind {
            Some(FieldKind::Entity(c)) => c.path().is_none(),
            Some(FieldKind::Asset(c)) => c.path().is_none(),
            _ => true,
        }
    }

    /// The configuration as its attribute.
    pub fn describe(&self) -> (r: String)
        ensures
            r@ == field_config_text(self.derive_type_view(), self.optional_view(), self.kind_view()),
    {
        let mut entries: Vec<String> = Vec::new();
        entries.push(describe_bool("optional", self.optional));
        let kind_str = match &self.kind {
            None => {
                let mut out: Vec<char> = Vec::new();
                push_str(&mut out, "None");
                finish(&out)
            },
            Some(k) => {
                let d = describe_kind(k);
                let mut out: Vec<char> = Vec::new();
                push_str(&mut out, "Some(");
                push_str(&mut out, d.as_str());
                push_str(&mut out, ")");
                finish(&out)
            },
        };
        entries.push(kind_str);
        let body = debug_attribute(&entries);
        assert(texts(entries@) =~= seq![
            arg_text("optional"@, bool_arg(self.optional_view())),
            option_kind_text(self.kind_view()),
        ]);
        let mut out: Vec<char> = Vec::new();
        push_str(&mut out, "#[");
        push_str(&mut out, self.derive_type.attr_name());
        push_str(&mut out, "(");
        push_str(&mut out, body.as_str());
        push_str(&mut out, ")]");
        finish(&out)
    }
}

impl Default for FieldConfig {
    fn default() -> (r: FieldConfig)
        ensures
            r.derive_type_view() == DeriveType::Schematic,
            r.kind_view() is None,
            r.optional_view() is None,
    {
        FieldConfig::new(DeriveType::Schematic)
    }
}

/// The type a field takes in the generated input type.
#[derive(Debug)]
pub enum InputFieldType<'a> {
    /// The field's own type.
    Defined,
    /// The type it is converted from (in an `Option` when optional).
    From { ty: &'a TypeShape, optional: bool },
    /// An entity access (in an `Option` when optional).
    EntityAccess { optional: bool },
    /// A prototype asset of the given type, inlinable or not (in an
    /// `Option` when optional).
    Asset { ty: &'a TypeShape, inline: bool, optional: bool },
}

pub open spec fn untyped_error_text() -> Seq<char> {
    "untyped assets are not yet supported"@
}

/// The type a field takes in the generated input type: its own when it is
/// not configured, the `from` type, an entity access, or a (possibly
/// inlinable) prototype asset of its asset type; untyped assets are refused.
pub fn input_field_type<'a>(config: &'a FieldConfig, defined_ty: &'a TypeShape) -> (r: Result<
    InputFieldType<'a>,
    AttrError,
>)
    ensures
        match config.kind_view() {
            None => r matches Ok(InputFieldType::Defined),
            Some(FieldKind::From(t)) => r matches Ok(InputFieldType::From { ty, optional })
                && *ty == t && optional == flag(config.optional_view()),
            Some(FieldKind::Entity(_)) => r matches Ok(InputFieldType::EntityAccess { optional })
                && optional == flag(config.optional_view()),
            Some(FieldKind::Asset(c)) => if flag(c@.untyped) {
                r matches Err(e) && e.message@ == untyped_error_text()
            } else {
                match c.custom_type_shape() {
                    Some(t) => r matches Ok(InputFieldType::Asset { ty, inline, optional })
                        && *ty == t && inline == flag(c@.inline) && optional == flag(
                        config.optional_view(),
                    ),
                    None => match extract_spec(*defined_ty) {
                        Some(t) => r matches Ok(InputFieldType::Asset { ty, inline, optional })
                            && *ty == t && inline == flag(c@.inline) && optional == flag(
                            config.optional_view(),
                        ),
                        None => r matches Err(e) && e.message@ == extract_error_text(),
                    },
                }
            },
        },
{
    let optional = config.optional();
    match config.kind() {
        None => Ok(InputFieldType::Defined),
        Some(FieldKind::From(t)) => Ok(InputFieldType::From { ty: t, optional }),
        Some(FieldKind::Entity(_)) => Ok(InputFieldType::EntityAccess { optional }),
        Some(FieldKind::Asset(c)) => {
            if c.untyped() {
                let mut out: Vec<char> = Vec::new();
                push_str(&mut out, "untyped assets are not yet supported");
                return Err(AttrError { message: finish(&out) });
            }
            let ty = c.try_extract_asset_type(defined_ty)?;
            Ok(InputFieldType::Asset { ty, inline: c.inline(), optional })
        },
    }
}


impl FieldConfig {
    /// Whether the field is an asset field that is preloaded.
    pub fn preloads(&self) -> (r: bool)
        ensures
            r == (self.kind_view() matches Some(FieldKind::Asset(c)) && flag(c@.preload)),
    {
        match &self.kind {
            Some(FieldKind::Asset(c)) => c.preload(),
            _ => false,
        }
    }
}

/// Whether a field is optional: marked so, or of a type whose last path
/// segment is an `Option` with arguments.
pub open spec fn is_optional_spec(optional: Option<bool>, ty: TypeShape) -> bool {
    flag(optional) || (ty.path matches Some(p) && p.last matches Some(seg) && seg.ident@
        == "Option"@ && seg.has_arguments)
}

pub fn detect_optional(config: &FieldConfig, ty: &TypeShape) -> (r: bool)
    ensures
        r == is_optional_spec(config.optional_view(), *ty),
{
    if config.optional() {
        return true;
    }
    match &ty.path {
        Some(p) => match &p.last {
            Some(seg) => str_is(&seg.ident, "Option") && seg.has_arguments,
            None => false,
        },
        None => false,
    }
}


/// Whether the generated input type holds a field for this one: an entity
/// or asset at a static path needs none.
pub open spec fn needs_input_field(c: FieldConfig) -> bool {
    match c.kind_view() {
        Some(FieldKind::Entity(e)) => e.path_view() is None,
        Some(FieldKind::Asset(a)) => a@.path is None,
        _ => true,
    }
}

// ---------------------------------------------------------------------------
// Copies
// ---------------------------------------------------------------------------

impl TypeShape {
    /// A copy of this type.
    pub fn duplicate(&self) -> (r: TypeShape)
        ensures
            r == *self,
        decreases self,
    {
        let path = match &self.path {
            None => None,
            Some(p) => {
                let last = match &p.last {
                    None => None,
                    Some(seg) => {
                        let arg = match &seg.first_type_arg {
                            None => None,
                            Some(inner) => {
                                assert(decreases_to!(*self => **inner));
                                Some(Box::new((&**inner).duplicate()))
                            },
                        };
                        Some(
                            Segment {
                                ident: seg.ident.clone(),
                                has_arguments: seg.has_arguments,
                                first_type_arg: arg,
                            },
                        )
                    },
                };
                Some(PathShape { qself: p.qself, last })
            },
        };
        TypeShape { text: self.text.clone(), path }
    }
}

fn duplicate_text(s: &Option<String>) -> (r: Option<String>)
    ensures
        r == *s,
{
    match s {
        Some(t) => Some(t.clone()),
        None => None,
    }
}

impl AssetConfig {
    /// A copy of this configuration.
    pub fn duplicate(&self) -> (r: AssetConfig)
        ensures
            r == *self,
    {
        AssetConfig {
            preload: self.preload,
            unique: self.unique,
            inline: self.inline,
            path: duplicate_text(&self.path),
            custom_type: match &self.custom_type {
                Some(t) => Some(t.duplicate()),
                None => None,
            },
            untyped: self.untyped,
        }
    }
}

impl EntityConfig {
    /// A copy of this configuration.
    pub fn duplicate(&self) -> (r: EntityConfig)
        ensures
            r == *self,
    {
        EntityConfig { path: duplicate_text(&self.path) }
    }
}

impl FieldConfig {
    /// A copy of this configuration.
    pub fn duplicate(&self) -> (r: FieldConfig)
        ensures
            r == *self,
    {
        let kind = match &self.kind {
            None => None,
            Some(FieldKind::From(t)) => Some(FieldKind::From(t.duplicate())),
            Some(FieldKind::Entity(c)) => Some(FieldKind::Entity(c.duplicate())),
            Some(FieldKind::Asset(c)) => Some(FieldKind::Asset(c.duplicate())),
        };
        FieldConfig { derive_type: self.derive_type, kind, optional: self.optional }
    }
}

// ---------------------------------------------------------------------------
// What the generated code does with a field
// ---------------------------------------------------------------------------

/// How the generated conversion fills a field from the input.
#[derive(Debug, Clone, PartialEq, Eq)]
pub enum FieldConversion {
    /// The input field as it is.
    Direct,
    /// The input field converted with `FromSchematicInput`, using the given
    /// kind of schematic id (inside the `Option` when optional).
    FromInput { id: AssetIdKind, optional: bool },
    /// The entity at the given static path (path literal as written),
    /// converted with `FromSchematicInput` (inside an `Option` when
    /// optional).
    EntityPath { path: String, optional: bool },
    /// The asset at the given static path, loaded with the asset server.
    AssetPath { path: String },
}

/// The mathematical value of a field conversion (paths as text).
pub enum ConversionView {
    Direct,
    FromInput { id: AssetIdKind, optional: bool },
    EntityPath { path: Seq<char>, optional: bool },
    AssetPath { path: Seq<char> },
}

impl View for FieldConversion {
    type V = ConversionView;

    open spec fn view(&self) -> ConversionView {
        match self {
            FieldConversion::Direct => ConversionView::Direct,
            FieldConversion::FromInput { id, optional } => ConversionView::FromInput {
                id: *id,
                optional: *optional,
            },
            FieldConversion::EntityPath { path, optional } => ConversionView::EntityPath {
                path: path@,
                optional: *optional,
            },
            FieldConversion::AssetPath { path } => ConversionView::AssetPath { path: path@ },
        }
    }
}

/// The id kind of an asset's generated schematic ids: random for unique
/// assets, else stable.
pub open spec fn id_kind(a: AssetConfigView) -> AssetIdKind {
    if flag(a.unique) {
        AssetIdKind::Random
    } else {
        AssetIdKind::Next
    }
}

/// How a field is filled: as it is when not configured; a `from` field,
/// and an entity or asset field without a static path, through
/// `FromSchematicInput` (asset ids as the asset's id kind, others stable);
/// an entity at a static path through its path; an asset at a static path
/// by loading it.
pub open spec fn field_conversion_spec(c: FieldConfig) -> ConversionView {
    let optional = flag(c.optional_view());
    match c.kind_view() {
        None => ConversionView::Direct,
        Some(FieldKind::From(_)) => ConversionView::FromInput { id: AssetIdKind::Next, optional },
        Some(FieldKind::Entity(e)) => match e.path_view() {
            Some(p) => ConversionView::EntityPath { path: p, optional },
            None => ConversionView::FromInput { id: AssetIdKind::Next, optional },
        },
        Some(FieldKind::Asset(a)) => match a@.path {
            Some(p) => ConversionView::AssetPath { path: p },
            None => ConversionView::FromInput { id: id_kind(a@), optional },
        },
    }
}

/// How the generated conversion fills the field from the input.
pub fn field_conversion(c: &FieldConfig) -> (r: FieldConversion)
    ensures
        r@ == field_conversion_spec(*c),
{
    let optional = c.optional();
    match c.kind() {
        None => FieldConversion::Direct,
        Some(FieldKind::From(_)) => FieldConversion::FromInput { id: AssetIdKind::Next, optional },
        Some(FieldKind::Entity(e)) => match e.path() {
            Some(p) => FieldConversion::EntityPath { path: p.clone(), optional },
            None => FieldConversion::FromInput { id: AssetIdKind::Next, optional },
        },
        Some(FieldKind::Asset(a)) => match a.path() {
            Some(p) => FieldConversion::AssetPath { path: p.clone() },
            None => FieldConversion::FromInput { id: a.asset_id(), optional },
        },
    }
}

/// How the generated preload conversion fills a field from the input.
#[derive(Debug, Clone, PartialEq, Eq)]
pub enum PreloadConversion {
    /// The input field as it is.
    Direct,
    /// Nothing (entity fields are not read while preloading).
    Skip,
    /// The input field converted with `FromSchematicPreloadInput`, using the
    /// given kind of schematic id (inside the `Option` when optional).
    FromInput { id: AssetIdKind, optional: bool },
    /// The asset at the given static path, added as a dependency (inside
    /// `Some` when optional).
    AddDependency { path: String, optional: bool },
}

pub enum PreloadConversionView {
    Direct,
    Skip,
    FromInput { id: AssetIdKind, optional: bool },
    AddDependency { path: Seq<char>, optional: bool },
}

impl View for PreloadConversion {
    type V = PreloadConversionView;

    open spec fn view(&self) -> PreloadConversionView {
        match self {
            PreloadConversion::Direct => PreloadConversionView::Direct,
            PreloadConversion::Skip => PreloadConversionView::Skip,
            PreloadConversion::FromInput { id, optional } => PreloadConversionView::FromInput {
                id: *id,
                optional: *optional,
            },
            PreloadConversion::AddDependency { path, optional } =>
                PreloadConversionView::AddDependency { path: path@, optional: *optional },
        }
    }
}

/// How a field is filled while dependencies are preloaded: entity fields
/// are skipped, an asset at a static path is added as a dependency, `from`
/// and asset fields go through `FromSchematicPreloadInput`, and other
/// fields are taken as they are.
pub open spec fn preload_conversion_spec(c: FieldConfig) -> PreloadConversionView {
    let optional = flag(c.optional_view());
    match c.kind_view() {
        None => PreloadConversionView::Direct,
        Some(FieldKind::From(_)) => PreloadConversionView::FromInput {
            id: AssetIdKind::Next,
            optional,
        },
        Some(FieldKind::Entity(_)) => PreloadConversionView::Skip,
        Some(FieldKind::Asset(a)) => match a@.path {
            Some(p) => PreloadConversionView::AddDependency { path: p, optional },
            None => PreloadConversionView::FromInput { id: id_kind(a@), optional },
        },
    }
}

/// How the generated preload conversion fills the field from the input.
pub fn preload_conversion(c: &FieldConfig) -> (r: PreloadConversion)
    ensures
        r@ == preload_conversion_spec(*c),
{
    let optional = c.optional();
    match c.kind() {
        None => PreloadConversion::Direct,
        Some(FieldKind::From(_)) => PreloadConversion::FromInput {
            id: AssetIdKind::Next,
            optional,
        },
        Some(FieldKind::Entity(_)) => PreloadConversion::Skip,
        Some(FieldKind::Asset(a)) => match a.path() {
            Some(p) => PreloadConversion::AddDependency { path: p.clone(), optional },
            None => PreloadConversion::FromInput { id: a.asset_id(), optional },
        },
    }
}

/// What preloading does to a field's asset.
#[derive(Debug, Clone, PartialEq, Eq)]
pub enum FieldPreload {
    /// The asset at the given static path becomes a handle added as a
    /// dependency (inlinable or not, inside `Some` when optional).
    PathHandle { path: String, inline: bool, optional: bool },
    /// The input asset is cloned into its input type and converted with
    /// `FromSchematicPreloadInput` into a handle (inlinable or not, inside
    /// the `Option` when optional), using the given kind of id.
    FromInput { inline: bool, optional: bool, id: AssetIdKind },
}

pub enum FieldPreloadView {
    PathHandle { path: Seq<char>, inline: bool, optional: bool },
    FromInput { inline: bool, optional: bool, id: AssetIdKind },
}

impl View for FieldPreload {
    type V = FieldPreloadView;

    open spec fn view(&self) -> FieldPreloadView {
        match self {
            FieldPreload::PathHandle { path, inline, optional } => FieldPreloadView::PathHandle {
                path: path@,
                inline: *inline,
                optional: *optional,
            },
            FieldPreload::FromInput { inline, optional, id } => FieldPreloadView::FromInput {
                inline: *inline,
                optional: *optional,
                id: *id,
            },
        }
    }
}

/// What preloading does to a field: only a preloaded asset field is
/// preloaded, from its static path if it has one, else from the input.
pub open spec fn field_preload_spec(c: FieldConfig) -> Option<FieldPreloadView> {
    let optional = flag(c.optional_view());
    match c.kind_view() {
        Some(FieldKind::Asset(a)) => if flag(a@.preload) {
            match a@.path {
                Some(p) => Some(
                    FieldPreloadView::PathHandle { path: p, inline: flag(a@.inline), optional },
                ),
                None => Some(
                    FieldPreloadView::FromInput { inline: flag(a@.inline), optional, id: id_kind(a@) },
                ),
            }
        } else {
            None
        },
        _ => None,
    }
}

/// What the generated preload code does to the field.
pub fn field_preload(c: &FieldConfig) -> (r: Option<FieldPreload>)
    ensures
        match r {
            Some(p) => field_preload_spec(*c) == Some(p@),
            None => field_preload_spec(*c) is None,
        },
{
    let optional = c.optional();
    match c.kind() {
        Some(FieldKind::Asset(a)) => {
            if !a.preload() {
                return None;
            }
            match a.path() {
                Some(p) => Some(
                    FieldPreload::PathHandle { path: p.clone(), inline: a.inline(), optional },
                ),
                None => Some(FieldPreload::FromInput { inline: a.inline(), optional, id: a.asset_id() }),
            }
        },
        _ => None,
    }
}

/// What the generated code does with a field follows its configuration:
/// a field without a kind is taken as it is and not preloaded; a `from`
/// field is converted with a stable id; an entity field is reached through
/// its static path if it has one (else converted with a stable id) and is
/// skipped while preloading; an asset field at a static path is loaded (or
/// added as a dependency) from it, any other asset field is converted with
/// a random id exactly when the asset is unique (a stable one otherwise);
/// and only an asset marked `preload` is preloaded, from its static path
/// or from the input.
pub proof fn law_field_decisions(c: FieldConfig)
    ensures
        ({
            let optional = flag(c.optional_view());
            match c.kind_view() {
                None => {
                    &&& field_conversion_spec(c) == ConversionView::Direct
                    &&& preload_conversion_spec(c) == PreloadConversionView::Direct
                    &&& field_preload_spec(c) is None
                },
                Some(FieldKind::From(_)) => {
                    &&& field_conversion_spec(c) == ConversionView::FromInput {
                        id: AssetIdKind::Next,
                        optional,
                    }
                    &&& preload_conversion_spec(c) == PreloadConversionView::FromInput {
                        id: AssetIdKind::Next,
                        optional,
                    }
                    &&& field_preload_spec(c) is None
                },
                Some(FieldKind::Entity(e)) => {
                    &&& preload_conversion_spec(c) == PreloadConversionView::Skip
                    &&& field_preload_spec(c) is None
                    &&& match e.path_view() {
                        Some(p) => field_conversion_spec(c) == ConversionView::EntityPath {
                            path: p,
                            optional,
                        },
                        None => field_conversion_spec(c) == ConversionView::FromInput {
                            id: AssetIdKind::Next,
                            optional,
                        },
                    }
                },
                Some(FieldKind::Asset(a)) => {
                    let id = if a@.unique == Some(true) {
                        AssetIdKind::Random
                    } else {
                        AssetIdKind::Next
                    };
                    let inline = a@.inline == Some(true);
                    &&& match a@.path {
                        Some(p) => {
                            &&& field_conversion_spec(c) == ConversionView::AssetPath { path: p }
                            &&& preload_conversion_spec(c) == PreloadConversionView::AddDependency {
                                path: p,
                                optional,
                            }
                        },
                        None => {
                            &&& field_conversion_spec(c) == ConversionView::FromInput { id, optional }
                            &&& preload_conversion_spec(c) == PreloadConversionView::FromInput {
                                id,
                                optional,
                            }
                        },
                    }
                    &&& (field_preload_spec(c) is Some <==> a@.preload == Some(true))
                    &&& a@.preload == Some(true) ==> field_preload_spec(c) == Some(
                        match a@.path {
                            Some(p) => FieldPreloadView::PathHandle { path: p, inline, optional },
                            None => FieldPreloadView::FromInput { inline, optional, id },
                        },
                    )
                },
            }
        }),
{
}

} // verus!
