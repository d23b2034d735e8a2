//! Field-schema registry types and the permissive option parsing.
//!
//! Scripts declare typed metadata for tile and entity kinds.  An option
//! bag handed by the script is interpreted permissively: recognized shapes
//! are kept, unrecognized or mistyped ones are silently dropped.  The
//! registry is a passive catalog; nothing here validates declarations
//! against game data.

use vstd::prelude::*;

use crate::mechanics::PropEntry;
use crate::mechanics::PropEntryView;

verus! {

/// A default value for a declared field: a tagged union over the plain
/// script scalars.  A fractional number is carried as the raw bits of its
/// 64-bit IEEE encoding; the registry stores it without reading it.
#[derive(Clone, Debug)]
pub enum DefaultValue {
    Int(i64),
    Float(u64),
    String(String),
    Bool(bool),
}

/// Mathematical image of a [`DefaultValue`].
pub enum DefaultValueView {
    Int(i64),
    Float(u64),
    String(Seq<char>),
    Bool(bool),
}

impl View for DefaultValue {
    type V = DefaultValueView;

    open spec fn view(&self) -> DefaultValueView {
        match self {
            DefaultValue::Int(v) => DefaultValueView::Int(*v),
            DefaultValue::Float(b) => DefaultValueView::Float(*b),
            DefaultValue::String(s) => DefaultValueView::String(s@),
            DefaultValue::Bool(b) => DefaultValueView::Bool(*b),
        }
    }
}

/// One plain scalar or string sequence handed over from the script, with
/// its dynamic typing flattened.  `Other` stands for every shape the
/// registry does not recognize.
#[derive(Clone, Debug)]
pub enum ScriptValue {
    Int(i64),
    Float(u64),
    Str(String),
    Bool(bool),
    StrSeq(Vec<String>),
    Other,
}

/// Mathematical image of a [`ScriptValue`].
pub enum ScriptValueView {
    Int(i64),
    Float(u64),
    Str(Seq<char>),
    Bool(bool),
    StrSeq(Seq<Seq<char>>),
    Other,
}

impl View for ScriptValue {
    type V = ScriptValueView;

    open spec fn view(&self) -> ScriptValueView {
        match self {
            ScriptValue::Int(v) => ScriptValueView::Int(*v),
            ScriptValue::Float(b) => ScriptValueView::Float(*b),
            ScriptValue::Str(s) => ScriptValueView::Str(s@),
            ScriptValue::Bool(b) => ScriptValueView::Bool(*b),
            ScriptValue::StrSeq(v) => ScriptValueView::StrSeq(
                v@.map_values(|s: String| s@),
            ),
            ScriptValue::Other => ScriptValueView::Other,
        }
    }
}

/// Constraint options of one field declaration.
#[derive(Clone, Debug)]
pub struct FieldOptions {
    pub default: Option<DefaultValue>,
    pub min: Option<i64>,
    pub max: Option<i64>,
    pub values: Option<Vec<String>>,
    pub keys: Option<String>,
    pub value_type: Option<String>,
    pub item_type: Option<String>,
    pub schema: Option<Vec<PropEntry>>,
}

/// Mathematical image of a [`FieldOptions`].
pub struct FieldOptionsView {
    pub default: Option<DefaultValueView>,
    pub min: Option<i64>,
    pub max: Option<i64>,
    pub values: Option<Seq<Seq<char>>>,
    pub keys: Option<Seq<char>>,
    pub value_type: Option<Seq<char>>,
    pub item_type: Option<Seq<char>>,
    pub schema: Option<Seq<PropEntryView>>,
}

impl View for FieldOptions {
    type V = FieldOptionsView;

    open spec fn view(&self) -> FieldOptionsView {
        FieldOptionsView {
            default: match &self.default {
                Some(d) => Some(d@),
                None => None,
            },
            min: self.min,
            max: self.max,
            values: match &self.values {
                Some(v) => Some(v@.map_values(|s: String| s@)),
                None => None,
            },
            keys: match &self.keys {
                Some(s) => Some(s@),
                None => None,
            },
            value_type: match &self.value_type {
                Some(s) => Some(s@),
                None => None,
            },
            item_type: match &self.item_type {
                Some(s) => Some(s@),
                None => None,
            },
            schema: match &self.schema {
                Some(v) => Some(v@.map_values(|p: PropEntry| p@)),
                None => None,
            },
        }
    }
}

/// One field declaration of a kind: its name, its free-form type tag, and
/// its options.
#[derive(Clone, Debug)]
pub struct FieldRegistration {
    pub field_name: String,
    pub field_type: String,
    pub options: FieldOptions,
}

/// Mathematical image of a [`FieldRegistration`].
pub struct FieldRegistrationView {
    pub field_name: Seq<char>,
    pub field_type: Seq<char>,
    pub options: FieldOptionsView,
}

impl View for FieldRegistration {
    type V = FieldRegistrationView;

    open spec fn view(&self) -> FieldRegistrationView {
        FieldRegistrationView {
            field_name: self.field_name@,
            field_type: self.field_type@,
            options: self.options@,
        }
    }
}

/// The raw option bag handed by the script: each key already flattened to
/// a plain value, or absent.
#[derive(Clone, Debug)]
pub struct OptionBag {
    pub default: Option<ScriptValue>,
    pub min: Option<i64>,
    pub max: Option<i64>,
    pub values: Option<ScriptValue>,
    pub keys: Option<String>,
    pub item_type: Option<String>,
    pub schema: Option<Vec<PropEntry>>,
}

/// Mathematical image of an [`OptionBag`].
pub struct OptionBagView {
    pub default: Option<ScriptValueView>,
    pub min: Option<i64>,
    pub max: Option<i64>,
    pub values: Option<ScriptValueView>,
    pub keys: Option<Seq<char>>,
    pub item_type: Option<Seq<char>>,
    pub schema: Option<Seq<PropEntryView>>,
}

impl View for OptionBag {
    type V = OptionBagView;

    open spec fn view(&self) -> OptionBagView {
        OptionBagView {
            default: match &self.default {
                Some(v) => Some(v@),
                None => None,
            },
            min: self.min,
            max: self.max,
            values: match &self.values {
                Some(v) => Some(v@),
                None => None,
            },
            keys: match &self.keys {
                Some(s) => Some(s@),
                None => None,
            },
            item_type: match &self.item_type {
                Some(s) => Some(s@),
                None => None,
            },
            schema: match &self.schema {
                Some(v) => Some(v@.map_values(|p: PropEntry| p@)),
                None => None,
            },
        }
    }
}

/// The permissive reading of the `default` option: a plain scalar is
/// kept, every other shape is dropped.
pub open spec fn spec_default_of(v: Option<ScriptValueView>) -> Option<DefaultValueView> {
    match v {
        Some(ScriptValueView::Int(i)) => Some(DefaultValueView::Int(i)),
        Some(ScriptValueView::Float(b)) => Some(DefaultValueView::Float(b)),
        Some(ScriptValueView::Str(s)) => Some(DefaultValueView::String(s)),
        Some(ScriptValueView::Bool(b)) => Some(DefaultValueView::Bool(b)),
        _ => None,
    }
}

/// The permissive reading of the `values` option: a string sequence
/// declares enumerated values, a single string declares a map's value
/// type, anything else declares neither.
pub open spec fn spec_values_of(v: Option<ScriptValueView>) -> (
    Option<Seq<Seq<char>>>,
    Option<Seq<char>>,
) {
    match v {
        Some(ScriptValueView::StrSeq(vs)) => (Some(vs), None),
        Some(ScriptValueView::Str(s)) => (None, Some(s)),
        _ => (None, None),
    }
}

/// The whole permissive reading of an option bag.
pub open spec fn spec_parse_options(bag: OptionBagView) -> FieldOptionsView {
    FieldOptionsView {
        default: spec_default_of(bag.default),
        min: bag.min,
        max: bag.max,
        values: spec_values_of(bag.values).0,
        keys: bag.keys,
        value_type: spec_values_of(bag.values).1,
        item_type: bag.item_type,
        schema: bag.schema,
    }
}

/// Interpret an option bag permissively: recognized shapes are kept,
/// unrecognized or mistyped ones are dropped, never rejected.
pub fn parse_field_options(bag: OptionBag) -> (r: FieldOptions)
    ensures
        r@ == spec_parse_options(bag@),
{
    let default = match bag.default {
        Some(ScriptValue::Int(i)) => Some(DefaultValue::Int(i)),
        Some(ScriptValue::Float(b)) => Some(DefaultValue::Float(b)),
        Some(ScriptValue::Str(s)) => Some(DefaultValue::String(s)),
        Some(ScriptValue::Bool(b)) => Some(DefaultValue::Bool(b)),
        _ => None,
    };

    let (values, value_type) = match bag.values {
        Some(ScriptValue::StrSeq(vs)) => (Some(vs), None),
        Some(ScriptValue::Str(s)) => (None, Some(s)),
        _ => (None, None),
    };

    FieldOptions {
        default,
        min: bag.min,
        max: bag.max,
        values,
        keys: bag.keys,
        value_type,
        item_type: bag.item_type,
        schema: bag.schema,
    }
}

} // verus!
