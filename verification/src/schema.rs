//! Field metadata of command inputs.

use vstd::prelude::*;
use crate::text::{chars_of, copy_opt, opt_text, texts};
use crate::value::{copy_opt_value, opt_value, Json, Value};

verus! {

/// The type of one input field.
#[derive(Debug)]
pub enum FieldType {
    /// Text.
    String,
    /// A number.
    Number,
    /// A switch.
    Boolean,
    /// A list of items of one type.
    Array(Box<FieldType>),
    /// One of the listed texts.
    Enum(Vec<String>),
    /// A switch that counts how often it is given.
    Count,
    /// Any JSON value.
    Value,
}

/// What a [`FieldType`] means.
pub enum Kind {
    /// Text.
    String,
    /// A number.
    Number,
    /// A switch.
    Boolean,
    /// A list of items of one type.
    Array(Box<Kind>),
    /// One of the listed texts.
    Enum(Seq<Seq<char>>),
    /// A switch that counts how often it is given.
    Count,
    /// Any JSON value.
    Value,
}

impl View for FieldType {
    type V = Kind;

    open spec fn view(&self) -> Kind
        decreases *self,
    {
        match *self {
            FieldType::String => Kind::String,
            FieldType::Number => Kind::Number,
            FieldType::Boolean => Kind::Boolean,
            FieldType::Array(item) => Kind::Array(Box::new((*item).view())),
            FieldType::Enum(options) => Kind::Enum(texts(options@)),
            FieldType::Count => Kind::Count,
            FieldType::Value => Kind::Value,
        }
    }
}

impl FieldType {
    /// A copy with the same meaning.
    pub fn copy(&self) -> (r: FieldType)
        ensures
            r@ == self@,
        decreases *self,
    {
        match self {
            FieldType::String => FieldType::String,
            FieldType::Number => FieldType::Number,
            FieldType::Boolean => FieldType::Boolean,
            FieldType::Array(item) => FieldType::Array(Box::new((**item).copy())),
            FieldType::Enum(options) => FieldType::Enum(options.clone()),
            FieldType::Count => FieldType::Count,
            FieldType::Value => FieldType::Value,
        }
    }
}

impl Clone for FieldType {
    fn clone(&self) -> (r: Self)
        ensures
            r@ == self@,
    {
        self.copy()
    }
}

/// Metadata of one input field.
#[derive(Debug)]
pub struct FieldMeta {
    /// Name in the input schema.
    pub name: String,
    /// Name on the command line.
    pub cli_name: String,
    /// Human-readable description.
    pub description: Option<String>,
    /// Type of the field.
    pub field_type: FieldType,
    /// Whether the field must be given.
    pub required: bool,
    /// Value used where the field is not given.
    pub default: Option<Value>,
    /// Single-character alias.
    pub alias: Option<char>,
    /// Whether the field is deprecated.
    pub deprecated: bool,
    /// Environment variable that supplies the field.
    pub env_name: Option<String>,
}

/// What a [`FieldMeta`] means.
pub struct Field {
    /// Name in the input schema.
    pub name: Seq<char>,
    /// Name on the command line.
    pub cli_name: Seq<char>,
    /// Human-readable description.
    pub description: Option<Seq<char>>,
    /// Type of the field.
    pub kind: Kind,
    /// Whether the field must be given.
    pub required: bool,
    /// Value used where the field is not given.
    pub default: Option<Json>,
    /// Single-character alias.
    pub alias: Option<char>,
    /// Whether the field is deprecated.
    pub deprecated: bool,
    /// Environment variable that supplies the field.
    pub env_name: Option<Seq<char>>,
}

impl View for FieldMeta {
    type V = Field;

    open spec fn view(&self) -> Field {
        Field {
            name: self.name@,
            cli_name: self.cli_name@,
            description: opt_text(self.description),
            kind: self.field_type@,
            required: self.required,
            default: opt_value(self.default),
            alias: self.alias,
            deprecated: self.deprecated,
            env_name: opt_text(self.env_name),
        }
    }
}

/// What a list of fields means.
pub open spec fn fields(v: Seq<FieldMeta>) -> Seq<Field> {
    v.map_values(|f: FieldMeta| f@)
}

impl FieldMeta {
    /// A copy with the same meaning.
    pub fn copy(&self) -> (r: FieldMeta)
        ensures
            r@ == self@,
    {
        FieldMeta {
            name: self.name.clone(),
            cli_name: self.cli_name.clone(),
            description: copy_opt(&self.description),
            field_type: self.field_type.copy(),
            required: self.required,
            default: copy_opt_value(&self.default),
            alias: self.alias,
            deprecated: self.deprecated,
            env_name: copy_opt(&self.env_name),
        }
    }
}

impl Clone for FieldMeta {
    fn clone(&self) -> (r: Self)
        ensures
            r@ == self@,
    {
        self.copy()
    }
}

/// Appends copies of `more` to `to`.
pub fn append_fields(to: &mut Vec<FieldMeta>, more: &Vec<FieldMeta>)
    ensures
        fields(final(to)@) == fields(old(to)@) + fields(more@),
{
    let ghost start = fields(to@);
    let mut i: usize = 0;
    assert(start + fields(more@.take(0)) =~= start);
    while i < more.len()
        invariant
            i <= more@.len(),
            fields(to@) == start + fields(more@.take(i as int)),
        decreases more.len() - i,
    {
        let ghost was = fields(to@);
        to.push(more[i].copy());
        assert(fields(to@) =~= was.push(more@[i as int]@));
        assert(fields(more@.take(i + 1)) =~= fields(more@.take(i as int)).push(more@[i as int]@));
        assert(fields(to@) =~= start + fields(more@.take(i + 1)));
        i += 1;
    }
    assert(more@.take(more@.len() as int) =~= more@);
}

/// Copies a list of fields.
pub fn copy_fields(v: &Vec<FieldMeta>) -> (r: Vec<FieldMeta>)
    ensures
        fields(r@) == fields(v@),
{
    let mut out: Vec<FieldMeta> = Vec::new();
    append_fields(&mut out, v);
    assert(fields(out@) =~= fields(v@));
    out
}

/// The JSON Schema type that a field of this type has.
pub open spec fn json_type(kind: Kind) -> Seq<char> {
    match kind {
        Kind::String | Kind::Enum(_) | Kind::Value => "string"@,
        Kind::Number | Kind::Count => "number"@,
        Kind::Boolean => "boolean"@,
        Kind::Array(_) => "array"@,
    }
}

/// `s` with every `from` put as `to`.
pub open spec fn recased(s: Seq<char>, from: char, to: char) -> Seq<char> {
    s.map_values(
        |c: char|
            if c == from {
                to
            } else {
                c
            },
    )
}

fn recase(s: &str, from: char, to: char) -> (r: String)
    ensures
        r@ == recased(s@, from, to),
{
    let x = chars_of(s);
    let mut out = String::new();
    let mut i: usize = 0;
    while i < x.len()
        invariant
            i <= x@.len(),
            x@ == s@,
            out@ == recased(s@, from, to).take(i as int),
        decreases x.len() - i,
    {
        let c = if x[i] == from {
            to
        } else {
            x[i]
        };
        out.push(c);
        assert(recased(s@, from, to).take(i + 1) =~= recased(s@, from, to).take(i as int).push(c));
        i += 1;
    }
    assert(recased(s@, from, to).take(s@.len() as int) =~= recased(s@, from, to));
    out
}

/// A command-line name as a field name: underscores in place of hyphens.
pub fn to_snake(s: &str) -> (r: String)
    ensures
        r@ == recased(s@, '-', '_'),
{
    recase(s, '-', '_')
}

/// A field name as a command-line name: hyphens in place of underscores.
pub fn to_kebab(s: &str) -> (r: String)
    ensures
        r@ == recased(s@, '_', '-'),
{
    recase(s, '_', '-')
}

/// The first field of the given name at or after `from`.
pub open spec fn field_from(all: Seq<Field>, name: Seq<char>, from: nat) -> Option<Field>
    decreases all.len() - from,
{
    if from >= all.len() {
        None
    } else if all[from as int].name == name {
        Some(all[from as int])
    } else {
        field_from(all, name, from + 1)
    }
}

/// The first field of the given name.
pub open spec fn field_named(all: Seq<Field>, name: Seq<char>) -> Option<Field> {
    field_from(all, name, 0)
}

/// Finds the first field of the given name.
pub fn find_field<'a>(all: &'a Vec<FieldMeta>, name: &str) -> (r: Option<&'a FieldMeta>)
    ensures
        match r {
            Some(f) => field_named(fields(all@), name@) == Some(f@),
            None => field_named(fields(all@), name@) is None,
        },
{
    let mut i: usize = 0;
    while i < all.len()
        invariant
            i <= all@.len(),
            field_from(fields(all@), name@, 0) == field_from(fields(all@), name@, i as nat),
        decreases all.len() - i,
    {
        if crate::text::same(all[i].name.as_str(), name) {
            return Some(&all[i]);
        }
        i += 1;
    }
    None
}

/// The first field of a name is the one that is found.
pub proof fn law_first_field_is_found(all: Seq<Field>, name: Seq<char>, from: nat)
    ensures
        field_from(all, name, from) matches Some(found) ==> exists|i: int|
            from <= i < all.len() && #[trigger] all[i] == found && found.name == name && (forall|
                j: int,
            |
                from <= j < i ==> (#[trigger] all[j]).name != name),
        field_from(all, name, from) is None ==> forall|j: int|
            from <= j < all.len() ==> (#[trigger] all[j]).name != name,
    decreases all.len() - from,
{
    if from < all.len() {
        if all[from as int].name == name {
            assert(all[from as int] == all[from as int]);
        } else {
            law_first_field_is_found(all, name, from + 1);
            if let Some(found) = field_from(all, name, from) {
                let i = choose|i: int|
                    from + 1 <= i < all.len() && #[trigger] all[i] == found && found.name == name && (
                    forall|j: int| from + 1 <= j < i ==> (#[trigger] all[j]).name != name);
                assert(all[i] == found);
            }
        }
    }
}

/// Every occurrence of a character is put as another, and nothing else is changed.
pub proof fn law_characters_are_recased(s: Seq<char>, from: char, to: char, i: int)
    requires
        0 <= i < s.len(),
    ensures
        recased(s, from, to).len() == s.len(),
        s[i] == from ==> recased(s, from, to)[i] == to,
        s[i] != from ==> recased(s, from, to)[i] == s[i],
{
}

/// Each kind of field has the type of its values.
pub proof fn law_kinds_have_types(kind: Kind)
    ensures
        kind is Number || kind is Count ==> json_type(kind) == "number"@,
        kind is Boolean ==> json_type(kind) == "boolean"@,
        kind is Array ==> json_type(kind) == "array"@,
        kind is String || kind is Enum || kind is Value ==> json_type(kind) == "string"@,
{
}

} // verus!
