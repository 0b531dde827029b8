//! The attribute bag: a record of independently-optional code-generation
//! overrides, together with its merge algebra.
//!
//! Every attribute is independently present-or-absent; absence means
//! "inherit/default", never an implicit zero value.  Two bags merge by a
//! per-attribute policy fixed at design time: most attributes follow the
//! *overlay* policy (a present value in the second bag replaces the first's,
//! an absent one inherits), while `custom_field` and `rename_field` follow
//! the *replace-wholesale* policy (the second bag's value, present or absent,
//! always wins).

use vstd::prelude::*;

verus! {

/// Integer representation chosen for a generated field or enum.
#[derive(Debug, Clone, Copy)]
pub enum IntType {
    I8,
    U8,
    I16,
    U16,
    I32,
    U32,
    I64,
    U64,
    Isize,
    Usize,
}

impl IntType {
    /// The Rust name of the integer type, as a sequence of characters.
    pub open spec fn spec_rust_name(self) -> Seq<char> {
        match self {
            IntType::I8 => "i8"@,
            IntType::U8 => "u8"@,
            IntType::I16 => "i16"@,
            IntType::U16 => "u16"@,
            IntType::I32 => "i32"@,
            IntType::U32 => "u32"@,
            IntType::I64 => "i64"@,
            IntType::U64 => "u64"@,
            IntType::Isize => "isize"@,
            IntType::Usize => "usize"@,
        }
    }

    /// Name of the Rust integer type this variant stands for.
    pub fn rust_name(self) -> (r: String)
        ensures
            r@ == self.spec_rust_name(),
    {
        let t: &str = match self {
            IntType::I8 => "i8",
            IntType::U8 => "u8",
            IntType::I16 => "i16",
            IntType::U16 => "u16",
            IntType::I32 => "i32",
            IntType::U32 => "u32",
            IntType::I64 => "i64",
            IntType::U64 => "u64",
            IntType::Isize => "isize",
            IntType::Usize => "usize",
        };
        t.to_owned()
    }

    /// Whether this integer type is signed.
    pub fn is_signed(self) -> (r: bool)
        ensures
            r <==> (self is I8 || self is I16 || self is I32 || self is I64 || self is Isize),
    {
        matches!(
            self,
            IntType::I8 | IntType::I16 | IntType::I32 | IntType::Isize | IntType::I64
        )
    }
}

/// A custom-field override: either the field's type is fully replaced by a
/// user-specified type, or access is delegated to an externally defined
/// accessor.  The payload is the raw override string, kept verbatim until a
/// typed fragment is requested.
#[derive(Debug)]
pub enum CustomField {
    Type(String),
    Delegate(String),
}

impl Clone for CustomField {
    fn clone(&self) -> (r: Self)
        ensures
            r == *self,
    {
        match self {
            CustomField::Type(s) => CustomField::Type(s.clone()),
            CustomField::Delegate(s) => CustomField::Delegate(s.clone()),
        }
    }
}

/// Overlay merge policy for one attribute: a present value in `b` replaces
/// `a`'s, an absent one keeps `a`'s.
pub open spec fn overlay<T>(a: Option<T>, b: Option<T>) -> Option<T> {
    if b is Some {
        b
    } else {
        a
    }
}

/// One element's attribute bag: every override is independently optional.
#[derive(Debug)]
#[non_exhaustive]
pub struct Config {
    // Field configs
    pub max_len: Option<u32>,
    pub max_bytes: Option<u32>,
    pub int_type: Option<IntType>,
    pub field_attributes: Option<String>,
    pub boxed: Option<bool>,
    pub vec_type: Option<String>,
    pub string_type: Option<String>,
    pub map_type: Option<String>,
    pub no_hazzer: Option<bool>,
    pub custom_field: Option<CustomField>,
    pub rename_field: Option<String>,
    // Type configs
    pub enum_int_type: Option<IntType>,
    pub type_attributes: Option<String>,
    pub hazzer_attributes: Option<String>,
    pub no_debug_derive: Option<bool>,
    // General configs
    pub skip: Option<bool>,
}

/// The fully-default bag: every attribute absent.
pub open spec fn default_config() -> Config {
    Config {
        max_len: None,
        max_bytes: None,
        int_type: None,
        field_attributes: None,
        boxed: None,
        vec_type: None,
        string_type: None,
        map_type: None,
        no_hazzer: None,
        custom_field: None,
        rename_field: None,
        enum_int_type: None,
        type_attributes: None,
        hazzer_attributes: None,
        no_debug_derive: None,
        skip: None,
    }
}

/// The merge of two bags, attribute by attribute: overlay policy for every
/// attribute except `custom_field` and `rename_field`, which are replaced
/// wholesale by the second bag's value.
pub open spec fn merged(a: Config, b: Config) -> Config {
    Config {
        max_len: overlay(a.max_len, b.max_len),
        max_bytes: overlay(a.max_bytes, b.max_bytes),
        int_type: overlay(a.int_type, b.int_type),
        field_attributes: overlay(a.field_attributes, b.field_attributes),
        boxed: overlay(a.boxed, b.boxed),
        vec_type: overlay(a.vec_type, b.vec_type),
        string_type: overlay(a.string_type, b.string_type),
        map_type: overlay(a.map_type, b.map_type),
        no_hazzer: overlay(a.no_hazzer, b.no_hazzer),
        custom_field: b.custom_field,
        rename_field: b.rename_field,
        enum_int_type: overlay(a.enum_int_type, b.enum_int_type),
        type_attributes: overlay(a.type_attributes, b.type_attributes),
        hazzer_attributes: overlay(a.hazzer_attributes, b.hazzer_attributes),
        no_debug_derive: overlay(a.no_debug_derive, b.no_debug_derive),
        skip: overlay(a.skip, b.skip),
    }
}

fn clone_opt_string(o: &Option<String>) -> (r: Option<String>)
    ensures
        r == *o,
{
    match o {
        Some(s) => Some(s.clone()),
        None => None,
    }
}

impl Clone for Config {
    fn clone(&self) -> (r: Self)
        ensures
            r == *self,
    {
        Config {
            max_len: self.max_len,
            max_bytes: self.max_bytes,
            int_type: self.int_type,
            field_attributes: clone_opt_string(&self.field_attributes),
            boxed: self.boxed,
            vec_type: clone_opt_string(&self.vec_type),
            string_type: clone_opt_string(&self.string_type),
            map_type: clone_opt_string(&self.map_type),
            no_hazzer: self.no_hazzer,
            custom_field: match &self.custom_field {
                Some(c) => Some(c.clone()),
                None => None,
            },
            rename_field: clone_opt_string(&self.rename_field),
            enum_int_type: self.enum_int_type,
            type_attributes: clone_opt_string(&self.type_attributes),
            hazzer_attributes: clone_opt_string(&self.hazzer_attributes),
            no_debug_derive: self.no_debug_derive,
            skip: self.skip,
        }
    }
}

impl Default for Config {
    /// The fully-default bag: every attribute absent.
    fn default() -> (r: Self)
        ensures
            r == default_config(),
    {
        Config::new()
    }
}

impl Config {
    /// A bag with every attribute absent.
    pub fn new() -> (r: Self)
        ensures
            r == default_config(),
    {
        Config {
            max_len: None,
            max_bytes: None,
            int_type: None,
            field_attributes: None,
            boxed: None,
            vec_type: None,
            string_type: None,
            map_type: None,
            no_hazzer: None,
            custom_field: None,
            rename_field: None,
            enum_int_type: None,
            type_attributes: None,
            hazzer_attributes: None,
            no_debug_derive: None,
            skip: None,
        }
    }

    /// Merge `other` into `self`, attribute by attribute, with `self` as the
    /// ancestor and `other` as the descendant.
    pub fn merge(&mut self, other: &Self)
        ensures
            *final(self) == merged(*old(self), *other),
    {
        if other.max_len.is_some() {
            self.max_len = other.max_len;
        }
        if other.max_bytes.is_some() {
            self.max_bytes = other.max_bytes;
        }
        if other.int_type.is_some() {
            self.int_type = other.int_type;
        }
        if let Some(v) = &other.field_attributes {
            self.field_attributes = Some(v.clone());
        }
        if other.boxed.is_some() {
            self.boxed = other.boxed;
        }
        if let Some(v) = &other.vec_type {
            self.vec_type = Some(v.clone());
        }
        if let Some(v) = &other.string_type {
            self.string_type = Some(v.clone());
        }
        if let Some(v) = &other.map_type {
            self.map_type = Some(v.clone());
        }
        if other.no_hazzer.is_some() {
            self.no_hazzer = other.no_hazzer;
        }
        self.custom_field = match &other.custom_field {
            Some(c) => Some(c.clone()),
            None => None,
        };
        self.rename_field = clone_opt_string(&other.rename_field);
        if other.enum_int_type.is_some() {
            self.enum_int_type = other.enum_int_type;
        }
        if let Some(v) = &other.type_attributes {
            self.type_attributes = Some(v.clone());
        }
        if let Some(v) = &other.hazzer_attributes {
            self.hazzer_attributes = Some(v.clone());
        }
        if other.no_debug_derive.is_some() {
            self.no_debug_derive = other.no_debug_derive;
        }
        if other.skip.is_some() {
            self.skip = other.skip;
        }
    }

    /// Returns this bag with `max_len` set; all other attributes unchanged.
    pub fn max_len(self, val: u32) -> (r: Self)
        ensures
            r == (Config { max_len: Some(val), ..self }),
    {
        Config { max_len: Some(val), ..self }
    }

    /// Returns this bag with `max_bytes` set; all other attributes unchanged.
    pub fn max_bytes(self, val: u32) -> (r: Self)
        ensures
            r == (Config { max_bytes: Some(val), ..self }),
    {
        Config { max_bytes: Some(val), ..self }
    }

    /// Returns this bag with `int_type` set; all other attributes unchanged.
    pub fn int_type(self, val: IntType) -> (r: Self)
        ensures
            r == (Config { int_type: Some(val), ..self }),
    {
        Config { int_type: Some(val), ..self }
    }

    /// Returns this bag with `field_attributes` set; all other attributes unchanged.
    pub fn field_attributes(self, s: &str) -> (r: Self)
        ensures
            r.field_attributes matches Some(v) && v@ == s@,
            (Config { field_attributes: self.field_attributes, ..r }) == self,
    {
        Config { field_attributes: Some(s.to_owned()), ..self }
    }

    /// Returns this bag with `boxed` set; all other attributes unchanged.
    pub fn boxed(self, val: bool) -> (r: Self)
        ensures
            r == (Config { boxed: Some(val), ..self }),
    {
        Config { boxed: Some(val), ..self }
    }

    /// Returns this bag with `vec_type` set; all other attributes unchanged.
    pub fn vec_type(self, s: &str) -> (r: Self)
        ensures
            r.vec_type matches Some(v) && v@ == s@,
            (Config { vec_type: self.vec_type, ..r }) == self,
    {
        Config { vec_type: Some(s.to_owned()), ..self }
    }

    /// Returns this bag with `string_type` set; all other attributes unchanged.
    pub fn string_type(self, s: &str) -> (r: Self)
        ensures
            r.string_type matches Some(v) && v@ == s@,
            (Config { string_type: self.string_type, ..r }) == self,
    {
        Config { string_type: Some(s.to_owned()), ..self }
    }

    /// Returns this bag with `map_type` set; all other attributes unchanged.
    pub fn map_type(self, s: &str) -> (r: Self)
        ensures
            r.map_type matches Some(v) && v@ == s@,
            (Config { map_type: self.map_type, ..r }) == self,
    {
        Config { map_type: Some(s.to_owned()), ..self }
    }

    /// Returns this bag with `no_hazzer` set; all other attributes unchanged.
    pub fn no_hazzer(self, val: bool) -> (r: Self)
        ensures
            r == (Config { no_hazzer: Some(val), ..self }),
    {
        Config { no_hazzer: Some(val), ..self }
    }

    /// Returns this bag with `custom_field` set; all other attributes unchanged.
    pub fn custom_field(self, val: CustomField) -> (r: Self)
        ensures
            r == (Config { custom_field: Some(val), ..self }),
    {
        Config { custom_field: Some(val), ..self }
    }

    /// Returns this bag with `rename_field` set; all other attributes unchanged.
    pub fn rename_field(self, s: &str) -> (r: Self)
        ensures
            r.rename_field matches Some(v) && v@ == s@,
            (Config { rename_field: self.rename_field, ..r }) == self,
    {
        Config { rename_field: Some(s.to_owned()), ..self }
    }

    /// Returns this bag with `enum_int_type` set; all other attributes unchanged.
    pub fn enum_int_type(self, val: IntType) -> (r: Self)
        ensures
            r == (Config { enum_int_type: Some(val), ..self }),
    {
        Config { enum_int_type: Some(val), ..self }
    }

    /// Returns this bag with `type_attributes` set; all other attributes unchanged.
    pub fn type_attributes(self, s: &str) -> (r: Self)
        ensures
            r.type_attributes matches Some(v) && v@ == s@,
            (Config { type_attributes: self.type_attributes, ..r }) == self,
    {
        Config { type_attributes: Some(s.to_owned()), ..self }
    }

    /// Returns this bag with `hazzer_attributes` set; all other attributes unchanged.
    pub fn hazzer_attributes(self, s: &str) -> (r: Self)
        ensures
            r.hazzer_attributes matches Some(v) && v@ == s@,
            (Config { hazzer_attributes: self.hazzer_attributes, ..r }) == self,
    {
        Config { hazzer_attributes: Some(s.to_owned()), ..self }
    }

    /// Returns this bag with `no_debug_derive` set; all other attributes unchanged.
    pub fn no_debug_derive(self, val: bool) -> (r: Self)
        ensures
            r == (Config { no_debug_derive: Some(val), ..self }),
    {
        Config { no_debug_derive: Some(val), ..self }
    }

    /// Returns this bag with `skip` set; all other attributes unchanged.
    pub fn skip(self, val: bool) -> (r: Self)
        ensures
            r == (Config { skip: Some(val), ..self }),
    {
        Config { skip: Some(val), ..self }
    }
}

/// Overlay law: for any two bags and any overlay-policy attribute, the merge
/// takes the second bag's value when present, else the first's.
pub proof fn lemma_merge_overlay(a: Config, b: Config)
    ensures
        merged(a, b).max_len == (if b.max_len is Some { b.max_len } else { a.max_len }),
        merged(a, b).max_bytes == (if b.max_bytes is Some { b.max_bytes } else { a.max_bytes }),
        merged(a, b).int_type == (if b.int_type is Some { b.int_type } else { a.int_type }),
        merged(a, b).field_attributes == (if b.field_attributes is Some { b.field_attributes } else { a.field_attributes }),
        merged(a, b).boxed == (if b.boxed is Some { b.boxed } else { a.boxed }),
        merged(a, b).vec_type == (if b.vec_type is Some { b.vec_type } else { a.vec_type }),
        merged(a, b).string_type == (if b.string_type is Some { b.string_type } else { a.string_type }),
        merged(a, b).map_type == (if b.map_type is Some { b.map_type } else { a.map_type }),
        merged(a, b).no_hazzer == (if b.no_hazzer is Some { b.no_hazzer } else { a.no_hazzer }),
        merged(a, b).enum_int_type == (if b.enum_int_type is Some { b.enum_int_type } else { a.enum_int_type }),
        merged(a, b).type_attributes == (if b.type_attributes is Some { b.type_attributes } else { a.type_attributes }),
        merged(a, b).hazzer_attributes == (if b.hazzer_attributes is Some { b.hazzer_attributes } else { a.hazzer_attributes }),
        merged(a, b).no_debug_derive == (if b.no_debug_derive is Some { b.no_debug_derive } else { a.no_debug_derive }),
        merged(a, b).skip == (if b.skip is Some { b.skip } else { a.skip }),
{
}

/// Replace-wholesale law: for the two wholesale attributes the merge always
/// takes the second bag's value, even when that value is absent.
pub proof fn lemma_merge_wholesale(a: Config, b: Config)
    ensures
        merged(a, b).custom_field == b.custom_field,
        merged(a, b).rename_field == b.rename_field,
{
}

/// Merging is associative, attribute-wise, for all three bags.
pub proof fn lemma_merge_associative(a: Config, b: Config, c: Config)
    ensures
        merged(merged(a, b), c) == merged(a, merged(b, c)),
{
}

/// Overlay merging is order-sensitive: whenever two bags set the same
/// overlay attribute to different present values, swapping the merge order
/// changes that attribute's result.
pub proof fn lemma_overlay_order_sensitive<T>(x: Option<T>, y: Option<T>)
    requires
        x is Some,
        y is Some,
        x != y,
    ensures
        overlay(x, y) != overlay(y, x),
{
}

} // verus!
