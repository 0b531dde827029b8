//! The override value parser: converts raw string overrides into typed
//! source fragments, lazily and on demand.
//!
//! Each conversion is a pure function of the raw string and is attempted on
//! every request.  A string that is not a valid fragment of the requested
//! kind yields [`OverrideError::MalformedOverride`], naming the offending
//! path and attribute; requesting the custom-field fragment when no
//! custom-field override is present yields
//! [`OverrideError::MissingCustomField`].  Resolution itself never fails:
//! only fragment conversion can.

use vstd::prelude::*;

use crate::config::Config;
use crate::config::CustomField;

verus! {

#[verifier::external_type_specification]
#[verifier::external_body]
pub struct ExTokenStream(proc_macro2::TokenStream);

#[verifier::external_type_specification]
#[verifier::external_body]
pub struct ExIdent(proc_macro2::Ident);

#[verifier::external_type_specification]
#[verifier::external_body]
pub struct ExSynPath(syn::Path);

/// Whether syn accepts the text as a token stream (an attribute list).
pub uninterp spec fn tokens_parse_ok(s: Seq<char>) -> bool;

/// Whether syn accepts the text as a path (a type reference).
pub uninterp spec fn path_parse_ok(s: Seq<char>) -> bool;

/// Whether syn accepts the text as one identifier.
pub uninterp spec fn ident_parse_ok(s: Seq<char>) -> bool;

/// Relies on `syn::parse_str::<proc_macro2::TokenStream>`: success depends
/// on the text alone, and the empty text is the empty token stream.
#[verifier::external_body]
fn parse_tokens(s: &str) -> (r: Option<proc_macro2::TokenStream>)
    ensures
        r is Some <==> tokens_parse_ok(s@),
        s@.len() == 0 ==> r is Some,
{
    syn::parse_str::<proc_macro2::TokenStream>(s).ok()
}

/// Relies on `syn::parse_str::<syn::Path>`: success depends on the text
/// alone.
#[verifier::external_body]
fn parse_syn_path(s: &str) -> (r: Option<syn::Path>)
    ensures
        r is Some <==> path_parse_ok(s@),
{
    syn::parse_str::<syn::Path>(s).ok()
}

/// Relies on `syn::parse_str::<proc_macro2::Ident>`: success depends on the
/// text alone.
#[verifier::external_body]
fn parse_one_ident(s: &str) -> (r: Option<proc_macro2::Ident>)
    ensures
        r is Some <==> ident_parse_ok(s@),
{
    syn::parse_str::<proc_macro2::Ident>(s).ok()
}

/// Why a typed fragment could not be produced from a resolved bag.
#[derive(Debug, PartialEq, Eq)]
pub enum OverrideError {
    /// The raw override string is not a valid fragment of the requested
    /// kind; names the offending path and attribute.
    MalformedOverride { path: String, attribute: String },
    /// A custom-field fragment was requested but the resolved bag holds no
    /// custom-field override; the caller should have checked presence first.
    MissingCustomField,
}

/// The error is a `MalformedOverride` naming exactly this path and attribute.
pub open spec fn is_malformed(e: OverrideError, path: Seq<char>, attribute: Seq<char>) -> bool {
    e matches OverrideError::MalformedOverride { path: p, attribute: a } && p@ == path && a@
        == attribute
}

/// A parsed custom-field fragment: a full replacement type, or the
/// identifier of an externally defined accessor to delegate to.
pub enum ParsedCustomField {
    Type(syn::Path),
    Delegate(proc_macro2::Ident),
}

impl Config {
    /// The attribute-injection fragment for generated fields: the parse of
    /// `field_attributes`, or the empty fragment when the override is absent.
    pub fn field_attr_parsed(&self, path: &str) -> (r: Result<
        proc_macro2::TokenStream,
        OverrideError,
    >)
        ensures
            r is Ok <==> (match self.field_attributes {
                Some(s) => tokens_parse_ok(s@),
                None => true,
            }),
            r matches Err(e) ==> is_malformed(e, path@, "field_attributes"@),
    {
        proof {
            reveal_strlit("");
        }
        let text: &str = match &self.field_attributes {
            Some(s) => s.as_str(),
            None => "",
        };
        match parse_tokens(text) {
            Some(t) => Ok(t),
            None => Err(
                OverrideError::MalformedOverride {
                    path: path.to_owned(),
                    attribute: "field_attributes".to_owned(),
                },
            ),
        }
    }

    /// The attribute-injection fragment for the generated type: the parse of
    /// `type_attributes`, or the empty fragment when the override is absent.
    pub fn type_attr_parsed(&self, path: &str) -> (r: Result<
        proc_macro2::TokenStream,
        OverrideError,
    >)
        ensures
            r is Ok <==> (match self.type_attributes {
                Some(s) => tokens_parse_ok(s@),
                None => true,
            }),
            r matches Err(e) ==> is_malformed(e, path@, "type_attributes"@),
    {
        proof {
            reveal_strlit("");
        }
        let text: &str = match &self.type_attributes {
            Some(s) => s.as_str(),
            None => "",
        };
        match parse_tokens(text) {
            Some(t) => Ok(t),
            None => Err(
                OverrideError::MalformedOverride {
                    path: path.to_owned(),
                    attribute: "type_attributes".to_owned(),
                },
            ),
        }
    }

    /// The attribute-injection fragment for the auxiliary hazzer type: the
    /// parse of `hazzer_attributes`, or the empty fragment when the override
    /// is absent.
    pub fn hazzer_attr_parsed(&self, path: &str) -> (r: Result<
        proc_macro2::TokenStream,
        OverrideError,
    >)
        ensures
            r is Ok <==> (match self.hazzer_attributes {
                Some(s) => tokens_parse_ok(s@),
                None => true,
            }),
            r matches Err(e) ==> is_malformed(e, path@, "hazzer_attributes"@),
    {
        proof {
            reveal_strlit("");
        }
        let text: &str = match &self.hazzer_attributes {
            Some(s) => s.as_str(),
            None => "",
        };
        match parse_tokens(text) {
            Some(t) => Ok(t),
            None => Err(
                OverrideError::MalformedOverride {
                    path: path.to_owned(),
                    attribute: "hazzer_attributes".to_owned(),
                },
            ),
        }
    }

    /// The identifier to use for a generated field: the parse of
    /// `rename_field` when present, else the parse of the original supplied
    /// `name`.
    pub fn rust_field_name(&self, name: &str, path: &str) -> (r: Result<
        proc_macro2::Ident,
        OverrideError,
    >)
        ensures
            r is Ok <==> ident_parse_ok(
                match self.rename_field {
                    Some(s) => s@,
                    None => name@,
                },
            ),
            r matches Err(e) ==> is_malformed(e, path@, "rename_field"@),
    {
        let text: &str = match &self.rename_field {
            Some(s) => s.as_str(),
            None => name,
        };
        match parse_one_ident(text) {
            Some(id) => Ok(id),
            None => Err(
                OverrideError::MalformedOverride {
                    path: path.to_owned(),
                    attribute: "rename_field".to_owned(),
                },
            ),
        }
    }

    /// The container-type reference for repeated fields: the parse of
    /// `vec_type` when present, else nothing.
    pub fn vec_type_parsed(&self, path: &str) -> (r: Result<Option<syn::Path>, OverrideError>)
        ensures
            r is Ok <==> (match self.vec_type {
                Some(s) => path_parse_ok(s@),
                None => true,
            }),
            r matches Ok(o) ==> (o is Some <==> self.vec_type is Some),
            r matches Err(e) ==> is_malformed(e, path@, "vec_type"@),
    {
        match &self.vec_type {
            None => Ok(None),
            Some(s) => match parse_syn_path(s.as_str()) {
                Some(p) => Ok(Some(p)),
                None => Err(
                    OverrideError::MalformedOverride {
                        path: path.to_owned(),
                        attribute: "vec_type".to_owned(),
                    },
                ),
            },
        }
    }

    /// The container-type reference for string fields: the parse of
    /// `string_type` when present, else nothing.
    pub fn string_type_parsed(&self, path: &str) -> (r: Result<Option<syn::Path>, OverrideError>)
        ensures
            r is Ok <==> (match self.string_type {
                Some(s) => path_parse_ok(s@),
                None => true,
            }),
            r matches Ok(o) ==> (o is Some <==> self.string_type is Some),
            r matches Err(e) ==> is_malformed(e, path@, "string_type"@),
    {
        match &self.string_type {
            None => Ok(None),
            Some(s) => match parse_syn_path(s.as_str()) {
                Some(p) => Ok(Some(p)),
                None => Err(
                    OverrideError::MalformedOverride {
                        path: path.to_owned(),
                        attribute: "string_type".to_owned(),
                    },
                ),
            },
        }
    }

    /// The container-type reference for map fields: the parse of `map_type`
    /// when present, else nothing.
    pub fn map_type_parsed(&self, path: &str) -> (r: Result<Option<syn::Path>, OverrideError>)
        ensures
            r is Ok <==> (match self.map_type {
                Some(s) => path_parse_ok(s@),
                None => true,
            }),
            r matches Ok(o) ==> (o is Some <==> self.map_type is Some),
            r matches Err(e) ==> is_malformed(e, path@, "map_type"@),
    {
        match &self.map_type {
            None => Ok(None),
            Some(s) => match parse_syn_path(s.as_str()) {
                Some(p) => Ok(Some(p)),
                None => Err(
                    OverrideError::MalformedOverride {
                        path: path.to_owned(),
                        attribute: "map_type".to_owned(),
                    },
                ),
            },
        }
    }

    /// The custom-field fragment: a replacement type reference for a
    /// `CustomField::Type` override, a delegate identifier for a
    /// `CustomField::Delegate` override.  Requesting it with no custom-field
    /// override present is a caller error, reported as `MissingCustomField`.
    pub fn custom_field_parsed(&self, path: &str) -> (r: Result<ParsedCustomField, OverrideError>)
        ensures
            self.custom_field is None ==> r == Err::<ParsedCustomField, OverrideError>(
                OverrideError::MissingCustomField,
            ),
            (match self.custom_field {
                Some(CustomField::Type(s)) => (r is Ok <==> path_parse_ok(s@)) && (r matches Ok(p)
                    ==> p is Type),
                Some(CustomField::Delegate(s)) => (r is Ok <==> ident_parse_ok(s@)) && (r matches Ok(
                    p,
                ) ==> p is Delegate),
                None => r is Err,
            }),
            self.custom_field is Some ==> (r matches Err(e) ==> is_malformed(
                e,
                path@,
                "custom_field"@,
            )),
    {
        match &self.custom_field {
            Some(CustomField::Type(s)) => match parse_syn_path(s.as_str()) {
                Some(p) => Ok(ParsedCustomField::Type(p)),
                None => Err(
                    OverrideError::MalformedOverride {
                        path: path.to_owned(),
                        attribute: "custom_field".to_owned(),
                    },
                ),
            },
            Some(CustomField::Delegate(s)) => match parse_one_ident(s.as_str()) {
                Some(id) => Ok(ParsedCustomField::Delegate(id)),
                None => Err(
                    OverrideError::MalformedOverride {
                        path: path.to_owned(),
                        attribute: "custom_field".to_owned(),
                    },
                ),
            },
            None => Err(OverrideError::MissingCustomField),
        }
    }
}

} // verus!
