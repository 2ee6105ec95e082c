//! Errors of the FON data layer and catalog materialization.
use vstd::prelude::*;

use crate::pattern::{PatternError, PatternFault};

verus! {

/// Why FON data, a mapping catalog or a sitemap row was refused.
#[derive(Debug, Clone, PartialEq, Eq)]
pub enum CoreError {
    /// A pattern was refused.
    Pattern(PatternError),
    /// The source at this path did not parse.
    InvalidFon(String),
    /// The source at this path has no object or array root.
    NoSupportedRoot(String),
    InvalidMemberReference,
    TypeDeclarationInData,
    DuplicateField(String),
    InvalidValueReference,
    InterpolationInData,
    InvalidNestedMemberReference,
    NestedTypeDeclaration,
    UnsupportedValue,
    /// The named field holds something other than a string.
    FieldNotString(String),
    /// The named field holds something other than a path or a string.
    FieldNotPathOrString(String),
    /// The mapping index at this path did not parse.
    InvalidMappingFon(String),
    /// The source at this path has no root array.
    NotRootArray(String),
    InvalidMappingValue,
    MappingNotObject,
    InvalidMappingMember,
    UnsupportedMappingField(String),
    PatternRequired,
    DatasRequired,
    ParamsRequired,
    ParamsNotStructSchema,
    ParamsNotSchema,
    InvalidParamsSchema,
    DuplicateParamsFields,
    ParamsMismatch,
    DuplicatePattern,
    RowNotObject,
    RowParamsNotObject,
    RowContentRequired,
    /// The content source at this path holds no object.
    ContentNotObject(String),
    /// The content source at this path has no content.
    ContentMissing(String),
    /// This site path leaves the site root.
    UnsafeSitePath(String),
}

/// [`CoreError`] as a value of the specification.
pub enum CoreFault {
    Pattern(PatternFault),
    InvalidFon(Seq<char>),
    NoSupportedRoot(Seq<char>),
    InvalidMemberReference,
    TypeDeclarationInData,
    DuplicateField(Seq<char>),
    InvalidValueReference,
    InterpolationInData,
    InvalidNestedMemberReference,
    NestedTypeDeclaration,
    UnsupportedValue,
    FieldNotString(Seq<char>),
    FieldNotPathOrString(Seq<char>),
    InvalidMappingFon(Seq<char>),
    NotRootArray(Seq<char>),
    InvalidMappingValue,
    MappingNotObject,
    InvalidMappingMember,
    UnsupportedMappingField(Seq<char>),
    PatternRequired,
    DatasRequired,
    ParamsRequired,
    ParamsNotStructSchema,
    ParamsNotSchema,
    InvalidParamsSchema,
    DuplicateParamsFields,
    ParamsMismatch,
    DuplicatePattern,
    RowNotObject,
    RowParamsNotObject,
    RowContentRequired,
    ContentNotObject(Seq<char>),
    ContentMissing(Seq<char>),
    UnsafeSitePath(Seq<char>),
}

impl View for CoreError {
    type V = CoreFault;

    open spec fn view(&self) -> CoreFault {
        match self {
            CoreError::Pattern(e) => CoreFault::Pattern(e@),
            CoreError::InvalidFon(p) => CoreFault::InvalidFon(p@),
            CoreError::NoSupportedRoot(p) => CoreFault::NoSupportedRoot(p@),
            CoreError::InvalidMemberReference => CoreFault::InvalidMemberReference,
            CoreError::TypeDeclarationInData => CoreFault::TypeDeclarationInData,
            CoreError::DuplicateField(k) => CoreFault::DuplicateField(k@),
            CoreError::InvalidValueReference => CoreFault::InvalidValueReference,
            CoreError::InterpolationInData => CoreFault::InterpolationInData,
            CoreError::InvalidNestedMemberReference => CoreFault::InvalidNestedMemberReference,
            CoreError::NestedTypeDeclaration => CoreFault::NestedTypeDeclaration,
            CoreError::UnsupportedValue => CoreFault::UnsupportedValue,
            CoreError::FieldNotString(n) => CoreFault::FieldNotString(n@),
            CoreError::FieldNotPathOrString(n) => CoreFault::FieldNotPathOrString(n@),
            CoreError::InvalidMappingFon(p) => CoreFault::InvalidMappingFon(p@),
            CoreError::NotRootArray(p) => CoreFault::NotRootArray(p@),
            CoreError::InvalidMappingValue => CoreFault::InvalidMappingValue,
            CoreError::MappingNotObject => CoreFault::MappingNotObject,
            CoreError::InvalidMappingMember => CoreFault::InvalidMappingMember,
            CoreError::UnsupportedMappingField(k) => CoreFault::UnsupportedMappingField(k@),
            CoreError::PatternRequired => CoreFault::PatternRequired,
            CoreError::DatasRequired => CoreFault::DatasRequired,
            CoreError::ParamsRequired => CoreFault::ParamsRequired,
            CoreError::ParamsNotStructSchema => CoreFault::ParamsNotStructSchema,
            CoreError::ParamsNotSchema => CoreFault::ParamsNotSchema,
            CoreError::InvalidParamsSchema => CoreFault::InvalidParamsSchema,
            CoreError::DuplicateParamsFields => CoreFault::DuplicateParamsFields,
            CoreError::ParamsMismatch => CoreFault::ParamsMismatch,
            CoreError::DuplicatePattern => CoreFault::DuplicatePattern,
            CoreError::RowNotObject => CoreFault::RowNotObject,
            CoreError::RowParamsNotObject => CoreFault::RowParamsNotObject,
            CoreError::RowContentRequired => CoreFault::RowContentRequired,
            CoreError::ContentNotObject(p) => CoreFault::ContentNotObject(p@),
            CoreError::ContentMissing(p) => CoreFault::ContentMissing(p@),
            CoreError::UnsafeSitePath(p) => CoreFault::UnsafeSitePath(p@),
        }
    }
}

} // verus!
