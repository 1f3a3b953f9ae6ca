//! The errors of validation and of the codec.

use vstd::prelude::*;

verus! {

/// The context attributes with a fixed meaning.
#[derive(Debug, Clone, Copy, PartialEq, Eq, Structural)]
pub enum CoreAttribute {
    SpecVersion,
    Id,
    Source,
    Type,
    Subject,
    Time,
    DataContentType,
    DataSchema,
}

/// Why a set of attributes is no valid event.
#[derive(Debug, PartialEq, Eq)]
pub enum AttributeError {
    /// A required attribute is empty.
    MissingRequiredAttribute(CoreAttribute),
    /// The attribute, with the value that is no URI of the kind it asks for.
    InvalidUri(CoreAttribute, String),
    /// The name of an extension that is empty, holds a character other than
    /// `a`-`z` and `0`-`9`, or is the name of a core attribute.
    InvalidExtensionName(String),
}

/// What an [`AttributeError`] stands for.
pub enum AttributeErrorModel {
    MissingRequiredAttribute(CoreAttribute),
    InvalidUri(CoreAttribute, Seq<char>),
    InvalidExtensionName(Seq<char>),
}

impl View for AttributeError {
    type V = AttributeErrorModel;

    open spec fn view(&self) -> AttributeErrorModel {
        match self {
            AttributeError::MissingRequiredAttribute(a) => AttributeErrorModel::MissingRequiredAttribute(
                *a,
            ),
            AttributeError::InvalidUri(a, v) => AttributeErrorModel::InvalidUri(*a, v@),
            AttributeError::InvalidExtensionName(n) => AttributeErrorModel::InvalidExtensionName(n@),
        }
    }
}

/// Why an event cannot be built, written or read.
#[derive(Debug, PartialEq, Eq)]
pub enum CodecError {
    /// A required attribute is absent or empty.
    MissingRequiredAttribute(CoreAttribute),
    /// The attribute, with the value that is no URI of the kind it asks for.
    InvalidUri(CoreAttribute, String),
    /// The name of an extension that is empty, holds a character other than
    /// `a`-`z` and `0`-`9`, or is the name of a core attribute.
    InvalidExtensionName(String),
    /// The name of a member whose value the attribute does not admit: an
    /// extension that is no string, boolean or integer, a core attribute
    /// that is no string, or a time that is no timestamp.
    InvalidExtensionValueType(String),
    /// The `specversion` that is neither `1.0` nor `0.3`.
    UnsupportedSpecVersion(String),
    /// Both `data` and `data_base64` are present.
    AmbiguousPayloadEncoding,
    /// `data_base64` is no standard base64 text.
    InvalidBase64Payload,
    /// The payload cannot be carried under its content type.
    DataEncodingError,
}

/// What a [`CodecError`] stands for.
pub enum CodecErrorModel {
    MissingRequiredAttribute(CoreAttribute),
    InvalidUri(CoreAttribute, Seq<char>),
    InvalidExtensionName(Seq<char>),
    InvalidExtensionValueType(Seq<char>),
    UnsupportedSpecVersion(Seq<char>),
    AmbiguousPayloadEncoding,
    InvalidBase64Payload,
    DataEncodingError,
}

impl View for CodecError {
    type V = CodecErrorModel;

    open spec fn view(&self) -> CodecErrorModel {
        match self {
            CodecError::MissingRequiredAttribute(a) => CodecErrorModel::MissingRequiredAttribute(*a),
            CodecError::InvalidUri(a, v) => CodecErrorModel::InvalidUri(*a, v@),
            CodecError::InvalidExtensionName(n) => CodecErrorModel::InvalidExtensionName(n@),
            CodecError::InvalidExtensionValueType(n) => CodecErrorModel::InvalidExtensionValueType(
                n@,
            ),
            CodecError::UnsupportedSpecVersion(v) => CodecErrorModel::UnsupportedSpecVersion(v@),
            CodecError::AmbiguousPayloadEncoding => CodecErrorModel::AmbiguousPayloadEncoding,
            CodecError::InvalidBase64Payload => CodecErrorModel::InvalidBase64Payload,
            CodecError::DataEncodingError => CodecErrorModel::DataEncodingError,
        }
    }
}

/// The codec's error for an attribute error: the same kind with the same
/// fields.
pub open spec fn codec_error_of(e: AttributeErrorModel) -> CodecErrorModel {
    match e {
        AttributeErrorModel::MissingRequiredAttribute(a) => CodecErrorModel::MissingRequiredAttribute(
            a,
        ),
        AttributeErrorModel::InvalidUri(a, v) => CodecErrorModel::InvalidUri(a, v),
        AttributeErrorModel::InvalidExtensionName(n) => CodecErrorModel::InvalidExtensionName(n),
    }
}

impl CodecError {
    /// The codec's error for an attribute error.
    pub fn from_attribute(e: AttributeError) -> (r: CodecError)
        ensures
            r@ == codec_error_of(e@),
    {
        match e {
            AttributeError::MissingRequiredAttribute(a) => CodecError::MissingRequiredAttribute(a),
            AttributeError::InvalidUri(a, v) => CodecError::InvalidUri(a, v),
            AttributeError::InvalidExtensionName(n) => CodecError::InvalidExtensionName(n),
        }
    }
}

} // verus!
