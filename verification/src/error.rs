//! Error taxonomy of the generator.
//!
//! Every failure is fatal to the whole generation pass: nothing partial is
//! ever emitted. The one deliberate exception is a dispatch request whose
//! target union never registers; that is not an error at all and silently
//! yields no output.
use vstd::prelude::*;

verus! {

/// The three classes of generation failure.
#[derive(Clone, Copy, Debug, PartialEq, Eq, Structural)]
pub enum ErrorClass {
    /// Malformed attribute or template shape.
    Syntax,
    /// Missing or duplicate discriminant, missing or duplicate wildcard,
    /// duplicate union registration.
    Schema,
    /// A per-case attribute beyond the discriminant annotation.
    Unsupported,
}

/// A fatal generation failure.
#[derive(Clone, Copy, Debug, PartialEq, Eq, Structural)]
pub enum GenError {
    /// A case carries no discriminant annotation block.
    MissingAttrBlock,
    /// A case carries more than one discriminant annotation block.
    DuplicateAttrBlock,
    /// The annotation block never assigns `ID`.
    MissingId,
    /// The `ID` value is neither a numeric literal nor the wildcard marker.
    InvalidId,
    /// Two cases of one union carry the same numeric discriminant.
    DuplicateDiscriminant,
    /// No case of the union is the wildcard.
    MissingDefault,
    /// More than one case of the union is the wildcard.
    DuplicateDefault,
    /// A union of this name is already registered.
    DuplicateUnion,
    /// A key inside the annotation block is not followed by `=`, or the value
    /// after `=` is missing.
    MalformedAttrSyntax,
    /// A key inside the annotation block other than `ID`.
    UnknownAttributeKey,
    /// The dispatch template ends in no delimited body group.
    MissingBody,
    /// A dispatch request names no target union.
    MissingArgument,
    /// The shared-attribute argument list does not start each attribute with
    /// an identifier.
    MalformedArgs,
    /// A case carries an attribute beyond the discriminant annotation.
    UnsupportedAttribute,
}

/// The class an error belongs to.
pub open spec fn spec_class_of(e: GenError) -> ErrorClass {
    match e {
        GenError::MissingAttrBlock => ErrorClass::Schema,
        GenError::DuplicateAttrBlock => ErrorClass::Schema,
        GenError::MissingId => ErrorClass::Schema,
        GenError::InvalidId => ErrorClass::Schema,
        GenError::DuplicateDiscriminant => ErrorClass::Schema,
        GenError::MissingDefault => ErrorClass::Schema,
        GenError::DuplicateDefault => ErrorClass::Schema,
        GenError::DuplicateUnion => ErrorClass::Schema,
        GenError::MalformedAttrSyntax => ErrorClass::Syntax,
        GenError::UnknownAttributeKey => ErrorClass::Syntax,
        GenError::MissingBody => ErrorClass::Syntax,
        GenError::MissingArgument => ErrorClass::Syntax,
        GenError::MalformedArgs => ErrorClass::Syntax,
        GenError::UnsupportedAttribute => ErrorClass::Unsupported,
    }
}

/// The descriptive message of an error.
pub open spec fn spec_message_of(e: GenError) -> Seq<char> {
    match e {
        GenError::MissingAttrBlock => "each case needs a discriminant annotation block"@,
        GenError::DuplicateAttrBlock => "a case may carry only one discriminant annotation block"@,
        GenError::MissingId => "missing ID: each case needs an assigned discriminant"@,
        GenError::InvalidId => "invalid ID: expected a number or the wildcard marker"@,
        GenError::DuplicateDiscriminant => "duplicate discriminant"@,
        GenError::MissingDefault => "missing default: exactly one case must carry the wildcard ID"@,
        GenError::DuplicateDefault => "only one case may carry the wildcard ID"@,
        GenError::DuplicateUnion => "union name conflict: this name is already registered"@,
        GenError::MalformedAttrSyntax => "malformed annotation: expected `ID = <number>` or `ID = _`"@,
        GenError::UnknownAttributeKey => "unknown key in annotation: only `ID` is understood"@,
        GenError::MissingBody => "the dispatch template must end in a delimited body"@,
        GenError::MissingArgument => "argument is missing: expected a target union name"@,
        GenError::MalformedArgs => "malformed argument list: expected identifiers"@,
        GenError::UnsupportedAttribute => "additional case attributes are not supported"@,
    }
}

impl GenError {
    /// The class this error belongs to.
    pub fn class(&self) -> (c: ErrorClass)
        ensures
            c == spec_class_of(*self),
    {
        match self {
            GenError::MissingAttrBlock => ErrorClass::Schema,
            GenError::DuplicateAttrBlock => ErrorClass::Schema,
            GenError::MissingId => ErrorClass::Schema,
            GenError::InvalidId => ErrorClass::Schema,
            GenError::DuplicateDiscriminant => ErrorClass::Schema,
            GenError::MissingDefault => ErrorClass::Schema,
            GenError::DuplicateDefault => ErrorClass::Schema,
            GenError::DuplicateUnion => ErrorClass::Schema,
            GenError::MalformedAttrSyntax => ErrorClass::Syntax,
        GenError::UnknownAttributeKey => ErrorClass::Syntax,
            GenError::MissingBody => ErrorClass::Syntax,
            GenError::MissingArgument => ErrorClass::Syntax,
            GenError::MalformedArgs => ErrorClass::Syntax,
            GenError::UnsupportedAttribute => ErrorClass::Unsupported,
        }
    }

    /// The descriptive message of this error.
    pub fn message(&self) -> (m: &'static str)
        ensures
            m@ == spec_message_of(*self),
    {
        match self {
            GenError::MissingAttrBlock => "each case needs a discriminant annotation block",
            GenError::DuplicateAttrBlock => "a case may carry only one discriminant annotation block",
            GenError::MissingId => "missing ID: each case needs an assigned discriminant",
            GenError::InvalidId => "invalid ID: expected a number or the wildcard marker",
            GenError::DuplicateDiscriminant => "duplicate discriminant",
            GenError::MissingDefault => "missing default: exactly one case must carry the wildcard ID",
            GenError::DuplicateDefault => "only one case may carry the wildcard ID",
            GenError::DuplicateUnion => "union name conflict: this name is already registered",
            GenError::MalformedAttrSyntax => "malformed annotation: expected `ID = <number>` or `ID = _`",
            GenError::UnknownAttributeKey => "unknown key in annotation: only `ID` is understood",
            GenError::MissingBody => "the dispatch template must end in a delimited body",
            GenError::MissingArgument => "argument is missing: expected a target union name",
            GenError::MalformedArgs => "malformed argument list: expected identifiers",
            GenError::UnsupportedAttribute => "additional case attributes are not supported",
        }
    }
}

} // verus!
