//! What is reported when a declaration is rejected.

use vstd::prelude::*;
use vstd::string::*;

verus! {

/// Why a declaration was rejected.
#[derive(Clone, Copy, Debug, PartialEq, Eq, Structural)]
pub enum ErrorKind {
    /// The `borrows` attribute is not followed by a group.
    InvalidBorrowsSyntax,
    /// A field name directly follows another one.
    ExpectedComma,
    /// `mut` was written twice in a row.
    DoubleMut,
    /// A name in `borrows` is that of no field declared above.
    UnknownField,
    /// A mutable borrow of a field that is already borrowed immutably.
    MutableAfterImmutable,
    /// A second mutable borrow of a field.
    MutableTwice,
    /// An immutable borrow of a field that is already borrowed mutably.
    ImmutableAfterMutable,
    /// A comma that follows no field name.
    ExtraComma,
    /// Punctuation other than a comma.
    UnexpectedPunctuation,
    /// A literal or a group where a name or a comma should stand.
    UnexpectedToken,
    /// A field carries two `borrows` attributes.
    DuplicateBorrows,
    /// The covariance of a field is stated twice, or stated where it is known.
    DuplicateCovariance,
    /// A derive request for a trait other than `Debug`, `PartialEq` and `Eq`.
    UnderivableTrait,
    /// A malformed `derive` attribute.
    BadDeriveSyntax,
    /// The struct has positional fields.
    TupleStruct,
    /// The struct has no fields at all.
    UnitStruct,
    /// The struct has fewer than two fields.
    TooFewFields,
    /// No field is borrowed by another one.
    AllTail,
    /// An attribute on the struct that is not passed through.
    UnsupportedAttribute,
    /// More than one `derive` attribute on the struct.
    MultipleDerives,
    /// An option name where a comma should stand.
    OptionExpectedComma,
    /// An option name other than `no_doc` and `pub_extras`.
    UnknownOption,
    /// Punctuation where an option name should stand.
    OptionExpectedIdentifier,
    /// Punctuation other than a comma between options.
    OptionUnknownPunctuation,
    /// A literal or a group among the options.
    OptionUnknownSyntax,
    /// The covariance of a field's type can be neither proved nor refuted.
    UnknownCovariance,
}

/// A rejection, with the place it refers to.
///
/// The place is given by positions in the declaration: the field, the attribute
/// on that field (or on the struct, when `field` is `None`), and the token
/// inside that attribute's group. With all three absent the error belongs to
/// the declaration as a whole.
#[derive(Clone, Copy, Debug, PartialEq, Eq, Structural)]
pub struct Error {
    pub kind: ErrorKind,
    pub field: Option<usize>,
    pub attr: Option<usize>,
    pub token: Option<usize>,
}

impl Error {
    /// An error about the declaration as a whole.
    pub open spec fn spec_at_call_site(kind: ErrorKind) -> Error {
        Error { kind, field: None, attr: None, token: None }
    }

    /// An error about the declaration as a whole.
    #[verifier::when_used_as_spec(spec_at_call_site)]
    pub fn at_call_site(kind: ErrorKind) -> (e: Error)
        ensures
            e == Error::spec_at_call_site(kind),
    {
        Error { kind, field: None, attr: None, token: None }
    }

    /// An error about one token of an attribute's group.
    pub open spec fn spec_at_token(kind: ErrorKind, token: usize) -> Error {
        Error { kind, field: None, attr: None, token: Some(token) }
    }

    /// An error about one token of an attribute's group.
    #[verifier::when_used_as_spec(spec_at_token)]
    pub fn at_token(kind: ErrorKind, token: usize) -> (e: Error)
        ensures
            e == Error::spec_at_token(kind, token),
    {
        Error { kind, field: None, attr: None, token: Some(token) }
    }

    /// The same error, placed in attribute `attr` of field `field`.
    pub open spec fn spec_in_attribute(self, field: Option<usize>, attr: usize) -> Error {
        Error { kind: self.kind, field, attr: Some(attr), token: self.token }
    }

    /// The same error, placed in attribute `attr` of field `field`.
    #[verifier::when_used_as_spec(spec_in_attribute)]
    pub fn in_attribute(self, field: Option<usize>, attr: usize) -> (e: Error)
        ensures
            e == self.spec_in_attribute(field, attr),
    {
        Error { kind: self.kind, field, attr: Some(attr), token: self.token }
    }

    /// The text shown to the user.
    pub fn message(&self) -> (text: String)
        ensures
            text@ == message_of(self.kind),
    {
        match self.kind {
            ErrorKind::InvalidBorrowsSyntax => String::from_str("Invalid syntax for borrows() macro."),
            ErrorKind::ExpectedComma => String::from_str("Expected comma."),
            ErrorKind::DoubleMut => String::from_str("Unexpected double 'mut'"),
            ErrorKind::UnknownField => String::from_str(
                "Unknown identifier, make sure that it is spelled correctly and defined above the location it is borrowed.",
            ),
            ErrorKind::MutableAfterImmutable => String::from_str(
                "Cannot borrow mutably, this field was previously borrowed immutably.",
            ),
            ErrorKind::MutableTwice => String::from_str("Cannot borrow mutably twice."),
            ErrorKind::ImmutableAfterMutable => String::from_str(
                "Cannot borrow as immutable as it was previously borrowed mutably.",
            ),
            ErrorKind::ExtraComma => String::from_str("Unexpected extra comma."),
            ErrorKind::UnexpectedPunctuation => String::from_str(
                "Unexpected punctuation, expected comma or identifier.",
            ),
            ErrorKind::UnexpectedToken => String::from_str(
                "Unexpected token, expected comma or identifier.",
            ),
            ErrorKind::DuplicateBorrows => String::from_str("The borrows attribute was used twice."),
            ErrorKind::DuplicateCovariance => String::from_str("Covariance was specified twice."),
            ErrorKind::UnderivableTrait => String::from_str(
                "This trait cannot be derived for self-referencing structs",
            ),
            ErrorKind::BadDeriveSyntax => String::from_str("bad syntax"),
            ErrorKind::TupleStruct => String::from_str("Tuple structs are not supported yet."),
            ErrorKind::UnitStruct => String::from_str("Unit structs cannot be self-referential."),
            ErrorKind::TooFewFields => String::from_str(
                "Self-referencing structs must have at least 2 fields.",
            ),
            ErrorKind::AllTail => String::from_str(
                "Self-referencing struct cannot be made entirely of tail fields, try adding #[borrows(field)] to a field defined after it.",
            ),
            ErrorKind::UnsupportedAttribute => String::from_str("Unsupported attribute"),
            ErrorKind::MultipleDerives => String::from_str("Multiple derive attributes not allowed"),
            ErrorKind::OptionExpectedComma => String::from_str(
                "Unexpected identifier, expected comma.",
            ),
            ErrorKind::UnknownOption => String::from_str(
                "Unknown identifier, expected 'no_doc' or 'pub_extras'.",
            ),
            ErrorKind::OptionExpectedIdentifier => String::from_str(
                "Unexpected punctuation, expected identifier.",
            ),
            ErrorKind::OptionUnknownPunctuation => String::from_str(
                "Unknown punctuation, expected comma.",
            ),
            ErrorKind::OptionUnknownSyntax => String::from_str(
                "Unknown syntax, expected identifier.",
            ),
            ErrorKind::UnknownCovariance => String::from_str(
                "Ouroboros cannot automatically determine if this type is covariant. To resolve this error, add #[covariant] or #[not_covariant] to the field.",
            ),
        }
    }
}

/// The text shown for each kind of error.
pub open spec fn message_of(kind: ErrorKind) -> Seq<char> {
    match kind {
        ErrorKind::InvalidBorrowsSyntax => "Invalid syntax for borrows() macro."@,
        ErrorKind::ExpectedComma => "Expected comma."@,
        ErrorKind::DoubleMut => "Unexpected double 'mut'"@,
        ErrorKind::UnknownField => "Unknown identifier, make sure that it is spelled correctly and defined above the location it is borrowed."@,
        ErrorKind::MutableAfterImmutable => "Cannot borrow mutably, this field was previously borrowed immutably."@,
        ErrorKind::MutableTwice => "Cannot borrow mutably twice."@,
        ErrorKind::ImmutableAfterMutable => "Cannot borrow as immutable as it was previously borrowed mutably."@,
        ErrorKind::ExtraComma => "Unexpected extra comma."@,
        ErrorKind::UnexpectedPunctuation => "Unexpected punctuation, expected comma or identifier."@,
        ErrorKind::UnexpectedToken => "Unexpected token, expected comma or identifier."@,
        ErrorKind::DuplicateBorrows => "The borrows attribute was used twice."@,
        ErrorKind::DuplicateCovariance => "Covariance was specified twice."@,
        ErrorKind::UnderivableTrait => "This trait cannot be derived for self-referencing structs"@,
        ErrorKind::BadDeriveSyntax => "bad syntax"@,
        ErrorKind::TupleStruct => "Tuple structs are not supported yet."@,
        ErrorKind::UnitStruct => "Unit structs cannot be self-referential."@,
        ErrorKind::TooFewFields => "Self-referencing structs must have at least 2 fields."@,
        ErrorKind::AllTail => "Self-referencing struct cannot be made entirely of tail fields, try adding #[borrows(field)] to a field defined after it."@,
        ErrorKind::UnsupportedAttribute => "Unsupported attribute"@,
        ErrorKind::MultipleDerives => "Multiple derive attributes not allowed"@,
        ErrorKind::OptionExpectedComma => "Unexpected identifier, expected comma."@,
        ErrorKind::UnknownOption => "Unknown identifier, expected 'no_doc' or 'pub_extras'."@,
        ErrorKind::OptionExpectedIdentifier => "Unexpected punctuation, expected identifier."@,
        ErrorKind::OptionUnknownPunctuation => "Unknown punctuation, expected comma."@,
        ErrorKind::OptionUnknownSyntax => "Unknown syntax, expected identifier."@,
        ErrorKind::UnknownCovariance => "Ouroboros cannot automatically determine if this type is covariant. To resolve this error, add #[covariant] or #[not_covariant] to the field."@,
    }
}

} // verus!
