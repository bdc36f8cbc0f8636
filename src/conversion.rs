use vstd::prelude::*;

verus! {

/// The kind of a conversion failure, as contracts speak of it.
pub enum DecodeFailure {
    MissingField(Seq<char>),
    UnexpectedEnumVariant(Seq<char>, i32),
    InvalidData,
}

/// Why an on-disk record could not be turned back into a domain value.
#[derive(Debug, PartialEq, Eq)]
pub enum ConversionError {
    /// A field that the value needs is absent.
    MissingField(String),
    /// A field holds a discriminant that names no variant.
    UnexpectedEnumVariant(String, i32),
    /// A field holds bytes that are not a valid encoding of its value.
    InvalidData(String),
}

impl ConversionError {
    pub fn invalid_data(source: &str) -> (r: ConversionError)
        ensures
            r matches ConversionError::InvalidData(m) && m@ == source@,
    {
        ConversionError::InvalidData(source.to_owned())
    }

    pub fn missing_field(field: &str) -> (r: ConversionError)
        ensures
            r matches ConversionError::MissingField(f) && f@ == field@,
    {
        ConversionError::MissingField(field.to_owned())
    }

    pub fn unexpected_enum_variant(field: &str, enum_variant: i32) -> (r: ConversionError)
        ensures
            r matches ConversionError::UnexpectedEnumVariant(f, v) && f@ == field@ && v == enum_variant,
    {
        ConversionError::UnexpectedEnumVariant(field.to_owned(), enum_variant)
    }

    /// The kind of this failure, with the field it names.
    pub open spec fn failure(&self) -> DecodeFailure {
        match self {
            ConversionError::MissingField(f) => DecodeFailure::MissingField(f@),
            ConversionError::UnexpectedEnumVariant(f, v) => DecodeFailure::UnexpectedEnumVariant(f@, *v),
            ConversionError::InvalidData(_) => DecodeFailure::InvalidData,
        }
    }
}

} // verus!
