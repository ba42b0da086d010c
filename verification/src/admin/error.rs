//! Why a change of the configuration is refused.
use vstd::prelude::*;

verus! {

/// Why a change of the configuration is refused.
#[derive(Debug, Clone, Copy, PartialEq, Eq, Structural)]
pub enum AdminError {
    InvalidToml,
    UnwritableToml,
    RootNotTable,
    NumberTooLarge,
    ViewNameRequired,
    PreviousNameInvalid,
    DefaultNameImmutable,
    ViewsNotArray,
    ViewNameTaken,
    PreviousNameNotFound,
    DefaultViewUndeletable,
    ZonesNotArray,
}

impl AdminError {
    pub open spec fn text(self) -> Seq<char> {
        match self {
            AdminError::InvalidToml => "config is not valid TOML"@,
            AdminError::UnwritableToml => "config cannot be written as TOML"@,
            AdminError::RootNotTable => "config root is not a TOML table"@,
            AdminError::NumberTooLarge => "u64 value was too large"@,
            AdminError::ViewNameRequired => "view name is required"@,
            AdminError::PreviousNameInvalid => "previous view name is invalid"@,
            AdminError::DefaultNameImmutable => "default view name is immutable"@,
            AdminError::ViewsNotArray => "views must be an array"@,
            AdminError::ViewNameTaken => "view name already exists"@,
            AdminError::PreviousNameNotFound => "previous view name not found"@,
            AdminError::DefaultViewUndeletable => "default view cannot be deleted"@,
            AdminError::ZonesNotArray => "authoritative_zones must be an array"@,
        }
    }

    /// The reason in words.
    pub fn message(self) -> (r: String)
        ensures
            r@ == self.text(),
    {
        match self {
            AdminError::InvalidToml => "config is not valid TOML".to_owned(),
            AdminError::UnwritableToml => "config cannot be written as TOML".to_owned(),
            AdminError::RootNotTable => "config root is not a TOML table".to_owned(),
            AdminError::NumberTooLarge => "u64 value was too large".to_owned(),
            AdminError::ViewNameRequired => "view name is required".to_owned(),
            AdminError::PreviousNameInvalid => "previous view name is invalid".to_owned(),
            AdminError::DefaultNameImmutable => "default view name is immutable".to_owned(),
            AdminError::ViewsNotArray => "views must be an array".to_owned(),
            AdminError::ViewNameTaken => "view name already exists".to_owned(),
            AdminError::PreviousNameNotFound => "previous view name not found".to_owned(),
            AdminError::DefaultViewUndeletable => "default view cannot be deleted".to_owned(),
            AdminError::ZonesNotArray => "authoritative_zones must be an array".to_owned(),
        }
    }
}

} // verus!
