//! Where the store lives.

use vstd::prelude::*;

use crate::runtime::{join, join_path};

verus! {

/// The environment variable that names the store directory.
pub const STORE: &'static str = "HASHEDBUILD_CACHE";

/// Why the store directory could not be found.
#[derive(Debug, Clone, Copy, PartialEq, Eq, Structural)]
pub enum DirObtainError {
    /// The user's data directory could not be found.
    XdgData,
    /// The variable holds text that is not Unicode.
    NotUnicode,
}

/// The text of a `DirObtainError`.
pub open spec fn dir_error_text(e: DirObtainError) -> Seq<char> {
    match e {
        DirObtainError::XdgData => "XDG_DATA_HOME directory path have been inaccesible."@,
        DirObtainError::NotUnicode => STORE@ + " environment variable contains an invalid Unicode character."@,
    }
}

impl DirObtainError {
    /// The text of the error.
    pub fn message(&self) -> (r: String)
        ensures
            r@ == dir_error_text(*self),
    {
        match self {
            DirObtainError::XdgData => "XDG_DATA_HOME directory path have been inaccesible.".to_owned(),
            DirObtainError::NotUnicode => {
                let mut r = STORE.to_owned();
                r.append(" environment variable contains an invalid Unicode character.");
                r
            },
        }
    }
}

/// What the environment holds under `STORE`.
#[derive(Debug)]
pub enum StoreVariable {
    /// The variable holds this text.
    Holds(String),
    /// The variable holds text that is not Unicode.
    NotUnicode,
    /// The variable is not set.
    NotSet,
}

/// The store directory: the one the variable names, else `hashedbuild/store`
/// under the user's data directory.
pub fn store(variable: StoreVariable, data_dir: Option<String>) -> (r: Result<String, DirObtainError>)
    ensures
        match variable {
            StoreVariable::Holds(v) => r matches Ok(p) && p@ == v@,
            StoreVariable::NotUnicode => r == Err::<String, DirObtainError>(DirObtainError::NotUnicode),
            StoreVariable::NotSet => match data_dir {
                Some(d) => r matches Ok(p) && p@ == join_path(d@, "hashedbuild/store"@),
                None => r == Err::<String, DirObtainError>(DirObtainError::XdgData),
            },
        },
{
    match variable {
        StoreVariable::Holds(v) => Ok(v),
        StoreVariable::NotUnicode => Err(DirObtainError::NotUnicode),
        StoreVariable::NotSet => match data_dir {
            Some(d) => Ok(join(d.as_str(), "hashedbuild/store")),
            None => Err(DirObtainError::XdgData),
        },
    }
}

} // verus!
