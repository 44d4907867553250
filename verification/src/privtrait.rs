//! A helper trait for types that can display a path for failure messages.

use vstd::prelude::*;

use crate::error::PathError;
use crate::error::is_annotated;

verus! {

/// A value that carries a path it can display; the provided `o2r` wraps an
/// absent query result as a failure naming that path.
pub trait PathExtPriv {
    /// The characters of the carried path.
    spec fn path_chars(&self) -> Seq<char>;

    /// The carried path's display text.
    fn pep_display(&self) -> (r: String)
        ensures
            r@ == self.path_chars(),
    ;

    /// Wraps an absent value as a failure naming the carried path: `Some`
    /// passes its value through unchanged, `None` becomes the given
    /// description annotated with the path.
    fn o2r<T>(&self, opt: Option<T>, errordesc: &str) -> (r: Result<T, PathError>)
        ensures
            match r {
                Ok(v) => opt == Some(v),
                Err(e) => opt is None && is_annotated(e, errordesc@, "path"@, self.path_chars()),
            },
    {
        match opt {
            Some(v) => Ok(v),
            None => {
                let e = PathError::new(String::from_str(errordesc));
                Err(e.with(String::from_str("path"), self.pep_display()))
            },
        }
    }
}

impl PathExtPriv for crate::pathtext::PathText {
    open spec fn path_chars(&self) -> Seq<char> {
        self@
    }

    fn pep_display(&self) -> (r: String) {
        self.to_text()
    }
}

} // verus!
