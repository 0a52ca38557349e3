//! File paths.
//!
//! A path is modelled as the texts of its components.

use std::path::{Path, PathBuf};

use vstd::prelude::*;

verus! {

#[verifier::external_type_specification]
#[verifier::external_body]
pub struct ExPath(Path);

#[verifier::external_type_specification]
#[verifier::external_body]
pub struct ExPathBuf(PathBuf);

/// The texts of the components of a path, in order.
pub uninterp spec fn path_parts(path: &PathBuf) -> Seq<Seq<char>>;

/// A name that stands for one component of a path where `/` parts components.  On
/// Windows, a name behind a bare `\\server` would belong to the prefix of the path.
pub open spec fn is_plain_name(name: Seq<char>) -> bool {
    &&& name.len() > 0
    &&& name.len() <= 2 ==> name[0] != '.'
    &&& forall|i: int|
        0 <= i < name.len() ==> #[trigger] name[i] != '/' && name[i] != '\\' && name[i] != ':'
}

/// `Path::join`: a plain name becomes one more component at the end.
#[verifier::external_body]
pub(crate) fn join_name(base: &PathBuf, name: &str) -> (path: PathBuf)
    requires
        is_plain_name(name@),
    ensures
        path_parts(&path) == path_parts(base).push(name@),
{
    base.join(name)
}

/// What comes behind the last dot of the file name that ends a path, where it is
/// Unicode text.
pub uninterp spec fn path_extension(path: &Path) -> Option<Seq<char>>;

/// `Path::extension`: what comes behind the last dot of the file name, given as
/// text.  How a system parts a path into components is left as a name.
#[verifier::external_body]
pub(crate) fn extension_text(path: &Path) -> (extension: Option<String>)
    ensures
        match extension {
            Some(text) => path_extension(path) == Some(text@),
            None => path_extension(path) is None,
        },
{
    path.extension().and_then(|extension| extension.to_str()).map(|text| text.to_string())
}

} // verus!
