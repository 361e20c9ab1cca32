//! The files of a project, as they were read.

use vstd::prelude::*;

use crate::paths::under;
use crate::paths::within;
use crate::text::chars_of;
use crate::text::string_of;

verus! {

/// What a source file is.
#[verifier::ext_equal]
pub struct SourceView {
    pub path: Seq<char>,
    pub text: Seq<char>,
    pub in_test: bool,
}

/// A source file.
#[derive(Debug)]
pub struct SourceFile {
    pub path: String,
    pub text: String,
    /// The whole file is test code.
    pub in_test: bool,
}

impl View for SourceFile {
    type V = SourceView;

    open spec fn view(&self) -> SourceView {
        SourceView { path: self.path@, text: self.text@, in_test: self.in_test }
    }
}

/// The path from `root` to `file`, which lies in it.
pub open spec fn path_from(file: Seq<char>, root: Seq<char>) -> Option<Seq<char>> {
    if file == root {
        Some(""@)
    } else if within(file, root) {
        Some(file.skip(under(root, ""@).len() as int))
    } else {
        None
    }
}

/// The path from `root` to `file`, where it lies in it.
pub fn relative_path(file: &str, root: &str) -> (r: Option<String>)
    ensures
        crate::ir::opt(r) == path_from(file@, root@),
{
    if crate::text::same(file, root) {
        return Some("".to_owned());
    }
    let prefix = crate::paths::join(root, "");
    let c = chars_of(file);
    match crate::text::strip_prefix(&c, prefix.as_str()) {
        Some(rest) => Some(string_of(rest)),
        None => None,
    }
}

} // verus!
