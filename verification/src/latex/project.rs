//! Where the files of a project are found.
use crate::text::unicode::{chars_of, push_char};
use vstd::prelude::*;

verus! {

/// Resolves the paths a project names against its root directory.
#[derive(Debug, PartialEq, Eq)]
pub struct ProjectResolver {
    root: String,
}

/// `input` against `root`: an absolute input stands alone, a relative one
/// is joined to the root with a separator (none after an empty root or one
/// that already ends with a separator).
pub open spec fn spec_candidate(root: Seq<char>, input: Seq<char>) -> Seq<char> {
    if input.len() > 0 && input[0] == '/' {
        input
    } else if root.len() == 0 || root.last() == '/' {
        root + input
    } else {
        root.push('/') + input
    }
}

impl ProjectResolver {
    pub closed spec fn spec_root(&self) -> Seq<char> {
        self.root@
    }

    pub fn new(root: String) -> (r: Self)
        ensures
            r.spec_root() == root@,
    {
        ProjectResolver { root }
    }

    /// The root directory.
    pub fn root(&self) -> (r: &str)
        ensures
            r@ == self.spec_root(),
    {
        self.root.as_str()
    }

    /// The path to open for `input`, before the file system resolves it.
    pub fn candidate(&self, input: &str) -> (r: String)
        ensures
            r@ == spec_candidate(self.spec_root(), input@),
    {
        let i = chars_of(input);
        if i.len() > 0 && i[0] == '/' {
            return input.to_owned();
        }
        let r = chars_of(self.root.as_str());
        let mut out = self.root.clone();
        if r.len() > 0 && r[r.len() - 1] != '/' {
            push_char(&mut out, '/');
        }
        out.append(input);
        out
    }
}

} // verus!
