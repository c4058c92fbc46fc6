//! What the library asks of an access to git repositories.

use vstd::prelude::*;

use crate::capture::optional_text;
use crate::error::GitAiError;
use crate::family::FamilyKey;
use crate::path::FilePath;
use crate::sorted_map::SortedMap;

verus! {

/// A place in a reflog.
#[derive(Debug, PartialEq, Eq)]
pub struct ReflogCut {
    pub ordinal: u64,
    pub hash: Option<String>,
}

/// A place in a reflog by its contents.
pub struct CutView {
    pub ordinal: u64,
    pub hash: Option<Seq<char>>,
}

impl View for ReflogCut {
    type V = CutView;

    open spec fn view(&self) -> CutView {
        CutView { ordinal: self.ordinal, hash: optional_text(self.hash) }
    }
}

impl Clone for ReflogCut {
    fn clone(&self) -> (cut: Self)
        ensures
            cut@ == self@,
    {
        let hash = match &self.hash {
            Some(text) => Some(text.as_str().to_owned()),
            None => None,
        };
        ReflogCut { ordinal: self.ordinal, hash }
    }
}

/// Access to git repositories. What a context, a change of a reference and a resolved alias hold is
/// up to the implementation.
pub trait GitBackend: Send + Sync + 'static {
    type RepoContext;

    type RefChange;

    type AliasResolution;

    /// The family that a worktree belongs to.
    fn resolve_family(&self, worktree: &FilePath) -> Result<FamilyKey, GitAiError>;

    /// What is known of the repository of a worktree.
    fn repo_context(&self, worktree: &FilePath) -> Result<Self::RepoContext, GitAiError>;

    /// The references of a family and what they point to.
    fn ref_snapshot(&self, family: &FamilyKey) -> Result<SortedMap<String, String>, GitAiError>;

    /// The present end of the reflog.
    fn reflog_cut(&self, family: &FamilyKey) -> Result<ReflogCut, GitAiError>;

    /// The changes of references between two places in the reflog.
    fn reflog_delta(
        &self,
        family: &FamilyKey,
        start: &ReflogCut,
        end: &ReflogCut,
    ) -> Result<Vec<Self::RefChange>, GitAiError>;

    /// The command that an alias stands for.
    fn resolve_alias(
        &self,
        worktree: Option<&FilePath>,
        argv: &[String],
    ) -> Result<Self::AliasResolution, GitAiError>;

    /// The directory that a `git clone` makes.
    fn clone_target(&self, argv: &[String], cwd_hint: Option<&FilePath>) -> Option<FilePath>;

    /// The directory that a `git init` makes a repository of.
    fn init_target(&self, argv: &[String], cwd_hint: Option<&FilePath>) -> Option<FilePath>;
}

/// A place in a reflog shows what it holds.
pub proof fn cuts_show_what_they_hold(cut: ReflogCut)
    ensures
        cut@.ordinal == cut.ordinal,
        cut.hash is None ==> cut@.hash is None,
        cut.hash matches Some(text) ==> cut@.hash == Some(text@),
{
}

} // verus!
