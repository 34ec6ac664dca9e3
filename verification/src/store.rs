//! The version store: removing an installed version and pointing the
//! active link at one.

use crate::install::{extract_engine, InstallTarget};
use crate::tool::{engine_name, first_capture, major_of, version_pattern};
use vstd::prelude::*;

verus! {

/// Why the version store refused.
#[derive(Debug, Clone, Copy, PartialEq, Eq, Structural)]
pub enum StoreError {
    /// The version is not installed.
    NotFound,
}

impl StoreError {
    /// The error in words.
    pub fn message(&self) -> (text: &'static str)
        ensures
            text@ == self.words(),
    {
        match self {
            StoreError::NotFound => "Engine not found",
        }
    }

    /// What the error says, in words.
    pub open spec fn words(&self) -> Seq<char> {
        match self {
            StoreError::NotFound => "Engine not found"@,
        }
    }
}

/// Whether a place is the place of the engine build.
pub open spec fn is_target_of(target: InstallTarget, engine: Seq<char>) -> bool {
    first_capture(version_pattern(), engine) matches Some(version) && target.version@ == version
        && target.major@ == major_of(version) && target.name@ == engine_name(engine)
}

/// Whether the name of an engine build holds no version.
pub open spec fn no_version(engine: Seq<char>) -> bool {
    first_capture(version_pattern(), engine) is None
}

/// The directory to delete for the removal of a version, given whether it
/// is installed. What is not there cannot be removed.
pub fn removal(target: InstallTarget, installed: bool) -> (plan: Result<InstallTarget, StoreError>)
    ensures
        installed ==> plan == Ok::<InstallTarget, StoreError>(target),
        !installed ==> plan == Err::<InstallTarget, StoreError>(StoreError::NotFound),
{
    if installed {
        Ok(target)
    } else {
        Err(StoreError::NotFound)
    }
}

/// The directory to delete for the removal of an engine build. `installed`
/// says whether the place of the build exists. A build that is not
/// installed, or whose name holds no version, is not found.
pub fn remove_engine(engine: &str, installed: bool) -> (plan: Result<InstallTarget, StoreError>)
    ensures
        match plan {
            Ok(target) => installed && is_target_of(target, engine@),
            Err(e) => e == StoreError::NotFound && (!installed || no_version(engine@)),
        },
{
    match extract_engine(engine) {
        Some(target) => removal(target, installed),
        None => Err(StoreError::NotFound),
    }
}

/// The directory to delete for uninstalling an engine build, or nothing
/// where the build is not installed.
pub fn uninstall_engine(engine: &str, installed: bool) -> (plan: Option<InstallTarget>)
    ensures
        match plan {
            Some(target) => installed && is_target_of(target, engine@),
            None => !installed || no_version(engine@),
        },
{
    match remove_engine(engine, installed) {
        Ok(target) => Some(target),
        Err(_) => None,
    }
}

/// What stands at a path, not following links.
#[derive(Debug, Clone, Copy, PartialEq, Eq, Structural)]
pub enum NodeKind {
    Absent,
    File,
    Directory,
    Link,
}

/// How to clear a path.
#[derive(Debug, Clone, Copy, PartialEq, Eq, Structural)]
pub enum Removal {
    /// There is nothing to remove.
    Nothing,
    /// Remove the file or the link.
    File,
    /// Remove the directory and all it holds.
    Tree,
}

/// How to clear the path of a link before the link is made.
pub open spec fn clearing(existing: NodeKind) -> Removal {
    match existing {
        NodeKind::Absent => Removal::Nothing,
        NodeKind::File => Removal::File,
        NodeKind::Link => Removal::File,
        NodeKind::Directory => Removal::Tree,
    }
}

/// How to clear the path of a link before the link is made: whatever
/// stands there is removed.
pub fn symlink(existing: NodeKind) -> (removal: Removal)
    ensures
        removal == clearing(existing),
{
    match existing {
        NodeKind::Absent => Removal::Nothing,
        NodeKind::File => Removal::File,
        NodeKind::Link => Removal::File,
        NodeKind::Directory => Removal::Tree,
    }
}

/// How the active link is pointed at a version: what to clear away, and
/// where the link leads.
#[derive(Debug, Clone, PartialEq, Eq)]
pub struct LinkPlan {
    pub removal: Removal,
    pub target: InstallTarget,
}

/// How the active link is pointed at an engine build, given what stands at
/// the path of the link. Whether the build is installed is not asked. A
/// name without a version gives no plan.
pub fn switch_engine(engine: &str, existing: NodeKind) -> (plan: Option<LinkPlan>)
    ensures
        match plan {
            Some(p) => p.removal == clearing(existing) && is_target_of(p.target, engine@),
            None => no_version(engine@),
        },
{
    match extract_engine(engine) {
        Some(target) => Some(LinkPlan { removal: symlink(existing), target }),
        None => None,
    }
}

/// What stands at the path of the active link, with the place a link
/// leads to.
pub enum LinkNode {
    Absent,
    File,
    Directory,
    Link(Seq<char>),
}

impl LinkNode {
    pub open spec fn kind(self) -> NodeKind {
        match self {
            LinkNode::Absent => NodeKind::Absent,
            LinkNode::File => NodeKind::File,
            LinkNode::Directory => NodeKind::Directory,
            LinkNode::Link(_) => NodeKind::Link,
        }
    }

    /// The node after a removal. A removal of the wrong kind fails and
    /// leaves the node.
    pub open spec fn cleared(self, removal: Removal) -> LinkNode {
        match (self, removal) {
            (LinkNode::File, Removal::File) => LinkNode::Absent,
            (LinkNode::Link(_), Removal::File) => LinkNode::Absent,
            (LinkNode::Directory, Removal::Tree) => LinkNode::Absent,
            _ => self,
        }
    }

    /// The node after a link was made. Where something stands, making the
    /// link fails and leaves the node.
    pub open spec fn linked(self, target: Seq<char>) -> LinkNode {
        match self {
            LinkNode::Absent => LinkNode::Link(target),
            _ => self,
        }
    }

    /// The node after the active link was pointed at `target`.
    pub open spec fn switched(self, target: Seq<char>) -> LinkNode {
        self.cleared(clearing(self.kind())).linked(target)
    }
}

/// Whatever stood at the path, after a switch there is the link to the
/// chosen version.
pub proof fn lemma_switch_replaces(node: LinkNode, target: Seq<char>)
    ensures
        node.switched(target) == LinkNode::Link(target),
{
}

/// After two switches in a row there is one link, and it leads to the
/// second version; nothing of the first switch is left.
pub proof fn lemma_switch_twice(node: LinkNode, first: Seq<char>, second: Seq<char>)
    ensures
        node.switched(first).switched(second) == LinkNode::Link(second),
{
}

} // verus!
