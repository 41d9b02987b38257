//! The workspace-root capability: nothing outside the root is handed out.

use vstd::prelude::*;

use crate::error::OrchestratorError;

verus! {

/// A path that the platform has made canonical: absolute, without symbolic links or dots.
#[derive(Clone, Debug, PartialEq, Eq)]
pub struct CanonicalPath {
    /// The components of the path, each in the platform's encoding.
    pub components: Vec<Vec<u8>>,
    /// The path as it is shown.
    pub display: String,
}

impl View for CanonicalPath {
    type V = Seq<Seq<u8>>;

    open spec fn view(&self) -> Seq<Seq<u8>> {
        self.components@.map_values(|component: Vec<u8>| component@)
    }
}

/// `path` starts with `root`, component by component.
pub open spec fn starts_with(path: Seq<Seq<u8>>, root: Seq<Seq<u8>>) -> bool {
    root.len() <= path.len() && path.take(root.len() as int) == root
}

impl CanonicalPath {
    /// Tells whether the path starts with `root`, component by component.
    pub fn starts_with(&self, root: &CanonicalPath) -> (r: bool)
        ensures
            r == starts_with(self@, root@),
            r <==> root.components@.len() <= self.components@.len() && forall|i: int|
                0 <= i < root.components@.len() ==> (#[trigger] self.components@[i])@
                    == root.components@[i]@,
    {
        proof {
            roots_are_compared_whole(self@, root@);
            a_path_is_its_components(*self);
            a_path_is_its_components(*root);
            assert(self@.len() == self.components@.len());
            if root@.len() <= self@.len() {
                if forall|i: int| 0 <= i < root@.len() ==> #[trigger] self@[i] == root@[i] {
                    assert forall|i: int| 0 <= i < root.components@.len() implies (
                    #[trigger] self.components@[i])@ == root.components@[i]@ by {
                        assert(self@[i] == root@[i]);
                    }
                }
                if forall|i: int|
                    0 <= i < root.components@.len() ==> (#[trigger] self.components@[i])@
                        == root.components@[i]@ {
                    assert forall|i: int| 0 <= i < root@.len() implies #[trigger] self@[i]
                        == root@[i] by {
                        assert(self.components@[i]@ == root.components@[i]@);
                    }
                }
            }
        }
        if root.components.len() > self.components.len() {
            return false;
        }
        let mut i: usize = 0;
        while i < root.components.len()
            invariant
                i <= root.components.len() <= self.components.len(),
                forall|j: int| 0 <= j < i ==> self@[j] == #[trigger] root@[j],
            decreases root.components.len() - i,
        {
            if !same_bytes(&self.components[i], &root.components[i]) {
                assert(self@.take(root@.len() as int)[i as int] != root@[i as int]);
                return false;
            }
            i = i + 1;
        }
        assert(self@.take(root@.len() as int) =~= root@);
        true
    }

    /// Tells whether the two paths have the same components.
    pub fn is_same(&self, other: &CanonicalPath) -> (r: bool)
        ensures
            r == (self@ == other@),
    {
        if self.components.len() != other.components.len() {
            assert(self@.len() != other@.len());
            return false;
        }
        assert(self@.take(other@.len() as int) =~= self@);
        self.starts_with(other)
    }
}

/// Tells whether `a` and `b` hold the same bytes.
fn same_bytes(a: &Vec<u8>, b: &Vec<u8>) -> (r: bool)
    ensures
        r == (a@ == b@),
{
    if a.len() != b.len() {
        return false;
    }
    let mut i: usize = 0;
    while i < a.len()
        invariant
            i <= a.len() == b.len(),
            forall|j: int| 0 <= j < i ==> a@[j] == #[trigger] b@[j],
        decreases a.len() - i,
    {
        if a[i] != b[i] {
            return false;
        }
        i = i + 1;
    }
    assert(a@ =~= b@);
    true
}

/// Hands out the paths of one workspace.
#[derive(Clone, Debug)]
pub struct WorkspaceFs {
    root: CanonicalPath,
}

impl WorkspaceFs {
    /// The workspace's root, by its components.
    pub closed spec fn root(self) -> Seq<Seq<u8>> {
        self.root@
    }

    /// The workspace below this root.
    pub fn new(root: CanonicalPath) -> (r: Self)
        ensures
            r.root() == root@,
    {
        WorkspaceFs { root }
    }

    /// Hands the path out if it is the root or below it, and else denies access to it.
    pub fn resolve(&self, canonical: CanonicalPath) -> (r: Result<
        CanonicalPath,
        OrchestratorError,
    >)
        ensures
            r is Ok <==> starts_with(canonical@, self.root()),
            r matches Ok(path) ==> path == canonical,
            r matches Err(e) ==> e.is_access_denied(canonical.display@),
            r is Ok <==> self.root().len() <= canonical@.len() && forall|i: int|
                0 <= i < self.root().len() ==> #[trigger] canonical@[i] == self.root()[i],
            r matches Err(e) ==> e is AccessDenied && e->AccessDenied_0@ == canonical.display@,
    {
        proof {
            roots_are_compared_whole(canonical@, self.root@);
        }
        if canonical.starts_with(&self.root) {
            Ok(canonical)
        } else {
            Err(OrchestratorError::AccessDenied(canonical.display))
        }
    }
}

/// The root and all below it can be handed out.
pub proof fn all_below_the_root_is_inside(root: Seq<Seq<u8>>, below: Seq<Seq<u8>>)
    ensures
        starts_with(root + below, root),
{
    assert((root + below).take(root.len() as int) =~= root);
}

/// A neighbour of the root is outside, however its name resembles the root's: names are compared
/// whole. So is all that is below the neighbour.
pub proof fn neighbours_of_the_root_are_outside(
    root: Seq<Seq<u8>>,
    name: Seq<u8>,
    below: Seq<Seq<u8>>,
)
    requires
        root.len() > 0,
        name != root.last(),
    ensures
        !starts_with(root.drop_last().push(name) + below, root),
{
    let path = root.drop_last().push(name) + below;
    assert(path[root.len() - 1] == name);
    if starts_with(path, root) {
        assert(path.take(root.len() as int)[root.len() - 1] == root[root.len() - 1]);
    }
}

/// What is above the root is outside.
pub proof fn what_is_above_the_root_is_outside(root: Seq<Seq<u8>>, count: int)
    requires
        0 <= count < root.len(),
    ensures
        !starts_with(root.take(count), root),
{
}

/// A workspace inside a workspace hands out nothing that the outer one would not.
pub proof fn inner_workspaces_widen_nothing(
    outer: Seq<Seq<u8>>,
    inner: Seq<Seq<u8>>,
    path: Seq<Seq<u8>>,
)
    requires
        starts_with(inner, outer),
        starts_with(path, inner),
    ensures
        starts_with(path, outer),
{
    assert(path.take(outer.len() as int) =~= path.take(inner.len() as int).take(
        outer.len() as int,
    ));
}

/// A path starts with a root exactly where it has every component of the root, whole and in the
/// same place.
pub proof fn roots_are_compared_whole(path: Seq<Seq<u8>>, root: Seq<Seq<u8>>)
    ensures
        starts_with(path, root) <==> root.len() <= path.len() && forall|i: int|
            0 <= i < root.len() ==> #[trigger] path[i] == root[i],
{
    if root.len() <= path.len() {
        let head = path.take(root.len() as int);
        if forall|i: int| 0 <= i < root.len() ==> #[trigger] path[i] == root[i] {
            assert(head =~= root);
        }
        if head == root {
            assert forall|i: int| 0 <= i < root.len() implies #[trigger] path[i] == root[i] by {
                assert(head[i] == path[i]);
            }
        }
    }
}

/// A canonical path is the bytes of its components, one for one.
pub proof fn a_path_is_its_components(path: CanonicalPath)
    ensures
        path@.len() == path.components@.len(),
        forall|i: int| 0 <= i < path@.len() ==> #[trigger] path@[i] == path.components@[i]@,
        forall|i: int| 0 <= i < path@.len() ==> path@[i] == (#[trigger] path.components@[i])@,
{
}

} // verus!
