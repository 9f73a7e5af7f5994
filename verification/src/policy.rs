//! Deny-by-default permission policy.
use vstd::prelude::*;

verus! {

/// A capability that an operation may need.
#[derive(Debug, Clone, Copy, PartialEq, Eq, Hash, Structural)]
pub enum Permission {
    Network,
    FileRead,
    FileWrite,
    MemoryRead,
    MemoryWrite,
    ToolExec,
}

/// The set of permissions that are granted; everything else is denied.
/// The permissions are kept in a list whose view is the set it holds; a
/// `HashSet<Permission>` is not used, since vstd's specification of it
/// holds only for key types that obey its key model, which it grants to
/// integer keys and not to this enum.
#[derive(Debug, Clone)]
pub struct Policy {
    allowed: Vec<Permission>,
}

impl View for Policy {
    type V = Set<Permission>;

    closed spec fn view(&self) -> Set<Permission> {
        self.allowed@.to_set()
    }
}

impl Policy {
    /// A policy that grants exactly the listed permissions.
    pub fn allow_list<const N: usize>(permissions: [Permission; N]) -> (p: Self)
        ensures
            p@ == permissions@.to_set(),
    {
        let mut allowed: Vec<Permission> = Vec::new();
        let mut i: usize = 0;
        while i < N
            invariant
                i <= N,
                N == permissions@.len(),
                allowed@ == permissions@.take(i as int),
            decreases N - i,
        {
            allowed.push(permissions[i]);
            assert(permissions@.take(i + 1) == permissions@.take(i as int).push(permissions@[i as int]));
            i += 1;
        }
        assert(permissions@.take(N as int) == permissions@);
        Policy { allowed }
    }

    /// Whether the policy grants `permission`.
    pub fn allows(&self, permission: &Permission) -> (r: bool)
        ensures
            r == self@.contains(*permission),
    {
        let n = self.allowed.len();
        for i in 0..n
            invariant
                n == self.allowed@.len(),
                forall|j: int| 0 <= j < i ==> self.allowed@[j] != *permission,
        {
            if self.allowed[i] == *permission {
                assert(self.allowed@.contains(*permission));
                return true;
            }
        }
        false
    }
}

} // verus!
