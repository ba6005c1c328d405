//! Object identities and versions.
use vstd::prelude::*;

verus! {

/// Version of an object: a counter that grows with every successful write.
#[derive(Debug, Clone, Copy, PartialEq, Eq, Structural, Hash, PartialOrd, Ord)]
pub struct ObjectVersion(pub u64);

/// A stored value tagged with the version that wrote it.
#[derive(Debug, Clone)]
pub struct VersionedValue {
    pub version: ObjectVersion,
    pub content: Vec<u8>,
}

impl View for VersionedValue {
    type V = (ObjectVersion, Seq<u8>);

    open spec fn view(&self) -> (ObjectVersion, Seq<u8>) {
        (self.version, self.content@)
    }
}

/// The model of an optional value.
pub open spec fn opt_view(v: Option<VersionedValue>) -> Option<(ObjectVersion, Seq<u8>)> {
    match v {
        Some(x) => Some(x@),
        None => None,
    }
}

/// Returns whether two payloads hold the same bytes.
pub fn same_content(a: &Vec<u8>, b: &Vec<u8>) -> (r: bool)
    ensures
        r == (a@ == b@),
{
    if a.len() != b.len() {
        return false;
    }
    let mut i: usize = 0;
    while i < a.len()
        invariant
            a@.len() == b@.len(),
            i <= a@.len(),
            forall|j: int| 0 <= j < i ==> a@[j] == b@[j],
        decreases a@.len() - i,
    {
        if a[i] != b[i] {
            return false;
        }
        i = i + 1;
    }
    assert(a@ =~= b@);
    true
}

/// Copies a value, keeping its version and payload.
pub fn copy_value(v: &VersionedValue) -> (r: VersionedValue)
    ensures
        r@ == v@,
{
    let content = v.content.clone();
    assert(content@ =~= v.content@);
    VersionedValue { version: v.version, content }
}

} // verus!
