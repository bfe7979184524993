use crate::ids::{ResourceID, ID_SPACE};
use vstd::prelude::*;

verus! {

/// The table of all resource types and their display names, by identifier.
#[derive(Debug)]
pub struct AllResources {
    names: Vec<Option<String>>,
}

impl AllResources {
    pub open spec fn wf(&self) -> bool {
        self.spec_names().len() == ID_SPACE
    }

    /// Entry `i` is the name of resource type `i`, if there is one.
    pub closed spec fn spec_names(&self) -> Seq<Option<Seq<char>>> {
        self.names@.map_values(|n: Option<String>| match n {
            Some(s) => Some(s@),
            None => None,
        })
    }

    pub open spec fn spec_has(&self, id: ResourceID) -> bool {
        self.spec_names()[id.0 as int] is Some
    }

    /// A table without any resource type.
    pub fn new() -> (r: AllResources)
        ensures
            r.wf(),
            forall|i: int| 0 <= i < ID_SPACE ==> #[trigger] r.spec_names()[i] is None,
    {
        let mut names: Vec<Option<String>> = Vec::new();
        let mut i: usize = 0;
        while i < ID_SPACE
            invariant
                i <= ID_SPACE,
                names@.len() == i,
                forall|k: int| 0 <= k < i ==> #[trigger] names@[k] is None,
            decreases ID_SPACE - i,
        {
            names.push(None);
            i = i + 1;
        }
        AllResources { names }
    }

    /// Names resource type `id`, in place of any earlier name.
    pub fn insert(&mut self, id: ResourceID, name: String)
        requires
            old(self).wf(),
        ensures
            final(self).wf(),
            final(self).spec_names() == old(self).spec_names().update(id.0 as int, Some(name@)),
    {
        self.names.set(id.0 as usize, Some(name));
        assert(self.spec_names() =~= old(self).spec_names().update(id.0 as int, Some(name@)));
    }

    /// Whether resource type `id` exists.
    pub fn contains(&self, id: ResourceID) -> (r: bool)
        requires
            self.wf(),
        ensures
            r == self.spec_has(id),
    {
        self.names[id.0 as usize].is_some()
    }

    /// The display name of resource type `id`, if it exists.
    pub fn name(&self, id: ResourceID) -> (r: Option<&String>)
        requires
            self.wf(),
        ensures
            r matches Some(s) ==> self.spec_names()[id.0 as int] == Some(s@),
            r is None ==> !self.spec_has(id),
    {
        match &self.names[id.0 as usize] {
            Some(s) => Some(s),
            None => None,
        }
    }
}

} // verus!
