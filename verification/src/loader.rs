//! The program-image table consulted by `exec` and `spawn`: a lookup from
//! exact program name to an image handle. The image bytes themselves live
//! with the external loader; this core only resolves names.

use vstd::prelude::*;

verus! {

/// The table of known program images, looked up by exact name.
#[derive(Debug)]
pub struct Loader {
    /// The known program names; the image handle of a name is its index.
    pub apps: Vec<String>,
}

impl Loader {
    /// Whether some known program bears exactly this name.
    pub open spec fn resolves(self, name: Seq<char>) -> bool {
        exists|j: int| 0 <= j < self.apps@.len() && #[trigger] self.apps@[j]@ == name
    }

    /// An empty table.
    pub fn new() -> (r: Loader)
        ensures
            r.apps@.len() == 0,
    {
        Loader { apps: Vec::new() }
    }

    /// Register one program image under `name`; its handle is returned.
    pub fn add_app(&mut self, name: String) -> (r: usize)
        ensures
            final(self).apps@ == old(self).apps@.push(name),
            r == old(self).apps@.len(),
    {
        let r = self.apps.len();
        self.apps.push(name);
        r
    }

    /// Resolve a program name to its image handle: the first entry whose
    /// name matches exactly, or none when no entry matches.
    pub fn get_app_data_by_name(&self, name: &String) -> (r: Option<usize>)
        ensures
            r is Some <==> self.resolves(name@),
            r matches Some(i) ==> {
                &&& i < self.apps@.len()
                &&& self.apps@[i as int]@ == name@
                &&& forall|j: int| 0 <= j < i ==> #[trigger] self.apps@[j]@ != name@
            },
    {
        let mut i: usize = 0;
        while i < self.apps.len()
            invariant
                i <= self.apps.len(),
                forall|j: int| 0 <= j < i ==> #[trigger] self.apps@[j]@ != name@,
            decreases self.apps.len() - i,
        {
            if self.apps[i].eq(name) {
                return Some(i);
            }
            i = i + 1;
        }
        None
    }
}

} // verus!
