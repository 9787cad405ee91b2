//! Elections and the pages that show them.

use vstd::prelude::*;
use vstd::string::*;

verus! {

/// An election, owned by the user who created it.
pub struct Election {
    pub uuid: String,
    pub name: String,
    pub owner_uuid: String,
}

impl Election {
    /// The page that shows the election: `/elections/` and its uuid.
    pub fn page_path(&self) -> (r: String)
        ensures
            r@ == "/elections/"@ + self.uuid@,
    {
        let mut path = String::from_str("/elections/");
        path.append(self.uuid.as_str());
        path
    }

    /// The page on which voters rank the options: `/voting/` and its uuid.
    pub fn voting_path(&self) -> (r: String)
        ensures
            r@ == "/voting/"@ + self.uuid@,
    {
        let mut path = String::from_str("/voting/");
        path.append(self.uuid.as_str());
        path
    }
}

} // verus!
