//! The configuration that a client is bootstrapped from.

use vstd::prelude::*;

verus! {

/// Where the cluster is to be found: the addresses of its endpoints.
///
/// A configuration is viewed as the sequence of its addresses.
#[derive(Debug, PartialEq, Eq)]
pub struct Config {
    endpoints: Vec<String>,
}

impl View for Config {
    type V = Seq<Seq<char>>;

    closed spec fn view(&self) -> Seq<Seq<char>> {
        self.endpoints@.map_values(|address: String| address@)
    }
}

impl Config {
    /// A configuration with the given endpoint addresses, in their order.
    pub fn new(endpoints: Vec<&str>) -> (config: Config)
        ensures
            config@ == endpoints@.map_values(|address: &str| address@),
    {
        let mut owned: Vec<String> = Vec::new();
        let mut i: usize = 0;
        while i < endpoints.len()
            invariant
                i <= endpoints.len(),
                owned.len() == i,
                forall|j: int| 0 <= j < i ==> owned[j]@ == endpoints[j]@,
            decreases endpoints.len() - i,
        {
            owned.push(endpoints[i].to_owned());
            i += 1;
        }
        let config = Config { endpoints: owned };
        assert(config@ =~= endpoints@.map_values(|address: &str| address@));
        config
    }

    /// The endpoint addresses.
    pub fn endpoints(&self) -> (addresses: &Vec<String>)
        ensures
            addresses@.map_values(|address: String| address@) == self@,
    {
        &self.endpoints
    }

    /// Whether the configuration names at least one endpoint.
    pub fn has_endpoints(&self) -> (named: bool)
        ensures
            named == (self@.len() > 0),
    {
        self.endpoints.len() > 0
    }
}

impl Default for Config {
    /// The configuration without endpoints.
    fn default() -> (config: Config)
        ensures
            config@ == Seq::<Seq<char>>::empty(),
    {
        let config = Config { endpoints: Vec::new() };
        assert(config@ =~= Seq::<Seq<char>>::empty());
        config
    }
}

impl Clone for Config {
    fn clone(&self) -> (copy: Config)
        ensures
            copy@ == self@,
    {
        let mut owned: Vec<String> = Vec::new();
        let mut i: usize = 0;
        while i < self.endpoints.len()
            invariant
                i <= self.endpoints.len(),
                owned.len() == i,
                forall|j: int| 0 <= j < i ==> owned[j]@ == self.endpoints[j]@,
            decreases self.endpoints.len() - i,
        {
            owned.push(self.endpoints[i].clone());
            i += 1;
        }
        let copy = Config { endpoints: owned };
        assert(copy@ =~= self@);
        copy
    }
}

} // verus!
