//! The bus selection page: the configured bus names in lexicographic
//! order, with a selection cursor and a scroll position.

use vstd::prelude::*;

use crate::leo_config::LeoConfig;
use crate::text::{sort_lex, sort_strings, string_views};

verus! {

/// The names of a configuration list's buses.
pub open spec fn bus_keys(buses: Seq<(String, LeoConfig)>) -> Seq<Seq<char>> {
    buses.map_values(|e: (String, LeoConfig)| e.0@)
}

/// The bus selection page state.
#[derive(Debug)]
pub struct BusSelectState {
    pub buses: Vec<String>,
    pub bus_selected_index: usize,
    pub vertical_scroll: usize,
}

impl BusSelectState {
    /// Lists the configured bus names in lexicographic order, with the
    /// cursor and scroll at the top.
    pub fn new(buses: &Vec<(String, LeoConfig)>) -> (r: Self)
        ensures
            string_views(r.buses@) == sort_lex(bus_keys(buses@)),
            r.bus_selected_index == 0,
            r.vertical_scroll == 0,
    {
        let n = buses.len();
        let mut names: Vec<String> = Vec::new();
        let mut i: usize = 0;
        while i < n
            invariant
                i <= n,
                n == buses@.len(),
                names@.len() == i,
                forall|j: int| 0 <= j < i ==> #[trigger] names@[j] == buses@[j].0,
            decreases n - i,
        {
            names.push(buses[i].0.clone());
            i = i + 1;
        }
        proof {
            assert(string_views(names@) =~= bus_keys(buses@));
        }
        let sorted = sort_strings(&names);
        Self { buses: sorted, bus_selected_index: 0, vertical_scroll: 0 }
    }
}

} // verus!
