//! Events: named snapshots of facts about one occurrence.
//!
//! An event maps part names (such as `player`, `did`, `on`, `at`) to scalar
//! values. Part names the rules do not know are tolerated and ignored.

use vstd::prelude::*;

use crate::named_map::{nm_from_pairs, NamedMap};
use crate::scalar::{Date, Time};

verus! {

#[derive(Clone, Copy, Debug, PartialEq, Eq, Structural)]
pub enum EventPartValue {
    DateBased(Date),
    NumberBased(u32),
    TimeBased(Time),
}

impl View for EventPartValue {
    type V = EventPartValue;

    open spec fn view(&self) -> EventPartValue {
        *self
    }
}

pub struct Event {
    pub parts: NamedMap<EventPartValue>,
}

impl View for Event {
    type V = Seq<(Seq<char>, EventPartValue)>;

    open spec fn view(&self) -> Self::V {
        self.parts@
    }
}

impl Event {
    pub fn new(parts: Vec<(String, EventPartValue)>) -> (r: Event)
        ensures
            r@ =~= nm_from_pairs(Seq::new(parts@.len(), |i: int| (parts@[i].0@, parts@[i].1))),
    {
        let ghost ps = parts@;
        let m = NamedMap::from_pairs(parts);
        proof {
            assert(Seq::new(ps.len(), |i: int| (ps[i].0@, ps[i].1@)) =~= Seq::new(
                ps.len(),
                |i: int| (ps[i].0@, ps[i].1),
            ));
        }
        Event { parts: m }
    }
}

} // verus!
