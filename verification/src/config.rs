//! The host configuration: where the rule, event and result files live, and
//! how many residual hits the debug instrumentation pads elements with.
//! Reading the command line stays with the host; this is the plain data it
//! produces.

use vstd::prelude::*;

verus! {

pub struct Config {
    pub rules: String,
    pub complex_rules: String,
    pub events: String,
    pub results: String,
    pub object_hits: u32,
    pub location_hits: u32,
    pub area_hits: u32,
}

impl Config {
    /// A configuration built from explicit values.
    pub fn new(
        rules: String,
        complex_rules: String,
        events: String,
        results: String,
        object_hits: u32,
        location_hits: u32,
        area_hits: u32,
    ) -> (r: Config)
        ensures
            r.rules@ == rules@,
            r.complex_rules@ == complex_rules@,
            r.events@ == events@,
            r.results@ == results@,
            r.object_hits == object_hits,
            r.location_hits == location_hits,
            r.area_hits == area_hits,
    {
        Config { rules, complex_rules, events, results, object_hits, location_hits, area_hits }
    }

    /// A fixed configuration for trying the engine out without a command
    /// line.
    pub fn dummy() -> (r: Config)
        ensures
            r.object_hits == 3,
            r.location_hits == 3,
            r.area_hits == 3,
    {
        Config {
            rules: "rules.txt".to_owned(),
            complex_rules: "complex_rules.txt".to_owned(),
            events: "events.txt".to_owned(),
            results: "results.txt".to_owned(),
            object_hits: 3,
            location_hits: 3,
            area_hits: 3,
        }
    }

    pub fn rules(&self) -> (r: &str)
        ensures
            r@ == self.rules@,
    {
        self.rules.as_str()
    }

    pub fn complex_rules(&self) -> (r: &str)
        ensures
            r@ == self.complex_rules@,
    {
        self.complex_rules.as_str()
    }

    pub fn events(&self) -> (r: &str)
        ensures
            r@ == self.events@,
    {
        self.events.as_str()
    }

    pub fn results(&self) -> (r: &str)
        ensures
            r@ == self.results@,
    {
        self.results.as_str()
    }

    pub fn object_hits(&self) -> (r: u32)
        ensures
            r == self.object_hits,
    {
        self.object_hits
    }

    pub fn location_hits(&self) -> (r: u32)
        ensures
            r == self.location_hits,
    {
        self.location_hits
    }

    pub fn area_hits(&self) -> (r: u32)
        ensures
            r == self.area_hits,
    {
        self.area_hits
    }
}

} // verus!
