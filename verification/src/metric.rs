//! The metric metadata record: an opaque id, the dotted name, a key/value
//! configuration that must carry a `retention` entry, and the two
//! second-resolution timestamps.

use vstd::prelude::*;
use crate::stage::{spec_stage_of, stage_fits, valid_stage_str, Stage};
use crate::text::{is_split, pair_views, split_on, views_of};

verus! {

/// First-match lookup in a key/value pair list.
pub open spec fn cfg_lookup(pairs: Seq<(Seq<char>, Seq<char>)>, key: Seq<char>) -> Option<
    Seq<char>,
>
    decreases pairs.len(),
{
    if pairs.len() == 0 {
        None
    } else if pairs[0].0 == key {
        Some(pairs[0].1)
    } else {
        cfg_lookup(pairs.drop_first(), key)
    }
}

/// Every part is a well-formed stage string whose numbers fit the fields.
pub open spec fn all_valid_stage_parts(parts: Seq<Seq<char>>) -> bool {
    forall|i: int|
        0 <= i < parts.len() ==> valid_stage_str(#[trigger] parts[i]) && stage_fits(parts[i])
}

/// `stages` are exactly the stages the parts denote, in order.
pub open spec fn stages_match(stages: Seq<Stage>, parts: Seq<Seq<char>>) -> bool {
    stages.len() == parts.len() && (forall|i: int|
        0 <= i < parts.len() ==> stages[i] == spec_stage_of(#[trigger] parts[i]))
}

/// What [`Metric::stages`] returns for a retention value `ret` that splits on
/// `:` into `parts`: the parsed stages when every part is well formed, the
/// malformed-retention error otherwise.
pub open spec fn stages_outcome(
    ret: Seq<char>,
    parts: Seq<Seq<char>>,
    r: Result<Vec<Stage>, String>,
) -> bool {
    &&& is_split(ret, ':', parts)
    &&& all_valid_stage_parts(parts) ==> (r matches Ok(v) && stages_match(v@, parts))
    &&& !all_valid_stage_parts(parts) ==> (r matches Err(e) && e@ == "invalid retention string"@)
}

#[derive(Debug)]
pub struct Metric {
    id: String,
    name: String,
    config: Vec<(String, String)>,
    created_on: u64,
    updated_on: u64,
}

impl Metric {
    pub closed spec fn spec_id(self) -> Seq<char> {
        self.id@
    }

    pub closed spec fn spec_name(self) -> Seq<char> {
        self.name@
    }

    pub closed spec fn spec_config(self) -> Seq<(Seq<char>, Seq<char>)> {
        pair_views(self.config@)
    }

    pub closed spec fn spec_created_on(self) -> u64 {
        self.created_on
    }

    pub closed spec fn spec_updated_on(self) -> u64 {
        self.updated_on
    }

    pub fn new(
        id: String,
        name: String,
        config: Vec<(String, String)>,
        created_on: u64,
        updated_on: u64,
    ) -> (m: Metric)
        ensures
            m.spec_id() == id@,
            m.spec_name() == name@,
            m.spec_config() == pair_views(config@),
            m.spec_created_on() == created_on,
            m.spec_updated_on() == updated_on,
    {
        Metric { id, name, config, created_on, updated_on }
    }

    pub fn id(&self) -> (r: &String)
        ensures
            r@ == self.spec_id(),
    {
        &self.id
    }

    pub fn name(&self) -> (r: &String)
        ensures
            r@ == self.spec_name(),
    {
        &self.name
    }

    pub fn updated_on(&self) -> (r: u64)
        ensures
            r == self.spec_updated_on(),
    {
        self.updated_on
    }

    /// All configuration entries, in stored order.
    pub fn config_entries(&self) -> (r: &Vec<(String, String)>)
        ensures
            pair_views(r@) == self.spec_config(),
    {
        &self.config
    }

    /// The configuration value under `name`: the first pair with that key,
    /// or an error when the key is absent.
    pub fn config(&self, name: String) -> (r: Result<String, String>)
        ensures
            cfg_lookup(self.spec_config(), name@) matches Some(v) ==> (r matches Ok(s) && s@
                == v),
            cfg_lookup(self.spec_config(), name@) is None ==> (r matches Err(e) && e@
                == "Invalid key"@),
    {
        let len = self.config.len();
        let ghost pairs = self.spec_config();
        proof {
            assert(pairs.skip(0) =~= pairs);
        }
        let mut i: usize = 0;
        while i < len
            invariant
                i <= len == self.config@.len(),
                pairs == pair_views(self.config@),
                cfg_lookup(pairs, name@) == cfg_lookup(pairs.skip(i as int), name@),
            decreases len - i,
        {
            proof {
                assert(pairs.skip(i as int)[0] == pairs[i as int]);
                assert(pairs[i as int] == (self.config@[i as int].0@, self.config@[i as int].1@));
                assert(pairs.skip(i as int).drop_first() =~= pairs.skip(i + 1));
            }
            if self.config[i].0 == name {
                proof {
                    assert(cfg_lookup(pairs.skip(i as int), name@) == Some(pairs[i as int].1));
                }
                return Ok(self.config[i].1.clone());
            }
            i = i + 1;
        }
        proof {
            assert(pairs.skip(len as int) =~= Seq::<(Seq<char>, Seq<char>)>::empty());
        }
        Err(String::from_str("Invalid key"))
    }

    /// The retention stages of the metric: the `retention` configuration
    /// value split on `:`, each part parsed as a stage. Absence of the key
    /// and a malformed part each give the matching error message.
    pub fn stages(&self) -> (r: Result<Vec<Stage>, String>)
        ensures
            cfg_lookup(self.spec_config(), "retention"@) is None ==> (r matches Err(e) && e@
                == "Invalid key"@),
            cfg_lookup(self.spec_config(), "retention"@) matches Some(ret) ==> exists|
                parts: Seq<Seq<char>>,
            | stages_outcome(ret, parts, r),
    {
        let retention = match self.config(String::from_str("retention")) {
            Ok(v) => v,
            Err(e) => {
                return Err(e);
            },
        };
        let parts = split_on(retention.as_str(), ':');
        let ghost pviews = views_of(parts@);
        proof {
            assert(cfg_lookup(self.spec_config(), "retention"@) is Some);
            assert(retention@ == cfg_lookup(self.spec_config(), "retention"@)->Some_0);
            assert(is_split(cfg_lookup(self.spec_config(), "retention"@)->Some_0, ':', pviews));
        }
        let count = parts.len();
        let mut out: Vec<Stage> = Vec::new();
        let mut i: usize = 0;
        while i < count
            invariant
                i <= count == parts@.len(),
                pviews == views_of(parts@),
                cfg_lookup(self.spec_config(), "retention"@) == Some(retention@),
                is_split(retention@, ':', pviews),
                out@.len() == i,
                forall|k: int|
                    0 <= k < i ==> valid_stage_str(#[trigger] pviews[k]) && stage_fits(pviews[k]),
                forall|k: int| 0 <= k < i ==> out@[k] == spec_stage_of(#[trigger] pviews[k]),
            decreases count - i,
        {
            proof {
                assert(pviews[i as int] == parts@[i as int]@);
            }
            match Stage::parse(parts[i].as_str()) {
                Ok(st) => {
                    out.push(st);
                },
                Err(_) => {
                    let msg = String::from_str("invalid retention string");
                    proof {
                        assert(!(valid_stage_str(pviews[i as int]) && stage_fits(
                            pviews[i as int],
                        )));
                        assert(!all_valid_stage_parts(pviews));
                        let ret0 = cfg_lookup(self.spec_config(), "retention"@)->Some_0;
                        assert(ret0 == retention@);
                        assert(stages_outcome(ret0, pviews, Err::<Vec<Stage>, String>(msg)));
                        assert(exists|parts: Seq<Seq<char>>|
                            stages_outcome(ret0, parts, Err::<Vec<Stage>, String>(msg)));
                    }
                    return Err(msg);
                },
            }
            i = i + 1;
        }
        proof {
            assert(all_valid_stage_parts(pviews));
            assert(stages_match(out@, pviews));
            assert(stages_outcome(retention@, pviews, Ok::<Vec<Stage>, String>(out)));
        }
        Ok(out)
    }
}

} // verus!
