//! The class registry: a mapping from class name to base stats,
//! rebuilt wholesale from a JSON object.
//!
//! A bulk import replaces the registry atomically: either the text
//! parses as a JSON object and the registry becomes exactly the set of
//! entries whose required fields are present and well typed (the rest
//! are skipped and counted), or the text does not parse as an object
//! and the registry is left untouched.

use vstd::prelude::*;

use crate::stats::Stats;
use crate::stats::StatsModel;
use crate::text::chars_of;
use crate::text::find_char_from;
use crate::text::find_char_at;
use crate::text::find_sub;
use crate::text::find_sub_at;
use crate::text::lemma_find_char_from_some;
use crate::text::lemma_find_sub_from_some;
use crate::text::opt_i32_matches;
use crate::text::parse_i32_spec;
use crate::text::parse_trimmed_range;
use crate::text::trimmed;

verus! {

/// Mathematical image of a `RawEntry`.
pub struct RawEntryModel {
    pub attack: Option<i64>,
    pub min_dmg: Option<i64>,
    pub max_dmg: Option<i64>,
    pub defence: Option<i64>,
    pub health: Option<i64>,
    pub luck: Option<i64>,
    pub leadership: Option<i64>,
    pub description: Option<Seq<char>>,
}

/// One class entry of an import payload, reduced to plain fields: each
/// field holds the integer (or the description string) if the payload
/// has it with that type, and nothing otherwise.
pub struct RawEntry {
    pub attack: Option<i64>,
    pub min_dmg: Option<i64>,
    pub max_dmg: Option<i64>,
    pub defence: Option<i64>,
    pub health: Option<i64>,
    pub luck: Option<i64>,
    pub leadership: Option<i64>,
    pub description: Option<String>,
}

impl View for RawEntry {
    type V = RawEntryModel;

    open spec fn view(&self) -> RawEntryModel {
        RawEntryModel {
            attack: self.attack,
            min_dmg: self.min_dmg,
            max_dmg: self.max_dmg,
            defence: self.defence,
            health: self.health,
            luck: self.luck,
            leadership: self.leadership,
            description: match self.description {
                Some(d) => Some(d@),
                None => None,
            },
        }
    }
}

#[verifier::external_type_specification]
#[verifier::external_body]
pub struct ExValue(serde_json::Value);

/// What a JSON class-table text holds: the name and raw fields of each
/// entry of the top-level object, in the order the parser yields them,
/// or nothing if the text does not parse as a JSON object.
pub uninterp spec fn json_classes(s: Seq<char>) -> Option<Seq<(Seq<char>, RawEntryModel)>>;

/// The raw class fields a parsed JSON value holds.
pub uninterp spec fn entry_fields(v: serde_json::Value) -> RawEntryModel;

/// The model of a parsed entry list: each name with the fields of its
/// value.
pub open spec fn entries_model(v: Seq<(String, serde_json::Value)>) -> Seq<
    (Seq<char>, RawEntryModel),
> {
    v.map(|i: int, p: (String, serde_json::Value)| (p.0@, entry_fields(p.1)))
}

/// Relies on serde_json::from_str and the Object variant of
/// serde_json::Value: the text either parses as a JSON document whose
/// top level is an object, yielding its entries in order, or the call
/// reports failure; the outcome depends on the text alone.
#[verifier::external_body]
fn parse_object(json: &str) -> (r: Option<Vec<(String, serde_json::Value)>>)
    ensures
        match r {
            Some(v) => json_classes(json@) == Some(entries_model(v@)),
            None => json_classes(json@) is None,
        },
{
    let parsed: serde_json::Value = match serde_json::from_str(json) {
        Ok(v) => v,
        Err(_) => return None,
    };
    match parsed {
        serde_json::Value::Object(m) => Some(m.into_iter().collect()),
        _ => None,
    }
}

/// Relies on serde_json's index operator and the as_i64/as_str
/// accessors: indexing a value by a key yields the member of that name
/// (or null), as_i64 yields the number if it is representable as i64,
/// and as_str yields the string if the value is one.
#[verifier::external_body]
fn extract_fields(v: &serde_json::Value) -> (r: RawEntry)
    ensures
        r@ == entry_fields(*v),
{
    RawEntry {
        attack: v["attack"].as_i64(),
        min_dmg: v["min_dmg"].as_i64(),
        max_dmg: v["max_dmg"].as_i64(),
        defence: v["defence"].as_i64(),
        health: v["health"].as_i64(),
        luck: v["luck"].as_i64(),
        leadership: v["leadership"].as_i64(),
        description: v["description"].as_str().map(|s| s.to_string()),
    }
}

/// The label that precedes a luck value in an old-style description.
pub open spec fn luck_marker() -> Seq<char> {
    "Удача:"@
}

/// The label that precedes a leadership value in an old-style
/// description.
pub open spec fn leadership_marker() -> Seq<char> {
    "Лидерство:"@
}

/// The number written after the first occurrence of `pat` and before
/// the next comma, with surrounding whitespace ignored: nothing if the
/// label or the comma is absent or the text between them is not a
/// 32-bit integer.
pub open spec fn marker_value(s: Seq<char>, pat: Seq<char>) -> Option<int> {
    match find_sub(s, pat) {
        None => None,
        Some(i) => {
            let start = i + pat.len();
            match find_char_from(s, ',', start as int) {
                None => None,
                Some(j) => parse_i32_spec(trimmed(s.subrange(start as int, j))),
            }
        },
    }
}

/// Reads the labelled number out of `cs`, as `marker_value` describes.
fn marker_value_in(cs: &Vec<char>, pat: &str) -> (r: Option<i32>)
    ensures
        opt_i32_matches(r, marker_value(cs@, pat@)),
{
    let pv = chars_of(pat);
    let cs_len = cs.len();
    match find_sub_at(cs, &pv) {
        None => None,
        Some(i) => {
            proof {
                lemma_find_sub_from_some(cs@, pv@, 0, i as int);
                assert(i + pv@.len() <= cs_len);
            }
            let start = i + pv.len();
            match find_char_at(cs, ',', start) {
                None => None,
                Some(j) => {
                    proof {
                        lemma_find_char_from_some(cs@, ',', start as int, j as int);
                    }
                    parse_trimmed_range(cs, start, j)
                },
            }
        },
    }
}

/// Turns one raw entry into class stats: nothing unless the five
/// required numbers and the description are present; luck and
/// leadership fall back, independently of one another, to the labelled
/// numbers in the description, and to zero; absorb always starts at
/// zero.
pub open spec fn stats_of_entry(e: RawEntryModel) -> Option<StatsModel> {
    match e.description {
        None => None,
        Some(desc) => {
            if e.attack is None || e.min_dmg is None || e.max_dmg is None || e.defence is None
                || e.health is None {
                None
            } else {
                Some(
                    StatsModel {
                        attack: e.attack->0 as i32 as int,
                        min_dmg: e.min_dmg->0 as i32 as int,
                        max_dmg: e.max_dmg->0 as i32 as int,
                        defense: e.defence->0 as i32 as int,
                        health: e.health->0 as i32 as int,
                        luck: resolved_luck(e, desc),
                        leadership: resolved_leadership(e, desc),
                        absorb: 0,
                        desc: desc,
                    },
                )
            }
        },
    }
}

/// Zero when the fallback parse found nothing.
pub open spec fn fallback(m: Option<int>) -> int {
    match m {
        Some(v) => v,
        None => 0,
    }
}

/// The luck a parsed entry resolves to: the explicit field if present,
/// else the labelled number in the description, else zero.
pub open spec fn resolved_luck(e: RawEntryModel, desc: Seq<char>) -> int {
    match e.luck {
        Some(v) => v as i32 as int,
        None => fallback(marker_value(desc, luck_marker())),
    }
}

/// The leadership a parsed entry resolves to, under the same policy as
/// the luck.
pub open spec fn resolved_leadership(e: RawEntryModel, desc: Seq<char>) -> int {
    match e.leadership {
        Some(v) => v as i32 as int,
        None => fallback(marker_value(desc, leadership_marker())),
    }
}

/// Turns one raw import entry into class stats, or nothing if a
/// required field is missing, exactly as `stats_of_entry` says.
pub fn deser_stats(raw: &RawEntry) -> (r: Option<Stats>)
    ensures
        match r {
            Some(st) => stats_of_entry(raw@) == Some(st@),
            None => stats_of_entry(raw@) is None,
        },
{
    let desc: String = match &raw.description {
        Some(d) => d.clone(),
        None => {
            return None;
        },
    };
    let luck: i32 = match raw.luck {
        Some(v) => #[verifier::truncate] (v as i32),
        None => {
            match Calc::parse_old_luck_and_leadership(&desc).0 {
                Some(v) => v,
                None => 0,
            }
        },
    };
    let leadership: i32 = match raw.leadership {
        Some(v) => #[verifier::truncate] (v as i32),
        None => {
            match Calc::parse_old_luck_and_leadership(&desc).1 {
                Some(v) => v,
                None => 0,
            }
        },
    };
    let attack: i32 = match raw.attack {
        Some(v) => #[verifier::truncate] (v as i32),
        None => {
            return None;
        },
    };
    let min_dmg: i32 = match raw.min_dmg {
        Some(v) => #[verifier::truncate] (v as i32),
        None => {
            return None;
        },
    };
    let max_dmg: i32 = match raw.max_dmg {
        Some(v) => #[verifier::truncate] (v as i32),
        None => {
            return None;
        },
    };
    let defense: i32 = match raw.defence {
        Some(v) => #[verifier::truncate] (v as i32),
        None => {
            return None;
        },
    };
    let health: i32 = match raw.health {
        Some(v) => #[verifier::truncate] (v as i32),
        None => {
            return None;
        },
    };
    Some(
        Stats {
            attack,
            min_dmg,
            max_dmg,
            defense,
            health,
            luck,
            leadership,
            absorb: 0,
            desc,
        },
    )
}

/// The mapping a list of name/stats pairs denotes; a later entry with
/// the same name wins.
pub open spec fn classes_map(entries: Seq<(String, Stats)>) -> Map<Seq<char>, StatsModel>
    decreases entries.len(),
{
    if entries.len() == 0 {
        Map::empty()
    } else {
        classes_map(entries.drop_last()).insert(entries.last().0@, entries.last().1@)
    }
}

/// The registry an import payload denotes: every entry whose fields
/// parse, keyed by name, later entries winning.
pub open spec fn import_map(es: Seq<(Seq<char>, RawEntryModel)>) -> Map<Seq<char>, StatsModel>
    decreases es.len(),
{
    if es.len() == 0 {
        Map::empty()
    } else {
        let m = import_map(es.drop_last());
        match stats_of_entry(es.last().1) {
            Some(st) => m.insert(es.last().0, st),
            None => m,
        }
    }
}

/// How many entries of an import payload fail to parse.
pub open spec fn import_errors(es: Seq<(Seq<char>, RawEntryModel)>) -> int
    decreases es.len(),
{
    if es.len() == 0 {
        0int
    } else {
        import_errors(es.drop_last()) + if stats_of_entry(es.last().1) is None {
            1int
        } else {
            0int
        }
    }
}

/// The class registry. Its view is the mapping from class name to
/// base stats.
pub struct Calc {
    classes: Vec<(String, Stats)>,
}

impl View for Calc {
    type V = Map<Seq<char>, StatsModel>;

    closed spec fn view(&self) -> Map<Seq<char>, StatsModel> {
        classes_map(self.classes@)
    }
}

impl Default for Calc {
    /// An empty registry.
    fn default() -> (r: Calc)
        ensures
            r@ == Map::<Seq<char>, StatsModel>::empty(),
    {
        Calc { classes: Vec::new() }
    }
}

/// What a map holds at a key, or nothing.
pub open spec fn map_get<K, V>(m: Map<K, V>, k: K) -> Option<V> {
    if m.contains_key(k) {
        Some(m[k])
    } else {
        None
    }
}

impl Calc {
    /// Replaces the registry from a JSON class table and reports how
    /// many entries were skipped, or `-1` — registry untouched — if
    /// the text does not parse as a JSON object. The count saturates
    /// at the largest `i32`.
    pub fn update(&mut self, json: &str) -> (r: i32)
        ensures
            json_classes(json@) is None ==> r == -1 && final(self)@ == old(self)@,
            json_classes(json@) matches Some(es) ==> {
                &&& final(self)@ == import_map(es)
                &&& r as int == vstd::math::min(import_errors(es), 0x7fffffff)
            },
    {
        match parse_object(json) {
            None => -1,
            Some(entries) => {
                let ghost es = entries_model(entries@);
                let n = entries.len();
                let mut nc: Vec<(String, Stats)> = Vec::new();
                let mut errs: usize = 0;
                let mut i: usize = 0;
                while i < n
                    invariant
                        n == entries@.len(),
                        es == entries_model(entries@),
                        0 <= i <= n,
                        errs <= i,
                        classes_map(nc@) == import_map(es.take(i as int)),
                        errs == import_errors(es.take(i as int)),
                    decreases n - i,
                {
                    proof {
                        assert(es.take(i + 1).drop_last() =~= es.take(i as int));
                        assert(es.take(i + 1).last() == es[i as int]);
                        assert(es[i as int] == (entries@[i as int].0@, entry_fields(
                            entries@[i as int].1,
                        )));
                    }
                    let raw = extract_fields(&entries[i].1);
                    match deser_stats(&raw) {
                        Some(st) => {
                            let ghost nc0 = nc@;
                            let name = entries[i].0.clone();
                            nc.push((name, st));
                            proof {
                                assert(nc@.drop_last() =~= nc0);
                                assert(classes_map(nc@) == classes_map(nc0).insert(
                                    nc@.last().0@,
                                    nc@.last().1@,
                                ));
                            }
                        },
                        None => {
                            errs = errs + 1;
                        },
                    }
                    i = i + 1;
                }
                proof {
                    assert(es.take(n as int) =~= es);
                }
                self.classes = nc;
                if errs > 0x7fffffff {
                    0x7fffffff
                } else {
                    errs as i32
                }
            },
        }
    }

    /// The numbers written after the luck and leadership labels of an
    /// old-style description, each up to the next comma, or nothing
    /// for a label that is absent or not followed by a comma-ended
    /// number.
    pub fn parse_old_luck_and_leadership(desc: &String) -> (r: (Option<i32>, Option<i32>))
        ensures
            opt_i32_matches(r.0, marker_value(desc@, luck_marker())),
            opt_i32_matches(r.1, marker_value(desc@, leadership_marker())),
    {
        let cs = chars_of(desc.as_str());
        let luck = marker_value_in(&cs, "Удача:");
        let leadership = marker_value_in(&cs, "Лидерство:");
        (luck, leadership)
    }

    /// The base stats registered under a class name, if any.
    pub fn lookup(&self, name: &String) -> (r: Option<&Stats>)
        ensures
            match r {
                Some(st) => self@.contains_key(name@) && st@ == self@[name@],
                None => !self@.contains_key(name@),
            },
    {
        let n = self.classes.len();
        proof {
            assert(self.classes@.take(n as int) =~= self.classes@);
        }
        let mut i: usize = n;
        while i > 0
            invariant
                0 <= i <= n == self.classes@.len(),
                map_get(classes_map(self.classes@), name@) == map_get(
                    classes_map(self.classes@.take(i as int)),
                    name@,
                ),
            decreases i,
        {
            proof {
                assert(self.classes@.take(i as int).drop_last() =~= self.classes@.take(i - 1));
                assert(self.classes@.take(i as int).last() == self.classes@[i - 1]);
            }
            if self.classes[i - 1].0 == *name {
                return Some(&self.classes[i - 1].1);
            }
            i = i - 1;
        }
        proof {
            assert(self.classes@.take(0) =~= Seq::<(String, Stats)>::empty());
        }
        None
    }
}

} // verus!
