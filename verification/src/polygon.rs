//! Which ways bound an area.
//!
//! A way bounds an area where it is a closed ring, or where one of its tags
//! says so. What a tag says depends on its key: for some keys every value
//! speaks of an area, for some only a few values do, and for some all but a
//! few. The value `no` never does, and neither does the empty value.

use vstd::prelude::*;
use crate::elements::{Tag, TagView, UnresolvedReference, Way, WayView};
use crate::text::same_text;

verus! {

/// How the values of a key are told apart.
#[derive(Debug, PartialEq, Eq, Copy, Clone, Structural)]
pub enum RuleType {
    /// Every value but the empty one speaks of an area.
    All,
    /// Every value but the listed ones and the empty one speaks of an area.
    Blacklist,
    /// Only the listed values speak of an area.
    Whitelist,
}

/// The rule for one key. `values` lists up to six values; a place that is
/// not used holds the empty text.
#[derive(Debug, PartialEq, Eq, Copy, Clone)]
pub struct Rule {
    pub key: &'static str,
    pub polygon: RuleType,
    pub values: [&'static str; 6],
}

/// What the values of a key say.
pub enum Policy {
    /// Every value but the empty one speaks of an area.
    All,
    /// Only the listed values speak of an area.
    Whitelist(Seq<Seq<char>>),
    /// Every value but the listed ones and the empty one speaks of an area.
    Blacklist(Seq<Seq<char>>),
}

/// The policy for the values of `key`, where there is one.
pub open spec fn policy(key: Seq<char>) -> Option<Policy> {
    if key == "building"@ {
        Some(Policy::All)
    } else if key == "highway"@ {
        Some(Policy::Whitelist(seq!["services"@, "rest_area"@, "escape"@, "elevator"@]))
    } else if key == "natural"@ {
        Some(
            Policy::Blacklist(seq!["coastline"@, "cliff"@, "ridge"@, "arete"@, "tree_row"@]),
        )
    } else if key == "landuse"@ {
        Some(Policy::All)
    } else if key == "waterway"@ {
        Some(Policy::Whitelist(seq!["riverbank"@, "dock"@, "boatyard"@, "dam"@]))
    } else if key == "amenity"@ {
        Some(Policy::All)
    } else if key == "leisure"@ {
        Some(Policy::All)
    } else if key == "barrier"@ {
        Some(
            Policy::Whitelist(
                seq![
                    "city_wall"@,
                    "ditch"@,
                    "hedge"@,
                    "retaining_wall"@,
                    "wall"@,
                    "spikes"@,
                ],
            ),
        )
    } else if key == "railway"@ {
        Some(Policy::Whitelist(seq!["station"@, "turntable"@, "roundhouse"@, "platform"@]))
    } else if key == "area"@ {
        Some(Policy::All)
    } else if key == "boundary"@ {
        Some(Policy::All)
    } else if key == "man_made"@ {
        Some(Policy::Blacklist(seq!["cutline"@, "embankment"@, "pipeline"@]))
    } else if key == "power"@ {
        Some(Policy::Whitelist(seq!["plant"@, "substation"@, "generator"@, "transformer"@]))
    } else if key == "place"@ {
        Some(Policy::All)
    } else if key == "shop"@ {
        Some(Policy::All)
    } else if key == "aeroway"@ {
        Some(Policy::Blacklist(seq!["taxiway"@]))
    } else if key == "tourism"@ {
        Some(Policy::All)
    } else if key == "historic"@ {
        Some(Policy::All)
    } else if key == "public_transport"@ {
        Some(Policy::All)
    } else if key == "office"@ {
        Some(Policy::All)
    } else if key == "building:part"@ {
        Some(Policy::All)
    } else if key == "military"@ {
        Some(Policy::All)
    } else if key == "ruins"@ {
        Some(Policy::All)
    } else if key == "area:highway"@ {
        Some(Policy::All)
    } else if key == "craft"@ {
        Some(Policy::All)
    } else if key == "golf"@ {
        Some(Policy::All)
    } else {
        None
    }
}

/// Whether `val` speaks of an area under `policy`.
pub open spec fn permits(policy: Policy, val: Seq<char>) -> bool {
    match policy {
        Policy::All => val.len() > 0,
        Policy::Whitelist(listed) => listed.contains(val),
        Policy::Blacklist(listed) => val.len() > 0 && !listed.contains(val),
    }
}

/// Whether a tag speaks of an area: its key has a policy, its value is not
/// `no`, and the policy lets the value through. No policy lets the empty
/// value through.
pub open spec fn tag_is_area(tag: TagView) -> bool {
    tag.val != "no"@ && match policy(tag.key) {
        Some(policy) => permits(policy, tag.val),
        None => false,
    }
}

/// Whether a line through `nodes` ends where it starts.
pub open spec fn closes(nodes: Seq<UnresolvedReference>) -> bool {
    nodes.len() > 0 && nodes.first() == nodes.last()
}

/// Whether one of `tags` speaks of an area.
pub open spec fn tags_speak_of_area(tags: Seq<TagView>) -> bool {
    exists|i: int| 0 <= i < tags.len() && tag_is_area(#[trigger] tags[i])
}

/// Whether a way bounds an area: it is a closed ring, or one of its tags
/// speaks of an area.
pub open spec fn way_is_polygon(way: WayView) -> bool {
    closes(way.nodes) || tags_speak_of_area(way.tags)
}

impl Rule {
    /// Whether `val` speaks of an area under this rule, taken as it stands.
    pub open spec fn matches_value(self, val: Seq<char>) -> bool {
        match self.polygon {
            RuleType::All => val.len() > 0,
            RuleType::Whitelist => exists|i: int|
                0 <= i < 6 && (#[trigger] self.values[i])@.len() > 0 && self.values[i]@ == val,
            RuleType::Blacklist => forall|i: int| 0 <= i < 6 ==> (#[trigger] self.values[i])@ != val,
        }
    }

    /// Whether `values` holds `listed`, in order, and the empty text after it.
    pub open spec fn lists(self, listed: Seq<Seq<char>>) -> bool {
        &&& listed.len() <= 6
        &&& forall|i: int| 0 <= i < listed.len() ==> (#[trigger] listed[i]).len() > 0
        &&& forall|i: int|
            0 <= i < 6 ==> (#[trigger] self.values[i])@ == if i < listed.len() {
                listed[i]
            } else {
                Seq::empty()
            }
    }

    /// Whether this rule stands for `policy`.
    pub open spec fn encodes(self, policy: Policy) -> bool {
        match policy {
            Policy::All => self.polygon == RuleType::All,
            Policy::Whitelist(listed) => self.polygon == RuleType::Whitelist && self.lists(listed),
            Policy::Blacklist(listed) => self.polygon == RuleType::Blacklist && self.lists(listed)
                && listed.len() < 6,
        }
    }

    /// A rule lets through what the policy that it stands for lets through.
    pub proof fn lemma_encodes(self, policy: Policy, val: Seq<char>)
        requires
            self.encodes(policy),
        ensures
            self.matches_value(val) == permits(policy, val),
    {
        match policy {
            Policy::All => {},
            Policy::Whitelist(listed) => {
                if listed.contains(val) {
                    let i = choose|i: int| 0 <= i < listed.len() && listed[i] == val;
                    assert(self.values[i]@ == val);
                }
            },
            Policy::Blacklist(listed) => {
                if self.matches_value(val) {
                    assert(self.values[5]@ != val);
                    if val.len() == 0 {
                        assert(val =~= Seq::empty());
                    }
                    if listed.contains(val) {
                        let i = choose|i: int| 0 <= i < listed.len() && listed[i] == val;
                        assert(self.values[i]@ == val);
                    }
                }
            },
        }
    }
}

/// Whether the value of `tag` speaks of an area under `rule`.
pub fn has_matching_rule_value(rule: &Rule, tag: &Tag) -> (matching: bool)
    ensures
        matching == rule.matches_value(tag.val@),
{
    match rule.polygon {
        RuleType::All => {
            proof {
                reveal_strlit("");
                assert(tag.val@.len() == 0 ==> tag.val@ =~= ""@);
            }
            !same_text(tag.val.as_str(), "")
        },
        RuleType::Whitelist => {
            let mut i: usize = 0;
            while i < 6
                invariant
                    i <= 6,
                    rule.polygon == RuleType::Whitelist,
                    forall|j: int|
                        0 <= j < i ==> !((#[trigger] rule.values[j])@.len() > 0 && rule.values[j]@
                            == tag.val@),
                decreases 6 - i,
            {
                let val = rule.values[i];
                proof {
                    reveal_strlit("");
                    assert(val@.len() == 0 ==> val@ =~= ""@);
                }
                if !same_text(val, "") && same_text(val, tag.val.as_str()) {
                    return true;
                }
                i += 1;
            }
            false
        },
        RuleType::Blacklist => {
            let mut i: usize = 0;
            while i < 6
                invariant
                    i <= 6,
                    rule.polygon == RuleType::Blacklist,
                    forall|j: int| 0 <= j < i ==> (#[trigger] rule.values[j])@ != tag.val@,
                decreases 6 - i,
            {
                if same_text(rule.values[i], tag.val.as_str()) {
                    return false;
                }
                i += 1;
            }
            true
        },
    }
}

/// Whether the line through the nodes of `way` ends where it starts.
pub fn is_closed_loop(way: &Way) -> (closed: bool)
    ensures
        closed == closes(way@.nodes),
{
    let count = way.nodes.len();
    if count == 0 {
        return false;
    }
    way.nodes[0] == way.nodes[count - 1]
}

/// The texts that the rules list hold at least one character each, and the
/// empty text holds none.
proof fn lemma_listed_values()
    ensures
        ""@ == Seq::<char>::empty(),
        "services"@.len() > 0,
        "rest_area"@.len() > 0,
        "escape"@.len() > 0,
        "elevator"@.len() > 0,
        "coastline"@.len() > 0,
        "cliff"@.len() > 0,
        "ridge"@.len() > 0,
        "arete"@.len() > 0,
        "tree_row"@.len() > 0,
        "riverbank"@.len() > 0,
        "dock"@.len() > 0,
        "boatyard"@.len() > 0,
        "dam"@.len() > 0,
        "city_wall"@.len() > 0,
        "ditch"@.len() > 0,
        "hedge"@.len() > 0,
        "retaining_wall"@.len() > 0,
        "wall"@.len() > 0,
        "spikes"@.len() > 0,
        "station"@.len() > 0,
        "turntable"@.len() > 0,
        "roundhouse"@.len() > 0,
        "platform"@.len() > 0,
        "cutline"@.len() > 0,
        "embankment"@.len() > 0,
        "pipeline"@.len() > 0,
        "plant"@.len() > 0,
        "substation"@.len() > 0,
        "generator"@.len() > 0,
        "transformer"@.len() > 0,
        "taxiway"@.len() > 0,
{
    reveal_strlit("");
    reveal_strlit("services");
    reveal_strlit("rest_area");
    reveal_strlit("escape");
    reveal_strlit("elevator");
    reveal_strlit("coastline");
    reveal_strlit("cliff");
    reveal_strlit("ridge");
    reveal_strlit("arete");
    reveal_strlit("tree_row");
    reveal_strlit("riverbank");
    reveal_strlit("dock");
    reveal_strlit("boatyard");
    reveal_strlit("dam");
    reveal_strlit("city_wall");
    reveal_strlit("ditch");
    reveal_strlit("hedge");
    reveal_strlit("retaining_wall");
    reveal_strlit("wall");
    reveal_strlit("spikes");
    reveal_strlit("station");
    reveal_strlit("turntable");
    reveal_strlit("roundhouse");
    reveal_strlit("platform");
    reveal_strlit("cutline");
    reveal_strlit("embankment");
    reveal_strlit("pipeline");
    reveal_strlit("plant");
    reveal_strlit("substation");
    reveal_strlit("generator");
    reveal_strlit("transformer");
    reveal_strlit("taxiway");
}

/// The rule for `key`, where there is one.
pub fn rule_for(key: &str) -> (rule: Option<Rule>)
    ensures
        match policy(key@) {
            Some(policy) => rule matches Some(found) && found.key@ == key@ && found.encodes(policy),
            None => rule is None,
        },
{
    proof {
        lemma_listed_values();
    }
    if same_text(key, "building") {
        Some(Rule { key: "building", polygon: RuleType::All, values: ["", "", "", "", "", ""] })
    } else if same_text(key, "highway") {
        Some(Rule { key: "highway", polygon: RuleType::Whitelist, values: ["services", "rest_area", "escape", "elevator", "", ""] })
    } else if same_text(key, "natural") {
        Some(Rule { key: "natural", polygon: RuleType::Blacklist, values: ["coastline", "cliff", "ridge", "arete", "tree_row", ""] })
    } else if same_text(key, "landuse") {
        Some(Rule { key: "landuse", polygon: RuleType::All, values: ["", "", "", "", "", ""] })
    } else if same_text(key, "waterway") {
        Some(Rule { key: "waterway", polygon: RuleType::Whitelist, values: ["riverbank", "dock", "boatyard", "dam", "", ""] })
    } else if same_text(key, "amenity") {
        Some(Rule { key: "amenity", polygon: RuleType::All, values: ["", "", "", "", "", ""] })
    } else if same_text(key, "leisure") {
        Some(Rule { key: "leisure", polygon: RuleType::All, values: ["", "", "", "", "", ""] })
    } else if same_text(key, "barrier") {
        Some(Rule { key: "barrier", polygon: RuleType::Whitelist, values: ["city_wall", "ditch", "hedge", "retaining_wall", "wall", "spikes"] })
    } else if same_text(key, "railway") {
        Some(Rule { key: "railway", polygon: RuleType::Whitelist, values: ["station", "turntable", "roundhouse", "platform", "", ""] })
    } else if same_text(key, "area") {
        Some(Rule { key: "area", polygon: RuleType::All, values: ["", "", "", "", "", ""] })
    } else if same_text(key, "boundary") {
        Some(Rule { key: "boundary", polygon: RuleType::All, values: ["", "", "", "", "", ""] })
    } else if same_text(key, "man_made") {
        Some(Rule { key: "man_made", polygon: RuleType::Blacklist, values: ["cutline", "embankment", "pipeline", "", "", ""] })
    } else if same_text(key, "power") {
        Some(Rule { key: "power", polygon: RuleType::Whitelist, values: ["plant", "substation", "generator", "transformer", "", ""] })
    } else if same_text(key, "place") {
        Some(Rule { key: "place", polygon: RuleType::All, values: ["", "", "", "", "", ""] })
    } else if same_text(key, "shop") {
        Some(Rule { key: "shop", polygon: RuleType::All, values: ["", "", "", "", "", ""] })
    } else if same_text(key, "aeroway") {
        Some(Rule { key: "aeroway", polygon: RuleType::Blacklist, values: ["taxiway", "", "", "", "", ""] })
    } else if same_text(key, "tourism") {
        Some(Rule { key: "tourism", polygon: RuleType::All, values: ["", "", "", "", "", ""] })
    } else if same_text(key, "historic") {
        Some(Rule { key: "historic", polygon: RuleType::All, values: ["", "", "", "", "", ""] })
    } else if same_text(key, "public_transport") {
        Some(Rule { key: "public_transport", polygon: RuleType::All, values: ["", "", "", "", "", ""] })
    } else if same_text(key, "office") {
        Some(Rule { key: "office", polygon: RuleType::All, values: ["", "", "", "", "", ""] })
    } else if same_text(key, "building:part") {
        Some(Rule { key: "building:part", polygon: RuleType::All, values: ["", "", "", "", "", ""] })
    } else if same_text(key, "military") {
        Some(Rule { key: "military", polygon: RuleType::All, values: ["", "", "", "", "", ""] })
    } else if same_text(key, "ruins") {
        Some(Rule { key: "ruins", polygon: RuleType::All, values: ["", "", "", "", "", ""] })
    } else if same_text(key, "area:highway") {
        Some(Rule { key: "area:highway", polygon: RuleType::All, values: ["", "", "", "", "", ""] })
    } else if same_text(key, "craft") {
        Some(Rule { key: "craft", polygon: RuleType::All, values: ["", "", "", "", "", ""] })
    } else if same_text(key, "golf") {
        Some(Rule { key: "golf", polygon: RuleType::All, values: ["", "", "", "", "", ""] })
    } else {
        None
    }
}

/// Whether one of the tags of `way` speaks of an area, whatever the shape
/// of the way.
pub fn has_area_tag(way: &Way) -> (area: bool)
    ensures
        area == tags_speak_of_area(way@.tags),
{
    let mut i: usize = 0;
    while i < way.tags.len()
        invariant
            i <= way.tags.len(),
            forall|j: int| 0 <= j < i ==> !tag_is_area(#[trigger] way@.tags[j]),
        decreases way.tags.len() - i,
    {
        let tag = &way.tags[i];
        assert(way@.tags[i as int] == tag@);
        if !same_text(tag.val.as_str(), "no") {
            if let Some(rule) = rule_for(tag.key.as_str()) {
                proof {
                    rule.lemma_encodes(policy(tag.key@).unwrap(), tag.val@);
                }
                if has_matching_rule_value(&rule, tag) {
                    return true;
                }
            }
        }
        i += 1;
    }
    false
}

/// Whether `way` bounds an area: it is a closed ring, or one of its tags
/// speaks of an area. The shape is looked at first, so that a closed ring
/// bounds an area whatever its tags say.
pub fn is_polygon(way: &Way) -> (area: bool)
    ensures
        area == way_is_polygon(way@),
        closes(way@.nodes) ==> area,
{
    if is_closed_loop(way) {
        return true;
    }
    has_area_tag(way)
}

/// A tag whose value is `no` speaks of no area, whatever its key.
pub proof fn lemma_no_speaks_of_no_area(key: Seq<char>)
    ensures
        !tag_is_area(TagView { key, val: "no"@ }),
{
}

/// A tag whose value is empty speaks of no area, whatever its key.
pub proof fn lemma_empty_speaks_of_no_area(key: Seq<char>)
    ensures
        !tag_is_area(TagView { key, val: Seq::empty() }),
{
    lemma_listed_values();
    match policy(key) {
        Some(Policy::Whitelist(listed)) => {
            assert(forall|i: int| 0 <= i < listed.len() ==> (#[trigger] listed[i]).len() > 0);
        },
        _ => {},
    }
}

/// A way whose tags all have the value `no`, or a key without a rule, bounds
/// an area only where it is a closed ring.
pub proof fn lemma_inert_tags(way: WayView)
    requires
        forall|i: int|
            0 <= i < way.tags.len() ==> (#[trigger] way.tags[i]).val == "no"@ || policy(
                way.tags[i].key,
            ) is None,
    ensures
        way_is_polygon(way) == closes(way.nodes),
{
}

/// A closed ring bounds an area, whatever its tags say.
pub proof fn lemma_closed_ring_is_polygon(way: WayView)
    requires
        closes(way.nodes),
    ensures
        way_is_polygon(way),
{
}

} // verus!
