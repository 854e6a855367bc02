//! Routing data: requests, routes, maneuvers and the errors a routing
//! engine can report.
//!
//! Geographic values (coordinates, distances, durations) are carried as
//! the IEEE-754 binary64 bit patterns of the engine's numbers
//! (`f64::to_bits`); nothing here computes with them, it only hands them
//! through unchanged.
use crate::text::{
    append_str, decimal, decimal_string, lemma_decimal_digits, lemma_decimal_injective, string_of,
};
use vstd::prelude::*;

verus! {

/// Transport mode.
#[derive(Clone, Copy, Debug, PartialEq, Eq, Structural)]
pub enum Profile {
    Driving,
    Cycling,
    Walking,
}

/// One routing request. At least two waypoints are required (origin +
/// destination); intermediate waypoints become "via" points.
#[derive(Clone, Debug)]
pub struct RouteRequest {
    /// `(longitude, latitude)` pairs as `f64` bit patterns.
    pub waypoints: Vec<(u64, u64)>,
    pub profile: Profile,
}

impl RouteRequest {
    /// Two-waypoint convenience constructor.
    pub fn from_to(origin: (u64, u64), destination: (u64, u64), profile: Profile) -> (r: Self)
        ensures
            r.waypoints@ == seq![origin, destination],
            r.profile == profile,
    {
        let mut waypoints = Vec::new();
        waypoints.push(origin);
        waypoints.push(destination);
        RouteRequest { waypoints, profile }
    }
}

/// Lossy union over the maneuver categories every routing engine
/// emits; unrecognised types map to `Other`.
#[derive(Clone, Copy, Debug, PartialEq, Eq, Structural)]
pub enum ManeuverKind {
    Depart,
    Arrive,
    Continue,
    TurnSlightLeft,
    TurnLeft,
    TurnSharpLeft,
    TurnSlightRight,
    TurnRight,
    TurnSharpRight,
    UTurn,
    Merge,
    /// Exit number is 1-indexed (the first exit clockwise from entry).
    Roundabout { exit: u8 },
    Exit,
    Fork,
    Other,
}

/// One step in a route.
#[derive(Debug)]
pub struct Maneuver {
    /// Where the cue applies, `(longitude, latitude)` as `f64` bits.
    pub location: (u64, u64),
    pub kind: ManeuverKind,
    /// Metres to the next maneuver, as `f64` bits.
    pub distance_m: u64,
    /// Seconds to the next maneuver, as `f64` bits.
    pub duration_s: u64,
    /// Street / road name the route follows from this step.
    pub road_name: Option<String>,
}

/// A computed route from origin to destination.
#[derive(Debug)]
pub struct Route {
    /// Polyline as `(longitude, latitude)` `f64` bit patterns.
    pub geometry: Vec<(u64, u64)>,
    /// Total length in metres, as `f64` bits.
    pub distance_m: u64,
    /// Total estimated time in seconds, as `f64` bits.
    pub duration_s: u64,
    /// Step-by-step maneuvers from depart to arrive, in order.
    pub maneuvers: Vec<Maneuver>,
}

/// Reasons a routing call can fail.
#[derive(Debug)]
pub enum RouteError {
    /// Fewer than two waypoints, or a profile the engine doesn't support.
    InvalidRequest(String),
    /// HTTP / transport-level failure.
    Network(String),
    /// Engine returned a malformed or unexpected response body.
    Parse(String),
    /// Engine reports no route exists between the waypoints.
    NoRoute,
}

/// The characters of an optional string.
pub open spec fn opt_chars(s: Option<String>) -> Option<Seq<char>> {
    match s {
        Some(t) => Some(t@),
        None => None,
    }
}

/// `prefix` followed by the road name, or nothing without a name.
pub open spec fn road_part(prefix: Seq<char>, road: Option<Seq<char>>) -> Seq<char> {
    match road {
        Some(n) => prefix + n,
        None => Seq::empty(),
    }
}

/// The human-readable cue for a maneuver of `kind` onto `road`.
pub open spec fn spec_instruction_text(kind: ManeuverKind, road: Option<Seq<char>>) -> Seq<char> {
    let onto = road_part(" onto "@, road);
    let on = road_part(" on "@, road);
    match kind {
        ManeuverKind::Depart => "Head out"@ + on,
        ManeuverKind::Arrive => "Arrive at destination"@,
        ManeuverKind::Continue => "Continue straight"@ + on,
        ManeuverKind::TurnSlightLeft => "Bear left"@ + onto,
        ManeuverKind::TurnLeft => "Turn left"@ + onto,
        ManeuverKind::TurnSharpLeft => "Take a sharp left"@ + onto,
        ManeuverKind::TurnSlightRight => "Bear right"@ + onto,
        ManeuverKind::TurnRight => "Turn right"@ + onto,
        ManeuverKind::TurnSharpRight => "Take a sharp right"@ + onto,
        ManeuverKind::UTurn => "Make a U-turn"@ + onto,
        ManeuverKind::Merge => "Merge"@ + onto,
        ManeuverKind::Roundabout { exit } => "At the roundabout, take exit "@ + decimal(
            exit as nat,
        ) + onto,
        ManeuverKind::Exit => "Take the exit"@ + onto,
        ManeuverKind::Fork => "Keep at the fork"@ + onto,
        ManeuverKind::Other => "Continue"@ + on,
    }
}

/// A road name only adds to a cue: with a name the cue is the nameless
/// cue followed by " on " (heading out, continuing) or " onto " (every
/// other kind) and the name; arriving never names a road.
pub proof fn law_road_name_only_adds_suffix(kind: ManeuverKind, name: Seq<char>)
    ensures
        kind is Arrive ==> spec_instruction_text(kind, Some(name)) == spec_instruction_text(
            kind,
            None,
        ),
        (kind is Depart || kind is Continue || kind is Other) ==> spec_instruction_text(
            kind,
            Some(name),
        ) == spec_instruction_text(kind, None) + " on "@ + name,
        !(kind is Arrive || kind is Depart || kind is Continue || kind is Other)
            ==> spec_instruction_text(kind, Some(name)) == spec_instruction_text(kind, None)
            + " onto "@ + name,
{
    let e = Seq::<char>::empty();
    assert forall|p: Seq<char>| #[trigger] (p + e) == p by {
        assert(p + e =~= p);
    }
    assert forall|p: Seq<char>, q: Seq<char>| #[trigger] (p + (q + name)) == p + q + name by {
        assert(p + (q + name) =~= p + q + name);
    }
}

/// The position of a kind without a roundabout exit in the list of cues.
spec fn cue_index(kind: ManeuverKind) -> int {
    match kind {
        ManeuverKind::Depart => 0,
        ManeuverKind::Arrive => 1,
        ManeuverKind::Continue => 2,
        ManeuverKind::TurnSlightLeft => 3,
        ManeuverKind::TurnLeft => 4,
        ManeuverKind::TurnSharpLeft => 5,
        ManeuverKind::TurnSlightRight => 6,
        ManeuverKind::TurnRight => 7,
        ManeuverKind::TurnSharpRight => 8,
        ManeuverKind::UTurn => 9,
        ManeuverKind::Merge => 10,
        ManeuverKind::Exit => 11,
        ManeuverKind::Fork => 12,
        ManeuverKind::Other => 13,
        ManeuverKind::Roundabout { .. } => 14,
    }
}

/// Different maneuvers read differently: without a road name, two
/// different kinds (or roundabouts with different exits) never get the
/// same cue.
pub proof fn law_cues_tell_maneuvers_apart(k1: ManeuverKind, k2: ManeuverKind)
    requires
        k1 != k2,
    ensures
        spec_instruction_text(k1, None) != spec_instruction_text(k2, None),
{
    reveal_strlit("Head out");
    reveal_strlit("Arrive at destination");
    reveal_strlit("Continue straight");
    reveal_strlit("Bear left");
    reveal_strlit("Turn left");
    reveal_strlit("Take a sharp left");
    reveal_strlit("Bear right");
    reveal_strlit("Turn right");
    reveal_strlit("Take a sharp right");
    reveal_strlit("Make a U-turn");
    reveal_strlit("Merge");
    reveal_strlit("Take the exit");
    reveal_strlit("Keep at the fork");
    reveal_strlit("Continue");
    reveal_strlit("At the roundabout, take exit ");
    let cues = seq![
        "Head out"@,
        "Arrive at destination"@,
        "Continue straight"@,
        "Bear left"@,
        "Turn left"@,
        "Take a sharp left"@,
        "Bear right"@,
        "Turn right"@,
        "Take a sharp right"@,
        "Make a U-turn"@,
        "Merge"@,
        "Take the exit"@,
        "Keep at the fork"@,
        "Continue"@,
    ];
    let e = Seq::<char>::empty();
    assert forall|p: Seq<char>| #[trigger] (p + e) == p by {
        assert(p + e =~= p);
    }
    assert forall|a: int, b: int| 0 <= a < b < cues.len() implies #[trigger] cues[a] != #[trigger] cues[b] by {
        if cues[a].len() == cues[b].len() {
            assert(cues[a][0] != cues[b][0] || cues[a][1] != cues[b][1]);
        }
    }
    assert forall|k: ManeuverKind| !(k is Roundabout) implies #[trigger] spec_instruction_text(k, None)
        == cues[cue_index(k)] by {}
    let pre = "At the roundabout, take exit "@;
    if k1 is Roundabout && k2 is Roundabout {
        let d1 = decimal(k1->exit as nat);
        let d2 = decimal(k2->exit as nat);
        if spec_instruction_text(k1, None) == spec_instruction_text(k2, None) {
            assert(spec_instruction_text(k1, None) == pre + d1);
            assert(spec_instruction_text(k2, None) == pre + d2);
            assert(d1 =~= (pre + d1).skip(pre.len() as int));
            assert(d2 =~= (pre + d2).skip(pre.len() as int));
            lemma_decimal_injective(k1->exit as nat, k2->exit as nat);
        }
    } else if k1 is Roundabout {
        lemma_decimal_digits(k1->exit as nat);
        assert(spec_instruction_text(k1, None).len() >= 30);
        assert(cues[cue_index(k2)].len() <= 21);
    } else if k2 is Roundabout {
        lemma_decimal_digits(k2->exit as nat);
        assert(spec_instruction_text(k2, None).len() >= 30);
        assert(cues[cue_index(k1)].len() <= 21);
    } else {
        assert(cue_index(k1) != cue_index(k2));
    }
}

/// `prefix` and the road name, or an empty string without a name.
fn road_suffix(prefix: &str, road: &Option<String>) -> (s: String)
    ensures
        s@ == road_part(prefix@, opt_chars(*road)),
{
    match road {
        Some(n) => {
            let mut s = string_of(prefix);
            append_str(&mut s, n.as_str());
            s
        },
        None => String::new(),
    }
}

/// `head` followed by `tail`.
fn concat(head: &str, tail: &String) -> (s: String)
    ensures
        s@ == head@ + tail@,
{
    let mut s = string_of(head);
    append_str(&mut s, tail.as_str());
    s
}

impl Maneuver {
    /// Human-readable cue suitable for a list view or voice prompt.
    pub fn instruction_text(&self) -> (text: String)
        ensures
            text@ == spec_instruction_text(self.kind, opt_chars(self.road_name)),
    {
        let onto = road_suffix(" onto ", &self.road_name);
        let on = road_suffix(" on ", &self.road_name);
        match self.kind {
            ManeuverKind::Depart => concat("Head out", &on),
            ManeuverKind::Arrive => string_of("Arrive at destination"),
            ManeuverKind::Continue => concat("Continue straight", &on),
            ManeuverKind::TurnSlightLeft => concat("Bear left", &onto),
            ManeuverKind::TurnLeft => concat("Turn left", &onto),
            ManeuverKind::TurnSharpLeft => concat("Take a sharp left", &onto),
            ManeuverKind::TurnSlightRight => concat("Bear right", &onto),
            ManeuverKind::TurnRight => concat("Turn right", &onto),
            ManeuverKind::TurnSharpRight => concat("Take a sharp right", &onto),
            ManeuverKind::UTurn => concat("Make a U-turn", &onto),
            ManeuverKind::Merge => concat("Merge", &onto),
            ManeuverKind::Roundabout { exit } => {
                let mut s = string_of("At the roundabout, take exit ");
                let n = decimal_string(exit as u64);
                append_str(&mut s, n.as_str());
                append_str(&mut s, onto.as_str());
                s
            },
            ManeuverKind::Exit => concat("Take the exit", &onto),
            ManeuverKind::Fork => concat("Keep at the fork", &onto),
            ManeuverKind::Other => concat("Continue", &on),
        }
    }
}

/// The message `Display` shows for a routing error.
pub open spec fn spec_error_message(e: RouteError) -> Seq<char> {
    match e {
        RouteError::InvalidRequest(m) => "invalid route request: "@ + m@,
        RouteError::Network(m) => "routing network error: "@ + m@,
        RouteError::Parse(m) => "routing parse error: "@ + m@,
        RouteError::NoRoute => "no route between waypoints"@,
    }
}

impl RouteError {
    /// The human-readable description of the error.
    pub fn message(&self) -> (m: String)
        ensures
            m@ == spec_error_message(*self),
    {
        match self {
            RouteError::InvalidRequest(msg) => concat("invalid route request: ", msg),
            RouteError::Network(msg) => concat("routing network error: ", msg),
            RouteError::Parse(msg) => concat("routing parse error: ", msg),
            RouteError::NoRoute => string_of("no route between waypoints"),
        }
    }
}

} // verus!
