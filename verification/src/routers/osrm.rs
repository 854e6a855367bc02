//! `OsrmRouter`: request building and response interpretation for an
//! OSRM HTTP server.
//!
//! The transport (the HTTP GET) and the JSON decoding stay with the
//! caller; this module decides what to ask for and what an answer
//! means.
use crate::routing::{
    opt_chars, Maneuver, ManeuverKind, Profile, Route, RouteError, RouteRequest,
};
use crate::text::{append_str, join, str_eq, string_of};
use vstd::prelude::*;

verus! {

/// Public demo OSRM server. No API key required but throughput is
/// capped and only the `driving` profile is available.
pub const OSRM_DEMO_URL: &'static str = "https://router.project-osrm.org";

/// Settings for one OSRM endpoint.
pub struct OsrmRouter {
    base_url: String,
    user_agent: String,
    timeout_ms: u64,
}

/// The User-Agent a router starts with.
pub open spec fn default_user_agent() -> Seq<char> {
    "slint-mapping/0.1 (+https://github.com/slint-ui)"@
}

impl OsrmRouter {
    pub closed spec fn spec_base_url(&self) -> Seq<char> {
        self.base_url@
    }

    pub closed spec fn spec_user_agent(&self) -> Seq<char> {
        self.user_agent@
    }

    pub closed spec fn spec_timeout_ms(&self) -> u64 {
        self.timeout_ms
    }

    /// Point at the public demo server. Suitable only for prototypes.
    pub fn new() -> (r: Self)
        ensures
            r.spec_base_url() == OSRM_DEMO_URL@,
            r.spec_user_agent() == default_user_agent(),
            r.spec_timeout_ms() == 10_000,
    {
        Self::with_base_url(OSRM_DEMO_URL)
    }

    /// Point at a self-hosted server.
    pub fn with_base_url(base_url: &str) -> (r: Self)
        ensures
            r.spec_base_url() == base_url@,
            r.spec_user_agent() == default_user_agent(),
            r.spec_timeout_ms() == 10_000,
    {
        OsrmRouter {
            base_url: string_of(base_url),
            user_agent: string_of("slint-mapping/0.1 (+https://github.com/slint-ui)"),
            timeout_ms: 10_000,
        }
    }

    /// Override the HTTP User-Agent.
    pub fn with_user_agent(self, ua: &str) -> (r: Self)
        ensures
            r.spec_base_url() == self.spec_base_url(),
            r.spec_user_agent() == ua@,
            r.spec_timeout_ms() == self.spec_timeout_ms(),
    {
        OsrmRouter { base_url: self.base_url, user_agent: string_of(ua), timeout_ms: self.timeout_ms }
    }

    /// Override the request timeout in milliseconds.
    pub fn with_timeout_ms(self, ms: u64) -> (r: Self)
        ensures
            r.spec_base_url() == self.spec_base_url(),
            r.spec_user_agent() == self.spec_user_agent(),
            r.spec_timeout_ms() == ms,
    {
        OsrmRouter { base_url: self.base_url, user_agent: self.user_agent, timeout_ms: ms }
    }

    /// The server's base URL.
    pub fn base_url(&self) -> (s: &str)
        ensures
            s@ == self.spec_base_url(),
    {
        self.base_url.as_str()
    }

    /// The User-Agent sent with each request.
    pub fn user_agent(&self) -> (s: &str)
        ensures
            s@ == self.spec_user_agent(),
    {
        self.user_agent.as_str()
    }

    /// The request timeout in milliseconds.
    pub fn timeout_ms(&self) -> (ms: u64)
        ensures
            ms == self.spec_timeout_ms(),
    {
        self.timeout_ms
    }

    /// The URL to fetch for `request`, whose waypoints are rendered as
    /// `coords` (`"lon,lat"` each); refused when the request has fewer
    /// than two waypoints.
    pub fn request_url(&self, request: &RouteRequest, coords: &Vec<String>) -> (r: Result<
        String,
        RouteError,
    >)
        ensures
            request.waypoints@.len() < 2 <==> r is Err,
            r matches Err(e) ==> (e matches RouteError::InvalidRequest(m) && m@
                == "need at least 2 waypoints (origin + destination)"@),
            r matches Ok(url) ==> url@ == spec_build_url(
                self.spec_base_url(),
                coords@.map_values(|c: String| c@),
                request.profile,
            ),
    {
        if request.waypoints.len() < 2 {
            return Err(
                RouteError::InvalidRequest(string_of("need at least 2 waypoints (origin + destination)")),
            );
        }
        Ok(build_url(self.base_url.as_str(), coords, request.profile))
    }
}

impl Default for OsrmRouter {
    fn default() -> (r: Self)
        ensures
            r.spec_base_url() == OSRM_DEMO_URL@,
            r.spec_user_agent() == default_user_agent(),
            r.spec_timeout_ms() == 10_000,
    {
        Self::new()
    }
}

/// The OSRM URL segment for a profile.
pub open spec fn spec_profile_str(p: Profile) -> Seq<char> {
    match p {
        Profile::Driving => "driving"@,
        Profile::Cycling => "cycling"@,
        Profile::Walking => "walking"@,
    }
}

/// Map a [`Profile`] to the OSRM URL segment.
pub fn profile_str(p: Profile) -> (s: &'static str)
    ensures
        s@ == spec_profile_str(p),
{
    match p {
        Profile::Driving => "driving",
        Profile::Cycling => "cycling",
        Profile::Walking => "walking",
    }
}

/// `{base}/route/v1/{profile}/{coords joined by ';'}?steps=true&geometries=geojson&overview=full`.
pub open spec fn spec_build_url(base: Seq<char>, coords: Seq<Seq<char>>, p: Profile) -> Seq<char> {
    base + "/route/v1/"@ + spec_profile_str(p) + "/"@ + join(coords, ";"@)
        + "?steps=true&geometries=geojson&overview=full"@
}

/// The route URL for waypoints already rendered as `"lon,lat"` texts.
pub fn build_url(base: &str, coords: &Vec<String>, profile: Profile) -> (url: String)
    ensures
        url@ == spec_build_url(base@, coords@.map_values(|c: String| c@), profile),
{
    let ghost items = coords@.map_values(|c: String| c@);
    let mut joined = String::new();
    let mut i: usize = 0;
    while i < coords.len()
        invariant
            items == coords@.map_values(|c: String| c@),
            i <= coords.len(),
            joined@ == join(items.take(i as int), ";"@),
        decreases coords.len() - i,
    {
        let ghost before = joined@;
        if i > 0 {
            append_str(&mut joined, ";");
        }
        append_str(&mut joined, coords[i].as_str());
        assert(items.take(i + 1).drop_last() =~= items.take(i as int));
        if i == 0 {
            assert(before =~= Seq::<char>::empty());
            assert(joined@ =~= items[0]);
        }
        i = i + 1;
    }
    assert(items.take(coords.len() as int) =~= items);
    let mut url = string_of(base);
    append_str(&mut url, "/route/v1/");
    append_str(&mut url, profile_str(profile));
    append_str(&mut url, "/");
    append_str(&mut url, joined.as_str());
    append_str(&mut url, "?steps=true&geometries=geojson&overview=full");
    url
}

/// OSRM's `(type, modifier, exit)` triple as a [`ManeuverKind`];
/// unknown combinations degrade to `Other`.
pub open spec fn spec_map_maneuver(kind: Seq<char>, modifier: Seq<char>, exit: Option<u8>) -> ManeuverKind {
    if kind == "depart"@ {
        ManeuverKind::Depart
    } else if kind == "arrive"@ {
        ManeuverKind::Arrive
    } else if kind == "continue"@ || kind == "new name"@ {
        ManeuverKind::Continue
    } else if kind == "merge"@ {
        ManeuverKind::Merge
    } else if kind == "fork"@ {
        ManeuverKind::Fork
    } else if kind == "roundabout"@ || kind == "rotary"@ {
        ManeuverKind::Roundabout {
            exit: match exit {
                Some(e) => e,
                None => 1,
            },
        }
    } else if kind == "exit roundabout"@ || kind == "exit rotary"@ {
        ManeuverKind::Exit
    } else if kind == "off ramp"@ || kind == "on ramp"@ {
        ManeuverKind::Exit
    } else if kind == "turn"@ {
        spec_map_turn(modifier)
    } else {
        ManeuverKind::Other
    }
}

/// The kind of an OSRM `turn` step with the given modifier.
pub open spec fn spec_map_turn(modifier: Seq<char>) -> ManeuverKind {
    if modifier == "slight left"@ {
        ManeuverKind::TurnSlightLeft
    } else if modifier == "left"@ {
        ManeuverKind::TurnLeft
    } else if modifier == "sharp left"@ {
        ManeuverKind::TurnSharpLeft
    } else if modifier == "slight right"@ {
        ManeuverKind::TurnSlightRight
    } else if modifier == "right"@ {
        ManeuverKind::TurnRight
    } else if modifier == "sharp right"@ {
        ManeuverKind::TurnSharpRight
    } else if modifier == "uturn"@ {
        ManeuverKind::UTurn
    } else if modifier == "straight"@ {
        ManeuverKind::Continue
    } else {
        ManeuverKind::Other
    }
}

fn map_turn(modifier: &str) -> (k: ManeuverKind)
    ensures
        k == spec_map_turn(modifier@),
{
    if str_eq(modifier, "slight left") {
        ManeuverKind::TurnSlightLeft
    } else if str_eq(modifier, "left") {
        ManeuverKind::TurnLeft
    } else if str_eq(modifier, "sharp left") {
        ManeuverKind::TurnSharpLeft
    } else if str_eq(modifier, "slight right") {
        ManeuverKind::TurnSlightRight
    } else if str_eq(modifier, "right") {
        ManeuverKind::TurnRight
    } else if str_eq(modifier, "sharp right") {
        ManeuverKind::TurnSharpRight
    } else if str_eq(modifier, "uturn") {
        ManeuverKind::UTurn
    } else if str_eq(modifier, "straight") {
        ManeuverKind::Continue
    } else {
        ManeuverKind::Other
    }
}

/// The step type alone decides every kind but a turn's: departing,
/// arriving, merging, forking, ramps and roundabout exits mean the same
/// whatever the modifier, and a roundabout takes the given exit (the
/// first when none is given).
pub proof fn law_maneuver_type_decides(kind: Seq<char>, modifier: Seq<char>, exit: Option<u8>)
    ensures
        kind == "depart"@ ==> spec_map_maneuver(kind, modifier, exit) == ManeuverKind::Depart,
        kind == "arrive"@ ==> spec_map_maneuver(kind, modifier, exit) == ManeuverKind::Arrive,
        kind == "merge"@ ==> spec_map_maneuver(kind, modifier, exit) == ManeuverKind::Merge,
        kind == "fork"@ ==> spec_map_maneuver(kind, modifier, exit) == ManeuverKind::Fork,
        (kind == "continue"@ || kind == "new name"@) ==> spec_map_maneuver(kind, modifier, exit)
            == ManeuverKind::Continue,
        (kind == "exit roundabout"@ || kind == "exit rotary"@ || kind == "off ramp"@ || kind
            == "on ramp"@) ==> spec_map_maneuver(kind, modifier, exit) == ManeuverKind::Exit,
        (kind == "roundabout"@ || kind == "rotary"@) ==> spec_map_maneuver(kind, modifier, exit)
            == (ManeuverKind::Roundabout {
            exit: match exit {
                Some(e) => e,
                None => 1,
            },
        }),
{
    reveal_strlit("depart");
    reveal_strlit("arrive");
    reveal_strlit("continue");
    reveal_strlit("new name");
    reveal_strlit("merge");
    reveal_strlit("fork");
    reveal_strlit("roundabout");
    reveal_strlit("rotary");
    reveal_strlit("exit roundabout");
    reveal_strlit("exit rotary");
    reveal_strlit("off ramp");
    reveal_strlit("on ramp");
    reveal_strlit("turn");
    let lits = seq![
        "depart"@,
        "arrive"@,
        "continue"@,
        "new name"@,
        "merge"@,
        "fork"@,
        "roundabout"@,
        "rotary"@,
        "exit roundabout"@,
        "exit rotary"@,
        "off ramp"@,
        "on ramp"@,
        "turn"@,
    ];
    assert forall|a: int, b: int| 0 <= a < b < lits.len() implies #[trigger] lits[a] != #[trigger] lits[b] by {
        if lits[a].len() == lits[b].len() {
            assert(lits[a][0] != lits[b][0] || lits[a][1] != lits[b][1] || lits[a][2] != lits[b][2]
                || lits[a][5] != lits[b][5]);
        }
    }
    assert(lits[0] == "depart"@ && lits[1] == "arrive"@ && lits[2] == "continue"@ && lits[3]
        == "new name"@ && lits[4] == "merge"@ && lits[5] == "fork"@ && lits[6] == "roundabout"@
        && lits[7] == "rotary"@ && lits[8] == "exit roundabout"@ && lits[9] == "exit rotary"@
        && lits[10] == "off ramp"@ && lits[11] == "on ramp"@ && lits[12] == "turn"@);
}

/// Outside `turn` steps the modifier changes nothing.
pub proof fn law_maneuver_ignores_modifier_off_turns(
    kind: Seq<char>,
    m1: Seq<char>,
    m2: Seq<char>,
    exit: Option<u8>,
)
    requires
        kind != "turn"@,
    ensures
        spec_map_maneuver(kind, m1, exit) == spec_map_maneuver(kind, m2, exit),
{
}

/// Map OSRM's (`type`, `modifier`, `exit`) triple onto a
/// [`ManeuverKind`].
pub fn map_maneuver(kind: &str, modifier: &str, exit: Option<u8>) -> (k: ManeuverKind)
    ensures
        k == spec_map_maneuver(kind@, modifier@, exit),
        kind@ == "depart"@ ==> k == ManeuverKind::Depart,
        kind@ == "arrive"@ ==> k == ManeuverKind::Arrive,
        kind@ == "merge"@ ==> k == ManeuverKind::Merge,
        kind@ == "fork"@ ==> k == ManeuverKind::Fork,
        kind@ != "turn"@ ==> forall|m: Seq<char>| k == #[trigger] spec_map_maneuver(kind@, m, exit),
{
    proof {
        law_maneuver_type_decides(kind@, modifier@, exit);
        assert forall|m: Seq<char>| kind@ != "turn"@ implies spec_map_maneuver(kind@, modifier@, exit)
            == #[trigger] spec_map_maneuver(kind@, m, exit) by {
            law_maneuver_type_decides(kind@, m, exit);
            law_maneuver_ignores_modifier_off_turns(kind@, modifier@, m, exit);
        }
    }
    if str_eq(kind, "depart") {
        ManeuverKind::Depart
    } else if str_eq(kind, "arrive") {
        ManeuverKind::Arrive
    } else if str_eq(kind, "continue") || str_eq(kind, "new name") {
        ManeuverKind::Continue
    } else if str_eq(kind, "merge") {
        ManeuverKind::Merge
    } else if str_eq(kind, "fork") {
        ManeuverKind::Fork
    } else if str_eq(kind, "roundabout") || str_eq(kind, "rotary") {
        ManeuverKind::Roundabout {
            exit: match exit {
                Some(e) => e,
                None => 1,
            },
        }
    } else if str_eq(kind, "exit roundabout") || str_eq(kind, "exit rotary") {
        ManeuverKind::Exit
    } else if str_eq(kind, "off ramp") || str_eq(kind, "on ramp") {
        ManeuverKind::Exit
    } else if str_eq(kind, "turn") {
        map_turn(modifier)
    } else {
        ManeuverKind::Other
    }
}


// ---- Response shape ----
//
// The fields of an OSRM `route` response this crate reads, with the
// engine's numbers carried as `f64` bit patterns.

/// Top-level OSRM response.
pub struct OsrmResponse {
    /// `"Ok"` on success, `"NoRoute"` / `"NoSegment"` / others on refusal.
    pub code: String,
    pub routes: Vec<OsrmRoute>,
}

/// One candidate route.
pub struct OsrmRoute {
    /// LineString coordinates, `(longitude, latitude)`.
    pub geometry: Vec<(u64, u64)>,
    pub distance: u64,
    pub duration: u64,
    pub legs: Vec<OsrmLeg>,
}

/// The part of a route between two waypoints.
pub struct OsrmLeg {
    pub steps: Vec<OsrmStep>,
}

/// One step of a leg.
pub struct OsrmStep {
    pub distance: u64,
    pub duration: u64,
    /// Road name; empty when the engine has none.
    pub name: String,
    pub maneuver: OsrmManeuver,
}

/// The maneuver at the start of a step.
pub struct OsrmManeuver {
    pub location: (u64, u64),
    /// OSRM's `type` field.
    pub kind: String,
    pub modifier: String,
    pub exit: Option<u8>,
}

/// All steps of all legs, in order.
pub open spec fn flat_steps(legs: Seq<OsrmLeg>) -> Seq<OsrmStep>
    decreases legs.len(),
{
    if legs.len() == 0 {
        Seq::empty()
    } else {
        flat_steps(legs.drop_last()) + legs.last().steps@
    }
}

/// The road name of a step: `None` for an empty name.
pub open spec fn step_road_name(name: Seq<char>) -> Option<Seq<char>> {
    if name.len() == 0 {
        None
    } else {
        Some(name)
    }
}

/// `m` is the maneuver that `step` describes.
pub open spec fn maneuver_of_step(m: Maneuver, step: OsrmStep) -> bool {
    &&& m.location == step.maneuver.location
    &&& m.kind == spec_map_maneuver(
        step.maneuver.kind@,
        step.maneuver.modifier@,
        step.maneuver.exit,
    )
    &&& m.distance_m == step.distance
    &&& m.duration_s == step.duration
    &&& opt_chars(m.road_name) == step_road_name(step.name@)
}

/// `route` is what the first candidate `first` describes.
pub open spec fn route_of(route: Route, first: OsrmRoute) -> bool {
    let steps = flat_steps(first.legs@);
    &&& route.geometry@ == first.geometry@
    &&& route.distance_m == first.distance
    &&& route.duration_s == first.duration
    &&& route.maneuvers@.len() == steps.len()
    &&& forall|i: int|
        0 <= i < steps.len() ==> maneuver_of_step(#[trigger] route.maneuvers@[i], steps[i])
}

/// Each maneuver of a route carries its step's own numbers: the
/// maneuver point, the step's distance in metres and its duration in
/// seconds, in step order over all legs.
pub proof fn law_maneuvers_carry_step_numbers(route: Route, first: OsrmRoute, i: int)
    requires
        route_of(route, first),
        0 <= i < flat_steps(first.legs@).len(),
    ensures
        route.maneuvers@[i].location == flat_steps(first.legs@)[i].maneuver.location,
        route.maneuvers@[i].distance_m == flat_steps(first.legs@)[i].distance,
        route.maneuvers@[i].duration_s == flat_steps(first.legs@)[i].duration,
{
    assert(maneuver_of_step(route.maneuvers@[i], flat_steps(first.legs@)[i]));
}

/// The maneuver for one step.
fn step_maneuver(step: &OsrmStep) -> (m: Maneuver)
    ensures
        maneuver_of_step(m, *step),
        m.location == step.maneuver.location,
        m.distance_m == step.distance,
        m.duration_s == step.duration,
{
    let kind = map_maneuver(
        step.maneuver.kind.as_str(),
        step.maneuver.modifier.as_str(),
        step.maneuver.exit,
    );
    let road_name = if step.name.as_str().is_empty() {
        None
    } else {
        Some(step.name.clone())
    };
    Maneuver {
        location: step.maneuver.location,
        kind,
        distance_m: step.distance,
        duration_s: step.duration,
        road_name,
    }
}

/// Interpret a decoded OSRM response: a refusal code becomes an error,
/// otherwise the first route is turned into a [`Route`], one maneuver
/// per step of every leg, in order.
pub fn route_from_response(resp: OsrmResponse) -> (r: Result<Route, RouteError>)
    ensures
        r is Ok <==> (resp.code@ == "Ok"@ && resp.routes@.len() > 0),
        (resp.code@ == "NoRoute"@ || resp.code@ == "NoSegment"@) ==> r matches Err(
            RouteError::NoRoute,
        ),
        (resp.code@ != "Ok"@ && resp.code@ != "NoRoute"@ && resp.code@ != "NoSegment"@) ==> (
        r matches Err(RouteError::Parse(m)) && m@ == "OSRM code: "@ + resp.code@),
        (resp.code@ == "Ok"@ && resp.routes@.len() == 0) ==> (r matches Err(RouteError::Parse(m))
            && m@ == "response had no routes"@),
        r matches Ok(route) ==> route_of(route, resp.routes@[0]),
        r matches Ok(route) ==> {
            let steps = flat_steps(resp.routes@[0].legs@);
            &&& route.maneuvers@.len() == steps.len()
            &&& forall|i: int|
                0 <= i < steps.len() ==> {
                    &&& (#[trigger] route.maneuvers@[i]).location == steps[i].maneuver.location
                    &&& route.maneuvers@[i].distance_m == steps[i].distance
                    &&& route.maneuvers@[i].duration_s == steps[i].duration
                    &&& (steps[i].name@.len() == 0 <==> route.maneuvers@[i].road_name is None)
                    &&& route.maneuvers@[i].road_name matches Some(n) ==> n@ == steps[i].name@
                }
        },
{
    proof {
        reveal_strlit("Ok");
        reveal_strlit("NoRoute");
        reveal_strlit("NoSegment");
        assert("Ok"@.len() != "NoRoute"@.len());
        assert("Ok"@.len() != "NoSegment"@.len());
    }
    let code = resp.code;
    if str_eq(code.as_str(), "Ok") {
    } else if str_eq(code.as_str(), "NoRoute") || str_eq(code.as_str(), "NoSegment") {
        return Err(RouteError::NoRoute);
    } else {
        let mut m = string_of("OSRM code: ");
        append_str(&mut m, code.as_str());
        return Err(RouteError::Parse(m));
    }
    let mut routes = resp.routes;
    if routes.len() == 0 {
        return Err(RouteError::Parse(string_of("response had no routes")));
    }
    let first = routes.remove(0);
    let ghost legs = first.legs@;
    let mut maneuvers: Vec<Maneuver> = Vec::new();
    let mut li: usize = 0;
    while li < first.legs.len()
        invariant
            legs == first.legs@,
            li <= legs.len(),
            maneuvers@.len() == flat_steps(legs.take(li as int)).len(),
            forall|i: int|
                0 <= i < maneuvers@.len() ==> maneuver_of_step(
                    #[trigger] maneuvers@[i],
                    flat_steps(legs.take(li as int))[i],
                ),
        decreases legs.len() - li,
    {
        let leg = &first.legs[li];
        let ghost done = flat_steps(legs.take(li as int));
        let mut si: usize = 0;
        while si < leg.steps.len()
            invariant
                done == flat_steps(legs.take(li as int)),
                maneuvers@.len() == done.len() + si,
                si <= leg.steps@.len(),
                forall|i: int|
                    0 <= i < done.len() ==> maneuver_of_step(#[trigger] maneuvers@[i], done[i]),
                forall|i: int|
                    0 <= i < si ==> maneuver_of_step(
                        #[trigger] maneuvers@[done.len() + i],
                        leg.steps@[i],
                    ),
            decreases leg.steps@.len() - si,
        {
            let m = step_maneuver(&leg.steps[si]);
            let ghost prev = maneuvers@;
            maneuvers.push(m);
            si = si + 1;
            assert forall|i: int| 0 <= i < si implies maneuver_of_step(
                #[trigger] maneuvers@[done.len() + i],
                leg.steps@[i],
            ) by {
                if i < si - 1 {
                    assert(maneuvers@[done.len() + i] == prev[done.len() + i]);
                }
            }
        }
        assert(legs.take(li + 1).drop_last() =~= legs.take(li as int));
        assert(legs.take(li + 1).last() == legs[li as int]);
        let ghost next = flat_steps(legs.take(li + 1));
        assert(next =~= done + leg.steps@);
        assert forall|i: int| 0 <= i < maneuvers@.len() implies maneuver_of_step(
            #[trigger] maneuvers@[i],
            next[i],
        ) by {
            if i >= done.len() {
                let k = i - done.len();
                assert(maneuvers@[done.len() + k] == maneuvers@[i]);
            }
        }
        li = li + 1;
    }
    assert(legs.take(legs.len() as int) =~= legs);
    Ok(
        Route {
            geometry: first.geometry,
            distance_m: first.distance,
            duration_s: first.duration,
            maneuvers,
        },
    )
}

} // verus!
