//! Command-line arguments of the cache-warming tool:
//!
//! ```text
//! prefetch [--dest DIR] [--zoom Z_MIN-Z_MAX] [--url TEMPLATE]
//!          [--ua STRING] [--sleep-ms MS]
//!          LON_MIN LAT_MIN LON_MAX LAT_MAX
//! ```
//!
//! The four bounding-box values are handed on as text; turning them
//! into numbers is the caller's business.
use crate::sources::osm::OSM_TILE_URL;
use crate::text::{chars_of, is_digit, str_eq, string_of};
use vstd::prelude::*;

verus! {

/// The value of a run of decimal digits.
pub open spec fn digits_value(d: Seq<char>) -> nat
    decreases d.len(),
{
    if d.len() == 0 {
        0
    } else {
        10 * digits_value(d.drop_last()) + ((d.last() as u32) - 48) as nat
    }
}

/// The characters after an optional leading `+`.
pub open spec fn digits_part(s: Seq<char>) -> Seq<char> {
    if s.len() > 0 && s[0] == '+' {
        s.skip(1)
    } else {
        s
    }
}

/// Whether every character of `d` is a decimal digit.
pub open spec fn all_digits(d: Seq<char>) -> bool {
    forall|i: int| 0 <= i < d.len() ==> is_digit(#[trigger] d[i])
}

/// `str::parse` for an unsigned integer type whose largest value is
/// `max`: an optional `+`, then one or more decimal digits, no larger
/// than `max`.
#[verifier::opaque]
pub open spec fn parse_uint(s: Seq<char>, max: nat) -> Option<nat> {
    let d = digits_part(s);
    if d.len() == 0 || !all_digits(d) || digits_value(d) > max {
        None
    } else {
        Some(digits_value(d))
    }
}

/// Parse an unsigned decimal no larger than `max`.
pub fn parse_uint_exec(s: &str, max: u64) -> (r: Option<u64>)
    ensures
        match parse_uint(s@, max as nat) {
            None => r is None,
            Some(v) => r == Some(v as u64),
        },
        r matches Some(v) ==> v <= max,
        parse_uint(s@, max as nat) matches Some(v) ==> v <= max,
{
    let cs = chars_of(s);
    let start: usize = if cs.len() > 0 && cs[0] == '+' {
        1
    } else {
        0
    };
    let ghost d = digits_part(s@);
    reveal(parse_uint);
    assert(d =~= cs@.skip(start as int));
    if start >= cs.len() {
        return None;
    }
    let mut value: u64 = 0;
    let mut over: bool = false;
    let mut all_digits: bool = true;
    let mut i: usize = start;
    while i < cs.len()
        invariant
            cs@ == s@,
            d == cs@.skip(start as int),
            start <= i <= cs.len(),
            all_digits <==> forall|j: int| 0 <= j < i - start ==> is_digit(#[trigger] d[j]),
            all_digits && !over ==> value == digits_value(d.take(i - start)) && value <= max,
            all_digits && over ==> digits_value(d.take(i - start)) > max,
        decreases cs.len() - i,
    {
        let c = cs[i];
        let code = c as u32;
        let ghost k = i - start;
        assert(d.take(k + 1).drop_last() =~= d.take(k));
        assert(d.take(k + 1).last() == c);
        if code < 48 || code > 57 {
            all_digits = false;
        } else if all_digits && !over {
            let dg: u64 = (code - 48) as u64;
            if dg > max || value > (max - dg) / 10 {
                over = true;
                assert(10 * value + dg > max) by (nonlinear_arith)
                    requires
                        dg > max || value > (max - dg) / 10,
                        value >= 0,
                        dg >= 0,
                ;
            } else {
                assert(10 * value + dg <= max) by (nonlinear_arith)
                    requires
                        value <= (max - dg) / 10,
                        dg <= 9,
                        max - dg >= 0 || max < dg,
                ;
                value = value * 10 + dg;
            }
        }
        i = i + 1;
    }
    assert(d.take(d.len() as int) =~= d);
    assert(i - start == d.len());
    assert(d.len() > 0);
    if !all_digits {
        assert(!(forall|j: int| 0 <= j < d.len() ==> is_digit(#[trigger] d[j])));
        assert(parse_uint(s@, max as nat) is None);
        None
    } else if over {
        assert(digits_value(d) > max);
        assert(parse_uint(s@, max as nat) is None);
        None
    } else {
        assert(value == digits_value(d));
        assert(parse_uint(s@, max as nat) == Some(value as nat));
        Some(value)
    }
}

/// The settings gathered while scanning the arguments.
pub struct ArgScan {
    pub dest: Seq<char>,
    pub zoom: Seq<char>,
    pub url: Seq<char>,
    pub ua: Seq<char>,
    pub sleep_ms: u64,
    pub positional: Seq<Seq<char>>,
}

/// How scanning the arguments ended.
pub enum ScanOutcome {
    Done(ArgScan),
    Help,
    MissingValue(Seq<char>),
    BadSleepMs,
}

/// Walk the arguments: each option takes the next argument as its value
/// (whatever it looks like); `--help` / `-h` stops at once; anything
/// else is positional.
pub open spec fn scan(args: Seq<Seq<char>>, st: ArgScan) -> ScanOutcome
    decreases args.len(),
{
    if args.len() == 0 {
        ScanOutcome::Done(st)
    } else {
        let a = args[0];
        if a == "--dest"@ || a == "--zoom"@ || a == "--url"@ || a == "--ua"@ || a
            == "--sleep-ms"@ {
            if args.len() < 2 {
                ScanOutcome::MissingValue(a)
            } else {
                let v = args[1];
                if a == "--dest"@ {
                    scan(args.skip(2), ArgScan { dest: v, ..st })
                } else if a == "--zoom"@ {
                    scan(args.skip(2), ArgScan { zoom: v, ..st })
                } else if a == "--url"@ {
                    scan(args.skip(2), ArgScan { url: v, ..st })
                } else if a == "--ua"@ {
                    scan(args.skip(2), ArgScan { ua: v, ..st })
                } else {
                    match parse_uint(v, u64::MAX as nat) {
                        None => ScanOutcome::BadSleepMs,
                        Some(ms) => scan(args.skip(2), ArgScan { sleep_ms: ms as u64, ..st }),
                    }
                }
            }
        } else if a == "--help"@ || a == "-h"@ {
            ScanOutcome::Help
        } else {
            scan(args.skip(1), ArgScan { positional: st.positional.push(a), ..st })
        }
    }
}

/// The settings before any argument is read.
pub open spec fn default_scan() -> ArgScan {
    ArgScan {
        dest: "sample-tiles"@,
        zoom: "0-12"@,
        url: OSM_TILE_URL@,
        ua: "slint-mapping/0.1 (https://github.com/slint-rs/slint-mapping)"@,
        sleep_ms: 300,
        positional: Seq::empty(),
    }
}

/// `Z_MIN-Z_MAX` split at the first `-`, or a single `Z` for both ends.
pub open spec fn parse_zoom(z: Seq<char>) -> Option<(u8, u8)> {
    if exists|i: int| 0 <= i < z.len() && z[i] == '-' {
        let i = choose|i: int|
            0 <= i < z.len() && z[i] == '-' && forall|j: int| 0 <= j < i ==> z[j] != '-';
        match (parse_uint(z.take(i), 255), parse_uint(z.skip(i + 1), 255)) {
            (Some(a), Some(b)) => Some((a as u8, b as u8)),
            _ => None,
        }
    } else {
        match parse_uint(z, 255) {
            Some(a) => Some((a as u8, a as u8)),
            None => None,
        }
    }
}

/// The parsed settings of a prefetch run.
#[derive(Debug)]
pub struct PrefetchArgs {
    /// `LON_MIN LAT_MIN LON_MAX LAT_MAX`, as given.
    pub bbox: Vec<String>,
    pub zoom_min: u8,
    pub zoom_max: u8,
    pub dest: String,
    pub url: String,
    pub ua: String,
    pub sleep_ms: u64,
}

/// A successful parse: run, or just print the usage.
#[derive(Debug)]
pub enum ParsedArgs {
    Help,
    Run(PrefetchArgs),
}

/// Why the arguments were refused.
#[derive(Debug)]
pub enum ArgsError {
    /// An option came last, without its value; holds the option.
    MissingValue(String),
    /// `--sleep-ms` was not a `u64`.
    BadSleepMs,
    /// Not exactly four positional values.
    WrongPositionalCount,
    /// `--zoom` was neither `Z` nor `Z_MIN-Z_MAX` with `u8` values.
    BadZoom,
}

/// `r` is what parsing `args` gives.
pub open spec fn parse_result_ok(args: Seq<Seq<char>>, r: Result<ParsedArgs, ArgsError>) -> bool {
    match scan(args, default_scan()) {
        ScanOutcome::Help => r matches Ok(ParsedArgs::Help),
        ScanOutcome::MissingValue(f) => r matches Err(ArgsError::MissingValue(m)) && m@ == f,
        ScanOutcome::BadSleepMs => r matches Err(ArgsError::BadSleepMs),
        ScanOutcome::Done(st) => if st.positional.len() != 4 {
            r matches Err(ArgsError::WrongPositionalCount)
        } else {
            match parse_zoom(st.zoom) {
                None => r matches Err(ArgsError::BadZoom),
                Some((zmin, zmax)) => r matches Ok(ParsedArgs::Run(p)) && {
                    &&& p.bbox@.map_values(|s: String| s@) == st.positional
                    &&& p.zoom_min == zmin
                    &&& p.zoom_max == zmax
                    &&& p.dest@ == st.dest
                    &&& p.url@ == st.url
                    &&& p.ua@ == st.ua
                    &&& p.sleep_ms == st.sleep_ms
                },
            }
        },
    }
}

/// The first `-` in `z` is at `w`.
proof fn lemma_first_dash(z: Seq<char>, w: int)
    requires
        0 <= w < z.len(),
        z[w] == '-',
        forall|j: int| 0 <= j < w ==> z[j] != '-',
    ensures
        (choose|i: int| 0 <= i < z.len() && z[i] == '-' && forall|j: int| 0 <= j < i ==> z[j] != '-')
            == w,
{
    let c = choose|i: int| 0 <= i < z.len() && z[i] == '-' && forall|j: int| 0 <= j < i ==> z[j] != '-';
    assert(0 <= c < z.len() && z[c] == '-' && forall|j: int| 0 <= j < c ==> z[j] != '-');
    if c < w {
        assert(z[c] != '-');
    }
    if w < c {
        assert(z[w] != '-');
    }
}

fn parse_zoom_exec(z: &str) -> (r: Option<(u8, u8)>)
    ensures
        r == parse_zoom(z@),
{
    let cs = chars_of(z);
    let mut i: usize = 0;
    while i < cs.len() && cs[i] != '-'
        invariant
            cs@ == z@,
            i <= cs.len(),
            forall|j: int| 0 <= j < i ==> cs@[j] != '-',
        decreases cs.len() - i,
    {
        i = i + 1;
    }
    if i < cs.len() && cs[i] == '-' {
        proof {
            lemma_first_dash(z@, i as int);
            assert(0 <= i < z@.len() && z@[i as int] == '-');
        }
        let head = crate::text::string_from_chars(&crate::text::chars_take(&cs, i));
        let tail = crate::text::string_from_chars(&crate::text::chars_skip(&cs, i + 1));
        let a = parse_uint_exec(head.as_str(), 255);
        let b = parse_uint_exec(tail.as_str(), 255);
        match (a, b) {
            (Some(a), Some(b)) => Some((a as u8, b as u8)),
            _ => None,
        }
    } else {
        assert(!exists|k: int| 0 <= k < z@.len() && z@[k] == '-');
        match parse_uint_exec(z, 255) {
            Some(a) => Some((a as u8, a as u8)),
            None => None,
        }
    }
}

/// Parse the tool's arguments (program name excluded).
pub fn parse_args(args: &Vec<String>) -> (r: Result<ParsedArgs, ArgsError>)
    ensures
        parse_result_ok(args@.map_values(|s: String| s@), r),
{
    let ghost all = args@.map_values(|s: String| s@);
    let mut dest = string_of("sample-tiles");
    let mut zoom = string_of("0-12");
    let mut url = string_of(OSM_TILE_URL);
    let mut ua = string_of("slint-mapping/0.1 (https://github.com/slint-rs/slint-mapping)");
    let mut sleep_ms: u64 = 300;
    let mut positional: Vec<String> = Vec::new();
    let mut i: usize = 0;
    assert(all.skip(0) =~= all);
    assert(positional@.map_values(|s: String| s@) =~= Seq::<Seq<char>>::empty());
    while i < args.len()
        invariant
            all == args@.map_values(|s: String| s@),
            i <= args.len(),
            scan(all, default_scan()) == scan(
                all.skip(i as int),
                ArgScan {
                    dest: dest@,
                    zoom: zoom@,
                    url: url@,
                    ua: ua@,
                    sleep_ms,
                    positional: positional@.map_values(|s: String| s@),
                },
            ),
        decreases args.len() - i,
    {
        let a = args[i].as_str();
        let ghost rest = all.skip(i as int);
        let ghost st = ArgScan {
            dest: dest@,
            zoom: zoom@,
            url: url@,
            ua: ua@,
            sleep_ms,
            positional: positional@.map_values(|s: String| s@),
        };
        assert(rest[0] == a@);
        let is_opt = str_eq(a, "--dest") || str_eq(a, "--zoom") || str_eq(a, "--url") || str_eq(
            a,
            "--ua",
        ) || str_eq(a, "--sleep-ms");
        if is_opt {
            if i + 1 >= args.len() {
                return Err(ArgsError::MissingValue(args[i].clone()));
            }
            let v = args[i + 1].clone();
            assert(rest[1] == v@);
            assert(rest.skip(2) =~= all.skip(i + 2));
            if str_eq(a, "--dest") {
                dest = v;
            } else if str_eq(a, "--zoom") {
                zoom = v;
            } else if str_eq(a, "--url") {
                url = v;
            } else if str_eq(a, "--ua") {
                ua = v;
            } else {
                match parse_uint_exec(v.as_str(), u64::MAX) {
                    None => {
                        return Err(ArgsError::BadSleepMs);
                    },
                    Some(ms) => {
                        sleep_ms = ms;
                    },
                }
            }
            i = i + 2;
        } else if str_eq(a, "--help") || str_eq(a, "-h") {
            return Ok(ParsedArgs::Help);
        } else {
            let ghost before = positional@.map_values(|s: String| s@);
            positional.push(args[i].clone());
            assert(positional@.map_values(|s: String| s@) =~= before.push(a@));
            assert(rest.skip(1) =~= all.skip(i + 1));
            i = i + 1;
        }
    }
    assert(all.skip(i as int) =~= Seq::<Seq<char>>::empty());
    if positional.len() != 4 {
        return Err(ArgsError::WrongPositionalCount);
    }
    match parse_zoom_exec(zoom.as_str()) {
        None => Err(ArgsError::BadZoom),
        Some((zoom_min, zoom_max)) => Ok(
            ParsedArgs::Run(
                PrefetchArgs { bbox: positional, zoom_min, zoom_max, dest, url, ua, sleep_ms },
            ),
        ),
    }
}

/// Whether `a` is one of the tool's options or its help flag.
pub open spec fn is_flag(a: Seq<char>) -> bool {
    a == "--dest"@ || a == "--zoom"@ || a == "--url"@ || a == "--ua"@ || a == "--sleep-ms"@ || a
        == "--help"@ || a == "-h"@
}

/// The default zoom range `0-12` parses to zooms 0 to 12.
proof fn lemma_default_zoom()
    ensures
        parse_zoom("0-12"@) == Some((0u8, 12u8)),
{
    reveal_strlit("0-12");
    let z = "0-12"@;
    assert(z[1] == '-');
    lemma_first_dash(z, 1);
    assert(z.take(1) =~= seq!['0']);
    assert(z.skip(2) =~= seq!['1', '2']);
    reveal(parse_uint);
    let a = seq!['0'];
    let b = seq!['1', '2'];
    assert(digits_part(a) == a);
    assert(digits_part(b) == b);
    assert(b.drop_last() =~= seq!['1']);
    assert(seq!['1'].drop_last() =~= Seq::<char>::empty());
    assert(a.drop_last() =~= Seq::<char>::empty());
    assert(('1' as u32) == 49 && ('2' as u32) == 50 && ('0' as u32) == 48);
    assert(seq!['1'].last() == '1');
    assert(b.last() == '2');
    assert(a.last() == '0');
    assert(digits_value(Seq::<char>::empty()) == 0);
    assert(digits_value(seq!['1']) == 1);
    assert(digits_value(b) == 12);
    assert(digits_value(a) == 0);
    assert(all_digits(a));
    assert(all_digits(b));
}

/// Arguments that are no option nor help flag are all taken as
/// positional values, in order.
proof fn lemma_scan_positionals(rest: Seq<Seq<char>>, st: ArgScan)
    requires
        forall|i: int| 0 <= i < rest.len() ==> !is_flag(#[trigger] rest[i]),
    ensures
        scan(rest, st) == ScanOutcome::Done(ArgScan { positional: st.positional + rest, ..st }),
    decreases rest.len(),
{
    if rest.len() == 0 {
        assert(st.positional + rest =~= st.positional);
    } else {
        assert(!is_flag(rest[0]));
        let next = ArgScan { positional: st.positional.push(rest[0]), ..st };
        assert forall|i: int| 0 <= i < rest.skip(1).len() implies !is_flag(#[trigger] rest.skip(1)[i]) by {
            assert(rest.skip(1)[i] == rest[i + 1]);
        }
        lemma_scan_positionals(rest.skip(1), next);
        assert(next.positional + rest.skip(1) =~= st.positional + rest);
    }
}

/// `--sleep-ms` accepts every `u64`: with four bounding-box values, a
/// decimal `--sleep-ms` value no larger than `u64::MAX` yields a run
/// with exactly that pause, the given box and the default zoom range.
pub proof fn law_sleep_ms_accepts_every_u64(args: Seq<Seq<char>>, r: Result<ParsedArgs, ArgsError>)
    requires
        args.len() == 6,
        args[0] == "--sleep-ms"@,
        args[1].len() > 0,
        all_digits(args[1]),
        digits_value(args[1]) <= u64::MAX,
        forall|i: int| 2 <= i < 6 ==> !is_flag(#[trigger] args[i]),
        parse_result_ok(args, r),
    ensures
        r matches Ok(ParsedArgs::Run(p)) && p.sleep_ms == digits_value(args[1])
            && p.bbox@.map_values(|s: String| s@) == args.skip(2) && p.zoom_min == 0 && p.zoom_max
            == 12,
{
    reveal_strlit("--dest");
    reveal_strlit("--zoom");
    reveal_strlit("--url");
    reveal_strlit("--ua");
    reveal_strlit("--sleep-ms");
    reveal_strlit("--help");
    reveal_strlit("-h");
    reveal(parse_uint);
    lemma_default_zoom();
    let v = args[1];
    assert(is_digit(v[0]));
    assert(digits_part(v) == v);
    assert(parse_uint(v, u64::MAX as nat) == Some(digits_value(v)));
    let st0 = default_scan();
    let st1 = ArgScan { sleep_ms: digits_value(v) as u64, ..st0 };
    assert(args[0][2] == 's');
    assert("--dest"@[2] == 'd' && "--zoom"@[2] == 'z' && "--url"@[2] == 'u' && "--ua"@[2] == 'u');
    assert(args[0] != "--dest"@ && args[0] != "--zoom"@ && args[0] != "--url"@ && args[0]
        != "--ua"@);
    assert(scan(args, st0) == scan(args.skip(2), st1));
    assert forall|i: int| 0 <= i < args.skip(2).len() implies !is_flag(#[trigger] args.skip(2)[i]) by {
        assert(args.skip(2)[i] == args[i + 2]);
    }
    lemma_scan_positionals(args.skip(2), st1);
    assert(st1.positional + args.skip(2) =~= args.skip(2));
}

} // verus!
