//! Game profiles: which executables belong to a game, which ports its traffic
//! uses, and which optimisations apply to it.
use vstd::prelude::*;

use crate::text::{
    append_decimal, chars_of, ends_with, find, find_char, is_digit, is_suffix, lemma_decimal_parses,
    lemma_find_char_at, lemma_trim_unchanged, parse_u16, same_chars, slice_chars, spec_decimal,
    spec_parse_error_message, spec_parse_u16, spec_trim, trim, ParseIntError,
};
use vstd::string::StringExecFns;

verus! {

/// A game definition.
#[derive(Debug, Clone)]
pub struct GameProfile {
    pub game_id: String,
    pub name: String,
    pub executables: Vec<String>,
    pub routing: RoutingConfig,
    pub optimizations: OptimizationsConfig,
}

/// Which traffic of the game is routed through the tunnel.
#[derive(Debug, Clone)]
pub struct RoutingConfig {
    /// "TCP", "UDP" or "BOTH".
    pub protocol: String,
    pub ports: Vec<PortMatcher>,
    pub target_subnets: Vec<String>,
}

/// A port or an inclusive range of ports.
#[derive(Debug, Clone, Copy, PartialEq, Eq, Structural)]
pub enum PortMatcher {
    Single(u16),
    Range(u16, u16),
}

/// Per-game optimisation switches.
#[derive(Debug, Clone, Copy)]
pub struct OptimizationsConfig {
    pub enable_fastconnect: bool,
    pub enable_multipath_dup: bool,
    pub packet_duplication_rate: u32,
    pub dscp_tag: u8,
}

/// Whether `m` covers `port`.
pub open spec fn spec_port_matches(m: PortMatcher, port: u16) -> bool {
    match m {
        PortMatcher::Single(p) => p == port,
        PortMatcher::Range(start, end) => start <= port <= end,
    }
}

/// Whether a profile with these port matchers routes `port`: an empty list
/// routes every port.
pub open spec fn spec_ports_match(ports: Seq<PortMatcher>, port: u16) -> bool {
    ports.len() == 0 || exists|i: int| 0 <= i < ports.len() && spec_port_matches(ports[i], port)
}

/// The lower-case form of a string, as Rust's `str::to_lowercase` computes it
/// (Unicode lower-case mapping, independent of locale).
pub uninterp spec fn spec_to_lowercase(s: Seq<char>) -> Seq<char>;

/// Calls `str::to_lowercase`; its result is named `spec_to_lowercase`.
#[verifier::external_body]
fn to_lowercase(s: &str) -> (r: String)
    ensures
        r@ == spec_to_lowercase(s@),
{
    s.to_lowercase()
}

/// Whether the executable name `exe` matches the profile entry `target`: equal
/// or ending with it, ignoring case.
pub open spec fn spec_exe_matches(target: Seq<char>, exe: Seq<char>) -> bool {
    let t = spec_to_lowercase(target);
    let e = spec_to_lowercase(exe);
    e == t || is_suffix(t, e)
}

/// Whether `exe` matches any of the profile entries `targets`.
pub open spec fn spec_any_exe_matches(targets: Seq<String>, exe: Seq<char>) -> bool {
    exists|i: int| 0 <= i < targets.len() && spec_exe_matches(targets[i]@, exe)
}

/// The matcher that a non-negative JSON integer `n` stands for: a single port,
/// holding the low 16 bits of `n`.
pub open spec fn spec_port_from_number(n: u64) -> PortMatcher {
    PortMatcher::Single((n % 65536) as u16)
}

/// What parsing the port text `s` gives: "a-b" (split at the first '-', each
/// side trimmed) is a range, anything else is a single trimmed port number.
pub open spec fn spec_parse_port_text(s: Seq<char>) -> Result<PortMatcher, ParseIntError> {
    match find_char(s, '-', 0) {
        Some(k) => match spec_parse_u16(spec_trim(s.subrange(0, k))) {
            Ok(start) => match spec_parse_u16(spec_trim(s.subrange(k + 1, s.len() as int))) {
                Ok(end) => Ok(PortMatcher::Range(start, end)),
                Err(e) => Err(e),
            },
            Err(e) => Err(e),
        },
        None => match spec_parse_u16(spec_trim(s)) {
            Ok(p) => Ok(PortMatcher::Single(p)),
            Err(e) => Err(e),
        },
    }
}

/// A JSON value found where a profile lists a port: a non-negative integer,
/// a text, another number (negative or fractional), or any other value
/// (bool, null, array, object). A matcher is written as one of the first two:
/// a single port as a number, a range as the text "start-end".
pub enum PortJson {
    Number(u64),
    Text(String),
    OtherNumber,
    OtherValue,
}

/// A JSON port entry with its text as characters.
pub enum PortJsonView {
    Number(u64),
    Text(Seq<char>),
    OtherNumber,
    OtherValue,
}

/// Why a JSON port entry stands for no matcher.
#[derive(Debug, Clone, Copy, PartialEq, Eq, Structural)]
pub enum PortJsonError {
    /// A number that is not a non-negative integer.
    InvalidPortNumber,
    /// A value that is neither a number nor a text.
    NotIntegerOrRange,
    /// A text that is no port or range.
    BadText(ParseIntError),
}

impl PortJsonError {
    /// The text that describes the error.
    pub fn message(&self) -> (r: String)
        ensures
            r@ == (match *self {
                PortJsonError::InvalidPortNumber => "Invalid port number"@,
                PortJsonError::NotIntegerOrRange => "Port must be integer or range string"@,
                PortJsonError::BadText(e) => spec_parse_error_message(e),
            }),
    {
        match self {
            PortJsonError::InvalidPortNumber => "Invalid port number".to_owned(),
            PortJsonError::NotIntegerOrRange => "Port must be integer or range string".to_owned(),
            PortJsonError::BadText(e) => e.message(),
        }
    }
}

impl PortJson {
    /// The entry with its text as characters.
    pub open spec fn view_of(self) -> PortJsonView {
        match self {
            PortJson::Number(n) => PortJsonView::Number(n),
            PortJson::Text(s) => PortJsonView::Text(s@),
            PortJson::OtherNumber => PortJsonView::OtherNumber,
            PortJson::OtherValue => PortJsonView::OtherValue,
        }
    }
}

/// The JSON entry that stands for `m`.
pub open spec fn spec_port_to_json(m: PortMatcher) -> PortJsonView {
    match m {
        PortMatcher::Single(p) => PortJsonView::Number(p as u64),
        PortMatcher::Range(a, b) => PortJsonView::Text(
            spec_decimal(a as nat) + seq!['-'] + spec_decimal(b as nat),
        ),
    }
}

/// The matcher that a JSON number or text stands for, or why the text is not
/// one.
pub open spec fn spec_port_from_json(j: PortJsonView) -> Result<PortMatcher, PortJsonError> {
    match j {
        PortJsonView::Number(n) => Ok(spec_port_from_number(n)),
        PortJsonView::Text(s) => match spec_parse_port_text(s) {
            Ok(m) => Ok(m),
            Err(e) => Err(PortJsonError::BadText(e)),
        },
        PortJsonView::OtherNumber => Err(PortJsonError::InvalidPortNumber),
        PortJsonView::OtherValue => Err(PortJsonError::NotIntegerOrRange),
    }
}

impl PortMatcher {
    /// Whether this matcher covers `port`.
    pub fn matches(&self, port: u16) -> (r: bool)
        ensures
            r == spec_port_matches(*self, port),
    {
        match self {
            PortMatcher::Single(p) => *p == port,
            PortMatcher::Range(start, end) => port >= *start && port <= *end,
        }
    }

    /// The matcher that a JSON integer `n` stands for in a profile.
    pub fn from_json_number(n: u64) -> (m: PortMatcher)
        ensures
            m == spec_port_from_number(n),
    {
        PortMatcher::Single((n % 65536) as u16)
    }

    /// The matcher that a JSON string stands for in a profile: "9000-9100" is a
    /// range, "7777" a single port; spaces around the numbers are ignored.
    pub fn from_json_text(s: &str) -> (r: Result<PortMatcher, ParseIntError>)
        ensures
            r == spec_parse_port_text(s@),
    {
        let cs = chars_of(s);
        match find(&cs, '-') {
            Some(k) => {
                let left = slice_chars(&cs, 0, k);
                let right = slice_chars(&cs, k + 1, cs.len());
                let start = match parse_u16(&trim(&left)) {
                    Ok(v) => v,
                    Err(e) => return Err(e),
                };
                let end = match parse_u16(&trim(&right)) {
                    Ok(v) => v,
                    Err(e) => return Err(e),
                };
                Ok(PortMatcher::Range(start, end))
            },
            None => match parse_u16(&trim(&cs)) {
                Ok(p) => Ok(PortMatcher::Single(p)),
                Err(e) => Err(e),
            },
        }
    }
}

impl PortMatcher {
    /// The JSON entry that stands for this matcher: a single port as a
    /// number, a range as "start-end" in decimal.
    pub fn to_json(&self) -> (j: PortJson)
        ensures
            j.view_of() == spec_port_to_json(*self),
    {
        match self {
            PortMatcher::Single(p) => PortJson::Number(*p as u64),
            PortMatcher::Range(a, b) => {
                let mut t = String::new();
                append_decimal(&mut t, *a as u64);
                t.append("-");
                append_decimal(&mut t, *b as u64);
                proof {
                    reveal_strlit("-");
                }
                assert(t@ =~= spec_decimal(*a as nat) + seq!['-'] + spec_decimal(*b as nat));
                PortJson::Text(t)
            },
        }
    }

    /// The matcher that a JSON entry of a profile stands for.
    pub fn from_json(j: &PortJson) -> (r: Result<PortMatcher, PortJsonError>)
        ensures
            r == spec_port_from_json(j.view_of()),
    {
        match j {
            PortJson::Number(n) => Ok(PortMatcher::from_json_number(*n)),
            PortJson::Text(s) => match PortMatcher::from_json_text(s.as_str()) {
                Ok(m) => Ok(m),
                Err(e) => Err(PortJsonError::BadText(e)),
            },
            PortJson::OtherNumber => Err(PortJsonError::InvalidPortNumber),
            PortJson::OtherValue => Err(PortJsonError::NotIntegerOrRange),
        }
    }
}

/// Writing a port matcher as JSON and reading it back gives the same matcher;
/// a number that is no non-negative integer, and a value that is neither a
/// number nor a text, stand for no matcher.
pub proof fn lemma_port_json_roundtrip(m: PortMatcher)
    ensures
        spec_port_from_json(spec_port_to_json(m)) == Ok::<PortMatcher, PortJsonError>(m),
        spec_port_from_json(PortJsonView::OtherNumber) is Err,
        spec_port_from_json(PortJsonView::OtherValue) is Err,
{
    match m {
        PortMatcher::Single(p) => {
            assert((p as u64) % 65536 == p);
        },
        PortMatcher::Range(a, b) => {
            let da = spec_decimal(a as nat);
            let db = spec_decimal(b as nat);
            let s = da + seq!['-'] + db;
            lemma_decimal_parses(a as nat);
            lemma_decimal_parses(b as nat);
            assert forall|j: int| 0 <= j < da.len() implies s[j] != '-' by {
                assert(s[j] == da[j]);
                assert(is_digit(da[j]));
            }
            assert(s[da.len() as int] == '-');
            lemma_find_char_at(s, '-', 0, da.len() as int);
            assert(s.subrange(0, da.len() as int) =~= da);
            assert(s.subrange(da.len() as int + 1, s.len() as int) =~= db);
            assert(is_digit(da[0]) && is_digit(da.last()));
            assert(is_digit(db[0]) && is_digit(db.last()));
            lemma_trim_unchanged(da);
            lemma_trim_unchanged(db);
        },
    }
}

impl GameProfile {
    /// Whether traffic on `port` belongs to the game: true when the profile
    /// lists no ports, else when some listed port or range covers it.
    pub fn matches_port(&self, port: u16) -> (r: bool)
        ensures
            r == spec_ports_match(self.routing.ports@, port),
    {
        let ports = &self.routing.ports;
        if ports.len() == 0 {
            return true;
        }
        let mut i: usize = 0;
        while i < ports.len()
            invariant
                i <= ports@.len(),
                ports@ == self.routing.ports@,
                ports@.len() > 0,
                forall|j: int| 0 <= j < i ==> !spec_port_matches(ports@[j], port),
            decreases ports@.len() - i,
        {
            if ports[i].matches(port) {
                assert(spec_port_matches(ports@[i as int], port));
                return true;
            }
            i = i + 1;
        }
        false
    }

    /// Whether the executable file name `exe_name` belongs to the game: it
    /// equals, or ends with, one of the profile's executables, ignoring case.
    /// Both sides are lower-cased, then compared by `any_lowered_match`.
    pub fn matches_executable(&self, exe_name: &str) -> (r: bool)
        ensures
            r == spec_any_exe_matches(self.executables@, exe_name@),
    {
        let exe_lower = to_lowercase(exe_name);
        let mut targets_lower: Vec<String> = Vec::new();
        let mut i: usize = 0;
        while i < self.executables.len()
            invariant
                i <= self.executables@.len(),
                targets_lower@.len() == i,
                forall|j: int| 0 <= j < i ==> #[trigger] targets_lower@[j]@ == spec_to_lowercase(
                    self.executables@[j]@,
                ),
            decreases self.executables@.len() - i,
        {
            targets_lower.push(to_lowercase(self.executables[i].as_str()));
            i = i + 1;
        }
        let r = any_lowered_match(&targets_lower, exe_lower.as_str());
        proof {
            let ts = targets_lower@.map_values(|t: String| t@);
            let e = spec_to_lowercase(exe_name@);
            if r {
                let k = choose|k: int| 0 <= k < ts.len() && (e == ts[k] || is_suffix(ts[k], e));
                assert(targets_lower@[k]@ == spec_to_lowercase(self.executables@[k]@));
                assert(spec_exe_matches(self.executables@[k]@, exe_name@));
            } else {
                assert forall|k: int| 0 <= k < self.executables@.len() implies !spec_exe_matches(
                    self.executables@[k]@,
                    exe_name@,
                ) by {
                    assert(targets_lower@[k]@ == spec_to_lowercase(self.executables@[k]@));
                    assert(ts[k] == targets_lower@[k]@);
                }
            }
        }
        r
    }
}

/// The position of the first of `profiles` whose executables match the file
/// name `exe_name`, if any.
pub fn first_matching_profile(profiles: &Vec<GameProfile>, exe_name: &str) -> (r: Option<usize>)
    ensures
        match r {
            Some(k) => k < profiles@.len() && spec_any_exe_matches(profiles@[k as int].executables@, exe_name@)
                && forall|j: int| 0 <= j < k ==> !spec_any_exe_matches(
                #[trigger] profiles@[j].executables@,
                exe_name@,
            ),
            None => forall|j: int| 0 <= j < profiles@.len() ==> !spec_any_exe_matches(
                #[trigger] profiles@[j].executables@,
                exe_name@,
            ),
        },
{
    let mut i: usize = 0;
    while i < profiles.len()
        invariant
            i <= profiles@.len(),
            forall|j: int| 0 <= j < i ==> !spec_any_exe_matches(#[trigger] profiles@[j].executables@, exe_name@),
        decreases profiles@.len() - i,
    {
        if profiles[i].matches_executable(exe_name) {
            return Some(i);
        }
        i = i + 1;
    }
    None
}

/// Whether the lower-cased name `exe` matches one of the lower-cased names
/// `targets`: it equals one, or ends with one.
pub open spec fn spec_lowered_match(targets: Seq<Seq<char>>, exe: Seq<char>) -> bool {
    exists|i: int| 0 <= i < targets.len() && (exe == targets[i] || is_suffix(targets[i], exe))
}

/// Whether the lower-cased executable name `exe_lower` equals, or ends with,
/// one of the lower-cased profile executables `targets_lower`.
pub fn any_lowered_match(targets_lower: &Vec<String>, exe_lower: &str) -> (r: bool)
    ensures
        r == spec_lowered_match(targets_lower@.map_values(|t: String| t@), exe_lower@),
{
    let ghost ts = targets_lower@.map_values(|t: String| t@);
    let exe = chars_of(exe_lower);
    let mut i: usize = 0;
    while i < targets_lower.len()
        invariant
            i <= targets_lower@.len(),
            ts == targets_lower@.map_values(|t: String| t@),
            exe@ == exe_lower@,
            forall|j: int| 0 <= j < i ==> !(exe@ == #[trigger] ts[j] || is_suffix(ts[j], exe@)),
        decreases targets_lower@.len() - i,
    {
        let target = chars_of(targets_lower[i].as_str());
        assert(target@ == ts[i as int]);
        if same_chars(&exe, &target) || ends_with(&exe, &target) {
            return true;
        }
        i = i + 1;
    }
    false
}

/// The profile used when the client finds no profile file: Aion 2, its three
/// executables, TCP and UDP on ports 3724, 7777, 8000 and 9000-9100 to any
/// subnet, with FastConnect and path duplication (rate 2) on and DSCP 46.
pub fn builtin_aion2_profile() -> (p: GameProfile)
    ensures
        p.game_id@ == "aion2"@,
        p.name@ == "Aion 2 (MMORPG)"@,
        p.executables@.len() == 3,
        p.executables@[0]@ == "Aion2.exe"@,
        p.executables@[1]@ == "Aion2-Win64-Shipping.exe"@,
        p.executables@[2]@ == "Aion2Launcher.exe"@,
        p.routing.protocol@ == "BOTH"@,
        p.routing.ports@ == seq![
            PortMatcher::Single(3724),
            PortMatcher::Single(7777),
            PortMatcher::Single(8000),
            PortMatcher::Range(9000, 9100),
        ],
        p.routing.target_subnets@.len() == 1,
        p.routing.target_subnets@[0]@ == "0.0.0.0/0"@,
        p.optimizations.enable_fastconnect,
        p.optimizations.enable_multipath_dup,
        p.optimizations.packet_duplication_rate == 2,
        p.optimizations.dscp_tag == 46,
{
    let mut executables: Vec<String> = Vec::new();
    executables.push("Aion2.exe".to_owned());
    executables.push("Aion2-Win64-Shipping.exe".to_owned());
    executables.push("Aion2Launcher.exe".to_owned());
    let mut ports: Vec<PortMatcher> = Vec::new();
    ports.push(PortMatcher::Single(3724));
    ports.push(PortMatcher::Single(7777));
    ports.push(PortMatcher::Single(8000));
    ports.push(PortMatcher::Range(9000, 9100));
    let mut target_subnets: Vec<String> = Vec::new();
    target_subnets.push("0.0.0.0/0".to_owned());
    assert(ports@ =~= seq![
        PortMatcher::Single(3724),
        PortMatcher::Single(7777),
        PortMatcher::Single(8000),
        PortMatcher::Range(9000, 9100),
    ]);
    GameProfile {
        game_id: "aion2".to_owned(),
        name: "Aion 2 (MMORPG)".to_owned(),
        executables,
        routing: RoutingConfig { protocol: "BOTH".to_owned(), ports, target_subnets },
        optimizations: OptimizationsConfig {
            enable_fastconnect: true,
            enable_multipath_dup: true,
            packet_duplication_rate: 2,
            dscp_tag: 46,
        },
    }
}

/// The profile the dashboard uses when it finds no profile file: Farever, its
/// one executable, TCP on port 6022 to any subnet, with FastConnect and path
/// duplication (rate 2) on and DSCP 46.
pub fn builtin_farever_profile() -> (p: GameProfile)
    ensures
        p.game_id@ == "farever"@,
        p.name@ == "Farever"@,
        p.executables@.len() == 1,
        p.executables@[0]@ == "Farever.exe"@,
        p.routing.protocol@ == "TCP"@,
        p.routing.ports@ == seq![PortMatcher::Single(6022)],
        p.routing.target_subnets@.len() == 1,
        p.routing.target_subnets@[0]@ == "0.0.0.0/0"@,
        p.optimizations.enable_fastconnect,
        p.optimizations.enable_multipath_dup,
        p.optimizations.packet_duplication_rate == 2,
        p.optimizations.dscp_tag == 46,
{
    let mut executables: Vec<String> = Vec::new();
    executables.push("Farever.exe".to_owned());
    let mut ports: Vec<PortMatcher> = Vec::new();
    ports.push(PortMatcher::Single(6022));
    let mut target_subnets: Vec<String> = Vec::new();
    target_subnets.push("0.0.0.0/0".to_owned());
    assert(ports@ =~= seq![PortMatcher::Single(6022)]);
    GameProfile {
        game_id: "farever".to_owned(),
        name: "Farever".to_owned(),
        executables,
        routing: RoutingConfig { protocol: "TCP".to_owned(), ports, target_subnets },
        optimizations: OptimizationsConfig {
            enable_fastconnect: true,
            enable_multipath_dup: true,
            packet_duplication_rate: 2,
            dscp_tag: 46,
        },
    }
}

} // verus!
