//! Routing Spotify to the virtual cable and back: the decisions around the
//! calls into Windows' audio policy, and the outcomes they report.

use vstd::prelude::*;
use crate::text::{contains, lowercase, lowercased, push_decimal, seq_contains, decimal};

verus! {

/// Why Spotify could not be routed to the cable.
#[derive(Debug)]
pub enum RouteError {
    /// Spotify has not played sound yet, so Windows knows no audio session of it.
    NoAudioSession,
    /// Any other failure, with its message.
    Failed(String),
}

/// The message that `RouteError` shows.
pub open spec fn route_error_text(e: RouteError) -> Seq<char> {
    match e {
        RouteError::NoAudioSession => "Spotify has no audio session yet: start playing something."@,
        RouteError::Failed(message) => message@,
    }
}

impl RouteError {
    /// The message shown for this error.
    pub fn message(&self) -> (text: String)
        ensures
            text@ == route_error_text(*self),
    {
        match self {
            RouteError::NoAudioSession => String::from_str(
                "Spotify has no audio session yet: start playing something.",
            ),
            RouteError::Failed(message) => message.clone(),
        }
    }
}

impl From<String> for RouteError {
    fn from(message: String) -> (e: RouteError) {
        RouteError::Failed(message)
    }
}

impl vstd::std_specs::convert::FromSpecImpl<String> for RouteError {
    open spec fn obeys_from_spec() -> bool {
        true
    }

    open spec fn from_spec(message: String) -> RouteError {
        RouteError::Failed(message)
    }
}

impl<'a> From<&'a str> for RouteError {
    fn from(message: &'a str) -> (e: RouteError)
        ensures
            e is Failed && e->Failed_0@ == message@,
    {
        RouteError::Failed(String::from_str(message))
    }
}

/// A `String` is not fixed by its characters in specifications, so the error
/// made from a text is given by the characters of its message alone (in the
/// `ensures` of `from`), not as one value.
impl<'a> vstd::std_specs::convert::FromSpecImpl<&'a str> for RouteError {
    open spec fn obeys_from_spec() -> bool {
        false
    }

    open spec fn from_spec(message: &'a str) -> RouteError {
        RouteError::Failed(choose|m: String| m@ == message@)
    }
}

/// What putting Spotify back on the default device found.
#[derive(Clone, Copy, Debug, PartialEq, Eq, Structural)]
pub enum Restore {
    SpotifyNotRunning,
    NoCable,
    NoAudioSession,
    NotRouted,
    /// That many routings were reset.
    Reset(usize),
}

/// The message that `Restore` shows.
pub open spec fn restore_text(r: Restore) -> Seq<char> {
    match r {
        Restore::SpotifyNotRunning => "Spotify is not running: nothing to restore"@,
        Restore::NoCable => "no virtual cable found: nothing to restore"@,
        Restore::NoAudioSession => "Spotify has no audio session yet: cannot check its output"@,
        Restore::NotRouted => "Spotify was not routed to the cable"@,
        Restore::Reset(n) => "reset "@ + decimal(n as nat)
            + " Spotify routing(s) from the cable back to the default device"@,
    }
}

impl Restore {
    /// The message shown for this outcome.
    pub fn message(&self) -> (text: String)
        ensures
            text@ == restore_text(*self),
    {
        match self {
            Restore::SpotifyNotRunning => String::from_str("Spotify is not running: nothing to restore"),
            Restore::NoCable => String::from_str("no virtual cable found: nothing to restore"),
            Restore::NoAudioSession => String::from_str(
                "Spotify has no audio session yet: cannot check its output",
            ),
            Restore::NotRouted => String::from_str("Spotify was not routed to the cable"),
            Restore::Reset(n) => {
                let mut text = String::from_str("reset ");
                push_decimal(&mut text, *n);
                text.append(" Spotify routing(s) from the cable back to the default device");
                text
            },
        }
    }
}

/// Whether Spotify runs, from the process ids found under its name; `None`
/// when the process list could not be read.
pub fn spotify_running(pids: Option<Vec<u32>>) -> (running: Option<bool>)
    ensures
        running == match pids {
            Some(p) => Some(p@.len() > 0),
            None => None::<bool>,
        },
{
    match pids {
        Some(p) => Some(p.len() > 0),
        None => None,
    }
}

/// The code units of "spotify.exe".
pub open spec fn spotify_exe() -> Seq<char> {
    seq!['s', 'p', 'o', 't', 'i', 'f', 'y', '.', 'e', 'x', 'e']
}

/// A UTF-16 code unit with ASCII capitals made small; every other unit as it is.
pub open spec fn ascii_lower(u: u16) -> u16 {
    if 65 <= u <= 90 {
        (u + 32) as u16
    } else {
        u
    }
}

/// The length of a process's executable name: the units before the first NUL,
/// or none at all when there is no NUL.
pub open spec fn exe_name_len(exe: Seq<u16>) -> int {
    if exists|i: int| 0 <= i < exe.len() && exe[i] == 0 {
        choose|i: int| 0 <= i < exe.len() && exe[i] == 0 && forall|j: int| 0 <= j < i ==> exe[j] != 0
    } else {
        0
    }
}

/// The executable name in `exe` is "spotify.exe", ignoring ASCII case.
pub open spec fn names_spotify(exe: Seq<u16>) -> bool {
    &&& exe_name_len(exe) == 11
    &&& forall|i: int| 0 <= i < 11 ==> ascii_lower(#[trigger] exe[i]) == spotify_exe()[i] as u16
}

/// Whether a process entry's executable name (UTF-16, NUL-terminated) is
/// Spotify's. Decoding the name and comparing it with "spotify.exe" ignoring
/// ASCII case comes to this: exactly eleven units before the NUL, each the
/// ASCII character of "spotify.exe" in either case.
pub fn is_spotify_exe(exe: &[u16]) -> (b: bool)
    ensures
        b == names_spotify(exe@),
{
    let n = exe.len();
    let mut len: usize = 0;
    let mut i: usize = 0;
    let mut found = false;
    while i < n
        invariant_except_break
            !found,
        invariant
            n == exe@.len(),
            i <= n,
            forall|j: int| 0 <= j < i ==> exe@[j] != 0,
        ensures
            found ==> i < n && exe@[i as int] == 0 && forall|j: int| 0 <= j < i ==> exe@[j] != 0,
            !found ==> i == n,
        decreases n - i,
    {
        if exe[i] == 0 {
            found = true;
            break;
        }
        i = i + 1;
    }
    if found {
        len = i;
    }
    proof {
        if found {
            let c = choose|k: int| 0 <= k < exe@.len() && exe@[k] == 0 && forall|j: int| 0 <= j < k ==> exe@[j] != 0;
            if c < i {
                assert(exe@[c] != 0);
            }
            if c > i {
                assert(exe@[i as int] != 0);
            }
            assert(exe_name_len(exe@) == i);
        } else {
            assert(!exists|k: int| 0 <= k < exe@.len() && exe@[k] == 0);
            assert(exe_name_len(exe@) == 0);
        }
    }
    if len != 11 {
        return false;
    }
    let target: [u16; 11] = [115, 112, 111, 116, 105, 102, 121, 46, 101, 120, 101];
    assert(forall|j: int| 0 <= j < 11 ==> target@[j] == spotify_exe()[j] as u16);
    let mut k: usize = 0;
    while k < 11
        invariant
            len == 11,
            exe_name_len(exe@) == 11,
            n == exe@.len(),
            11 <= n,
            k <= 11,
            forall|j: int| 0 <= j < 11 ==> target@[j] == spotify_exe()[j] as u16,
            forall|j: int| 0 <= j < k ==> ascii_lower(#[trigger] exe@[j]) == spotify_exe()[j] as u16,
        decreases 11 - k,
    {
        let u = exe[k];
        let lower: u16 = if 65 <= u && u <= 90 { u + 32 } else { u };
        if lower != target[k] {
            assert(ascii_lower(exe@[k as int]) != spotify_exe()[k as int] as u16);
            return false;
        }
        k = k + 1;
    }
    true
}

/// A device named like the virtual cable: its lowercased name contains "cable input".
pub open spec fn is_cable(name: Seq<char>) -> bool {
    seq_contains(lowercased(name), "cable input"@)
}

/// Whether an output device with that friendly name is the virtual cable.
pub fn is_cable_name(name: &str) -> (b: bool)
    ensures
        b == is_cable(name@),
{
    let lower = lowercase(name);
    contains(lower.as_str(), "cable input")
}

/// The first output device, of (id, friendly name) pairs, that is the cable.
pub fn find_cable(outputs: &Vec<(String, String)>) -> (found: Option<usize>)
    ensures
        match found {
            Some(i) => i < outputs@.len() && is_cable(outputs@[i as int].1@) && forall|j: int|
                0 <= j < i ==> !is_cable(#[trigger] outputs@[j].1@),
            None => forall|j: int| 0 <= j < outputs@.len() ==> !is_cable(#[trigger] outputs@[j].1@),
        },
{
    let mut i: usize = 0;
    while i < outputs.len()
        invariant
            i <= outputs@.len(),
            forall|j: int| 0 <= j < i ==> !is_cable(#[trigger] outputs@[j].1@),
        decreases outputs@.len() - i,
    {
        if is_cable_name(outputs[i].1.as_str()) {
            return Some(i);
        }
        i = i + 1;
    }
    None
}

/// The ids of the cable devices among the outputs, in order.
pub open spec fn cable_id_seq(outputs: Seq<(String, String)>) -> Seq<Seq<char>>
    decreases outputs.len(),
{
    if outputs.len() == 0 {
        Seq::empty()
    } else {
        let rest = cable_id_seq(outputs.drop_last());
        if is_cable(outputs.last().1@) {
            rest.push(outputs.last().0@)
        } else {
            rest
        }
    }
}

/// The ids of every output device that is the cable.
pub fn cable_ids(outputs: &Vec<(String, String)>) -> (ids: Vec<String>)
    ensures
        ids@.map_values(|s: String| s@) == cable_id_seq(outputs@),
{
    let mut ids: Vec<String> = Vec::new();
    let mut i: usize = 0;
    while i < outputs.len()
        invariant
            i <= outputs@.len(),
            ids@.map_values(|s: String| s@) == cable_id_seq(outputs@.subrange(0, i as int)),
        decreases outputs@.len() - i,
    {
        assert(outputs@.subrange(0, i + 1).drop_last() =~= outputs@.subrange(0, i as int));
        if is_cable_name(outputs[i].1.as_str()) {
            ids.push(outputs[i].0.clone());
            assert(ids@.map_values(|s: String| s@) =~= cable_id_seq(outputs@.subrange(0, i as int)).push(
                outputs@[i as int].0@,
            ));
        }
        i = i + 1;
    }
    assert(outputs@.subrange(0, outputs@.len() as int) =~= outputs@);
    ids
}

/// Whether a persisted device path names one of the cable devices.
pub open spec fn on_cable(path: Seq<char>, ids: Seq<String>) -> bool {
    exists|i: int| 0 <= i < ids.len() && seq_contains(path, (#[trigger] ids[i])@)
}

/// Whether Spotify's persisted output path is one of the cable devices.
pub fn path_on_cable(path: &str, ids: &Vec<String>) -> (b: bool)
    ensures
        b == on_cable(path@, ids@),
{
    let mut i: usize = 0;
    while i < ids.len()
        invariant
            i <= ids@.len(),
            forall|j: int| 0 <= j < i ==> !seq_contains(path@, (#[trigger] ids@[j])@),
        decreases ids@.len() - i,
    {
        if contains(path, ids[i].as_str()) {
            return true;
        }
        i = i + 1;
    }
    false
}

/// The path under which Windows persists an app's output device.
pub open spec fn device_path_text(endpoint_id: Seq<char>) -> Seq<char> {
    "\\\\?\\SWD#MMDEVAPI#"@ + endpoint_id + "#{e6327cad-dcec-4949-ae8a-991e976a79d2}"@
}

/// The persisted device path of an output device, from its endpoint id.
pub fn device_path(endpoint_id: &str) -> (path: String)
    ensures
        path@ == device_path_text(endpoint_id@),
{
    let mut path = String::from_str("\\\\?\\SWD#MMDEVAPI#");
    path.append(endpoint_id);
    path.append("#{e6327cad-dcec-4949-ae8a-991e976a79d2}");
    path
}

/// The processes among `pids` whose query was answered, in order.
pub open spec fn answered_pids(pids: Seq<u32>, answered: Seq<bool>) -> Seq<u32>
    decreases pids.len(),
{
    if pids.len() == 0 {
        Seq::empty()
    } else {
        let rest = answered_pids(pids.drop_last(), answered);
        if answered[pids.len() - 1] {
            rest.push(pids.last())
        } else {
            rest
        }
    }
}

/// The Spotify processes that have an audio session: those for which Windows
/// answered the query of their persisted device.
pub fn audio_pids(pids: &Vec<u32>, answered: &Vec<bool>) -> (audio: Vec<u32>)
    requires
        answered@.len() == pids@.len(),
    ensures
        audio@ == answered_pids(pids@, answered@),
{
    let mut audio: Vec<u32> = Vec::new();
    let mut i: usize = 0;
    while i < pids.len()
        invariant
            i <= pids@.len(),
            answered@.len() == pids@.len(),
            audio@ == answered_pids(pids@.subrange(0, i as int), answered@),
        decreases pids@.len() - i,
    {
        assert(pids@.subrange(0, i + 1).drop_last() =~= pids@.subrange(0, i as int));
        if answered[i] {
            audio.push(pids[i]);
        }
        i = i + 1;
    }
    assert(pids@.subrange(0, pids@.len() as int) =~= pids@);
    audio
}

/// The outcome of routing, from the number of (process, role) routings that
/// Windows accepted.
pub fn route_outcome(routed: usize, cable_name: &str) -> (r: Result<String, RouteError>)
    ensures
        routed > 0 <==> r is Ok,
        r is Ok ==> r->Ok_0@ == "routed Spotify to "@ + cable_name@,
        r is Err ==> r->Err_0 is Failed && r->Err_0->Failed_0@
            == "Windows refused to route Spotify to the cable."@,
{
    if routed == 0 {
        return Err(RouteError::Failed(String::from_str("Windows refused to route Spotify to the cable.")));
    }
    let mut text = String::from_str("routed Spotify to ");
    text.append(cable_name);
    Ok(text)
}

/// The outcome of restoring, from the number of routings reset.
pub fn restore_outcome(reset: usize) -> (r: Restore)
    ensures
        reset > 0 ==> r == Restore::Reset(reset),
        reset == 0 ==> r == Restore::NotRouted,
{
    if reset > 0 {
        Restore::Reset(reset)
    } else {
        Restore::NotRouted
    }
}

/// The audio processes are exactly the processes whose query was answered:
/// every one of those is kept, and nothing else comes in.
pub proof fn lemma_answered_pids_exact(pids: Seq<u32>, answered: Seq<bool>)
    requires
        answered.len() == pids.len(),
    ensures
        forall|i: int| 0 <= i < pids.len() && answered[i] ==> answered_pids(pids, answered).contains(#[trigger] pids[i]),
        forall|x: u32| answered_pids(pids, answered).contains(x) ==> exists|i: int|
            0 <= i < pids.len() && answered[i] && #[trigger] pids[i] == x,
        answered_pids(pids, answered).len() <= pids.len(),
{
    if pids.len() > 0 {
        lemma_answered_pids_exact_prefix(pids, answered, (pids.len() - 1) as nat);
    }
}

proof fn lemma_answered_pids_exact_prefix(pids: Seq<u32>, answered: Seq<bool>, k: nat)
    requires
        answered.len() == pids.len(),
        k < pids.len(),
        k == pids.len() - 1,
    ensures
        forall|i: int| 0 <= i < pids.len() && answered[i] ==> answered_pids(pids, answered).contains(#[trigger] pids[i]),
        forall|x: u32| answered_pids(pids, answered).contains(x) ==> exists|i: int|
            0 <= i < pids.len() && answered[i] && #[trigger] pids[i] == x,
        answered_pids(pids, answered).len() <= pids.len(),
    decreases pids.len(),
{
    let p = pids.drop_last();
    let r = answered_pids(p, answered);
    if p.len() > 0 {
        lemma_answered_pids_exact_prefix(p, answered.take(p.len() as int), (p.len() - 1) as nat);
        lemma_answered_prefix_flags(p, answered);
    }
    let full = answered_pids(pids, answered);
    assert forall|i: int| 0 <= i < pids.len() && answered[i] implies full.contains(#[trigger] pids[i]) by {
        if i < p.len() {
            assert(answered.take(p.len() as int)[i] == answered[i]);
            assert(p[i] == pids[i]);
            assert(r.contains(p[i]));
            let w = choose|w: int| 0 <= w < r.len() && r[w] == p[i];
            if answered[pids.len() - 1] {
                assert(full[w] == r[w]);
            }
        } else {
            assert(full.last() == pids[i]);
        }
    }
    assert forall|x: u32| full.contains(x) implies exists|i: int|
        0 <= i < pids.len() && answered[i] && #[trigger] pids[i] == x by {
        let w = choose|w: int| 0 <= w < full.len() && full[w] == x;
        if w < r.len() {
            assert(r[w] == x);
            assert(r.contains(x));
            let i = choose|i: int| 0 <= i < p.len() && answered.take(p.len() as int)[i] && #[trigger] p[i] == x;
            assert(pids[i] == x);
        } else {
            assert(pids[pids.len() - 1] == x);
        }
    }
}

proof fn lemma_answered_prefix_flags(p: Seq<u32>, answered: Seq<bool>)
    requires
        p.len() <= answered.len(),
    ensures
        answered_pids(p, answered) == answered_pids(p, answered.take(p.len() as int)),
    decreases p.len(),
{
    if p.len() > 0 {
        lemma_answered_prefix_flags(p.drop_last(), answered);
        lemma_answered_prefix_flags(p.drop_last(), answered.take(p.len() as int));
        assert(answered.take(p.len() as int).take(p.len() - 1) =~= answered.take(p.len() - 1));
    }
}

} // verus!
