//! The logic of the command-line experiments: reading a mix of stems typed by
//! the user, naming a mix, finding a command-line option, and telling where
//! Spotify's persisted output path points.

use vstd::prelude::*;
use vstd::string::StrSliceExecFns;
use crate::stems::{has_bit, picked_below, stem, stem_name, stem_position, STEM_COUNT};
use crate::text::{all_white, chars_of, contains, is_white_space, lowercase, trim_end, trim_start, lowercased, same_text, seq_contains, trim, trimmed};

verus! {

/// The mix that passes the input through unseparated.
pub const ALL: u32 = 1 << 8;

/// Every stem but the vocals.
pub const BACKING: u32 = 0b110111;

/// The text cut at each comma, as far as its first `k` characters: the parts
/// in order, the last one still open.
pub open spec fn split_prefix(s: Seq<char>, k: nat) -> Seq<Seq<char>>
    decreases k,
{
    if k == 0 {
        seq![Seq::empty()]
    } else {
        let parts = split_prefix(s, (k - 1) as nat);
        if s[k - 1] == ',' {
            parts.push(Seq::empty())
        } else {
            parts.update(parts.len() - 1, parts.last().push(s[k - 1]))
        }
    }
}

/// The text cut at each comma, as `str::split(',')` cuts it.
pub open spec fn split_commas(s: Seq<char>) -> Seq<Seq<char>> {
    split_prefix(s, s.len())
}

proof fn lemma_split_prefix_shape(s: Seq<char>, k: nat, start: int)
    requires
        k <= s.len(),
        0 <= start <= k,
        forall|i: int| start <= i < k ==> s[i] != ',',
        start == 0 || s[start - 1] == ',',
    ensures
        split_prefix(s, k).len() >= 1,
        split_prefix(s, k).last() == s.subrange(start, k as int),
        split_prefix(s, k).drop_last() == split_prefix(s, start as nat).drop_last(),
    decreases k,
{
    if k > start {
        lemma_split_prefix_shape(s, (k - 1) as nat, start);
        assert(s.subrange(start, k as int) =~= s.subrange(start, k - 1).push(s[k - 1]));
        assert(split_prefix(s, k).drop_last() =~= split_prefix(s, (k - 1) as nat).drop_last());
    } else if k > 0 {
        assert(split_prefix(s, (k - 1) as nat).len() >= 1) by {
            lemma_split_len((k - 1) as nat, s);
        }
        assert(s.subrange(start, k as int) =~= Seq::<char>::empty());
    } else {
        assert(s.subrange(0, 0) =~= Seq::<char>::empty());
    }
}

proof fn lemma_split_len(k: nat, s: Seq<char>)
    requires
        k <= s.len(),
    ensures
        split_prefix(s, k).len() >= 1,
    decreases k,
{
    if k > 0 {
        lemma_split_len((k - 1) as nat, s);
    }
}

/// The parts of a text between its commas.
pub fn split_commas_exec(s: &str) -> (parts: Vec<String>)
    ensures
        parts@.map_values(|p: String| p@) == split_commas(s@),
{
    let cs = chars_of(s);
    let n = cs.len();
    let mut parts: Vec<String> = Vec::new();
    let mut start: usize = 0;
    let mut i: usize = 0;
    while i < n
        invariant
            cs@ == s@,
            n == s@.len(),
            start <= i <= n,
            forall|k: int| start <= k < i ==> s@[k] != ',',
            start == 0 || s@[start - 1] == ',',
            parts@.map_values(|p: String| p@) == split_prefix(s@, start as nat).drop_last(),
        decreases n - i,
    {
        if cs[i] == ',' {
            let part = String::from_str(s.substring_char(start, i));
            proof {
                lemma_split_prefix_shape(s@, i as nat, start as int);
                assert(split_prefix(s@, (i + 1) as nat) == split_prefix(s@, i as nat).push(Seq::<char>::empty()));
                assert(split_prefix(s@, (i + 1) as nat).drop_last() =~= split_prefix(s@, i as nat));
                assert(split_prefix(s@, i as nat) =~= split_prefix(s@, i as nat).drop_last().push(
                    s@.subrange(start as int, i as int),
                ));
            }
            parts.push(part);
            assert(parts@.map_values(|p: String| p@) =~= split_prefix(s@, (i + 1) as nat).drop_last());
            start = i + 1;
        }
        i = i + 1;
    }
    let last = String::from_str(s.substring_char(start, n));
    proof {
        lemma_split_prefix_shape(s@, n as nat, start as int);
        assert(split_prefix(s@, n as nat) =~= split_prefix(s@, n as nat).drop_last().push(
            s@.subrange(start as int, n as int),
        ));
    }
    parts.push(last);
    assert(parts@.map_values(|p: String| p@) =~= split_commas(s@));
    parts
}

/// The stem with that name, if any.
pub open spec fn stem_index(q: Seq<char>) -> Option<u32> {
    if q == stem(0) {
        Some(0)
    } else if q == stem(1) {
        Some(1)
    } else if q == stem(2) {
        Some(2)
    } else if q == stem(3) {
        Some(3)
    } else if q == stem(4) {
        Some(4)
    } else if q == stem(5) {
        Some(5)
    } else {
        None
    }
}

/// A part of a typed mix, trimmed and lowercased.
pub open spec fn normalized(p: Seq<char>) -> Seq<char> {
    lowercased(trimmed(p))
}

/// The mix named by the parts from `i` on, with `mask` gathered so far: empty
/// parts are skipped; `all` is the whole input at once; `backing` adds every
/// stem but the vocals; a stem's name adds that stem; anything else makes the
/// whole mix invalid. No stem at all is no mix either.
pub open spec fn mix_from(parts: Seq<Seq<char>>, i: nat, mask: u32) -> Option<u32>
    decreases parts.len() - i,
{
    if i >= parts.len() {
        if mask != 0 {
            Some(mask)
        } else {
            None
        }
    } else {
        let q = normalized(parts[i as int]);
        if q.len() == 0 {
            mix_from(parts, i + 1, mask)
        } else if q == "all"@ {
            Some(ALL)
        } else if q == "backing"@ {
            mix_from(parts, i + 1, mask | BACKING)
        } else {
            match stem_index(q) {
                Some(j) => mix_from(parts, i + 1, mask | (1u32 << j)),
                None => None,
            }
        }
    }
}

/// Reads a mix typed by the user: stems separated by commas, or `backing`,
/// or `all`.
pub fn parse_mix(s: &str) -> (mask: Option<u32>)
    ensures
        mask == mix_from(split_commas(s@), 0, 0),
{
    let parts = split_commas_exec(s);
    let ghost ps = split_commas(s@);
    let mut mask: u32 = 0;
    let mut i: usize = 0;
    while i < parts.len()
        invariant
            ps == split_commas(s@),
            parts@.map_values(|p: String| p@) == ps,
            i <= parts@.len(),
            mix_from(ps, 0, 0) == mix_from(ps, i as nat, mask),
        decreases parts@.len() - i,
    {
        assert(ps[i as int] == parts@[i as int]@);
        let lower = lowercase(trim(parts[i].as_str()));
        assert(normalized(ps[i as int]) == lower@);
        assert(ps.len() == parts@.len());
        if lower.as_str().is_empty() {
        } else if same_text(lower.as_str(), "all") {
            assert(mix_from(ps, i as nat, mask) == Some(ALL));
            return Some(ALL);
        } else if same_text(lower.as_str(), "backing") {
            mask = mask | BACKING;
        } else {
            match stem_position(lower.as_str()) {
                Some(p) => {
                    proof {
                        crate::stems::lemma_stems_distinct(p as int, p as int);
                        assert(stem_index(lower@) == Some(p as u32)) by {
                            if p > 0 { assert(stem(0) != lower@); }
                            if p > 1 { assert(stem(1) != lower@); }
                            if p > 2 { assert(stem(2) != lower@); }
                            if p > 3 { assert(stem(3) != lower@); }
                            if p > 4 { assert(stem(4) != lower@); }
                        }
                    }
                    let bit: u32 = p as u32;
                    mask = mask | (1u32 << bit);
                },
                None => {
                    proof {
                        assert(stem(0) != lower@ && stem(1) != lower@ && stem(2) != lower@);
                        assert(stem(3) != lower@ && stem(4) != lower@ && stem(5) != lower@);
                    }
                    return None;
                },
            }
        }
        i = i + 1;
    }
    if mask != 0 {
        Some(mask)
    } else {
        None
    }
}

/// The names of the stems of `mask` below `k`, joined by `+`.
pub open spec fn joined_names(mask: u32, k: nat) -> Seq<char>
    decreases k,
{
    if k == 0 {
        Seq::empty()
    } else {
        let rest = joined_names(mask, (k - 1) as nat);
        if has_bit(mask, (k - 1) as u32) {
            if rest.len() == 0 {
                stem(k - 1)
            } else {
                rest + "+"@ + stem(k - 1)
            }
        } else {
            rest
        }
    }
}

/// The name of a mix: `all`, or its stems joined by `+`.
pub open spec fn mix_name_spec(mask: u32) -> Seq<char> {
    if mask & ALL != 0 {
        "all"@
    } else {
        joined_names(mask, STEM_COUNT as nat)
    }
}

/// Names a mix, as it is shown to the user.
pub fn mix_name(mask: u32) -> (name: String)
    ensures
        name@ == mix_name_spec(mask),
{
    if mask & ALL != 0 {
        return String::from_str("all");
    }
    let mut name = String::new();
    let mut i: usize = 0;
    while i < STEM_COUNT
        invariant
            i <= STEM_COUNT,
            name@ == joined_names(mask, i as nat),
        decreases STEM_COUNT - i,
    {
        let bit: u32 = i as u32;
        if mask & (1u32 << bit) != 0 {
            if name.unicode_len() > 0 {
                name.append("+");
            }
            name.append(stem_name(i));
        }
        i = i + 1;
    }
    name
}

/// The value given after the first occurrence of option `name`, if any.
pub open spec fn arg_spec(args: Seq<Seq<char>>, name: Seq<char>) -> Option<Seq<char>> {
    if exists|i: int| 0 <= i < args.len() && args[i] == name {
        let i = choose|i: int| 0 <= i < args.len() && args[i] == name && forall|j: int| 0 <= j < i ==> args[j] != name;
        if i + 1 < args.len() {
            Some(args[i + 1])
        } else {
            None
        }
    } else {
        None
    }
}

/// The value given on the command line after option `name`.
pub fn arg(args: &Vec<String>, name: &str) -> (value: Option<String>)
    ensures
        match value {
            Some(v) => arg_spec(args@.map_values(|a: String| a@), name@) == Some(v@),
            None => arg_spec(args@.map_values(|a: String| a@), name@) is None,
        },
{
    let ghost av = args@.map_values(|a: String| a@);
    let mut i: usize = 0;
    while i < args.len()
        invariant
            av == args@.map_values(|a: String| a@),
            i <= args@.len(),
            forall|j: int| 0 <= j < i ==> av[j] != name@,
        decreases args@.len() - i,
    {
        if same_text(args[i].as_str(), name) {
            proof {
                let c = choose|k: int| 0 <= k < av.len() && av[k] == name@ && forall|j: int| 0 <= j < k ==> av[j] != name@;
                assert(av[i as int] == name@);
                if c < i { assert(av[c] != name@); }
                if c > i { assert(av[i as int] != name@); }
            }
            if i + 1 < args.len() {
                return Some(args[i + 1].clone());
            } else {
                return None;
            }
        }
        i = i + 1;
    }
    proof {
        assert(!exists|k: int| 0 <= k < av.len() && av[k] == name@);
    }
    None
}

/// A device name matches a pattern typed by the user when, both lowercased,
/// the pattern occurs in the name.
pub open spec fn name_matches(name: Seq<char>, pattern: Seq<char>) -> bool {
    seq_contains(lowercased(name), lowercased(pattern))
}

/// The first device, of (id, friendly name) pairs, whose name matches the
/// pattern, ignoring case.
pub fn find_device(devices: &Vec<(String, String)>, pattern: &str) -> (found: Option<usize>)
    ensures
        match found {
            Some(i) => i < devices@.len() && name_matches(devices@[i as int].1@, pattern@) && forall|j: int|
                0 <= j < i ==> !name_matches((#[trigger] devices@[j]).1@, pattern@),
            None => forall|j: int|
                0 <= j < devices@.len() ==> !name_matches((#[trigger] devices@[j]).1@, pattern@),
        },
{
    let pat = lowercase(pattern);
    let mut i: usize = 0;
    while i < devices.len()
        invariant
            pat@ == lowercased(pattern@),
            i <= devices@.len(),
            forall|j: int| 0 <= j < i ==> !name_matches((#[trigger] devices@[j]).1@, pattern@),
        decreases devices@.len() - i,
    {
        let name = lowercase(devices[i].1.as_str());
        if contains(name.as_str(), pat.as_str()) {
            return Some(i);
        }
        i = i + 1;
    }
    None
}

/// The first device, of (id, friendly name) pairs, with exactly that id.
pub fn find_id(devices: &Vec<(String, String)>, id: &str) -> (found: Option<usize>)
    ensures
        match found {
            Some(i) => i < devices@.len() && devices@[i as int].0@ == id@ && forall|j: int|
                0 <= j < i ==> (#[trigger] devices@[j]).0@ != id@,
            None => forall|j: int| 0 <= j < devices@.len() ==> (#[trigger] devices@[j]).0@ != id@,
        },
{
    let mut i: usize = 0;
    while i < devices.len()
        invariant
            i <= devices@.len(),
            forall|j: int| 0 <= j < i ==> (#[trigger] devices@[j]).0@ != id@,
        decreases devices@.len() - i,
    {
        if same_text(devices[i].0.as_str(), id) {
            return Some(i);
        }
        i = i + 1;
    }
    None
}

/// Where Spotify's persisted output path points.
#[derive(Clone, Copy, PartialEq, Eq, Debug, Structural)]
pub enum RouteTarget {
    /// No path: the default device.
    DefaultDevice,
    /// The output device at that index of the device list.
    Device(usize),
    /// A device that is not in the list.
    Unlisted,
}

/// Where a persisted path points: nowhere (the default device), the first
/// listed device whose id it contains, or an unlisted one.
pub fn route_target(path: &str, devices: &Vec<(String, String)>) -> (t: RouteTarget)
    ensures
        path@.len() == 0 ==> t == RouteTarget::DefaultDevice,
        path@.len() > 0 ==> match t {
            RouteTarget::Device(i) => i < devices@.len() && seq_contains(path@, devices@[i as int].0@)
                && forall|j: int| 0 <= j < i ==> !seq_contains(path@, (#[trigger] devices@[j]).0@),
            RouteTarget::Unlisted => forall|j: int|
                0 <= j < devices@.len() ==> !seq_contains(path@, (#[trigger] devices@[j]).0@),
            RouteTarget::DefaultDevice => false,
        },
{
    if path.unicode_len() == 0 {
        return RouteTarget::DefaultDevice;
    }
    assert(path@.len() > 0);
    let mut i: usize = 0;
    while i < devices.len()
        invariant
            path@.len() > 0,
            i <= devices@.len(),
            forall|j: int| 0 <= j < i ==> !seq_contains(path@, (#[trigger] devices@[j]).0@),
        decreases devices@.len() - i,
    {
        if contains(path, devices[i].0.as_str()) {
            return RouteTarget::Device(i);
        }
        i = i + 1;
    }
    RouteTarget::Unlisted
}

/// The stems that the experiment adds up for a mask: those whose bit is set.
pub fn stems_in(mask: u32) -> (stems: Vec<usize>)
    ensures
        stems@ == crate::stems::picked_below(mask, false, STEM_COUNT as nat),
{
    let mut stems: Vec<usize> = Vec::new();
    let mut i: usize = 0;
    while i < STEM_COUNT
        invariant
            i <= STEM_COUNT,
            stems@ == crate::stems::picked_below(mask, false, i as nat),
        decreases STEM_COUNT - i,
    {
        let bit: u32 = i as u32;
        if mask & (1u32 << bit) != 0 {
            stems.push(i);
        }
        i = i + 1;
    }
    stems
}

/// Frames per second of the cable experiment.
pub const CABLE_RATE: usize = 48_000;
/// Channels of the cable experiment.
pub const CABLE_CHANNELS: usize = 2;
/// Milliseconds of audio the cable experiment buffers before playing.
pub const PREBUFFER_MS: usize = 100;
/// Milliseconds above which the cable experiment trims its ring (clock drift).
pub const MAX_DEPTH_MS: usize = 400;
/// Milliseconds the cable experiment trims its ring to.
pub const TRIM_TO_MS: usize = 150;

/// Samples of `ms` milliseconds in the cable experiment.
pub fn cable_samples(ms: usize) -> (n: usize)
    requires
        ms * CABLE_RATE <= usize::MAX,
    ensures
        n == ms * CABLE_RATE / 1000 * CABLE_CHANNELS,
{
    ms * CABLE_RATE / 1000 * CABLE_CHANNELS
}


// ---------------------------------------------------------------------------
// Reading back the name of a mix.

/// A text with each `+` read as `,`.
pub open spec fn pluses_as_commas(s: Seq<char>) -> Seq<char> {
    s.map_values(|c: char| if c == '+' { ',' } else { c })
}

/// The names of the stems at those indices.
pub open spec fn stem_names(idx: Seq<usize>) -> Seq<Seq<char>> {
    idx.map_values(|j: usize| stem(j as int))
}

/// Every stem name is a plain lowercase word: no comma, no `+`, no white
/// space, and neither `all` nor `backing`.
proof fn lemma_stem_chars(i: int)
    requires
        0 <= i < STEM_COUNT,
    ensures
        stem(i).len() > 0,
        forall|j: int| 0 <= j < stem(i).len() ==> (#[trigger] stem(i)[j]) != ',' && stem(i)[j] != '+'
            && !is_white_space(stem(i)[j]),
        stem(i) != "all"@,
        stem(i) != "backing"@,
{
    reveal_strlit("drums");
    reveal_strlit("bass");
    reveal_strlit("other");
    reveal_strlit("vocals");
    reveal_strlit("guitar");
    reveal_strlit("piano");
    reveal_strlit("all");
    reveal_strlit("backing");
    assert("all"@.len() == 3);
    assert("backing"@.len() == 7);
    let s = stem(i);
    assert forall|j: int| 0 <= j < s.len() implies (#[trigger] s[j]) != ',' && s[j] != '+' && !is_white_space(s[j]) by {
        assert('a' <= s[j] <= 'z');
    }
}

proof fn lemma_split_prefix_same(a: Seq<char>, b: Seq<char>, k: nat)
    requires
        k <= a.len(),
        k <= b.len(),
        forall|i: int| 0 <= i < k ==> a[i] == b[i],
    ensures
        split_prefix(a, k) == split_prefix(b, k),
    decreases k,
{
    if k > 0 {
        lemma_split_prefix_same(a, b, (k - 1) as nat);
    }
}

/// A text without commas is one part.
proof fn lemma_split_no_comma(t: Seq<char>)
    requires
        forall|j: int| 0 <= j < t.len() ==> t[j] != ',',
    ensures
        split_commas(t) == seq![t],
{
    lemma_split_prefix_shape(t, t.len(), 0);
    assert(t.subrange(0, t.len() as int) =~= t);
    assert(split_prefix(t, 0).drop_last() =~= Seq::<Seq<char>>::empty());
    assert(split_commas(t) =~= seq![t]);
}

/// A comma and a text without commas after it add that text as one more part.
proof fn lemma_split_after_comma(x: Seq<char>, t: Seq<char>)
    requires
        forall|j: int| 0 <= j < t.len() ==> t[j] != ',',
    ensures
        split_commas(x + seq![','] + t) == split_commas(x).push(t),
{
    let y = x + seq![','] + t;
    let n = x.len() + 1;
    assert forall|i: int| n <= i < y.len() implies y[i] != ',' by {
        assert(y[i] == t[i - n]);
    }
    assert(y[n - 1] == ',');
    lemma_split_prefix_shape(y, y.len(), n as int);
    assert(split_prefix(y, n as nat) == split_prefix(y, (n - 1) as nat).push(Seq::<char>::empty()));
    lemma_split_prefix_same(y, x, x.len());
    assert(y.subrange(n as int, y.len() as int) =~= t);
    assert(split_prefix(y, n as nat).drop_last() =~= split_commas(x));
    assert(split_commas(y) =~= split_commas(y).drop_last().push(split_commas(y).last()));
}

/// Every stem picked below `k` is one of the first `k`.
proof fn lemma_picked_below_bound(m: u32, k: nat)
    requires
        k <= STEM_COUNT,
    ensures
        forall|j: int| 0 <= j < picked_below(m, false, k).len() ==> #[trigger] picked_below(m, false, k)[j] < k,
    decreases k,
{
    if k > 0 {
        let k1 = (k - 1) as nat;
        lemma_picked_below_bound(m, k1);
        let pr = picked_below(m, false, k1);
        if has_bit(m, k1 as u32) {
            assert forall|j: int| 0 <= j < pr.push(k1 as usize).len() implies #[trigger] pr.push(k1 as usize)[j] < k by {
                if j < pr.len() {
                    assert(pr[j] < k1);
                }
            }
        }
    }
}

/// The name of a mix, with `+` read as `,`, cuts into the names of its stems.
proof fn lemma_name_splits(m: u32, k: nat)
    requires
        k <= STEM_COUNT,
    ensures
        (joined_names(m, k).len() == 0) == (picked_below(m, false, k).len() == 0),
        picked_below(m, false, k).len() > 0 ==> split_commas(pluses_as_commas(joined_names(m, k)))
            == stem_names(picked_below(m, false, k)),
    decreases k,
{
    if k > 0 {
        let k1 = (k - 1) as nat;
        lemma_name_splits(m, k1);
        let rest = joined_names(m, k1);
        let pr = picked_below(m, false, k1);
        if has_bit(m, k1 as u32) {
            lemma_stem_chars(k1 as int);
            let st = stem(k1 as int);
            assert(pluses_as_commas(st) =~= st);
            assert(stem_names(pr.push(k1 as usize)) =~= stem_names(pr).push(st));
            if rest.len() == 0 {
                assert(stem_names(pr) =~= Seq::<Seq<char>>::empty());
                lemma_split_no_comma(st);
            } else {
                reveal_strlit("+");
                assert(pluses_as_commas(rest + "+"@ + st) =~= pluses_as_commas(rest) + seq![','] + st);
                lemma_split_after_comma(pluses_as_commas(rest), st);
            }
        }
    }
}

/// The bits of the stems at indices `i` and on.
pub open spec fn or_from(idx: Seq<usize>, i: int) -> u32
    decreases idx.len() - i,
{
    if i < 0 || i >= idx.len() {
        0
    } else {
        (1u32 << (idx[i] as u32)) | or_from(idx, i + 1)
    }
}

proof fn lemma_or_assoc(a: u32, b: u32, c: u32)
    ensures
        (a | b) | c == a | (b | c),
        a | 0 == a,
        0 | a == a,
{
    assert((a | b) | c == a | (b | c) && a | 0 == a && 0 | a == a) by (bit_vector);
}

proof fn lemma_or_push(idx: Seq<usize>, x: usize, i: nat)
    requires
        i <= idx.len(),
    ensures
        or_from(idx.push(x), i as int) == or_from(idx, i as int) | (1u32 << (x as u32)),
    decreases idx.len() - i,
{
    let b = 1u32 << (x as u32);
    if i < idx.len() {
        lemma_or_push(idx, x, i + 1);
        assert(idx.push(x)[i as int] == idx[i as int]);
        lemma_or_assoc(1u32 << (idx[i as int] as u32), or_from(idx, i as int + 1), b);
    } else {
        assert(or_from(idx.push(x), i as int + 1) == 0);
        lemma_or_assoc(b, 0, 0);
    }
}

/// The lowest `k` bits set, for `k` up to the number of stems.
pub open spec fn low_bits(k: nat) -> u32 {
    if k == 0 {
        0
    } else if k == 1 {
        1
    } else if k == 2 {
        3
    } else if k == 3 {
        7
    } else if k == 4 {
        15
    } else if k == 5 {
        31
    } else {
        63
    }
}

proof fn lemma_low_step(m: u32, k: nat)
    requires
        k < STEM_COUNT,
    ensures
        has_bit(m, k as u32) ==> (m & low_bits(k)) | (1u32 << (k as u32)) == m & low_bits(k + 1),
        !has_bit(m, k as u32) ==> m & low_bits(k) == m & low_bits(k + 1),
{
    if k == 0 {
        assert((m & (1u32 << 0u32) != 0u32 ==> (m & 0u32) | (1u32 << 0u32) == m & 1u32) && (m & (1u32 << 0u32)
            == 0u32 ==> m & 0u32 == m & 1u32)) by (bit_vector);
    } else if k == 1 {
        assert((m & (1u32 << 1u32) != 0u32 ==> (m & 1u32) | (1u32 << 1u32) == m & 3u32) && (m & (1u32 << 1u32)
            == 0u32 ==> m & 1u32 == m & 3u32)) by (bit_vector);
    } else if k == 2 {
        assert((m & (1u32 << 2u32) != 0u32 ==> (m & 3u32) | (1u32 << 2u32) == m & 7u32) && (m & (1u32 << 2u32)
            == 0u32 ==> m & 3u32 == m & 7u32)) by (bit_vector);
    } else if k == 3 {
        assert((m & (1u32 << 3u32) != 0u32 ==> (m & 7u32) | (1u32 << 3u32) == m & 15u32) && (m & (1u32 << 3u32)
            == 0u32 ==> m & 7u32 == m & 15u32)) by (bit_vector);
    } else if k == 4 {
        assert((m & (1u32 << 4u32) != 0u32 ==> (m & 15u32) | (1u32 << 4u32) == m & 31u32) && (m & (1u32
            << 4u32) == 0u32 ==> m & 15u32 == m & 31u32)) by (bit_vector);
    } else {
        assert((m & (1u32 << 5u32) != 0u32 ==> (m & 31u32) | (1u32 << 5u32) == m & 63u32) && (m & (1u32
            << 5u32) == 0u32 ==> m & 31u32 == m & 63u32)) by (bit_vector);
    }
}

/// The bits of the stems picked below `k` are the bits of the mask below `k`.
proof fn lemma_or_picked(m: u32, k: nat)
    requires
        k <= STEM_COUNT,
    ensures
        or_from(picked_below(m, false, k), 0) == m & low_bits(k),
    decreases k,
{
    if k == 0 {
        assert(m & 0u32 == 0u32) by (bit_vector);
    } else {
        let k1 = (k - 1) as nat;
        lemma_or_picked(m, k1);
        lemma_low_step(m, k1);
        if has_bit(m, k1 as u32) {
            lemma_or_push(picked_below(m, false, k1), k1 as usize, 0);
        }
    }
}

/// Lowercasing leaves every stem name as it is.
pub open spec fn stem_names_lowercase() -> bool {
    forall|i: int| 0 <= i < STEM_COUNT ==> lowercased(#[trigger] stem(i)) == stem(i)
}

proof fn lemma_stem_read_back(s: int)
    requires
        0 <= s < STEM_COUNT,
        stem_names_lowercase(),
    ensures
        normalized(stem(s)) == stem(s),
        stem_index(stem(s)) == Some(s as u32),
        stem(s).len() > 0,
        stem(s) != "all"@,
        stem(s) != "backing"@,
{
    lemma_stem_chars(s);
    let st = stem(s);
    assert(!is_white_space(st[0]));
    assert(!is_white_space(st[st.len() - 1]));
    assert(trim_start(st) == st);
    assert(trim_end(st) == st);
    assert(lowercased(stem(s)) == stem(s));
    if s > 0 {
        assert(stem(0) != st) by {
            if stem(0) == st {
                crate::stems::lemma_stems_distinct(0, s);
            }
        }
    }
    if s > 1 {
        assert(stem(1) != st) by {
            if stem(1) == st {
                crate::stems::lemma_stems_distinct(1, s);
            }
        }
    }
    if s > 2 {
        assert(stem(2) != st) by {
            if stem(2) == st {
                crate::stems::lemma_stems_distinct(2, s);
            }
        }
    }
    if s > 3 {
        assert(stem(3) != st) by {
            if stem(3) == st {
                crate::stems::lemma_stems_distinct(3, s);
            }
        }
    }
    if s > 4 {
        assert(stem(4) != st) by {
            if stem(4) == st {
                crate::stems::lemma_stems_distinct(4, s);
            }
        }
    }
}

/// Reading stem names adds their bits to the mask.
proof fn lemma_mix_from_stems(idx: Seq<usize>, i: nat, mask: u32)
    requires
        i <= idx.len(),
        forall|j: int| 0 <= j < idx.len() ==> #[trigger] idx[j] < STEM_COUNT,
        stem_names_lowercase(),
    ensures
        mix_from(stem_names(idx), i, mask) == (if mask | or_from(idx, i as int) != 0 {
            Some(mask | or_from(idx, i as int))
        } else {
            None
        }),
    decreases idx.len() - i,
{
    let names = stem_names(idx);
    if i < idx.len() {
        let s = idx[i as int];
        lemma_stem_read_back(s as int);
        assert(names[i as int] == stem(s as int));
        lemma_mix_from_stems(idx, i + 1, mask | (1u32 << (s as u32)));
        lemma_or_assoc(mask, 1u32 << (s as u32), or_from(idx, i as int + 1));
    } else {
        lemma_or_assoc(mask, 0, 0);
    }
}

/// Reading back a mix's name, with `+` read as `,`, gives the mix: for every
/// mask of one or more stems, `parse_mix` of `mix_name`'s text with its `+`
/// replaced by `,` is that mask. It holds as far as lowercasing leaves the
/// stem names as they are, which is not stated of `str::to_lowercase` here.
pub proof fn lemma_mix_name_reads_back(m: u32)
    requires
        1 <= m < 64,
        stem_names_lowercase(),
    ensures
        mix_from(split_commas(pluses_as_commas(mix_name_spec(m))), 0, 0) == Some(m),
{
    assert(m & (1u32 << 8u32) == 0u32 && m & 63u32 == m) by (bit_vector)
        requires
            m < 64u32,
    ;
    assert(ALL == 1u32 << 8u32) by (bit_vector);
    let idx = picked_below(m, false, STEM_COUNT as nat);
    lemma_or_picked(m, STEM_COUNT as nat);
    lemma_picked_below_bound(m, STEM_COUNT as nat);
    lemma_name_splits(m, STEM_COUNT as nat);
    if idx.len() == 0 {
        assert(or_from(idx, 0) == 0);
    }
    assert(low_bits(STEM_COUNT as nat) == 63u32);
    assert(or_from(idx, 0) == m);
    assert(mix_name_spec(m) == joined_names(m, STEM_COUNT as nat));
    assert(idx.len() > 0);
    lemma_mix_from_stems(idx, 0, 0);
    lemma_or_assoc(or_from(idx, 0), 0, 0);
}

// ---------------------------------------------------------------------------
// A mix is the union of what its parts name.

/// The stems that one part of a typed mix names: every stem but the vocals
/// for `backing`, a stem's bit for its name, none otherwise.
pub open spec fn part_bits(q: Seq<char>) -> u32 {
    if q == "backing"@ {
        BACKING
    } else {
        match stem_index(q) {
            Some(j) => 1u32 << j,
            None => 0,
        }
    }
}

/// A part of a typed mix that is understood: empty, `all`, `backing`, or a
/// stem's name.
pub open spec fn part_known(q: Seq<char>) -> bool {
    q.len() == 0 || q == "all"@ || q == "backing"@ || stem_index(q) is Some
}

/// The stems that the parts from `i` on name, together.
pub open spec fn parts_bits(parts: Seq<Seq<char>>, i: int) -> u32
    decreases parts.len() - i,
{
    if i < 0 || i >= parts.len() {
        0
    } else {
        part_bits(normalized(parts[i])) | parts_bits(parts, i + 1)
    }
}

/// A mask as a mix: none when it names no stem.
pub open spec fn some_mix(mask: u32) -> Option<u32> {
    if mask != 0 {
        Some(mask)
    } else {
        None
    }
}

/// Reading a typed mix unites what its parts name, whatever their order, on
/// top of what was read before: when every part is understood and none is
/// `all`, the mix is the bitwise or of the stems gathered so far and of those
/// each part names (none at all is no mix). A part that is not understood
/// makes the whole mix invalid, and `all`, with every part understood, is the
/// whole input.
pub proof fn lemma_mix_is_union(parts: Seq<Seq<char>>, i: nat, mask: u32)
    requires
        i <= parts.len(),
    ensures
        (forall|j: int| i <= j < parts.len() ==> normalized(#[trigger] parts[j]) != "all"@ && part_known(
            normalized(parts[j]),
        )) ==> mix_from(parts, i, mask) == some_mix(mask | parts_bits(parts, i as int)),
        ((forall|j: int| i <= j < parts.len() ==> normalized(#[trigger] parts[j]) != "all"@) && (exists|j: int|
            i <= j < parts.len() && !part_known(normalized(#[trigger] parts[j])))) ==> mix_from(parts, i, mask)
            is None,
        ((forall|j: int| i <= j < parts.len() ==> part_known(normalized(#[trigger] parts[j]))) && (exists|j: int|
            i <= j < parts.len() && normalized(#[trigger] parts[j]) == "all"@)) ==> mix_from(parts, i, mask)
            == Some(ALL),
    decreases parts.len() - i,
{
    if i < parts.len() {
        let q = normalized(parts[i as int]);
        let rest = parts_bits(parts, i as int + 1);
        reveal_strlit("all");
        reveal_strlit("backing");
        assert("all"@.len() == 3 && "backing"@.len() == 7);
        assert(parts_bits(parts, i as int) == part_bits(q) | rest);
        if q != "all"@ && exists|j: int| i <= j < parts.len() && normalized(#[trigger] parts[j]) == "all"@ {
            let w = choose|j: int| i <= j < parts.len() && normalized(#[trigger] parts[j]) == "all"@;
            assert(i + 1 <= w < parts.len() && normalized(parts[w]) == "all"@);
        }
        if q.len() == 0 {
            lemma_mix_is_union(parts, i + 1, mask);
            reveal_strlit("backing");
            assert(q != "backing"@);
            assert(stem_index(q) is None) by {
                reveal_strlit("drums");
                reveal_strlit("bass");
                reveal_strlit("other");
                reveal_strlit("vocals");
                reveal_strlit("guitar");
                reveal_strlit("piano");
            }
            lemma_or_assoc(rest, 0, 0);
        } else if q == "all"@ {
        } else if q == "backing"@ {
            lemma_mix_is_union(parts, i + 1, mask | BACKING);
            lemma_or_assoc(mask, BACKING, rest);
        } else {
            match stem_index(q) {
                Some(j) => {
                    lemma_mix_is_union(parts, i + 1, mask | (1u32 << j));
                    lemma_or_assoc(mask, 1u32 << j, rest);
                },
                None => {},
            }
        }
    } else {
        lemma_or_assoc(mask, 0, 0);
    }
}

proof fn lemma_parts_bits_include(parts: Seq<Seq<char>>, i: int, j: int)
    requires
        0 <= i <= j < parts.len(),
    ensures
        parts_bits(parts, i) & part_bits(normalized(parts[j])) == part_bits(normalized(parts[j])),
    decreases j - i,
{
    let c = part_bits(normalized(parts[j]));
    let a = part_bits(normalized(parts[i]));
    let p = parts_bits(parts, i + 1);
    if i == j {
        assert((a | p) & a == a) by (bit_vector);
    } else {
        lemma_parts_bits_include(parts, i + 1, j);
        assert((a | p) & c == c) by (bit_vector)
            requires
                p & c == c,
        ;
    }
}

/// Nothing a typed part names is lost: when every part is understood and
/// none is `all`, the mix read holds every stem that any part names (all of
/// `backing`'s with it), wherever that part stands.
pub proof fn lemma_mix_keeps_every_part(parts: Seq<Seq<char>>, j: int)
    requires
        0 <= j < parts.len(),
        forall|k: int| 0 <= k < parts.len() ==> normalized(#[trigger] parts[k]) != "all"@ && part_known(
            normalized(parts[k]),
        ),
    ensures
        part_bits(normalized(parts[j])) != 0 ==> (mix_from(parts, 0, 0) matches Some(r) && r & part_bits(
            normalized(parts[j]),
        ) == part_bits(normalized(parts[j]))),
        normalized(parts[j]) == "backing"@ ==> (mix_from(parts, 0, 0) matches Some(r) && r & BACKING == BACKING),
{
    lemma_mix_is_union(parts, 0, 0);
    lemma_parts_bits_include(parts, 0, j);
    lemma_or_assoc(parts_bits(parts, 0), 0, 0);
    let p = parts_bits(parts, 0);
    let c = part_bits(normalized(parts[j]));
    assert(p & c == c && c != 0u32 ==> p != 0u32) by (bit_vector);
    if normalized(parts[j]) == "backing"@ {
        assert(BACKING == 0b110111u32);
        assert(c == BACKING);
    }
}

/// The parts joined back with a comma between each two.
pub open spec fn join_commas(parts: Seq<Seq<char>>) -> Seq<char>
    decreases parts.len(),
{
    if parts.len() == 0 {
        Seq::empty()
    } else if parts.len() == 1 {
        parts[0]
    } else {
        join_commas(parts.drop_last()) + seq![','] + parts.last()
    }
}

/// The parts contain no comma.
pub open spec fn no_comma_parts(parts: Seq<Seq<char>>) -> bool {
    forall|i: int, j: int| 0 <= i < parts.len() && 0 <= j < parts[i].len() ==> #[trigger] parts[i][j] != ','
}

proof fn lemma_rejoin_comma(parts: Seq<Seq<char>>, t: Seq<char>)
    requires
        parts.len() >= 1,
        join_commas(parts) == t,
        no_comma_parts(parts),
    ensures
        join_commas(parts.push(Seq::<char>::empty())) == t.push(','),
        no_comma_parts(parts.push(Seq::<char>::empty())),
{
    let new = parts.push(Seq::<char>::empty());
    assert(new.drop_last() =~= parts);
    assert(join_commas(new) == join_commas(parts) + seq![','] + Seq::<char>::empty());
    assert(join_commas(new) =~= t.push(','));
    assert forall|i: int, j: int| 0 <= i < new.len() && 0 <= j < new[i].len() implies #[trigger] new[i][j] != ',' by {
        assert(new[i] == parts[i]);
    }
}

proof fn lemma_rejoin_char(parts: Seq<Seq<char>>, t: Seq<char>, c: char)
    requires
        parts.len() >= 1,
        join_commas(parts) == t,
        no_comma_parts(parts),
        c != ',',
    ensures
        join_commas(parts.update(parts.len() - 1, parts.last().push(c))) == t.push(c),
        no_comma_parts(parts.update(parts.len() - 1, parts.last().push(c))),
{
    let last = parts.last().push(c);
    let new = parts.update(parts.len() - 1, last);
    if parts.len() == 1 {
        assert(join_commas(new) == new[0]);
        assert(new[0] =~= t.push(c));
    } else {
        assert(new.drop_last() =~= parts.drop_last());
        assert(join_commas(new) == join_commas(parts.drop_last()) + seq![','] + last);
        assert(join_commas(parts) == join_commas(parts.drop_last()) + seq![','] + parts.last());
        assert(join_commas(new) =~= t.push(c));
    }
    assert forall|i: int, j: int| 0 <= i < new.len() && 0 <= j < new[i].len() implies #[trigger] new[i][j] != ',' by {
        if i < parts.len() - 1 {
            assert(new[i] == parts[i]);
        } else if j < parts.last().len() {
            assert(new[i][j] == parts[parts.len() - 1][j]);
        }
    }
}

proof fn lemma_split_prefix_rejoins(s: Seq<char>, k: nat)
    requires
        k <= s.len(),
    ensures
        split_prefix(s, k).len() >= 1,
        join_commas(split_prefix(s, k)) == s.take(k as int),
        no_comma_parts(split_prefix(s, k)),
    decreases k,
{
    if k == 0 {
        assert(s.take(0) =~= Seq::<char>::empty());
    } else {
        let k1 = (k - 1) as nat;
        lemma_split_prefix_rejoins(s, k1);
        let parts = split_prefix(s, k1);
        let c = s[k1 as int];
        assert(s.take(k as int) =~= s.take(k1 as int).push(c));
        if c == ',' {
            lemma_rejoin_comma(parts, s.take(k1 as int));
        } else {
            lemma_rejoin_char(parts, s.take(k1 as int), c);
        }
    }
}

/// Cutting a text at its commas loses nothing and cuts only there: the parts
/// contain no comma, and joined back with commas they are the text.
pub proof fn lemma_split_commas_rejoins(s: Seq<char>)
    ensures
        split_commas(s).len() >= 1,
        join_commas(split_commas(s)) == s,
        no_comma_parts(split_commas(s)),
{
    lemma_split_prefix_rejoins(s, s.len());
    assert(s.take(s.len() as int) =~= s);
}

proof fn lemma_mix_same_reading(p: Seq<Seq<char>>, q: Seq<Seq<char>>, i: nat, mask: u32)
    requires
        p.len() == q.len(),
        i <= p.len(),
        forall|k: int| 0 <= k < p.len() ==> normalized(#[trigger] p[k]) == normalized(q[k]),
    ensures
        mix_from(p, i, mask) == mix_from(q, i, mask),
    decreases p.len() - i,
{
    if i < p.len() {
        assert(normalized(p[i as int]) == normalized(q[i as int]));
        lemma_mix_same_reading(p, q, i + 1, mask);
        lemma_mix_same_reading(p, q, i + 1, mask | BACKING);
        if let Some(j) = stem_index(normalized(p[i as int])) {
            lemma_mix_same_reading(p, q, i + 1, mask | (1u32 << j));
        }
    }
}

/// White space around a part of a typed mix does not change the mix read.
pub proof fn lemma_mix_ignores_white_around(parts: Seq<Seq<char>>, j: int, a: Seq<char>, b: Seq<char>)
    requires
        0 <= j < parts.len(),
        all_white(a),
        all_white(b),
    ensures
        mix_from(parts.update(j, a + parts[j] + b), 0, 0) == mix_from(parts, 0, 0),
{
    crate::text::lemma_trim_ignores_white_around(a, parts[j], b);
    let q = parts.update(j, a + parts[j] + b);
    assert forall|k: int| 0 <= k < q.len() implies normalized(#[trigger] q[k]) == normalized(parts[k]) by {
        if k == j {
            assert(q[k] == a + parts[j] + b);
        }
    }
    lemma_mix_same_reading(q, parts, 0, 0);
}

} // verus!
