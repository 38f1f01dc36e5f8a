use vstd::prelude::*;

use crate::text::utf8;

verus! {

/// A release found on the project's release page.
#[derive(Debug, Clone)]
pub struct ReleaseInfo {
    /// Release tag, e.g. `v0.4.0`.
    pub version: String,
    /// Release notes.
    pub notes: String,
    /// Download URL of the asset for this platform.
    pub asset_url: String,
}

/// Messages the update check and download report back.
pub enum UpdateMsg {
    /// No newer release; `latest` is the newest version seen.
    UpToDate { latest: String },
    /// A newer release exists.
    Available(ReleaseInfo),
    /// The release was downloaded to this path.
    Downloaded(String),
    /// The check or download failed.
    Error(String),
}

/// State of the update check shown in the preferences window.
pub enum UpdateStatus {
    Idle,
    Checking,
    UpToDate { latest: String },
    Available(ReleaseInfo),
    Downloading,
    Downloaded(String),
    Error(String),
}

/// What polling the update channel gave.
pub enum UpdatePoll {
    /// A message arrived.
    Message(UpdateMsg),
    /// Nothing yet.
    Empty,
    /// The sender is gone.
    Disconnected,
}

/// The status a message puts the window in.
pub open spec fn status_for(msg: UpdateMsg) -> UpdateStatus {
    match msg {
        UpdateMsg::UpToDate { latest } => UpdateStatus::UpToDate { latest },
        UpdateMsg::Available(info) => UpdateStatus::Available(info),
        UpdateMsg::Downloaded(path) => UpdateStatus::Downloaded(path),
        UpdateMsg::Error(msg) => UpdateStatus::Error(msg),
    }
}

/// Apply one poll of the update channel to the status. A message replaces the
/// status; nothing pending leaves it. Returns whether the channel is done with
/// (a message arrived or the sender is gone).
pub fn apply_poll(status: &mut UpdateStatus, poll: UpdatePoll) -> (done: bool)
    ensures
        match poll {
            UpdatePoll::Message(m) => *final(status) == status_for(m) && done,
            UpdatePoll::Empty => *final(status) == *old(status) && !done,
            UpdatePoll::Disconnected => *final(status) == *old(status) && done,
        },
{
    match poll {
        UpdatePoll::Message(UpdateMsg::UpToDate { latest }) => {
            *status = UpdateStatus::UpToDate { latest };
            true
        },
        UpdatePoll::Message(UpdateMsg::Available(info)) => {
            *status = UpdateStatus::Available(info);
            true
        },
        UpdatePoll::Message(UpdateMsg::Downloaded(path)) => {
            *status = UpdateStatus::Downloaded(path);
            true
        },
        UpdatePoll::Message(UpdateMsg::Error(msg)) => {
            *status = UpdateStatus::Error(msg);
            true
        },
        UpdatePoll::Empty => false,
        UpdatePoll::Disconnected => true,
    }
}

/// `b` without its leading `v` bytes.
pub open spec fn trim_v(b: Seq<u8>) -> Seq<u8>
    decreases b.len(),
{
    if b.len() > 0 && b[0] == 118 {
        trim_v(b.drop_first())
    } else {
        b
    }
}

/// `b` split at every `.` byte (an empty input gives one empty part).
pub open spec fn split_dots(b: Seq<u8>) -> Seq<Seq<u8>>
    decreases b.len(),
{
    if b.len() == 0 {
        seq![Seq::empty()]
    } else {
        let p = split_dots(b.drop_last());
        if b.last() == 46 {
            p.push(Seq::empty())
        } else {
            p.update(p.len() - 1, p.last().push(b.last()))
        }
    }
}

/// Every byte is an ASCII decimal digit.
pub open spec fn all_digits(d: Seq<u8>) -> bool {
    forall|i: int| 0 <= i < d.len() ==> 48 <= #[trigger] d[i] <= 57
}

/// The number the decimal digits spell.
pub open spec fn digits_value(d: Seq<u8>) -> int
    decreases d.len(),
{
    if d.len() == 0 {
        0
    } else {
        10 * digits_value(d.drop_last()) + (d.last() - 48)
    }
}

/// `u32` parsing of a decimal string: an optional `+`, then one or more digits
/// whose value fits.
pub open spec fn parse_u32(p: Seq<u8>) -> Option<u32> {
    let d = if p.len() > 0 && p[0] == 43 {
        p.drop_first()
    } else {
        p
    };
    if d.len() > 0 && all_digits(d) && digits_value(d) <= u32::MAX {
        Some(digits_value(d) as u32)
    } else {
        None
    }
}

/// The parts that parse as `u32`, parsed, in order.
pub open spec fn parsed_parts(parts: Seq<Seq<u8>>) -> Seq<u32>
    decreases parts.len(),
{
    if parts.len() == 0 {
        Seq::empty()
    } else {
        let rest = parsed_parts(parts.drop_last());
        match parse_u32(parts.last()) {
            Some(v) => rest.push(v),
            None => rest,
        }
    }
}

/// Element `i`, or 0 past the end.
pub open spec fn nth_or_zero(s: Seq<u32>, i: int) -> u32 {
    if i < s.len() {
        s[i]
    } else {
        0
    }
}

/// A version string as `(major, minor, patch)`: leading `v`s dropped, split at
/// dots, the parts that are numbers taken in order, missing ones 0.
pub open spec fn version_of(b: Seq<u8>) -> (u32, u32, u32) {
    let n = parsed_parts(split_dots(trim_v(b)));
    (nth_or_zero(n, 0), nth_or_zero(n, 1), nth_or_zero(n, 2))
}

/// Lexicographic `a > b` on version triples.
pub open spec fn version_newer(a: (u32, u32, u32), b: (u32, u32, u32)) -> bool {
    a.0 > b.0 || (a.0 == b.0 && (a.1 > b.1 || (a.1 == b.1 && a.2 > b.2)))
}

/// The value of a digit string is at least that of each of its prefixes.
proof fn lemma_digits_prefix(d: Seq<u8>, k: int)
    requires
        0 <= k <= d.len(),
        all_digits(d),
    ensures
        digits_value(d.take(k)) <= digits_value(d),
        0 <= digits_value(d.take(k)),
    decreases d.len(),
{
    if d.len() > 0 && k < d.len() {
        let e = d.drop_last();
        assert(all_digits(e)) by {
            assert forall|i: int| 0 <= i < e.len() implies 48 <= #[trigger] e[i] <= 57 by {
                assert(e[i] == d[i]);
            }
        }
        assert(e.take(k) =~= d.take(k));
        lemma_digits_prefix(e, k);
        lemma_digits_prefix(e, e.len() as int);
        assert(e.take(e.len() as int) =~= e);
        assert(48 <= d.last() <= 57);
    } else if k == d.len() {
        assert(d.take(k) =~= d);
        if d.len() > 0 {
            let e = d.drop_last();
            assert(all_digits(e)) by {
                assert forall|i: int| 0 <= i < e.len() implies 48 <= #[trigger] e[i] <= 57 by {
                    assert(e[i] == d[i]);
                }
            }
            lemma_digits_prefix(e, e.len() as int);
            assert(e.take(e.len() as int) =~= e);
            assert(48 <= d.last() <= 57);
        }
    }
}

/// Parse one dot-separated part as `u32` (see `parse_u32`).
fn parse_part(p: &Vec<u8>) -> (r: Option<u32>)
    ensures
        r == parse_u32(p@),
{
    let n = p.len();
    let start: usize = if n > 0 && p[0] == 43 {
        1
    } else {
        0
    };
    let ghost d = if p@.len() > 0 && p@[0] == 43 {
        p@.drop_first()
    } else {
        p@
    };
    assert(d =~= p@.subrange(start as int, n as int));
    let ghost expected = if d.len() > 0 && all_digits(d) && digits_value(d) <= u32::MAX {
        Some(digits_value(d) as u32)
    } else {
        None
    };
    assert(parse_u32(p@) == expected);
    if start == n {
        return None;
    }
    let mut v: u64 = 0;
    let mut i: usize = start;
    while i < n
        invariant
            start <= i <= n,
            n == p@.len(),
            d == p@.subrange(start as int, n as int),
            parse_u32(p@) == expected,
            expected == (if d.len() > 0 && all_digits(d) && digits_value(d) <= u32::MAX {
                Some(digits_value(d) as u32)
            } else {
                None
            }),
            all_digits(d.take(i - start)),
            v == digits_value(d.take(i - start)),
            v <= u32::MAX,
        decreases n - i,
    {
        let c = p[i];
        assert(d[i - start] == c);
        if c < 48 || c > 57 {
            assert(!all_digits(d));
            return None;
        }
        assert(d.take(i - start + 1).drop_last() =~= d.take(i - start));
        assert(all_digits(d.take(i - start + 1))) by {
            assert forall|j: int| 0 <= j < i - start + 1 implies 48 <= #[trigger] d.take(
                i - start + 1,
            )[j] <= 57 by {
                if j < i - start {
                    assert(d.take(i - start + 1)[j] == d.take(i - start)[j]);
                }
            }
        }
        let nv = v * 10 + (c - 48) as u64;
        assert(d.take(i - start + 1).last() == c);
        assert(nv == digits_value(d.take(i - start + 1)));
        if nv > 0xffff_ffff {
            proof {
                let k = i - start + 1;
                if all_digits(d) {
                    lemma_digits_prefix(d, k);
                }
            }
            return None;
        }
        v = nv;
        i = i + 1;
    }
    assert(d.take(n - start) =~= d);
    Some(v as u32)
}

/// Split `b[start..]` at every `.` byte.
fn split_parts(b: &[u8], start: usize) -> (r: Vec<Vec<u8>>)
    requires
        start <= b@.len(),
    ensures
        r@.map_values(|v: Vec<u8>| v@) == split_dots(b@.subrange(start as int, b@.len() as int)),
{
    let n = b.len();
    let mut parts: Vec<Vec<u8>> = Vec::new();
    let mut cur: Vec<u8> = Vec::new();
    let mut j: usize = start;
    assert(b@.subrange(start as int, start as int) =~= Seq::<u8>::empty());
    assert(parts@.map_values(|v: Vec<u8>| v@).push(cur@) =~= split_dots(b@.subrange(start as int, start as int)));
    while j < n
        invariant
            start <= j <= n,
            n == b@.len(),
            parts@.map_values(|v: Vec<u8>| v@).push(cur@) == split_dots(
                b@.subrange(start as int, j as int),
            ),
        decreases n - j,
    {
        let ghost before = parts@.map_values(|v: Vec<u8>| v@).push(cur@);
        assert(b@.subrange(start as int, j + 1).drop_last() =~= b@.subrange(start as int, j as int));
        assert(b@.subrange(start as int, j + 1).last() == b@[j as int]);
        if b[j] == 46 {
            let done = cur;
            parts.push(done);
            cur = Vec::new();
            assert(parts@.map_values(|v: Vec<u8>| v@).push(cur@) =~= before.push(Seq::empty()));
        } else {
            cur.push(b[j]);
            assert(parts@.map_values(|v: Vec<u8>| v@).push(cur@) =~= before.update(
                before.len() - 1,
                before.last().push(b@[j as int]),
            ));
        }
        j = j + 1;
    }
    assert(b@.subrange(start as int, n as int) == b@.subrange(start as int, b@.len() as int));
    parts.push(cur);
    assert(parts@.map_values(|v: Vec<u8>| v@) =~= split_dots(b@.subrange(start as int, n as int)));
    parts
}

/// Parse a version string like `v1.2.3` into `(major, minor, patch)`.
pub fn parse_version(v: &str) -> (r: (u32, u32, u32))
    ensures
        r == version_of(vstd::utf8::encode_utf8(v@)),
{
    let b = v.as_bytes();
    let n = b.len();
    let mut start: usize = 0;
    assert(b@.subrange(0, n as int) =~= b@);
    while start < n && b[start] == 118
        invariant
            start <= n,
            n == b@.len(),
            trim_v(b@) == trim_v(b@.subrange(start as int, n as int)),
        decreases n - start,
    {
        assert(b@.subrange(start as int, n as int).drop_first() =~= b@.subrange(
            start + 1,
            n as int,
        ));
        start = start + 1;
    }
    assert(b@.subrange(0, n as int) =~= b@);
    assert(trim_v(b@.subrange(start as int, n as int)) == b@.subrange(start as int, n as int));
    let parts = split_parts(b, start);
    let ghost pv = parts@.map_values(|v: Vec<u8>| v@);
    let mut found: Vec<u32> = Vec::new();
    let mut k: usize = 0;
    while k < parts.len()
        invariant
            k <= parts@.len(),
            pv == parts@.map_values(|v: Vec<u8>| v@),
            found@ == parsed_parts(pv.take(k as int)),
        decreases parts@.len() - k,
    {
        assert(pv.take(k + 1).drop_last() =~= pv.take(k as int));
        assert(pv.take(k + 1).last() == parts@[k as int]@);
        match parse_part(&parts[k]) {
            Some(x) => found.push(x),
            None => {},
        }
        k = k + 1;
    }
    assert(pv.take(parts@.len() as int) =~= pv);
    let a = if found.len() > 0 {
        found[0]
    } else {
        0
    };
    let m = if found.len() > 1 {
        found[1]
    } else {
        0
    };
    let p = if found.len() > 2 {
        found[2]
    } else {
        0
    };
    (a, m, p)
}

/// Whether `a` is a newer version than `b`.
fn newer(a: (u32, u32, u32), b: (u32, u32, u32)) -> (r: bool)
    ensures
        r == version_newer(a, b),
{
    a.0 > b.0 || (a.0 == b.0 && (a.1 > b.1 || (a.1 == b.1 && a.2 > b.2)))
}

/// The message an update check reports, given what the release lookup gave and
/// the running version: its failure; up to date with the running version when
/// there is no release asset for this platform; the release when its version is
/// newer; otherwise up to date with the release's version.
pub fn check_message(lookup: Result<Option<ReleaseInfo>, String>, current: &str) -> (m: UpdateMsg)
    ensures
        match lookup {
            Err(e) => m == UpdateMsg::Error(e),
            Ok(None) => m matches UpdateMsg::UpToDate { latest } && latest@ == current@,
            Ok(Some(rel)) => if version_newer(
                version_of(vstd::utf8::encode_utf8(rel.version@)),
                version_of(vstd::utf8::encode_utf8(current@)),
            ) {
                m == UpdateMsg::Available(rel)
            } else {
                m == (UpdateMsg::UpToDate { latest: rel.version })
            },
        },
{
    match lookup {
        Err(e) => UpdateMsg::Error(e),
        Ok(None) => UpdateMsg::UpToDate { latest: current.to_owned() },
        Ok(Some(release)) => {
            let cur = parse_version(current);
            let latest = parse_version(release.version.as_str());
            if newer(latest, cur) {
                UpdateMsg::Available(release)
            } else {
                UpdateMsg::UpToDate { latest: release.version }
            }
        },
    }
}


/// One downloadable file of a release record, as plain values: each field is
/// absent when the record lacks it or it is not text.
pub struct AssetRecord {
    pub name: Option<String>,
    pub browser_download_url: Option<String>,
}

/// A release record of the release page, as plain values: each field is
/// absent when the record lacks it or it is not of the expected kind.
pub struct ReleaseRecord {
    pub tag_name: Option<String>,
    pub body: Option<String>,
    pub assets: Option<Vec<AssetRecord>>,
}

/// `s` ends with the bytes of `suffix`.
pub open spec fn ends_with_bytes(s: Seq<u8>, suffix: Seq<u8>) -> bool {
    suffix.len() <= s.len() && s.subrange(s.len() - suffix.len(), s.len() as int) == suffix
}

/// The asset is named, and its name ends with `suffix`.
pub open spec fn asset_matches(a: AssetRecord, suffix: Seq<char>) -> bool {
    a.name matches Some(n) && ends_with_bytes(utf8(n@), utf8(suffix))
}

/// The text of an optional field, empty when absent.
pub open spec fn text_or_empty(t: Option<String>) -> Seq<char> {
    match t {
        Some(s) => s@,
        None => Seq::empty(),
    }
}

/// Whether `s` ends with `suffix`, byte for byte.
pub fn ends_with(s: &str, suffix: &str) -> (r: bool)
    ensures
        r == ends_with_bytes(utf8(s@), utf8(suffix@)),
{
    let a = s.as_bytes();
    let b = suffix.as_bytes();
    if b.len() > a.len() {
        return false;
    }
    let off = a.len() - b.len();
    let mut i: usize = 0;
    while i < b.len()
        invariant
            a@ == utf8(s@),
            b@ == utf8(suffix@),
            off + b@.len() == a@.len(),
            a@.len() <= usize::MAX,
            i <= b@.len(),
            forall|j: int| 0 <= j < i ==> a@[off + j] == b@[j],
        decreases b@.len() - i,
    {
        if a[off + i] != b[i] {
            assert(a@.subrange(off as int, a@.len() as int)[i as int] != b@[i as int]);
            return false;
        }
        i = i + 1;
    }
    assert(a@.subrange(off as int, a@.len() as int) =~= b@);
    true
}

/// Where the first asset matching `suffix` stands (see `asset_matches`).
pub open spec fn first_match(assets: Seq<AssetRecord>, suffix: Seq<char>) -> int {
    choose|k: int|
        0 <= k < assets.len() && asset_matches(#[trigger] assets[k], suffix) && forall|j: int|
            0 <= j < k ==> !asset_matches(#[trigger] assets[j], suffix)
}

/// An asset that matches, with none before it, is the first match.
pub proof fn lemma_first_match(assets: Seq<AssetRecord>, suffix: Seq<char>, i: int)
    requires
        0 <= i < assets.len(),
        asset_matches(assets[i], suffix),
        forall|j: int| 0 <= j < i ==> !asset_matches(#[trigger] assets[j], suffix),
    ensures
        first_match(assets, suffix) == i,
{
    let k = first_match(assets, suffix);
    if k < i {
        assert(!asset_matches(assets[k], suffix));
    } else if k > i {
        assert(!asset_matches(assets[i], suffix));
    }
}

/// The release a record describes, for the platform whose assets end with
/// `asset_suffix`: its tag and notes (empty when absent) and the download URL
/// of the first asset whose name ends with the suffix. There is none when no
/// asset matches or that asset has no URL.
pub fn release_from(record: ReleaseRecord, asset_suffix: &str) -> (r: Option<ReleaseInfo>)
    ensures
        match record.assets {
            None => r is None,
            Some(assets) => if exists|i: int|
                0 <= i < assets@.len() && asset_matches(#[trigger] assets@[i], asset_suffix@) {
                match assets@[first_match(assets@, asset_suffix@)].browser_download_url {
                    None => r is None,
                    Some(url) => r matches Some(info) && info.asset_url@ == url@
                        && info.version@ == text_or_empty(record.tag_name) && info.notes@
                        == text_or_empty(record.body),
                }
            } else {
                r is None
            },
        },
{
    let ReleaseRecord { tag_name, body, assets } = record;
    let assets = match assets {
        Some(a) => a,
        None => return None,
    };
    let mut i: usize = 0;
    while i < assets.len()
        invariant
            i <= assets@.len(),
            forall|j: int| 0 <= j < i ==> !asset_matches(#[trigger] assets@[j], asset_suffix@),
        ensures
            i < assets@.len() ==> asset_matches(assets@[i as int], asset_suffix@),
        decreases assets@.len() - i,
    {
        let hit = match &assets[i].name {
            Some(n) => ends_with(n.as_str(), asset_suffix),
            None => false,
        };
        if hit {
            break;
        }
        i = i + 1;
    }
    if i == assets.len() {
        return None;
    }
    proof {
        lemma_first_match(assets@, asset_suffix@, i as int);
    }
    let url = match &assets[i].browser_download_url {
        Some(u) => u.clone(),
        None => return None,
    };
    let version = match tag_name {
        Some(t) => t,
        None => String::new(),
    };
    let notes = match body {
        Some(b) => b,
        None => String::new(),
    };
    Some(ReleaseInfo { version, notes, asset_url: url })
}

} // verus!
