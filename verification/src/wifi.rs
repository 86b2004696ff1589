//! The Wi-Fi side of the network profile reconciler: parsing the
//! network manager's colon-delimited scan listing, deduplicating the
//! records per SSID, and ordering the result.
//!
//! A scan line has the fields `ACTIVE:SSID:SECURITY:BARS:SIGNAL`.  The
//! SSID itself may contain colons, so the parser anchors on the fixed
//! suffix (the last three fields) and the leading field, and rejoins
//! everything in between.

use vstd::prelude::*;
use vstd::multiset::Multiset;
use vstd::string::*;

use crate::text::{
    join_char, join_with_colons, lemma_split_concat, lines_of, lines_spec, parsed_u8_or_zero,
    parse_u8_or_zero, split_char, split_str, str_eq,
};

verus! {

/// A Wi-Fi network as one deduplicated scan record.
#[derive(Debug, Clone, PartialEq)]
pub struct WifiNetwork {
    pub ssid: String,
    pub security: String,
    pub bars: String,
    pub signal: u8,
    pub active: bool,
}

/// The mathematical image of a scan record.
pub struct WifiNetworkData {
    pub ssid: Seq<char>,
    pub security: Seq<char>,
    pub bars: Seq<char>,
    pub signal: u8,
    pub active: bool,
}

impl View for WifiNetwork {
    type V = WifiNetworkData;

    open spec fn view(&self) -> WifiNetworkData {
        WifiNetworkData {
            ssid: self.ssid@,
            security: self.security@,
            bars: self.bars@,
            signal: self.signal,
            active: self.active,
        }
    }
}

impl DeepView for WifiNetwork {
    type V = WifiNetworkData;

    open spec fn deep_view(&self) -> WifiNetworkData {
        self.view()
    }
}

/// The record a single scan line denotes: `None` for a line with fewer
/// than five colon-separated fields or an empty SSID, both of which are
/// discarded.
pub open spec fn scan_line_record(line: Seq<char>) -> Option<WifiNetworkData> {
    let parts = split_char(line, ':');
    if parts.len() < 5 {
        None
    } else {
        let ssid = join_char(parts.subrange(1, parts.len() - 3), ':');
        if ssid.len() == 0 {
            None
        } else {
            Some(
                WifiNetworkData {
                    ssid: ssid,
                    security: parts[parts.len() - 3],
                    bars: parts[parts.len() - 2],
                    signal: parsed_u8_or_zero(parts[parts.len() - 1]),
                    active: parts[0] == "yes"@,
                },
            )
        }
    }
}

/// Parse one line of the scan listing.
pub fn parse_scan_line(line: &str) -> (r: Option<WifiNetwork>)
    ensures
        match r {
            Some(n) => scan_line_record(line@) == Some(n@),
            None => scan_line_record(line@) is None,
        },
{
    let parts = split_str(line, ':');
    let len = parts.len();
    if len < 5 {
        return None;
    }
    let ssid = join_with_colons(&parts, 1, len - 3);
    if ssid.as_str().unicode_len() == 0 {
        return None;
    }
    let active = str_eq(parts[0].as_str(), "yes");
    let signal = parse_u8_or_zero(parts[len - 1].as_str());
    let bars = parts[len - 2].clone();
    let security = parts[len - 3].clone();
    let r = WifiNetwork { ssid, security, bars, signal, active };
    proof {
        assert(parts.deep_view()[0] == parts@[0]@);
        assert(parts.deep_view()[len - 1] == parts@[len - 1]@);
        assert(parts.deep_view()[len - 2] == parts@[len - 2]@);
        assert(parts.deep_view()[len - 3] == parts@[len - 3]@);
    }
    Some(r)
}

/// The radio status output reports an enabled radio with the single
/// word `enabled`.
pub fn wifi_enabled_output(stdout: &str) -> (r: bool)
    ensures
        r == (crate::text::trim_spec(stdout@) == "enabled"@),
{
    let trimmed = crate::text::trim_str(stdout);
    str_eq(trimmed.as_str(), "enabled")
}

/// The argument that switches the radio: `on` to enable, `off` to
/// disable.
pub fn radio_state_arg(enable: bool) -> (r: String)
    ensures
        enable ==> r@ == "on"@,
        !enable ==> r@ == "off"@,
{
    if enable {
        String::from_str("on")
    } else {
        String::from_str("off")
    }
}

/// The argument list that connects to a network, the password appended
/// only when one is given.
pub fn connect_wifi_args(ssid: &str, password: Option<&String>) -> (r: Vec<String>)
    ensures
        match password {
            Some(p) => r.deep_view() == seq![
                "dev"@,
                "wifi"@,
                "connect"@,
                ssid@,
                "password"@,
                p@,
            ],
            None => r.deep_view() == seq!["dev"@, "wifi"@, "connect"@, ssid@],
        },
{
    let mut r: Vec<String> = Vec::new();
    r.push(String::from_str("dev"));
    r.push(String::from_str("wifi"));
    r.push(String::from_str("connect"));
    r.push(ssid.to_owned());
    match password {
        Some(p) => {
            r.push(String::from_str("password"));
            r.push(p.clone());
            proof {
                assert(r.deep_view() =~= seq![
                    "dev"@,
                    "wifi"@,
                    "connect"@,
                    ssid@,
                    "password"@,
                    p@,
                ]);
            }
        },
        None => {
            proof {
                assert(r.deep_view() =~= seq!["dev"@, "wifi"@, "connect"@, ssid@]);
            }
        },
    }
    r
}

/// A scan line assembled from a leading field, an SSID that may itself
/// contain colons, and three colon-free trailing fields parses back to
/// exactly the original SSID.
pub proof fn lemma_scan_line_reconstructs_ssid(
    active: Seq<char>,
    ssid: Seq<char>,
    security: Seq<char>,
    bars: Seq<char>,
    signal: Seq<char>,
)
    requires
        !active.contains(':'),
        !security.contains(':'),
        !bars.contains(':'),
        !signal.contains(':'),
        ssid.len() > 0,
    ensures
        ({
            let line = active + seq![':'] + ssid + seq![':'] + security + seq![':'] + bars
                + seq![':'] + signal;
            scan_line_record(line) matches Some(n) && n.ssid == ssid
        }),
{
    let line = active + seq![':'] + ssid + seq![':'] + security + seq![':'] + bars + seq![':']
        + signal;
    let tail3 = bars + seq![':'] + signal;
    let tail2 = security + seq![':'] + tail3;
    let tail1 = ssid + seq![':'] + tail2;
    assert(line =~= active + seq![':'] + tail1);
    lemma_split_concat(active, tail1, ':');
    crate::text::lemma_split_sep_free(active, ':');
    assert(tail1 =~= ssid + seq![':'] + tail2);
    lemma_split_concat(ssid, tail2, ':');
    assert(tail2 =~= security + seq![':'] + tail3);
    lemma_split_concat(security, tail3, ':');
    crate::text::lemma_split_sep_free(security, ':');
    lemma_split_concat(bars, signal, ':');
    crate::text::lemma_split_sep_free(bars, ':');
    crate::text::lemma_split_sep_free(signal, ':');
    crate::text::lemma_split_len(ssid, ':');
    let sp = split_char(ssid, ':');
    let parts = split_char(line, ':');
    assert(parts =~= seq![active] + sp + seq![security, bars, signal]);
    assert(parts.len() == 4 + sp.len());
    assert(parts.subrange(1, parts.len() - 3) =~= sp);
    crate::text::lemma_join_split(ssid, ':');
    assert(join_char(parts.subrange(1, parts.len() - 3), ':') == ssid);
}

// ---------- deduplication ----------

/// The tie-break policy: a newly observed record replaces the stored
/// one for the same SSID iff it is active and the stored one is not,
/// or both share the active flag and it has strictly higher signal.
pub open spec fn replaces(new: WifiNetworkData, stored: WifiNetworkData) -> bool {
    (new.active && !stored.active) || (new.active == stored.active && new.signal > stored.signal)
}

/// Fold one record into a deduplicated list: replace the record with
/// the same SSID when the policy says so, append when the SSID is new.
pub open spec fn upsert(acc: Seq<WifiNetworkData>, n: WifiNetworkData) -> Seq<WifiNetworkData>
    decreases acc.len(),
{
    if acc.len() == 0 {
        seq![n]
    } else if acc[0].ssid == n.ssid {
        if replaces(n, acc[0]) {
            seq![n] + acc.drop_first()
        } else {
            acc
        }
    } else {
        seq![acc[0]] + upsert(acc.drop_first(), n)
    }
}

/// Deduplicate scan records in observation order, keeping at most one
/// record per SSID under the tie-break policy.
pub open spec fn dedup_networks(s: Seq<WifiNetworkData>) -> Seq<WifiNetworkData>
    decreases s.len(),
{
    if s.len() == 0 {
        Seq::empty()
    } else {
        upsert(dedup_networks(s.drop_last()), s.last())
    }
}

/// No two records of `s` share an SSID.
pub open spec fn unique_ssids(s: Seq<WifiNetworkData>) -> bool {
    forall|i: int, j: int| 0 <= i < j < s.len() ==> s[i].ssid != s[j].ssid
}

/// Some record of `s` carries the SSID `ssid`.
pub open spec fn has_ssid(s: Seq<WifiNetworkData>, ssid: Seq<char>) -> bool {
    exists|i: int| 0 <= i < s.len() && s[i].ssid == ssid
}

proof fn lemma_upsert_has_ssid(acc: Seq<WifiNetworkData>, n: WifiNetworkData, ssid: Seq<char>)
    ensures
        has_ssid(upsert(acc, n), ssid) <==> (has_ssid(acc, ssid) || ssid == n.ssid),
    decreases acc.len(),
{
    if acc.len() == 0 {
        assert(upsert(acc, n) == seq![n]);
        assert(upsert(acc, n)[0] == n);
        if ssid == n.ssid {
            assert(has_ssid(upsert(acc, n), ssid));
        }
    } else if acc[0].ssid == n.ssid {
        if replaces(n, acc[0]) {
            let r = seq![n] + acc.drop_first();
            assert(upsert(acc, n) == r);
            if has_ssid(acc, ssid) {
                let i = choose|i: int| 0 <= i < acc.len() && acc[i].ssid == ssid;
                if i == 0 {
                    assert(r[0].ssid == ssid);
                } else {
                    assert(r[i] == acc[i]);
                }
                assert(has_ssid(r, ssid));
            }
            if has_ssid(r, ssid) {
                let i = choose|i: int| 0 <= i < r.len() && r[i].ssid == ssid;
                if i == 0 {
                    assert(ssid == n.ssid);
                } else {
                    assert(r[i] == acc[i]);
                    assert(has_ssid(acc, ssid));
                }
            }
            if ssid == n.ssid {
                assert(r[0].ssid == ssid);
            }
        } else {
            if ssid == n.ssid {
                assert(acc[0].ssid == ssid);
            }
        }
    } else {
        lemma_upsert_has_ssid(acc.drop_first(), n, ssid);
        let r = seq![acc[0]] + upsert(acc.drop_first(), n);
        assert(upsert(acc, n) == r);
        let rest = upsert(acc.drop_first(), n);
        if has_ssid(r, ssid) {
            let i = choose|i: int| 0 <= i < r.len() && r[i].ssid == ssid;
            if i == 0 {
                assert(acc[0].ssid == ssid);
                assert(has_ssid(acc, ssid));
            } else {
                assert(r[i] == rest[i - 1]);
                assert(has_ssid(rest, ssid));
            }
        }
        if has_ssid(acc, ssid) {
            let i = choose|i: int| 0 <= i < acc.len() && acc[i].ssid == ssid;
            if i == 0 {
                assert(r[0].ssid == ssid);
            } else {
                assert(acc.drop_first()[i - 1] == acc[i]);
                assert(has_ssid(acc.drop_first(), ssid));
                let j = choose|j: int| 0 <= j < rest.len() && rest[j].ssid == ssid;
                assert(r[j + 1] == rest[j]);
            }
            assert(has_ssid(r, ssid));
        }
        if ssid == n.ssid {
            let j = choose|j: int| 0 <= j < rest.len() && rest[j].ssid == ssid;
            assert(r[j + 1] == rest[j]);
            assert(has_ssid(r, ssid));
        }
    }
}

proof fn lemma_upsert_unique(acc: Seq<WifiNetworkData>, n: WifiNetworkData)
    requires
        unique_ssids(acc),
    ensures
        unique_ssids(upsert(acc, n)),
    decreases acc.len(),
{
    if acc.len() == 0 {
    } else if acc[0].ssid == n.ssid {
        if replaces(n, acc[0]) {
            let r = seq![n] + acc.drop_first();
            assert forall|i: int, j: int| 0 <= i < j < r.len() implies r[i].ssid != r[j].ssid by {
                if i == 0 {
                    assert(r[j] == acc[j]);
                    assert(acc[0].ssid != acc[j].ssid);
                } else {
                    assert(r[i] == acc[i] && r[j] == acc[j]);
                }
            }
        }
    } else {
        assert(unique_ssids(acc.drop_first())) by {
            assert forall|i: int, j: int|
                0 <= i < j < acc.drop_first().len() implies acc.drop_first()[i].ssid
                != acc.drop_first()[j].ssid by {
                assert(acc.drop_first()[i] == acc[i + 1]);
                assert(acc.drop_first()[j] == acc[j + 1]);
            }
        }
        lemma_upsert_unique(acc.drop_first(), n);
        lemma_upsert_has_ssid(acc.drop_first(), n, acc[0].ssid);
        let rest = upsert(acc.drop_first(), n);
        let r = seq![acc[0]] + rest;
        assert(!has_ssid(acc.drop_first(), acc[0].ssid)) by {
            if has_ssid(acc.drop_first(), acc[0].ssid) {
                let i = choose|i: int|
                    0 <= i < acc.drop_first().len() && acc.drop_first()[i].ssid == acc[0].ssid;
                assert(acc.drop_first()[i] == acc[i + 1]);
            }
        }
        assert(!has_ssid(rest, acc[0].ssid));
        assert forall|i: int, j: int| 0 <= i < j < r.len() implies r[i].ssid != r[j].ssid by {
            if i == 0 {
                assert(r[j] == rest[j - 1]);
                if r[0].ssid == rest[j - 1].ssid {
                    assert(has_ssid(rest, acc[0].ssid));
                }
            } else {
                assert(r[i] == rest[i - 1] && r[j] == rest[j - 1]);
            }
        }
    }
}

/// After deduplication there is exactly one record per distinct SSID.
pub proof fn lemma_dedup_unique(s: Seq<WifiNetworkData>)
    ensures
        unique_ssids(dedup_networks(s)),
    decreases s.len(),
{
    if s.len() > 0 {
        lemma_dedup_unique(s.drop_last());
        lemma_upsert_unique(dedup_networks(s.drop_last()), s.last());
    }
}

proof fn lemma_upsert_absent(acc: Seq<WifiNetworkData>, n: WifiNetworkData)
    requires
        !has_ssid(acc, n.ssid),
    ensures
        upsert(acc, n) == acc.push(n),
    decreases acc.len(),
{
    if acc.len() == 0 {
        assert(upsert(acc, n) =~= acc.push(n));
    } else {
        assert(acc[0].ssid != n.ssid);
        assert(!has_ssid(acc.drop_first(), n.ssid)) by {
            if has_ssid(acc.drop_first(), n.ssid) {
                let i = choose|i: int|
                    0 <= i < acc.drop_first().len() && acc.drop_first()[i].ssid == n.ssid;
                assert(acc.drop_first()[i] == acc[i + 1]);
            }
        }
        lemma_upsert_absent(acc.drop_first(), n);
        assert(upsert(acc, n) =~= acc.push(n));
    }
}

proof fn lemma_upsert_found(acc: Seq<WifiNetworkData>, n: WifiNetworkData, i: int)
    requires
        0 <= i < acc.len(),
        acc[i].ssid == n.ssid,
        forall|j: int| 0 <= j < i ==> acc[j].ssid != n.ssid,
    ensures
        upsert(acc, n) == if replaces(n, acc[i]) {
            acc.update(i, n)
        } else {
            acc
        },
    decreases i,
{
    if i == 0 {
        if replaces(n, acc[0]) {
            assert(seq![n] + acc.drop_first() =~= acc.update(0, n));
        }
    } else {
        assert(acc[0].ssid != n.ssid);
        assert(acc.drop_first()[i - 1] == acc[i]);
        assert(forall|j: int| 0 <= j < i - 1 ==> acc.drop_first()[j] == acc[j + 1]);
        lemma_upsert_found(acc.drop_first(), n, i - 1);
        if replaces(n, acc[i]) {
            assert(seq![acc[0]] + acc.drop_first().update(i - 1, n) =~= acc.update(i, n));
        } else {
            assert(seq![acc[0]] + acc.drop_first() =~= acc);
        }
    }
}

/// Deduplication is idempotent: feeding an already deduplicated list
/// through again changes nothing, so scanning the same raw output twice
/// yields the same final list.
pub proof fn lemma_dedup_idempotent(s: Seq<WifiNetworkData>)
    ensures
        dedup_networks(dedup_networks(s)) == dedup_networks(s),
{
    lemma_dedup_unique(s);
    lemma_dedup_of_unique(dedup_networks(s));
}

/// A list that already has one record per SSID survives deduplication
/// unchanged.
pub proof fn lemma_dedup_of_unique(s: Seq<WifiNetworkData>)
    requires
        unique_ssids(s),
    ensures
        dedup_networks(s) == s,
    decreases s.len(),
{
    if s.len() > 0 {
        assert(unique_ssids(s.drop_last())) by {
            assert(forall|i: int, j: int|
                0 <= i < j < s.drop_last().len() ==> s.drop_last()[i].ssid != s.drop_last()[j].ssid);
        }
        lemma_dedup_of_unique(s.drop_last());
        assert(!has_ssid(s.drop_last(), s.last().ssid)) by {
            if has_ssid(s.drop_last(), s.last().ssid) {
                let i = choose|i: int|
                    0 <= i < s.drop_last().len() && s.drop_last()[i].ssid == s.last().ssid;
                assert(s[i].ssid == s[s.len() - 1].ssid);
            }
        }
        lemma_upsert_absent(s.drop_last(), s.last());
        assert(s.drop_last().push(s.last()) =~= s);
    }
}

/// With the same SSID, an active record beats an inactive one in either
/// observation order.
pub proof fn lemma_active_wins(a: WifiNetworkData, b: WifiNetworkData)
    requires
        a.ssid == b.ssid,
        a.active,
        !b.active,
    ensures
        dedup_networks(seq![a, b]) == seq![a],
        dedup_networks(seq![b, a]) == seq![a],
{
    lemma_dedup_pair(a, b);
    lemma_dedup_pair(b, a);
    assert(seq![a] + Seq::<WifiNetworkData>::empty() =~= seq![a]);
}

/// With the same SSID and the same active flag, the record with
/// strictly higher signal beats the other in either observation order.
pub proof fn lemma_higher_signal_wins(a: WifiNetworkData, b: WifiNetworkData)
    requires
        a.ssid == b.ssid,
        a.active == b.active,
        a.signal > b.signal,
    ensures
        dedup_networks(seq![a, b]) == seq![a],
        dedup_networks(seq![b, a]) == seq![a],
{
    lemma_dedup_pair(a, b);
    lemma_dedup_pair(b, a);
    assert(seq![a] + Seq::<WifiNetworkData>::empty() =~= seq![a]);
}

/// Deduplicating two records with the same SSID keeps the second iff
/// the replacement policy prefers it.
pub proof fn lemma_dedup_pair(x: WifiNetworkData, y: WifiNetworkData)
    requires
        x.ssid == y.ssid,
    ensures
        dedup_networks(seq![x, y]) == if replaces(y, x) {
            seq![y] + Seq::<WifiNetworkData>::empty()
        } else {
            seq![x]
        },
{
    let s = seq![x, y];
    assert(s.drop_last() =~= seq![x]);
    assert(seq![x].drop_last() =~= Seq::<WifiNetworkData>::empty());
    assert(dedup_networks(Seq::<WifiNetworkData>::empty()) == Seq::<WifiNetworkData>::empty());
    assert(seq![x].last() == x);
    assert(dedup_networks(seq![x]) == upsert(Seq::empty(), x));
    assert(upsert(Seq::<WifiNetworkData>::empty(), x) == seq![x]);
    assert(dedup_networks(s) == upsert(seq![x], y));
    assert(seq![x][0] == x);
    if replaces(y, x) {
        assert(upsert(seq![x], y) == seq![y] + seq![x].drop_first());
        assert(seq![x].drop_first() =~= Seq::<WifiNetworkData>::empty());
    }
}

// ---------- ordering ----------

/// The output order: active networks first, then descending signal.
/// `net_before(a, b)` says `a` must come strictly before `b`.
pub open spec fn net_before(a: WifiNetworkData, b: WifiNetworkData) -> bool {
    (a.active && !b.active) || (a.active == b.active && a.signal > b.signal)
}

/// Stable insertion into an ordered list: the new record goes after
/// every record it is not strictly before.
pub open spec fn insert_net(sorted: Seq<WifiNetworkData>, n: WifiNetworkData) -> Seq<
    WifiNetworkData,
>
    decreases sorted.len(),
{
    if sorted.len() == 0 {
        seq![n]
    } else if net_before(n, sorted[0]) {
        seq![n] + sorted
    } else {
        seq![sorted[0]] + insert_net(sorted.drop_first(), n)
    }
}

/// Stable sort of the deduplicated records, active first, then
/// descending signal; records with equal keys keep observation order.
pub open spec fn sort_networks(s: Seq<WifiNetworkData>) -> Seq<WifiNetworkData>
    decreases s.len(),
{
    if s.len() == 0 {
        Seq::empty()
    } else {
        insert_net(sort_networks(s.drop_last()), s.last())
    }
}

proof fn lemma_insert_net_at(s: Seq<WifiNetworkData>, n: WifiNetworkData, i: int)
    requires
        0 <= i < s.len(),
        net_before(n, s[i]),
        forall|j: int| 0 <= j < i ==> !net_before(n, s[j]),
    ensures
        insert_net(s, n) == s.insert(i, n),
    decreases i,
{
    if i == 0 {
        assert(seq![n] + s =~= s.insert(0, n));
    } else {
        assert(!net_before(n, s[0]));
        assert(s.drop_first()[i - 1] == s[i]);
        assert(forall|j: int| 0 <= j < i - 1 ==> s.drop_first()[j] == s[j + 1]);
        lemma_insert_net_at(s.drop_first(), n, i - 1);
        assert(seq![s[0]] + s.drop_first().insert(i - 1, n) =~= s.insert(i, n));
    }
}

proof fn lemma_insert_net_end(s: Seq<WifiNetworkData>, n: WifiNetworkData)
    requires
        forall|j: int| 0 <= j < s.len() ==> !net_before(n, s[j]),
    ensures
        insert_net(s, n) == s.push(n),
    decreases s.len(),
{
    if s.len() == 0 {
        assert(insert_net(s, n) =~= s.push(n));
    } else {
        assert(forall|j: int| 0 <= j < s.drop_first().len() ==> s.drop_first()[j] == s[j + 1]);
        lemma_insert_net_end(s.drop_first(), n);
        assert(seq![s[0]] + s.drop_first().push(n) =~= s.push(n));
    }
}

/// No record is strictly before an earlier one: active networks come
/// first, then descending signal.
pub open spec fn nets_ordered(s: Seq<WifiNetworkData>) -> bool {
    forall|i: int, j: int| 0 <= i < j < s.len() ==> !net_before(s[j], s[i])
}

proof fn lemma_net_before_trans(a: WifiNetworkData, b: WifiNetworkData, c: WifiNetworkData)
    requires
        net_before(a, b),
        net_before(b, c),
    ensures
        net_before(a, c),
{
}

proof fn lemma_insert_net_props(s: Seq<WifiNetworkData>, n: WifiNetworkData)
    requires
        nets_ordered(s),
    ensures
        nets_ordered(insert_net(s, n)),
        insert_net(s, n).to_multiset() == s.to_multiset().insert(n),
        forall|x: WifiNetworkData| #[trigger] insert_net(s, n).contains(x) ==> x == n
            || s.contains(x),
    decreases s.len(),
{
    broadcast use vstd::seq_lib::group_to_multiset_ensures;

    if s.len() == 0 {
        assert(insert_net(s, n) =~= Seq::<WifiNetworkData>::empty().push(n));
        assert(Seq::<WifiNetworkData>::empty().to_multiset() =~= s.to_multiset());
        assert forall|x: WifiNetworkData| #[trigger] insert_net(s, n).contains(x) implies x == n
            || s.contains(x) by {
            assert(insert_net(s, n)[0] == n);
        }
    } else if net_before(n, s[0]) {
        let r = seq![n] + s;
        assert(insert_net(s, n) == r);
        assert forall|i: int, j: int| 0 <= i < j < r.len() implies !net_before(r[j], r[i]) by {
            if i == 0 {
                assert(r[j] == s[j - 1]);
                if net_before(s[j - 1], n) {
                    lemma_net_before_trans(s[j - 1], n, s[0]);
                }
            } else {
                assert(r[i] == s[i - 1] && r[j] == s[j - 1]);
            }
        }
        assert(r =~= seq![n] + s);
        vstd::seq_lib::lemma_multiset_commutative(seq![n], s);
        assert(seq![n] =~= Seq::<WifiNetworkData>::empty().push(n));
        assert(seq![n].to_multiset() =~= Multiset::<WifiNetworkData>::empty().insert(n));
        assert(r.to_multiset() =~= s.to_multiset().insert(n));
        assert forall|x: WifiNetworkData| #[trigger] r.contains(x) implies x == n || s.contains(
            x,
        ) by {
            let k = choose|k: int| 0 <= k < r.len() && r[k] == x;
            if k > 0 {
                assert(s[k - 1] == x);
            }
        }
    } else {
        assert(nets_ordered(s.drop_first())) by {
            assert forall|i: int, j: int|
                0 <= i < j < s.drop_first().len() implies !net_before(
                s.drop_first()[j],
                s.drop_first()[i],
            ) by {
                assert(s.drop_first()[i] == s[i + 1]);
                assert(s.drop_first()[j] == s[j + 1]);
            }
        }
        lemma_insert_net_props(s.drop_first(), n);
        let rest = insert_net(s.drop_first(), n);
        let r = seq![s[0]] + rest;
        assert(insert_net(s, n) == r);
        assert forall|i: int, j: int| 0 <= i < j < r.len() implies !net_before(r[j], r[i]) by {
            if i == 0 {
                assert(r[j] == rest[j - 1]);
                assert(rest.contains(rest[j - 1]));
                if rest[j - 1] == n {
                    assert(!net_before(n, s[0]));
                } else {
                    assert(s.drop_first().contains(rest[j - 1]));
                    let k = choose|k: int|
                        0 <= k < s.drop_first().len() && s.drop_first()[k] == rest[j - 1];
                    assert(s[k + 1] == rest[j - 1]);
                }
            } else {
                assert(r[i] == rest[i - 1] && r[j] == rest[j - 1]);
            }
        }
        vstd::seq_lib::lemma_multiset_commutative(seq![s[0]], rest);
        assert(seq![s[0]] =~= Seq::<WifiNetworkData>::empty().push(s[0]));
        assert(seq![s[0]].to_multiset() =~= Multiset::<WifiNetworkData>::empty().insert(s[0]));
        assert(s =~= seq![s[0]] + s.drop_first());
        vstd::seq_lib::lemma_multiset_commutative(seq![s[0]], s.drop_first());
        assert(r.to_multiset() =~= s.to_multiset().insert(n));
        assert forall|x: WifiNetworkData| #[trigger] r.contains(x) implies x == n || s.contains(
            x,
        ) by {
            let k = choose|k: int| 0 <= k < r.len() && r[k] == x;
            if k == 0 {
                assert(s[0] == x);
            } else {
                assert(rest[k - 1] == x);
                assert(rest.contains(x));
                if x != n {
                    assert(s.drop_first().contains(x));
                    let m = choose|m: int|
                        0 <= m < s.drop_first().len() && s.drop_first()[m] == x;
                    assert(s[m + 1] == x);
                }
            }
        }
    }
}

/// The sorted scan result is ordered, active networks first, then
/// descending signal, and holds exactly the records it was given.
pub proof fn lemma_sort_networks_props(s: Seq<WifiNetworkData>)
    ensures
        nets_ordered(sort_networks(s)),
        sort_networks(s).to_multiset() == s.to_multiset(),
    decreases s.len(),
{
    broadcast use vstd::seq_lib::group_to_multiset_ensures;

    if s.len() == 0 {
        assert(sort_networks(s) =~= Seq::<WifiNetworkData>::empty());
    } else {
        lemma_sort_networks_props(s.drop_last());
        lemma_insert_net_props(sort_networks(s.drop_last()), s.last());
        assert(s.drop_last().push(s.last()) =~= s);
        assert(s.drop_last().push(s.last()).to_multiset() =~= s.drop_last().to_multiset().insert(
            s.last(),
        ));
    }
}

proof fn lemma_insert_net_has_ssid(s: Seq<WifiNetworkData>, n: WifiNetworkData, ssid: Seq<char>)
    ensures
        has_ssid(insert_net(s, n), ssid) <==> (has_ssid(s, ssid) || ssid == n.ssid),
    decreases s.len(),
{
    if s.len() == 0 {
        assert(insert_net(s, n)[0] == n);
        if ssid == n.ssid {
            assert(has_ssid(insert_net(s, n), ssid));
        }
        if has_ssid(insert_net(s, n), ssid) {
            let i = choose|i: int| 0 <= i < insert_net(s, n).len() && insert_net(s, n)[i].ssid == ssid;
            assert(i == 0);
        }
    } else if net_before(n, s[0]) {
        let r = seq![n] + s;
        assert(insert_net(s, n) == r);
        if has_ssid(r, ssid) {
            let i = choose|i: int| 0 <= i < r.len() && r[i].ssid == ssid;
            if i > 0 {
                assert(s[i - 1].ssid == ssid);
            }
        }
        if has_ssid(s, ssid) {
            let i = choose|i: int| 0 <= i < s.len() && s[i].ssid == ssid;
            assert(r[i + 1] == s[i]);
        }
        if ssid == n.ssid {
            assert(r[0].ssid == ssid);
        }
    } else {
        lemma_insert_net_has_ssid(s.drop_first(), n, ssid);
        let rest = insert_net(s.drop_first(), n);
        let r = seq![s[0]] + rest;
        assert(insert_net(s, n) == r);
        if has_ssid(r, ssid) {
            let i = choose|i: int| 0 <= i < r.len() && r[i].ssid == ssid;
            if i == 0 {
                assert(s[0].ssid == ssid);
            } else {
                assert(rest[i - 1].ssid == ssid);
                assert(has_ssid(rest, ssid));
                if has_ssid(s.drop_first(), ssid) {
                    let k = choose|k: int|
                        0 <= k < s.drop_first().len() && s.drop_first()[k].ssid == ssid;
                    assert(s[k + 1].ssid == ssid);
                }
            }
            assert(has_ssid(s, ssid) || ssid == n.ssid);
        }
        if has_ssid(s, ssid) {
            let i = choose|i: int| 0 <= i < s.len() && s[i].ssid == ssid;
            if i == 0 {
                assert(r[0].ssid == ssid);
            } else {
                assert(s.drop_first()[i - 1] == s[i]);
                assert(has_ssid(s.drop_first(), ssid));
                assert(has_ssid(rest, ssid));
                let k = choose|k: int| 0 <= k < rest.len() && rest[k].ssid == ssid;
                assert(r[k + 1] == rest[k]);
            }
            assert(has_ssid(r, ssid));
        }
        if ssid == n.ssid {
            assert(has_ssid(rest, ssid));
            let k = choose|k: int| 0 <= k < rest.len() && rest[k].ssid == ssid;
            assert(r[k + 1] == rest[k]);
            assert(has_ssid(r, ssid));
        }
    }
}

proof fn lemma_insert_net_unique(s: Seq<WifiNetworkData>, n: WifiNetworkData)
    requires
        unique_ssids(s),
        !has_ssid(s, n.ssid),
    ensures
        unique_ssids(insert_net(s, n)),
    decreases s.len(),
{
    if s.len() == 0 {
    } else if net_before(n, s[0]) {
        let r = seq![n] + s;
        assert forall|i: int, j: int| 0 <= i < j < r.len() implies r[i].ssid != r[j].ssid by {
            if i == 0 {
                assert(r[j] == s[j - 1]);
                if r[0].ssid == s[j - 1].ssid {
                    assert(has_ssid(s, n.ssid));
                }
            } else {
                assert(r[i] == s[i - 1] && r[j] == s[j - 1]);
            }
        }
    } else {
        assert(unique_ssids(s.drop_first())) by {
            assert forall|i: int, j: int|
                0 <= i < j < s.drop_first().len() implies s.drop_first()[i].ssid
                != s.drop_first()[j].ssid by {
                assert(s.drop_first()[i] == s[i + 1]);
                assert(s.drop_first()[j] == s[j + 1]);
            }
        }
        assert(!has_ssid(s.drop_first(), n.ssid)) by {
            if has_ssid(s.drop_first(), n.ssid) {
                let k = choose|k: int|
                    0 <= k < s.drop_first().len() && s.drop_first()[k].ssid == n.ssid;
                assert(s[k + 1].ssid == n.ssid);
            }
        }
        lemma_insert_net_unique(s.drop_first(), n);
        lemma_insert_net_has_ssid(s.drop_first(), n, s[0].ssid);
        let rest = insert_net(s.drop_first(), n);
        let r = seq![s[0]] + rest;
        assert(!has_ssid(s.drop_first(), s[0].ssid)) by {
            if has_ssid(s.drop_first(), s[0].ssid) {
                let k = choose|k: int|
                    0 <= k < s.drop_first().len() && s.drop_first()[k].ssid == s[0].ssid;
                assert(s[k + 1].ssid == s[0].ssid);
            }
        }
        assert(!has_ssid(rest, s[0].ssid)) by {
            if s[0].ssid == n.ssid {
                assert(has_ssid(s, n.ssid));
            }
        }
        assert forall|i: int, j: int| 0 <= i < j < r.len() implies r[i].ssid != r[j].ssid by {
            if i == 0 {
                assert(r[j] == rest[j - 1]);
                if r[0].ssid == rest[j - 1].ssid {
                    assert(has_ssid(rest, s[0].ssid));
                }
            } else {
                assert(r[i] == rest[i - 1] && r[j] == rest[j - 1]);
            }
        }
    }
}

proof fn lemma_sort_networks_has_ssid(s: Seq<WifiNetworkData>, ssid: Seq<char>)
    ensures
        has_ssid(sort_networks(s), ssid) <==> has_ssid(s, ssid),
    decreases s.len(),
{
    if s.len() == 0 {
    } else {
        lemma_sort_networks_has_ssid(s.drop_last(), ssid);
        lemma_insert_net_has_ssid(sort_networks(s.drop_last()), s.last(), ssid);
        assert(has_ssid(s, ssid) <==> (has_ssid(s.drop_last(), ssid) || ssid == s.last().ssid))
            by {
            if has_ssid(s, ssid) {
                let i = choose|i: int| 0 <= i < s.len() && s[i].ssid == ssid;
                if i < s.len() - 1 {
                    assert(s.drop_last()[i] == s[i]);
                    assert(has_ssid(s.drop_last(), ssid));
                }
            }
            if has_ssid(s.drop_last(), ssid) {
                let i = choose|i: int| 0 <= i < s.drop_last().len() && s.drop_last()[i].ssid == ssid;
                assert(s[i].ssid == ssid);
            }
            if ssid == s.last().ssid {
                assert(s[s.len() - 1].ssid == ssid);
            }
        }
    }
}

/// Sorting keeps the one-record-per-SSID invariant.
pub proof fn lemma_sort_networks_unique(s: Seq<WifiNetworkData>)
    requires
        unique_ssids(s),
    ensures
        unique_ssids(sort_networks(s)),
    decreases s.len(),
{
    if s.len() > 0 {
        assert(unique_ssids(s.drop_last())) by {
            assert(forall|i: int, j: int|
                0 <= i < j < s.drop_last().len() ==> s.drop_last()[i].ssid
                    != s.drop_last()[j].ssid);
        }
        lemma_sort_networks_unique(s.drop_last());
        assert(!has_ssid(s.drop_last(), s.last().ssid)) by {
            if has_ssid(s.drop_last(), s.last().ssid) {
                let i = choose|i: int|
                    0 <= i < s.drop_last().len() && s.drop_last()[i].ssid == s.last().ssid;
                assert(s[i].ssid == s[s.len() - 1].ssid);
            }
        }
        lemma_sort_networks_has_ssid(s.drop_last(), s.last().ssid);
        lemma_insert_net_unique(sort_networks(s.drop_last()), s.last());
    }
}

/// The invariant of a finished scan: exactly one record per distinct
/// SSID, even though the underlying listing may report the same SSID
/// several times.
pub proof fn lemma_scan_result_unique_ssids(text: Seq<char>)
    ensures
        unique_ssids(scan_result(text)),
{
    lemma_dedup_unique(scan_records(lines_spec(text)));
    lemma_sort_networks_unique(dedup_networks(scan_records(lines_spec(text))));
}

// ---------- the scan pipeline ----------

/// The records of all parseable scan lines, in line order.
pub open spec fn scan_records(lines: Seq<Seq<char>>) -> Seq<WifiNetworkData>
    decreases lines.len(),
{
    if lines.len() == 0 {
        Seq::empty()
    } else {
        let rest = scan_records(lines.drop_last());
        match scan_line_record(lines.last()) {
            Some(n) => rest.push(n),
            None => rest,
        }
    }
}

/// What a whole scan listing denotes: its records, deduplicated per
/// SSID under the tie-break policy, ordered active-first then by
/// descending signal.
pub open spec fn scan_result(text: Seq<char>) -> Seq<WifiNetworkData> {
    sort_networks(dedup_networks(scan_records(lines_spec(text))))
}

fn upsert_exec(acc: &mut Vec<WifiNetwork>, n: WifiNetwork)
    ensures
        final(acc).deep_view() == upsert(old(acc).deep_view(), n@),
{
    let ghost dv0 = acc.deep_view();
    let mut i: usize = 0;
    while i < acc.len()
        invariant
            i <= acc.len(),
            acc.deep_view() == dv0,
            acc == old(acc),
            forall|j: int| 0 <= j < i ==> dv0[j].ssid != n@.ssid,
        decreases acc.len() - i,
    {
        if acc[i].ssid == n.ssid {
            proof {
                assert(dv0[i as int].ssid == n@.ssid);
                lemma_upsert_found(dv0, n@, i as int);
            }
            if (n.active && !acc[i].active) || (n.active == acc[i].active && n.signal > acc[i]
                .signal) {
                proof {
                    assert(replaces(n@, dv0[i as int]));
                }
                acc.remove(i);
                acc.insert(i, n);
                proof {
                    assert(acc.deep_view() =~= dv0.update(i as int, n@));
                }
            } else {
                proof {
                    assert(!replaces(n@, dv0[i as int]));
                }
            }
            return ;
        }
        i += 1;
    }
    acc.push(n);
    proof {
        assert(!has_ssid(dv0, n@.ssid));
        lemma_upsert_absent(dv0, n@);
        assert(acc.deep_view() =~= dv0.push(n@));
    }
}

fn insert_net_exec(out: &mut Vec<WifiNetwork>, n: WifiNetwork)
    ensures
        final(out).deep_view() == insert_net(old(out).deep_view(), n@),
{
    let ghost dv0 = out.deep_view();
    let mut i: usize = 0;
    while i < out.len()
        invariant
            i <= out.len(),
            out.deep_view() == dv0,
            out == old(out),
            forall|j: int| 0 <= j < i ==> !net_before(n@, dv0[j]),
        decreases out.len() - i,
    {
        if (n.active && !out[i].active) || (n.active == out[i].active && n.signal > out[i].signal) {
            proof {
                assert(net_before(n@, dv0[i as int]));
                lemma_insert_net_at(dv0, n@, i as int);
            }
            out.insert(i, n);
            proof {
                assert(out.deep_view() =~= dv0.insert(i as int, n@));
            }
            return ;
        }
        i += 1;
    }
    out.push(n);
    proof {
        lemma_insert_net_end(dv0, n@);
        assert(out.deep_view() =~= dv0.push(n@));
    }
}

/// Parse a whole scan listing: one record per parseable line,
/// deduplicated per SSID, active networks first, then descending
/// signal, records with equal keys in observation order.
pub fn parse_scan_output(text: &str) -> (r: Vec<WifiNetwork>)
    ensures
        r.deep_view() == scan_result(text@),
{
    let lines = lines_of(text);
    let ghost lv = lines.deep_view();
    let mut acc: Vec<WifiNetwork> = Vec::new();
    let mut li: usize = 0;
    proof {
        assert(lv.take(0) =~= Seq::<Seq<char>>::empty());
    }
    while li < lines.len()
        invariant
            li <= lines.len(),
            lv == lines.deep_view(),
            lv.len() == lines.len(),
            acc.deep_view() == dedup_networks(scan_records(lv.take(li as int))),
        decreases lines.len() - li,
    {
        let ghost done = lv.take(li as int);
        proof {
            assert(lv.take(li + 1).drop_last() =~= done);
            assert(lv.take(li + 1).last() == lv[li as int]);
            assert(lines@[li as int]@ == lv[li as int]);
        }
        match parse_scan_line(lines[li].as_str()) {
            Some(n) => {
                let ghost nv = n@;
                upsert_exec(&mut acc, n);
                proof {
                    let rest = scan_records(done);
                    assert(scan_records(lv.take(li + 1)) == rest.push(nv));
                    assert(rest.push(nv).drop_last() =~= rest);
                    assert(rest.push(nv).last() == nv);
                    assert(dedup_networks(rest.push(nv)) == upsert(dedup_networks(rest), nv));
                }
            },
            None => {
                proof {
                    assert(scan_records(lv.take(li + 1)) == scan_records(done));
                }
            },
        }
        li += 1;
    }
    proof {
        assert(lv.take(lines.len() as int) =~= lv);
    }
    let mut work = acc;
    let ghost records = dedup_networks(scan_records(lv));
    let mut out: Vec<WifiNetwork> = Vec::new();
    proof {
        assert(records.take(0) =~= Seq::<WifiNetworkData>::empty());
    }
    while work.len() > 0
        invariant
            work.deep_view() == records.skip(records.len() - work.len() as int),
            work.len() <= records.len(),
            out.deep_view() == sort_networks(records.take(records.len() - work.len() as int)),
        decreases work.len(),
    {
        let ghost k = records.len() - work.len() as int;
        let ghost w0 = work@;
        let ghost wdv0 = work.deep_view();
        let item = work.remove(0);
        proof {
            assert(item@ == wdv0[0]);
            assert(wdv0[0] == records.skip(k)[0]);
            assert(records.skip(k)[0] == records[k]);
            assert forall|i: int| 0 <= i < work.deep_view().len() implies work.deep_view()[i]
                == records.skip(k + 1)[i] by {
                assert(work@[i] == w0[i + 1]);
                assert(wdv0[i + 1] == w0[i + 1].deep_view());
                assert(wdv0[i + 1] == records.skip(k)[i + 1]);
                assert(records.skip(k)[i + 1] == records[k + 1 + i]);
                assert(records.skip(k + 1)[i] == records[k + 1 + i]);
            }
            assert(work.deep_view() =~= records.skip(k + 1));
            assert(records.take(k + 1).drop_last() =~= records.take(k));
            assert(records.take(k + 1).last() == records[k]);
        }
        insert_net_exec(&mut out, item);
    }
    proof {
        assert(records.take(records.len() as int) =~= records);
    }
    out
}

} // verus!
