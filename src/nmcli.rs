//! Records read from the control utility, the friendly error taxonomy, and the
//! interpretation of each command's output.
use vstd::prelude::*;

use crate::terse::{char_views, string_views, split_lines, split_terse, terse_fields, text_lines};
use crate::text::{
    before_char, chars_of, contains_seq, occurs_at, contains_str, equals_str, first_two_words, parse_u8,
    parse_u8_spec, prefix_before, starts_with_seq, starts_with_str, string_of,
    strip_prefix_repeatedly, strip_repeated_prefix, trim, trim_seq, two_words,
};

verus! {

/// A visible network, as one row of a scan.
#[derive(Clone, Debug)]
pub struct Network {
    pub ssid: String,
    pub signal: u8,
    /// The raw security descriptor; empty or `--` for an open network.
    pub security: String,
    pub in_use: bool,
}

/// A network's fields as plain values.
pub struct NetworkView {
    pub ssid: Seq<char>,
    pub signal: u8,
    pub security: Seq<char>,
    pub in_use: bool,
}

impl vstd::prelude::View for Network {
    type V = NetworkView;

    open spec fn view(&self) -> NetworkView {
        NetworkView {
            ssid: self.ssid@,
            signal: self.signal,
            security: self.security@,
            in_use: self.in_use,
        }
    }
}

impl Network {
    /// A copy with the same fields.
    pub fn duplicate(&self) -> (r: Network)
        ensures
            r@ == self@,
    {
        Network {
            ssid: self.ssid.clone(),
            signal: self.signal,
            security: self.security.clone(),
            in_use: self.in_use,
        }
    }
}

/// A saved connection profile.
#[derive(Clone, Debug)]
pub struct SavedNetwork {
    pub name: String,
    pub active: bool,
}

/// What is known of the current connection; all fields absent when not connected.
#[derive(Clone, Debug)]
pub struct ConnectionStatus {
    pub ssid: Option<String>,
    pub signal: Option<u8>,
    pub ip: Option<String>,
    pub speed: Option<String>,
}

pub open spec fn network_views(v: Seq<Network>) -> Seq<NetworkView> {
    v.map_values(|n: Network| n@)
}

/// The network a scan row describes: in-use flag, ssid, signal and security.
/// Short rows and rows without an ssid (hidden networks) describe none; an
/// unreadable signal counts as 0.
pub open spec fn scan_row(f: Seq<Seq<char>>) -> Option<NetworkView> {
    if f.len() < 4 || f[1].len() == 0 {
        None
    } else {
        Some(
            NetworkView {
                ssid: f[1],
                signal: match parse_u8_spec(f[2]) {
                    Some(v) => v,
                    None => 0,
                },
                security: f[3],
                in_use: trim_seq(f[0]) == seq!['*'],
            },
        )
    }
}

/// The networks that the lines of a scan listing describe, in order.
pub open spec fn scan_rows(lines: Seq<Seq<char>>) -> Seq<NetworkView>
    decreases lines.len(),
{
    if lines.len() == 0 {
        Seq::empty()
    } else {
        let r = scan_rows(lines.drop_last());
        match scan_row(terse_fields(lines.last())) {
            Some(n) => r.push(n),
            None => r,
        }
    }
}

/// Of two rows with one ssid, `a` replaces `b`: it is in use and `b` is not,
/// or both agree on being in use and `a` has the stronger signal.
pub open spec fn beats(a: NetworkView, b: NetworkView) -> bool {
    (a.in_use && !b.in_use) || (a.in_use == b.in_use && a.signal > b.signal)
}

pub open spec fn unique_ssids(s: Seq<NetworkView>) -> bool {
    forall|i: int, j: int| 0 <= i < s.len() && 0 <= j < s.len() && i != j ==> s[i].ssid != s[j].ssid
}

pub open spec fn has_ssid(acc: Seq<NetworkView>, ssid: Seq<char>) -> bool {
    exists|i: int| 0 <= i < acc.len() && acc[i].ssid == ssid
}

/// A position of an entry with this ssid (the only one where ssids are unique).
pub open spec fn ssid_position(acc: Seq<NetworkView>, ssid: Seq<char>) -> int {
    choose|i: int| 0 <= i < acc.len() && acc[i].ssid == ssid
}

/// Adds a row to a list with one entry per ssid: it takes the place of the
/// entry with its ssid if it beats it, is dropped if not, and is appended if
/// the ssid is new.
pub open spec fn merge_row(acc: Seq<NetworkView>, n: NetworkView) -> Seq<NetworkView> {
    if has_ssid(acc, n.ssid) {
        let i = ssid_position(acc, n.ssid);
        if beats(n, acc[i]) {
            acc.update(i, n)
        } else {
            acc
        }
    } else {
        acc.push(n)
    }
}

/// One entry per ssid, in the order in which each ssid first appears.
pub open spec fn dedup_rows(rows: Seq<NetworkView>) -> Seq<NetworkView>
    decreases rows.len(),
{
    if rows.len() == 0 {
        Seq::empty()
    } else {
        merge_row(dedup_rows(rows.drop_last()), rows.last())
    }
}

/// The sort key: in-use networks above all others, then by signal.
pub open spec fn rank(n: NetworkView) -> int {
    (if n.in_use {
        256int
    } else {
        0int
    }) + n.signal as int
}

/// The entries of `s` whose rank is `k`, in their order.
pub open spec fn with_rank(s: Seq<NetworkView>, k: int) -> Seq<NetworkView>
    decreases s.len(),
{
    if s.len() == 0 {
        Seq::empty()
    } else {
        let r = with_rank(s.drop_last(), k);
        if rank(s.last()) == k {
            r.push(s.last())
        } else {
            r
        }
    }
}

/// The entries of `s` whose rank is at least `j`, highest rank first, entries of
/// one rank in their order.
pub open spec fn ranked(s: Seq<NetworkView>, j: int) -> Seq<NetworkView>
    decreases 512 - j,
{
    if j >= 512 {
        Seq::empty()
    } else {
        ranked(s, j + 1) + with_rank(s, j)
    }
}

/// `s` sorted in-use first, then by signal from strongest, ties in their order.
pub open spec fn sorted_networks(s: Seq<NetworkView>) -> Seq<NetworkView> {
    ranked(s, 0)
}

/// The networks of a scan listing: one per ssid, sorted.
pub open spec fn scan_listing(out: Seq<char>) -> Seq<NetworkView> {
    sorted_networks(dedup_rows(scan_rows(text_lines(out))))
}

/// The network a row of fields describes, if any.
pub fn network_from_fields(f: &Vec<Vec<char>>) -> (r: Option<Network>)
    ensures
        match scan_row(char_views(f@)) {
            Some(v) => r is Some && r->0@ == v,
            None => r is None,
        },
{
    if f.len() < 4 || f[1].len() == 0 {
        return None;
    }
    let signal: u8 = match parse_u8(f[2].as_slice()) {
        Some(v) => v,
        None => 0,
    };
    let flag = trim(f[0].as_slice());
    let in_use = flag.len() == 1 && flag[0] == '*';
    assert(in_use == (flag@ == seq!['*'])) by {
        if flag@.len() == 1 && flag@[0] == '*' {
            assert(flag@ =~= seq!['*']);
        }
    }
    Some(
        Network {
            ssid: string_of(f[1].as_slice()),
            signal,
            security: string_of(f[3].as_slice()),
            in_use,
        },
    )
}

/// Adds one row to a list that holds one entry per ssid.
pub fn merge_network(acc: &mut Vec<Network>, n: Network)
    requires
        unique_ssids(network_views(old(acc)@)),
    ensures
        network_views(final(acc)@) == merge_row(network_views(old(acc)@), n@),
        unique_ssids(network_views(final(acc)@)),
{
    let ghost a = network_views(acc@);
    let mut i: usize = 0;
    while i < acc.len()
        invariant
            i <= acc@.len(),
            a == network_views(acc@),
            a == network_views(old(acc)@),
            unique_ssids(a),
            forall|j: int| 0 <= j < i ==> a[j].ssid != n@.ssid,
        decreases acc@.len() - i,
    {
        if acc[i].ssid == n.ssid {
            assert(a[i as int].ssid == n@.ssid);
            assert(has_ssid(a, n@.ssid));
            assert(ssid_position(a, n@.ssid) == i);
            let better = (n.in_use && !acc[i].in_use) || (n.in_use == acc[i].in_use && n.signal
                > acc[i].signal);
            assert(better == beats(n@, a[i as int]));
            if better {
                acc.set(i, n);
                assert(network_views(acc@) =~= a.update(i as int, n@));
            }
            return;
        }
        i = i + 1;
    }
    acc.push(n);
    assert(network_views(acc@) =~= a.push(n@));
}

/// One network per ssid: an in-use row beats one that is not in use, and
/// otherwise the stronger signal wins (the earlier row on a tie). Entries stay
/// where their ssid first appeared.
pub fn dedup_networks(rows: &Vec<Network>) -> (r: Vec<Network>)
    ensures
        network_views(r@) == dedup_rows(network_views(rows@)),
        unique_ssids(network_views(r@)),
{
    let ghost rv = network_views(rows@);
    let mut out: Vec<Network> = Vec::new();
    let n: usize = rows.len();
    let mut m: usize = 0;
    while m < n
        invariant
            m <= n == rv.len(),
            rv == network_views(rows@),
            network_views(out@) == dedup_rows(rv.subrange(0, m as int)),
            unique_ssids(network_views(out@)),
        decreases n - m,
    {
        let x = rows[m].duplicate();
        let ghost pre = rv.subrange(0, m + 1);
        assert(pre.drop_last() =~= rv.subrange(0, m as int));
        merge_network(&mut out, x);
        m = m + 1;
    }
    assert(rv.subrange(0, n as int) =~= rv);
    out
}

/// The position of an ssid in a list with unique ssids is where it stands.
proof fn lemma_position_unique(acc: Seq<NetworkView>, p: int)
    requires
        unique_ssids(acc),
        0 <= p < acc.len(),
    ensures
        has_ssid(acc, acc[p].ssid),
        ssid_position(acc, acc[p].ssid) == p,
{
    assert(has_ssid(acc, acc[p].ssid));
}

/// Every row's ssid survives deduplication, with an entry that the row does not
/// beat, and the survivors have distinct ssids.
pub proof fn lemma_dedup_keeps_best(rows: Seq<NetworkView>)
    ensures
        unique_ssids(dedup_rows(rows)),
        forall|k: int|
            0 <= k < rows.len() ==> has_ssid(dedup_rows(rows), #[trigger] rows[k].ssid) && !beats(
                rows[k],
                dedup_rows(rows)[ssid_position(dedup_rows(rows), rows[k].ssid)],
            ),
    decreases rows.len(),
{
    if rows.len() > 0 {
        let pre = rows.drop_last();
        lemma_dedup_keeps_best(pre);
        let d = dedup_rows(pre);
        let n = rows.last();
        let d2 = dedup_rows(rows);
        assert(d2 == merge_row(d, n));
        if has_ssid(d, n.ssid) {
            let i = ssid_position(d, n.ssid);
            assert(unique_ssids(d2));
            assert forall|k: int| 0 <= k < rows.len() implies has_ssid(
                d2,
                #[trigger] rows[k].ssid,
            ) && !beats(rows[k], d2[ssid_position(d2, rows[k].ssid)]) by {
                if k < rows.len() - 1 {
                    assert(rows[k] == pre[k]);
                    let p = ssid_position(d, pre[k].ssid);
                    lemma_position_unique(d2, p);
                    assert(d2[p].ssid == rows[k].ssid);
                } else {
                    lemma_position_unique(d2, i);
                }
            }
        } else {
            assert(unique_ssids(d2));
            assert forall|k: int| 0 <= k < rows.len() implies has_ssid(
                d2,
                #[trigger] rows[k].ssid,
            ) && !beats(rows[k], d2[ssid_position(d2, rows[k].ssid)]) by {
                if k < rows.len() - 1 {
                    assert(rows[k] == pre[k]);
                    let p = ssid_position(d, pre[k].ssid);
                    lemma_position_unique(d2, p);
                    assert(d2[p].ssid == rows[k].ssid);
                } else {
                    lemma_position_unique(d2, d.len() as int);
                }
            }
        }
    }
}

/// The entries of `s` whose rank is at least `j`, in their order.
pub open spec fn rank_at_least(s: Seq<NetworkView>, j: int) -> Seq<NetworkView>
    decreases s.len(),
{
    if s.len() == 0 {
        Seq::empty()
    } else {
        let r = rank_at_least(s.drop_last(), j);
        if rank(s.last()) >= j {
            r.push(s.last())
        } else {
            r
        }
    }
}

proof fn lemma_rank_at_least_ends(s: Seq<NetworkView>)
    ensures
        rank_at_least(s, 0) == s,
        rank_at_least(s, 512) == Seq::<NetworkView>::empty(),
    decreases s.len(),
{
    if s.len() > 0 {
        lemma_rank_at_least_ends(s.drop_last());
        assert(s.drop_last().push(s.last()) =~= s);
    }
}

proof fn lemma_rank_split(s: Seq<NetworkView>, j: int)
    ensures
        rank_at_least(s, j).to_multiset() =~= rank_at_least(s, j + 1).to_multiset().add(
            with_rank(s, j).to_multiset(),
        ),
    decreases s.len(),
{
    broadcast use vstd::seq_lib::group_to_multiset_ensures;
    broadcast use vstd::multiset::group_multiset_axioms;

    if s.len() > 0 {
        lemma_rank_split(s.drop_last(), j);
    }
}

proof fn lemma_ranked_multiset(s: Seq<NetworkView>, j: int)
    requires
        0 <= j <= 512,
    ensures
        ranked(s, j).to_multiset() =~= rank_at_least(s, j).to_multiset(),
    decreases 512 - j,
{
    broadcast use vstd::seq_lib::group_to_multiset_ensures;
    broadcast use vstd::multiset::group_multiset_axioms;

    if j == 512 {
        lemma_rank_at_least_ends(s);
    } else {
        lemma_ranked_multiset(s, j + 1);
        lemma_rank_split(s, j);
        vstd::seq_lib::lemma_multiset_commutative(ranked(s, j + 1), with_rank(s, j));
    }
}

/// Sorting neither loses nor invents an entry: the sorted list is a
/// permutation of its input.
pub proof fn lemma_sorted_permutation(s: Seq<NetworkView>)
    ensures
        sorted_networks(s).to_multiset() =~= s.to_multiset(),
{
    lemma_ranked_multiset(s, 0);
    lemma_rank_at_least_ends(s);
}

proof fn lemma_with_rank_concat(a: Seq<NetworkView>, b: Seq<NetworkView>, k: int)
    ensures
        with_rank(a + b, k) =~= with_rank(a, k) + with_rank(b, k),
    decreases b.len(),
{
    if b.len() == 0 {
        assert(a + b =~= a);
    } else {
        lemma_with_rank_concat(a, b.drop_last(), k);
        assert((a + b).drop_last() =~= a + b.drop_last());
        assert((a + b).last() == b.last());
    }
}

proof fn lemma_with_rank_twice(s: Seq<NetworkView>, k: int, k2: int)
    ensures
        with_rank(with_rank(s, k2), k) =~= if k == k2 {
            with_rank(s, k)
        } else {
            Seq::<NetworkView>::empty()
        },
    decreases s.len(),
{
    if s.len() > 0 {
        lemma_with_rank_twice(s.drop_last(), k, k2);
        let w = with_rank(s.drop_last(), k2);
        if rank(s.last()) == k2 {
            assert(w.push(s.last()).drop_last() =~= w);
        }
    }
}

proof fn lemma_ranked_select(s: Seq<NetworkView>, j: int, k: int)
    requires
        0 <= j <= 512,
        0 <= k < 512,
    ensures
        with_rank(ranked(s, j), k) =~= if j <= k {
            with_rank(s, k)
        } else {
            Seq::<NetworkView>::empty()
        },
    decreases 512 - j,
{
    if j < 512 {
        lemma_ranked_select(s, j + 1, k);
        lemma_with_rank_concat(ranked(s, j + 1), with_rank(s, j), k);
        lemma_with_rank_twice(s, k, j);
    }
}

/// Sorting is stable: the entries that agree on being in use and on signal
/// come out in the order they came in.
pub proof fn lemma_sorted_stable(s: Seq<NetworkView>, in_use: bool, signal: u8)
    ensures
        ({
            let k = (if in_use {
                256int
            } else {
                0int
            }) + signal as int;
            with_rank(sorted_networks(s), k) == with_rank(s, k)
        }),
{
    let k = (if in_use {
        256int
    } else {
        0int
    }) + signal as int;
    lemma_ranked_select(s, 0, k);
}

/// Every entry of the deduplicated list is one of the rows.
pub proof fn lemma_dedup_from_rows(rows: Seq<NetworkView>)
    ensures
        forall|i: int|
            0 <= i < dedup_rows(rows).len() ==> rows.contains(#[trigger] dedup_rows(rows)[i]),
    decreases rows.len(),
{
    if rows.len() > 0 {
        let pre = rows.drop_last();
        lemma_dedup_from_rows(pre);
        let d = dedup_rows(pre);
        let n = rows.last();
        let d2 = dedup_rows(rows);
        assert(rows[rows.len() - 1] == n);
        assert forall|i: int| 0 <= i < d2.len() implies rows.contains(#[trigger] d2[i]) by {
            if d2[i] != n {
                assert(i < d.len() && d2[i] == d[i]);
                assert(pre.contains(d[i]));
                let q = choose|q: int| 0 <= q < pre.len() && pre[q] == d[i];
                assert(rows[q] == pre[q]);
            }
        }
    }
}

/// The ssid of every row of a listing is non-empty.
proof fn lemma_scan_rows_named(lines: Seq<Seq<char>>)
    ensures
        forall|i: int|
            0 <= i < scan_rows(lines).len() ==> (#[trigger] scan_rows(lines)[i]).ssid.len() > 0,
    decreases lines.len(),
{
    if lines.len() > 0 {
        lemma_scan_rows_named(lines.drop_last());
        let sub = scan_rows(lines.drop_last());
        assert forall|i: int| 0 <= i < scan_rows(lines).len() implies (#[trigger] scan_rows(
            lines,
        )[i]).ssid.len() > 0 by {
            if i < sub.len() {
                assert(scan_rows(lines)[i] == sub[i]);
            }
        }
    }
}

/// The networks of a scan listing are rows of the listing (so none is hidden),
/// each with an ssid that the listing has; every ssid of the listing is there,
/// with an entry that no row of that ssid beats; and they come in-use first,
/// then by signal from strongest.
pub proof fn lemma_scan_listing(out: Seq<char>)
    ensures
        ({
            let rows = scan_rows(text_lines(out));
            let r = scan_listing(out);
            &&& forall|i: int| 0 <= i < r.len() ==> rows.contains(#[trigger] r[i])
            &&& forall|i: int| 0 <= i < r.len() ==> (#[trigger] r[i]).ssid.len() > 0
            &&& forall|k: int|
                0 <= k < rows.len() ==> exists|i: int|
                    0 <= i < r.len() && r[i].ssid == (#[trigger] rows[k]).ssid && !beats(
                        rows[k],
                        r[i],
                    )
            &&& forall|a: int, b: int|
                0 <= a < b < r.len() ==> {
                    let x = #[trigger] r[a];
                    let y = #[trigger] r[b];
                    (x.in_use && !y.in_use) || (x.in_use == y.in_use && x.signal >= y.signal)
                }
        }),
{
    broadcast use vstd::seq_lib::group_to_multiset_ensures;

    let rows = scan_rows(text_lines(out));
    let d = dedup_rows(rows);
    let r = scan_listing(out);
    lemma_sorted_permutation(d);
    lemma_sorted_order(d);
    lemma_dedup_from_rows(rows);
    lemma_dedup_keeps_best(rows);
    lemma_scan_rows_named(text_lines(out));
    assert forall|i: int| 0 <= i < r.len() implies rows.contains(#[trigger] r[i]) by {
        assert(r.contains(r[i]));
        assert(r.to_multiset().count(r[i]) > 0);
        assert(d.to_multiset().count(r[i]) > 0);
        assert(d.contains(r[i]));
        let j = choose|j: int| 0 <= j < d.len() && d[j] == r[i];
        assert(rows.contains(d[j]));
    }
    assert forall|i: int| 0 <= i < r.len() implies (#[trigger] r[i]).ssid.len() > 0 by {
        assert(rows.contains(r[i]));
    }
    assert forall|k: int| 0 <= k < rows.len() implies exists|i: int|
        0 <= i < r.len() && r[i].ssid == (#[trigger] rows[k]).ssid && !beats(rows[k], r[i]) by {
        let p = ssid_position(d, rows[k].ssid);
        assert(d.contains(d[p]));
        assert(d.to_multiset().count(d[p]) > 0);
        assert(r.to_multiset().count(d[p]) > 0);
        assert(r.contains(d[p]));
        let i = choose|i: int| 0 <= i < r.len() && r[i] == d[p];
        assert(r[i].ssid == rows[k].ssid);
    }
}

/// Sorts networks in-use first, then by signal from strongest; networks that
/// agree on both keep their order.
pub fn sort_networks(nets: &Vec<Network>) -> (r: Vec<Network>)
    ensures
        network_views(r@) == sorted_networks(network_views(nets@)),
{
    let ghost s = network_views(nets@);
    let n: usize = nets.len();
    let mut out: Vec<Network> = Vec::new();
    let mut k: u32 = 512;
    while k > 0
        invariant
            k <= 512,
            n == s.len(),
            s == network_views(nets@),
            network_views(out@) == ranked(s, k as int),
        decreases k,
    {
        k = k - 1;
        let ghost before = network_views(out@);
        let mut m: usize = 0;
        assert(with_rank(s.subrange(0, 0), k as int) =~= Seq::<NetworkView>::empty());
        assert(before + Seq::<NetworkView>::empty() =~= before);
        while m < n
            invariant
                m <= n == s.len(),
                k < 512,
                s == network_views(nets@),
                before == ranked(s, k + 1),
                network_views(out@) == before + with_rank(s.subrange(0, m as int), k as int),
            decreases n - m,
        {
            let r: u32 = (if nets[m].in_use {
                256
            } else {
                0
            }) + nets[m].signal as u32;
            let ghost pre = s.subrange(0, m + 1);
            assert(pre.drop_last() =~= s.subrange(0, m as int));
            assert(pre.last() == s[m as int]);
            let ghost old_out = network_views(out@);
            if r == k {
                out.push(nets[m].duplicate());
                assert(network_views(out@) =~= old_out.push(s[m as int]));
                assert(before + with_rank(pre, k as int) =~= (before + with_rank(
                    s.subrange(0, m as int),
                    k as int,
                )).push(s[m as int]));
            }
            m = m + 1;
        }
        assert(s.subrange(0, n as int) =~= s);
    }
    out
}

/// The networks of a scan listing (the terse `IN-USE:SSID:SIGNAL:SECURITY`
/// lines): hidden networks and short rows dropped, one entry per ssid, sorted.
pub fn parse_network_list(stdout: &str) -> (r: Vec<Network>)
    ensures
        network_views(r@) == scan_listing(stdout@),
{
    let cs = chars_of(stdout);
    let lines = split_lines(cs.as_slice());
    let ghost ls = char_views(lines@);
    let mut rows: Vec<Network> = Vec::new();
    let mut i: usize = 0;
    while i < lines.len()
        invariant
            i <= lines@.len(),
            ls == char_views(lines@),
            ls == text_lines(stdout@),
            network_views(rows@) == scan_rows(ls.subrange(0, i as int)),
        decreases lines@.len() - i,
    {
        let fields = split_terse(lines[i].as_slice());
        let ghost pre = ls.subrange(0, i + 1);
        assert(pre.drop_last() =~= ls.subrange(0, i as int));
        assert(pre.last() == lines@[i as int]@);
        match network_from_fields(&fields) {
            Some(net) => {
                let ghost old_rows = network_views(rows@);
                rows.push(net);
                assert(network_views(rows@) =~= old_rows.push(net@));
            },
            None => {},
        }
        i = i + 1;
    }
    assert(ls.subrange(0, ls.len() as int) =~= ls);
    let unique = dedup_networks(&rows);
    sort_networks(&unique)
}

/// The friendly text for a failed command's diagnostic output.
pub open spec fn failure_text(stderr: Seq<char>) -> Seq<char> {
    friendly_text(trim_seq(stderr))
}

/// The friendly error for a failed command's diagnostic output, trimmed first.
pub fn failure_message(stderr: &str) -> (r: String)
    ensures
        r@ == failure_text(stderr@),
{
    let cs = chars_of(stderr);
    let t = string_of(trim(cs.as_slice()).as_slice());
    friendly_error(t.as_str())
}

/// The outcome of a network listing: its networks when the command succeeded,
/// else the friendly form of its diagnostic.
pub fn scan_result(success: bool, stdout: &str, stderr: &str) -> (r: Result<Vec<Network>, String>)
    ensures
        success ==> r is Ok && network_views(r->Ok_0@) == scan_listing(stdout@),
        !success ==> r is Err && r->Err_0@ == failure_text(stderr@),
{
    if success {
        Ok(parse_network_list(stdout))
    } else {
        Err(failure_message(stderr))
    }
}

proof fn lemma_with_rank_all(s: Seq<NetworkView>, k: int)
    ensures
        forall|i: int| 0 <= i < with_rank(s, k).len() ==> rank(#[trigger] with_rank(s, k)[i]) == k,
    decreases s.len(),
{
    if s.len() > 0 {
        lemma_with_rank_all(s.drop_last(), k);
        let sub = with_rank(s.drop_last(), k);
        assert forall|i: int| 0 <= i < with_rank(s, k).len() implies rank(
            #[trigger] with_rank(s, k)[i],
        ) == k by {
            if i < sub.len() {
                assert(with_rank(s, k)[i] == sub[i]);
            }
        }
    }
}

proof fn lemma_ranked_descending(s: Seq<NetworkView>, j: int)
    requires
        0 <= j <= 512,
    ensures
        forall|i: int| 0 <= i < ranked(s, j).len() ==> rank(#[trigger] ranked(s, j)[i]) >= j,
        forall|a: int, b: int|
            0 <= a < b < ranked(s, j).len() ==> rank(#[trigger] ranked(s, j)[a]) >= rank(
                #[trigger] ranked(s, j)[b],
            ),
    decreases 512 - j,
{
    if j < 512 {
        lemma_ranked_descending(s, j + 1);
        lemma_with_rank_all(s, j);
        let hi = ranked(s, j + 1);
        let lo = with_rank(s, j);
        let r = ranked(s, j);
        assert(r == hi + lo);
        assert forall|i: int| 0 <= i < r.len() implies rank(#[trigger] r[i]) >= j by {
            if i < hi.len() {
                assert(r[i] == hi[i]);
            } else {
                assert(r[i] == lo[i - hi.len()]);
            }
        }
        assert forall|a: int, b: int| 0 <= a < b < r.len() implies rank(#[trigger] r[a]) >= rank(
            #[trigger] r[b],
        ) by {
            if b < hi.len() {
                assert(r[a] == hi[a] && r[b] == hi[b]);
            } else if a >= hi.len() {
                assert(r[a] == lo[a - hi.len()] && r[b] == lo[b - hi.len()]);
            } else {
                assert(r[a] == hi[a] && r[b] == lo[b - hi.len()]);
            }
        }
    }
}

/// The sorted list puts in-use networks first and, among networks that agree on
/// being in use, stronger signals first, whatever the order of the input.
pub proof fn lemma_sorted_order(s: Seq<NetworkView>)
    ensures
        forall|a: int, b: int|
            0 <= a < b < sorted_networks(s).len() ==> {
                let x = #[trigger] sorted_networks(s)[a];
                let y = #[trigger] sorted_networks(s)[b];
                (x.in_use && !y.in_use) || (x.in_use == y.in_use && x.signal >= y.signal)
            },
{
    lemma_ranked_descending(s, 0);
}

/// Of two rows with one ssid, the one that survives is the in-use one if just
/// one of them is in use, and otherwise the one with the stronger signal (the
/// first on a tie).
pub proof fn lemma_dedup_pair(a: NetworkView, b: NetworkView)
    requires
        a.ssid == b.ssid,
    ensures
        dedup_rows(seq![a, b]) == seq![
            if a.in_use != b.in_use {
                if a.in_use {
                    a
                } else {
                    b
                }
            } else if b.signal > a.signal {
                b
            } else {
                a
            },
        ],
{
    let s = seq![a, b];
    assert(s.drop_last() =~= seq![a]);
    assert(seq![a].drop_last() =~= Seq::<NetworkView>::empty());
    assert(dedup_rows(Seq::<NetworkView>::empty()) == Seq::<NetworkView>::empty());
    assert(!has_ssid(Seq::<NetworkView>::empty(), a.ssid));
    assert(Seq::<NetworkView>::empty().push(a) =~= seq![a]);
    assert(dedup_rows(seq![a]) =~= seq![a]);
    assert(seq![a][0].ssid == b.ssid);
    assert(has_ssid(seq![a], b.ssid));
    assert(ssid_position(seq![a], b.ssid) == 0);
    assert(seq![a].update(0, b) =~= seq![b]);
}

/// The first device listed with type `wifi`.
pub open spec fn wifi_device_in(lines: Seq<Seq<char>>) -> Option<Seq<char>>
    decreases lines.len(),
{
    if lines.len() == 0 {
        None
    } else {
        let f = terse_fields(lines[0]);
        if f.len() >= 2 && f[1] == "wifi"@ {
            Some(f[0])
        } else {
            wifi_device_in(lines.drop_first())
        }
    }
}

/// Finds the wireless device in a terse `DEVICE:TYPE` listing.
pub fn find_wifi_device(stdout: &str) -> (r: Result<String, String>)
    ensures
        match wifi_device_in(text_lines(stdout@)) {
            Some(d) => r is Ok && r->Ok_0@ == d,
            None => r is Err && r->Err_0@ == "No WiFi adapter found. Make sure your WiFi hardware is enabled."@,
        },
{
    let cs = chars_of(stdout);
    let lines = split_lines(cs.as_slice());
    let ghost ls = char_views(lines@);
    let n: usize = lines.len();
    let mut i: usize = 0;
    assert(ls.subrange(0, n as int) =~= ls);
    while i < n
        invariant
            i <= n == ls.len(),
            ls == char_views(lines@),
            ls == text_lines(stdout@),
            wifi_device_in(ls) == wifi_device_in(ls.subrange(i as int, n as int)),
        decreases n - i,
    {
        let ghost rest = ls.subrange(i as int, n as int);
        assert(rest.drop_first() =~= ls.subrange(i + 1, n as int));
        assert(rest[0] == lines@[i as int]@);
        let f = split_terse(lines[i].as_slice());
        if f.len() >= 2 && equals_str(f[1].as_slice(), "wifi") {
            return Ok(string_of(f[0].as_slice()));
        }
        i = i + 1;
    }
    Err("No WiFi adapter found. Make sure your WiFi hardware is enabled.".to_owned())
}

pub open spec fn saved_view(s: SavedNetwork) -> (Seq<char>, bool) {
    (s.name@, s.active)
}

pub open spec fn saved_views(v: Seq<SavedNetwork>) -> Seq<(Seq<char>, bool)> {
    v.map_values(|s: SavedNetwork| saved_view(s))
}

/// The profile a `NAME:TYPE:ACTIVE` row describes: wireless ones only.
pub open spec fn saved_row(f: Seq<Seq<char>>) -> Option<(Seq<char>, bool)> {
    if f.len() >= 3 && contains_seq(f[1], "wireless"@) {
        Some((f[0], f[2] == "yes"@))
    } else {
        None
    }
}

/// The wireless profiles of a profile listing, in order.
pub open spec fn saved_rows(lines: Seq<Seq<char>>) -> Seq<(Seq<char>, bool)>
    decreases lines.len(),
{
    if lines.len() == 0 {
        Seq::empty()
    } else {
        let r = saved_rows(lines.drop_last());
        match saved_row(terse_fields(lines.last())) {
            Some(x) => r.push(x),
            None => r,
        }
    }
}

/// The wireless profiles of a terse `NAME:TYPE:ACTIVE` listing.
pub fn parse_saved_list(stdout: &str) -> (r: Vec<SavedNetwork>)
    ensures
        saved_views(r@) == saved_rows(text_lines(stdout@)),
{
    let cs = chars_of(stdout);
    let lines = split_lines(cs.as_slice());
    let ghost ls = char_views(lines@);
    let mut out: Vec<SavedNetwork> = Vec::new();
    let mut i: usize = 0;
    while i < lines.len()
        invariant
            i <= lines@.len(),
            ls == char_views(lines@),
            saved_views(out@) == saved_rows(ls.subrange(0, i as int)),
        decreases lines@.len() - i,
    {
        let f = split_terse(lines[i].as_slice());
        let ghost pre = ls.subrange(0, i + 1);
        assert(pre.drop_last() =~= ls.subrange(0, i as int));
        assert(pre.last() == lines@[i as int]@);
        if f.len() >= 3 && contains_str(f[1].as_slice(), "wireless") {
            let ghost old_out = saved_views(out@);
            let active = equals_str(f[2].as_slice(), "yes");
            out.push(SavedNetwork { name: string_of(f[0].as_slice()), active });
            assert(saved_views(out@) =~= old_out.push((f@[0]@, active)));
        }
        i = i + 1;
    }
    assert(ls.subrange(0, ls.len() as int) =~= ls);
    out
}

/// The outcome of a profile listing: its wireless profiles when the command
/// succeeded, else the friendly form of its diagnostic.
pub fn saved_result(success: bool, stdout: &str, stderr: &str) -> (r: Result<
    Vec<SavedNetwork>,
    String,
>)
    ensures
        success ==> r is Ok && saved_views(r->Ok_0@) == saved_rows(text_lines(stdout@)),
        !success ==> r is Err && r->Err_0@ == failure_text(stderr@),
{
    if success {
        Ok(parse_saved_list(stdout))
    } else {
        Err(failure_message(stderr))
    }
}

/// The ssid and signal of the first in-use row of a terse `IN-USE:SSID:SIGNAL`
/// listing.
pub open spec fn in_use_entry(lines: Seq<Seq<char>>) -> Option<(Seq<char>, Option<u8>)>
    decreases lines.len(),
{
    if lines.len() == 0 {
        None
    } else {
        let f = terse_fields(lines[0]);
        if f.len() >= 3 && trim_seq(f[0]) == seq!['*'] && f[1].len() > 0 {
            Some((f[1], parse_u8_spec(f[2])))
        } else {
            in_use_entry(lines.drop_first())
        }
    }
}

pub open spec fn opt_view(o: Option<String>) -> Option<Seq<char>> {
    match o {
        Some(s) => Some(s@),
        None => None,
    }
}

/// The connection status that a network listing shows: the in-use network's
/// ssid and signal, or nothing when no network is in use.
pub fn current_network(stdout: &str) -> (r: ConnectionStatus)
    ensures
        match in_use_entry(text_lines(stdout@)) {
            Some(e) => opt_view(r.ssid) == Some(e.0) && r.signal == e.1,
            None => r.ssid is None && r.signal is None,
        },
        r.ip is None,
        r.speed is None,
{
    let cs = chars_of(stdout);
    let lines = split_lines(cs.as_slice());
    let ghost ls = char_views(lines@);
    let n: usize = lines.len();
    let mut i: usize = 0;
    assert(ls.subrange(0, n as int) =~= ls);
    while i < n
        invariant
            i <= n == ls.len(),
            ls == char_views(lines@),
            ls == text_lines(stdout@),
            in_use_entry(ls) == in_use_entry(ls.subrange(i as int, n as int)),
        decreases n - i,
    {
        let ghost rest = ls.subrange(i as int, n as int);
        assert(rest.drop_first() =~= ls.subrange(i + 1, n as int));
        assert(rest[0] == lines@[i as int]@);
        let f = split_terse(lines[i].as_slice());
        if f.len() >= 3 && f[1].len() > 0 {
            let flag = trim(f[0].as_slice());
            if flag.len() == 1 && flag[0] == '*' {
                assert(flag@ =~= seq!['*']);
                return ConnectionStatus {
                    ssid: Some(string_of(f[1].as_slice())),
                    signal: parse_u8(f[2].as_slice()),
                    ip: None,
                    speed: None,
                };
            }
            assert(flag@ != seq!['*']) by {
                if flag@ == seq!['*'] {
                    assert(flag@.len() == 1);
                }
            }
        }
        i = i + 1;
    }
    ConnectionStatus { ssid: None, signal: None, ip: None, speed: None }
}

/// The first IPv4 address of a terse `IP4.ADDRESS` listing, without its prefix
/// length.
pub open spec fn address_in(lines: Seq<Seq<char>>) -> Option<Seq<char>>
    decreases lines.len(),
{
    if lines.len() == 0 {
        None
    } else {
        let f = terse_fields(lines[0]);
        if f.len() >= 2 && starts_with_seq(f[0], "IP4.ADDRESS"@) {
            Some(before_char(f[1], '/'))
        } else {
            address_in(lines.drop_first())
        }
    }
}

/// Reads the interface address from a device listing.
pub fn address_from_show(stdout: &str) -> (r: Option<String>)
    ensures
        opt_view(r) == address_in(text_lines(stdout@)),
{
    let cs = chars_of(stdout);
    let lines = split_lines(cs.as_slice());
    let ghost ls = char_views(lines@);
    let n: usize = lines.len();
    let mut i: usize = 0;
    assert(ls.subrange(0, n as int) =~= ls);
    while i < n
        invariant
            i <= n == ls.len(),
            ls == char_views(lines@),
            ls == text_lines(stdout@),
            address_in(ls) == address_in(ls.subrange(i as int, n as int)),
        decreases n - i,
    {
        let ghost rest = ls.subrange(i as int, n as int);
        assert(rest.drop_first() =~= ls.subrange(i + 1, n as int));
        assert(rest[0] == lines@[i as int]@);
        let f = split_terse(lines[i].as_slice());
        if f.len() >= 2 && starts_with_str(f[0].as_slice(), "IP4.ADDRESS") {
            return Some(string_of(prefix_before(f[1].as_slice(), '/').as_slice()));
        }
        i = i + 1;
    }
    None
}

/// The transmit rate of the first `tx bitrate:` line: its first two words.
pub open spec fn speed_in(lines: Seq<Seq<char>>) -> Option<Seq<char>>
    decreases lines.len(),
{
    if lines.len() == 0 {
        None
    } else {
        let t = trim_seq(lines[0]);
        if starts_with_seq(t, "tx bitrate:"@) {
            Some(first_two_words(strip_repeated_prefix(t, "tx bitrate:"@)))
        } else {
            speed_in(lines.drop_first())
        }
    }
}

/// Reads the negotiated transmit rate from the link-statistics utility's output.
pub fn speed_from_link(stdout: &str) -> (r: Option<String>)
    ensures
        opt_view(r) == speed_in(text_lines(stdout@)),
{
    let cs = chars_of(stdout);
    let lines = split_lines(cs.as_slice());
    let ghost ls = char_views(lines@);
    let n: usize = lines.len();
    let mut i: usize = 0;
    assert(ls.subrange(0, n as int) =~= ls);
    while i < n
        invariant
            i <= n == ls.len(),
            ls == char_views(lines@),
            ls == text_lines(stdout@),
            speed_in(ls) == speed_in(ls.subrange(i as int, n as int)),
        decreases n - i,
    {
        let ghost rest = ls.subrange(i as int, n as int);
        assert(rest.drop_first() =~= ls.subrange(i + 1, n as int));
        assert(rest[0] == lines@[i as int]@);
        let t = trim(lines[i].as_slice());
        if starts_with_str(t.as_slice(), "tx bitrate:") {
            let after = strip_prefix_repeatedly(t.as_slice(), "tx bitrate:");
            return Some(string_of(two_words(after.as_slice()).as_slice()));
        }
        i = i + 1;
    }
    None
}

/// The arguments of a join: a password that is present and not empty joins a
/// secured network, an empty one an open network, and none brings up the saved
/// profile of that name.
pub open spec fn connect_args_spec(name: Seq<char>, password: Option<Seq<char>>) -> Seq<Seq<char>> {
    match password {
        Some(pw) => if pw.len() > 0 {
            seq!["device"@, "wifi"@, "connect"@, name, "password"@, pw]
        } else {
            seq!["device"@, "wifi"@, "connect"@, name]
        },
        None => seq!["connection"@, "up"@, name],
    }
}

/// The control utility's arguments for joining `name`.
pub fn connect_args(name: &str, password: Option<&str>) -> (r: Vec<String>)
    ensures
        string_views(r@) == connect_args_spec(
            name@,
            match password {
                Some(p) => Some(p@),
                None => None,
            },
        ),
{
    let mut v: Vec<String> = Vec::new();
    match password {
        Some(pw) => {
            v.push("device".to_owned());
            v.push("wifi".to_owned());
            v.push("connect".to_owned());
            v.push(name.to_owned());
            if pw.unicode_len() > 0 {
                v.push("password".to_owned());
                v.push(pw.to_owned());
            }
        },
        None => {
            v.push("connection".to_owned());
            v.push("up".to_owned());
            v.push(name.to_owned());
        },
    }
    assert(string_views(v@) =~= connect_args_spec(
        name@,
        match password {
            Some(p) => Some(p@),
            None => None,
        },
    ));
    v
}

/// `a` followed by the characters of `b`.
fn joined(a: &str, b: &str) -> (r: Vec<char>)
    ensures
        r@ == a@ + b@,
{
    let mut x = chars_of(a);
    let mut y = chars_of(b);
    x.append(&mut y);
    x
}

/// The outcome of a join: `Connected to <name>` on success, else the friendly
/// form of the diagnostic.
pub fn connect_result(name: &str, success: bool, stderr: &str) -> (r: Result<String, String>)
    ensures
        success ==> r is Ok && r->Ok_0@ == "Connected to "@ + name@,
        !success ==> r is Err && r->Err_0@ == failure_text(stderr@),
{
    if success {
        Ok(string_of(joined("Connected to ", name).as_slice()))
    } else {
        Err(failure_message(stderr))
    }
}

/// The outcome of a disconnect.
pub fn disconnect_result(success: bool, stderr: &str) -> (r: Result<String, String>)
    ensures
        success ==> r is Ok && r->Ok_0@ == "Disconnected."@,
        !success ==> r is Err && r->Err_0@ == failure_text(stderr@),
{
    if success {
        Ok("Disconnected.".to_owned())
    } else {
        Err(failure_message(stderr))
    }
}

/// The outcome of deleting a profile: `Forgot network '<name>'.` on success.
pub fn forget_result(name: &str, success: bool, stderr: &str) -> (r: Result<String, String>)
    ensures
        success ==> r is Ok && r->Ok_0@ == "Forgot network '"@ + name@ + "'."@,
        !success ==> r is Err && r->Err_0@ == failure_text(stderr@),
{
    if success {
        let mut x = joined("Forgot network '", name);
        let mut y = chars_of("'.");
        x.append(&mut y);
        Ok(string_of(x.as_slice()))
    } else {
        Err(failure_message(stderr))
    }
}

/// The friendly categories a raw diagnostic falls into.
#[derive(Clone, Copy, Debug, PartialEq, Eq)]
pub enum ErrorCategory {
    NetworkNotFound,
    PasswordRequired,
    NoAdapter,
    ServiceDown,
    SavedNotFound,
    IncorrectPassword,
    PermissionDenied,
    Unknown,
    /// Text that matches no known diagnostic; it is shown as it is.
    Unrecognized,
}

/// The category of a raw diagnostic: the first rule that matches, in order.
pub open spec fn category_of(m: Seq<char>) -> ErrorCategory {
    if contains_seq(m, "No network with SSID"@) {
        ErrorCategory::NetworkNotFound
    } else if contains_seq(m, "Secrets were required, but not provided"@) {
        ErrorCategory::PasswordRequired
    } else if contains_seq(m, "No suitable device found"@) {
        ErrorCategory::NoAdapter
    } else if contains_seq(m, "is not running"@) {
        ErrorCategory::ServiceDown
    } else if contains_seq(m, "Error: Connection"@) && contains_seq(m, "not found"@) {
        ErrorCategory::SavedNotFound
    } else if contains_seq(m, "Passwords or encryption keys are required"@) {
        ErrorCategory::IncorrectPassword
    } else if contains_seq(m, "permission"@) || contains_seq(m, "not authorized"@) {
        ErrorCategory::PermissionDenied
    } else if m.len() == 0 {
        ErrorCategory::Unknown
    } else {
        ErrorCategory::Unrecognized
    }
}

/// The text shown for a category; unrecognized text is shown as it is.
pub open spec fn category_text(c: ErrorCategory, m: Seq<char>) -> Seq<char> {
    match c {
        ErrorCategory::NetworkNotFound => "Network not found. It may be out of range or hidden."@,
        ErrorCategory::PasswordRequired => "Password required. This network needs a password to connect."@,
        ErrorCategory::NoAdapter => "No WiFi adapter found. Make sure your WiFi hardware is enabled."@,
        ErrorCategory::ServiceDown => "NetworkManager is not running. Start it with: sudo systemctl start NetworkManager"@,
        ErrorCategory::SavedNotFound => "Saved connection not found. It may have already been removed."@,
        ErrorCategory::IncorrectPassword => "Incorrect password. Please try again."@,
        ErrorCategory::PermissionDenied => "Permission denied. You may need to run with appropriate privileges."@,
        ErrorCategory::Unknown => "An unknown error occurred."@,
        ErrorCategory::Unrecognized => m,
    }
}

/// The friendly text for a raw diagnostic.
pub open spec fn friendly_text(m: Seq<char>) -> Seq<char> {
    category_text(category_of(m), m)
}

/// Turns a raw diagnostic of the control utility into friendly text.
pub fn friendly_error(msg: &str) -> (r: String)
    ensures
        r@ == friendly_text(msg@),
{
    let m = chars_of(msg);
    let s = m.as_slice();
    if contains_str(s, "No network with SSID") {
        "Network not found. It may be out of range or hidden.".to_owned()
    } else if contains_str(s, "Secrets were required, but not provided") {
        "Password required. This network needs a password to connect.".to_owned()
    } else if contains_str(s, "No suitable device found") {
        "No WiFi adapter found. Make sure your WiFi hardware is enabled.".to_owned()
    } else if contains_str(s, "is not running") {
        "NetworkManager is not running. Start it with: sudo systemctl start NetworkManager".to_owned()
    } else if contains_str(s, "Error: Connection") && contains_str(s, "not found") {
        "Saved connection not found. It may have already been removed.".to_owned()
    } else if contains_str(s, "Passwords or encryption keys are required") {
        "Incorrect password. Please try again.".to_owned()
    } else if contains_str(s, "permission") || contains_str(s, "not authorized") {
        "Permission denied. You may need to run with appropriate privileges.".to_owned()
    } else if m.len() == 0 {
        "An unknown error occurred.".to_owned()
    } else {
        msg.to_owned()
    }
}

/// The friendly texts that ask for a password.
pub open spec fn asks_for_password(m: Seq<char>) -> bool {
    contains_seq(m, "Password required"@) || contains_seq(m, "Incorrect password"@)
}

/// Whether a (friendly) error text says that a password is needed to connect.
pub fn error_needs_password(msg: &str) -> (r: bool)
    ensures
        r == asks_for_password(msg@),
{
    let m = chars_of(msg);
    contains_str(m.as_slice(), "Password required") || contains_str(
        m.as_slice(),
        "Incorrect password",
    )
}

/// Each known category has a text of its own, so a diagnostic maps to exactly
/// one friendly category; text that matches no rule is passed on unchanged, and
/// empty text becomes the generic unknown-error message.
pub proof fn lemma_error_categories(m: Seq<char>, c1: ErrorCategory, c2: ErrorCategory)
    requires
        c1 != ErrorCategory::Unrecognized,
        c2 != ErrorCategory::Unrecognized,
        c1 != c2,
    ensures
        category_text(c1, m) != category_text(c2, m),
        friendly_text(m) == category_text(category_of(m), m),
        category_of(m) == ErrorCategory::Unrecognized ==> friendly_text(m) == m,
        m.len() == 0 ==> friendly_text(m) == "An unknown error occurred."@,
{
    reveal_strlit("Network not found. It may be out of range or hidden.");
    reveal_strlit("Password required. This network needs a password to connect.");
    reveal_strlit("No WiFi adapter found. Make sure your WiFi hardware is enabled.");
    reveal_strlit(
        "NetworkManager is not running. Start it with: sudo systemctl start NetworkManager",
    );
    reveal_strlit("Saved connection not found. It may have already been removed.");
    reveal_strlit("Incorrect password. Please try again.");
    reveal_strlit("Permission denied. You may need to run with appropriate privileges.");
    reveal_strlit("An unknown error occurred.");
    assert("Network not found. It may be out of range or hidden."@.len() == 52);
    assert("Password required. This network needs a password to connect."@.len() == 60);
    assert("No WiFi adapter found. Make sure your WiFi hardware is enabled."@.len() == 63);
    assert("NetworkManager is not running. Start it with: sudo systemctl start NetworkManager"@.len() == 81);
    assert("Saved connection not found. It may have already been removed."@.len() == 61);
    assert("Incorrect password. Please try again."@.len() == 37);
    assert("Permission denied. You may need to run with appropriate privileges."@.len() == 67);
    assert("An unknown error occurred."@.len() == 26);
    if m.len() == 0 {
        reveal_strlit("No network with SSID");
        reveal_strlit("Secrets were required, but not provided");
        reveal_strlit("No suitable device found");
        reveal_strlit("is not running");
        reveal_strlit("Error: Connection");
        reveal_strlit("Passwords or encryption keys are required");
        reveal_strlit("permission");
        reveal_strlit("not authorized");
        lemma_not_in_empty(m, "No network with SSID"@);
        lemma_not_in_empty(m, "Secrets were required, but not provided"@);
        lemma_not_in_empty(m, "No suitable device found"@);
        lemma_not_in_empty(m, "is not running"@);
        lemma_not_in_empty(m, "Error: Connection"@);
        lemma_not_in_empty(m, "Passwords or encryption keys are required"@);
        lemma_not_in_empty(m, "permission"@);
        lemma_not_in_empty(m, "not authorized"@);
    }
}

/// A diagnostic classified as "password required" or "incorrect password"
/// yields a friendly text that the password-needed predicate flags.
pub proof fn lemma_password_categories_flagged(m: Seq<char>)
    requires
        category_of(m) == ErrorCategory::PasswordRequired || category_of(m)
            == ErrorCategory::IncorrectPassword,
    ensures
        asks_for_password(friendly_text(m)),
{
    reveal_strlit("Password required. This network needs a password to connect.");
    reveal_strlit("Incorrect password. Please try again.");
    reveal_strlit("Password required");
    reveal_strlit("Incorrect password");
    let t = friendly_text(m);
    if category_of(m) == ErrorCategory::PasswordRequired {
        assert(t.subrange(0, 17) =~= "Password required"@);
        assert(occurs_at(t, "Password required"@, 0));
    } else {
        assert(t.subrange(0, 18) =~= "Incorrect password"@);
        assert(occurs_at(t, "Incorrect password"@, 0));
    }
}

proof fn lemma_not_in_empty(m: Seq<char>, p: Seq<char>)
    requires
        m.len() == 0,
        p.len() > 0,
    ensures
        !contains_seq(m, p),
{
}

} // verus!
