//! Building the peer table from a comma-separated list of peer urls, and
//! reading the wall clock.
//!
//! A peer's numeric id is derived from its url: the digits of the host
//! segment, the part between the first `://` and the next `:`. A host
//! without digits, or whose digits overflow, falls back to id 0 — a
//! collision-prone scheme kept for compatibility with existing
//! configurations.
use crate::membership::{Health, Peer, PeerModel};
use crate::text::{
    lemma_split_on_first, lemma_split_on_whole, split_on, split_str, trim_str, trimmed,
};
use vstd::arithmetic::div_mod::lemma_fundamental_div_mod;
use vstd::prelude::*;

verus! {

/// Relies on `std::time::SystemTime::now` and `duration_since`: whole
/// seconds since the Unix epoch, or 0 should the system clock read earlier
/// than the epoch. Nothing can be promised of the value.
#[verifier::external_body]
pub fn get_unix_epoch_seconds() -> u64 {
    std::time::SystemTime::now().duration_since(std::time::UNIX_EPOCH).map(
        |d: std::time::Duration| d.as_secs(),
    ).unwrap_or(0)
}

/// An ASCII decimal digit.
pub open spec fn is_digit_char(c: char) -> bool {
    48 <= c as u32 && c as u32 <= 57
}

/// The numeric value of one digit.
pub open spec fn digit_val(c: char) -> int {
    c as u32 - 48
}

/// The digits of `s`, in order, everything else dropped.
pub open spec fn digit_seq(s: Seq<char>) -> Seq<char> {
    s.filter_map(
        |c: char|
            if is_digit_char(c) {
                Some(c)
            } else {
                None
            },
    )
}

/// The number a digit string denotes, most significant digit first.
pub open spec fn digits_value(s: Seq<char>) -> int
    decreases s.len(),
{
    if s.len() == 0 {
        0
    } else {
        digits_value(s.drop_last()) * 10 + digit_val(s.last())
    }
}

/// What `str::parse::<usize>` makes of a digit string, with failure mapped
/// to 0: an empty string and a value beyond `usize` both fall back to 0.
pub open spec fn parsed_id(ds: Seq<char>) -> usize {
    if ds.len() == 0 {
        0
    } else if digits_value(ds) > usize::MAX {
        0
    } else {
        digits_value(ds) as usize
    }
}

proof fn lemma_digits_push(ds: Seq<char>, c: char)
    ensures
        digits_value(ds + seq![c]) == digits_value(ds) * 10 + digit_val(c),
{
    assert((ds + seq![c]).last() == c);
    assert((ds + seq![c]).drop_last() =~= ds);
}

proof fn lemma_acc_fits(acc: int, d: int)
    requires
        0 <= acc,
        0 <= d <= 9,
        acc <= (usize::MAX - d) / 10,
    ensures
        acc * 10 + d <= usize::MAX,
{
    let m = usize::MAX - d;
    lemma_fundamental_div_mod(m, 10);
    assert(acc * 10 <= (m / 10) * 10) by (nonlinear_arith)
        requires
            acc <= m / 10,
    ;
    assert((m / 10) * 10 <= m);
}

proof fn lemma_acc_over(acc: int, d: int)
    requires
        0 <= d <= 9,
        acc > (usize::MAX - d) / 10,
    ensures
        acc * 10 + d > usize::MAX,
{
    let m = usize::MAX - d;
    lemma_fundamental_div_mod(m, 10);
    assert((m / 10) * 10 + 10 <= acc * 10) by (nonlinear_arith)
        requires
            m / 10 + 1 <= acc,
    ;
    assert(m % 10 < 10);
}

proof fn lemma_over_stays(v: int, d: int)
    requires
        v > usize::MAX,
        0 <= d,
    ensures
        v * 10 + d > usize::MAX,
{
    assert(v <= v * 10) by (nonlinear_arith)
        requires
            0 <= v,
    ;
}

/// The id the digits of `host` denote: what `parse::<usize>` with a
/// fallback of 0 gives on them.
#[verifier::loop_isolation(false)]
fn digits_id(host: &str) -> (id: usize)
    ensures
        id == parsed_id(digit_seq(host@)),
{
    let ghost pick = |c: char|
        if is_digit_char(c) {
            Some(c)
        } else {
            None
        };
    let n = host.unicode_len();
    let mut acc: usize = 0;
    let mut over: bool = false;
    let mut any: bool = false;
    let mut i: usize = 0;
    proof {
        assert(host@.take(0) =~= Seq::<char>::empty());
        assert(host@.take(0).filter_map(pick) =~= Seq::<char>::empty());
    }
    while i < n
        invariant
            i <= n,
            n == host@.len(),
            any == (host@.take(i as int).filter_map(pick).len() > 0),
            0 <= digits_value(host@.take(i as int).filter_map(pick)),
            over ==> digits_value(host@.take(i as int).filter_map(pick)) > usize::MAX,
            !over ==> acc == digits_value(host@.take(i as int).filter_map(pick)),
        decreases n - i,
    {
        proof {
            Seq::lemma_filter_map_take_succ(host@, pick, i as int);
        }
        let ghost ds = host@.take(i as int).filter_map(pick);
        let c = host.get_char(i);
        let u = c as u32;
        if 48 <= u && u <= 57 {
            proof {
                assert(host@.take(i as int + 1).filter_map(pick) =~= ds + seq![c]);
                lemma_digits_push(ds, c);
            }
            let d = (u - 48) as usize;
            any = true;
            if !over {
                if acc > (usize::MAX - d) / 10 {
                    over = true;
                    proof {
                        lemma_acc_over(acc as int, d as int);
                    }
                } else {
                    proof {
                        lemma_acc_fits(acc as int, d as int);
                    }
                    acc = acc * 10 + d;
                }
            } else {
                proof {
                    lemma_over_stays(digits_value(ds), d as int);
                }
            }
        } else {
            proof {
                assert(host@.take(i as int + 1).filter_map(pick) =~= ds);
            }
        }
        i += 1;
    }
    proof {
        assert(host@.take(n as int) =~= host@);
    }
    if any && !over {
        acc
    } else {
        0
    }
}

/// `://` starts at position `i` of `s`.
pub open spec fn sep_at(s: Seq<char>, i: int) -> bool {
    &&& 0 <= i
    &&& i + 3 <= s.len()
    &&& s[i] == ':'
    &&& s[i + 1] == '/'
    &&& s[i + 2] == '/'
}

/// The position of the first `://` at or after `i`, if any.
pub open spec fn sep_from(s: Seq<char>, i: int) -> Option<int>
    decreases s.len() - i,
{
    if i < 0 || i + 3 > s.len() {
        None
    } else if sep_at(s, i) {
        Some(i)
    } else {
        sep_from(s, i + 1)
    }
}

/// The host segment of a url: the part between the first `://` and the next
/// `:` (or the end); `None` when the url has no `://` at all.
pub open spec fn host_of(url: Seq<char>) -> Option<Seq<char>> {
    match sep_from(url, 0) {
        Some(i) => Some(split_on(url.skip(i + 3), ':')[0]),
        None => None,
    }
}

/// Finds the first `://` of `s`.
#[verifier::loop_isolation(false)]
fn find_sep(s: &str) -> (r: Option<usize>)
    ensures
        match r {
            Some(i) => sep_from(s@, 0) == Some(i as int),
            None => sep_from(s@, 0) is None,
        },
{
    let n = s.unicode_len();
    if n < 3 {
        return None;
    }
    let mut i: usize = 0;
    while i <= n - 3
        invariant
            i <= n - 2,
            3 <= n == s@.len(),
            sep_from(s@, 0) == sep_from(s@, i as int),
        decreases n - i,
    {
        if s.get_char(i) == ':' && s.get_char(i + 1) == '/' && s.get_char(i + 2) == '/' {
            return Some(i);
        }
        i += 1;
    }
    None
}

/// One entry of the peer list: the segment trimmed of whitespace; dropped
/// when empty or without `://`; otherwise a peer reachable at the trimmed
/// url, with the id its host digits denote, seen `now`, optimistically
/// alive.
pub open spec fn peer_of_segment(seg: Seq<char>, now: u64) -> Option<PeerModel> {
    let url = trimmed(seg);
    if url.len() == 0 {
        None
    } else {
        match host_of(url) {
            Some(host) => Some(
                PeerModel {
                    node_id: parsed_id(digit_seq(host)),
                    url: url,
                    last_seen: now,
                    health: Health::Alive,
                },
            ),
            None => None,
        }
    }
}

/// The peer table a configuration string describes, every peer stamped with
/// the same time `now`.
pub open spec fn peers_of(s: Seq<char>, now: u64) -> Seq<PeerModel> {
    split_on(s, ',').filter_map(|seg: Seq<char>| peer_of_segment(seg, now))
}

/// Reads one comma-separated entry of the peer list.
#[verifier::loop_isolation(false)]
fn parse_peer_segment(seg: &str, now: u64) -> (r: Option<Peer>)
    ensures
        match r {
            Some(p) => peer_of_segment(seg@, now) == Some(p@),
            None => peer_of_segment(seg@, now) is None,
        },
{
    let url = trim_str(seg);
    let n = url.as_str().unicode_len();
    if n == 0 {
        return None;
    }
    match find_sep(url.as_str()) {
        None => None,
        Some(i) => {
            proof {
                lemma_sep_bounds(url@, 0);
            }
            let mut j: usize = i + 3;
            while j < n && url.as_str().get_char(j) != ':'
                invariant
                    i + 3 <= j <= n,
                    n == url@.len(),
                    forall|k: int| i + 3 <= k < j ==> url@[k] != ':',
                decreases n - j,
            {
                j += 1;
            }
            let host = url.as_str().substring_char(i + 3, j).to_owned();
            proof {
                let rest = url@.skip(i as int + 3);
                let t = url@.subrange(i as int + 3, j as int);
                assert(host@ == t);
                if j < n {
                    let u = url@.skip(j as int + 1);
                    assert(rest =~= t + seq![':'] + u);
                    lemma_split_on_first(t, u, ':');
                } else {
                    assert(rest =~= t);
                    lemma_split_on_whole(t, ':');
                }
                assert(split_on(rest, ':')[0] == t);
            }
            let node_id = digits_id(host.as_str());
            Some(Peer { node_id, url, last_seen: now, health: Health::Alive })
        },
    }
}

/// A `://` found by `sep_from` lies within bounds.
proof fn lemma_sep_bounds(s: Seq<char>, i: int)
    ensures
        match sep_from(s, i) {
            Some(k) => i <= k && sep_at(s, k),
            None => true,
        },
    decreases s.len() - i,
{
    if i < 0 || i + 3 > s.len() {
    } else if sep_at(s, i) {
    } else {
        lemma_sep_bounds(s, i + 1);
    }
}

/// Builds the peer table from the comma-separated peer list, stamping every
/// peer with the time `now`.
#[verifier::loop_isolation(false)]
pub fn parse_peer_urls_at(peer_urls_str: &str, now: u64) -> (peers: Vec<Peer>)
    ensures
        peers.deep_view() == peers_of(peer_urls_str@, now),
{
    let ghost pick = |seg: Seq<char>| peer_of_segment(seg, now);
    let segments = split_str(peer_urls_str, ',');
    let ghost segs = segments.deep_view();
    let mut peers: Vec<Peer> = Vec::new();
    let n = segments.len();
    let mut i: usize = 0;
    proof {
        assert(segs.take(0) =~= Seq::<Seq<char>>::empty());
        assert(segs.take(0).filter_map(pick) =~= Seq::<PeerModel>::empty());
        assert(peers.deep_view() =~= Seq::<PeerModel>::empty());
    }
    while i < n
        invariant
            i <= n,
            n == segments@.len(),
            n == segs.len(),
            segs == segments.deep_view(),
            peers.deep_view() == segs.take(i as int).filter_map(pick),
        decreases n - i,
    {
        proof {
            Seq::lemma_filter_map_take_succ(segs, pick, i as int);
            assert(segments@[i as int]@ == segs[i as int]);
        }
        let ghost pre = peers.deep_view();
        match parse_peer_segment(segments[i].as_str(), now) {
            Some(p) => {
                peers.push(p);
                proof {
                    assert(peers.deep_view() =~= pre + seq![pick(segs[i as int])->Some_0]);
                }
            },
            None => {
                proof {
                    assert(segs.take(i as int + 1).filter_map(pick) =~= pre);
                }
            },
        }
        i += 1;
    }
    proof {
        assert(segs.take(n as int) =~= segs);
    }
    peers
}

/// Builds the peer table from the comma-separated peer list, every peer
/// stamped with the current wall-clock time.
pub fn parse_peer_urls(peer_urls_str: String) -> (peers: Vec<Peer>)
    ensures
        exists|now: u64| peers.deep_view() == peers_of(peer_urls_str@, now),
{
    let now = get_unix_epoch_seconds();
    parse_peer_urls_at(peer_urls_str.as_str(), now)
}

} // verus!
