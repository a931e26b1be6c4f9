use vstd::prelude::*;
use vstd::string::{StrSliceExecFns, StringExecFns};
use crate::bytes::{be_at, read_u32_be};
use crate::peer::PeerAddr;

verus! {

/// The prefix of a UDP tracker's URL.
pub open spec fn udp_prefix() -> Seq<char> {
    seq!['u', 'd', 'p', ':', '/', '/']
}

/// Whether a URL names a UDP tracker, which this client does not speak to.
pub open spec fn is_udp(s: Seq<char>) -> bool {
    s.len() >= 6 && s.subrange(0, 6) == udp_prefix()
}

/// The text of each string.
pub open spec fn texts(v: Seq<String>) -> Seq<Seq<char>> {
    v.map_values(|s: String| s@)
}

/// The texts of all tiers of an announce list, one tier after the other.
pub open spec fn flatten(l: Seq<Vec<String>>) -> Seq<Seq<char>>
    decreases l.len(),
{
    if l.len() == 0 {
        Seq::empty()
    } else {
        flatten(l.drop_last()) + texts(l.last()@)
    }
}

/// The texts that do not name a UDP tracker, in their order.
pub open spec fn without_udp(s: Seq<Seq<char>>) -> Seq<Seq<char>>
    decreases s.len(),
{
    if s.len() == 0 {
        Seq::empty()
    } else if is_udp(s.last()) {
        without_udp(s.drop_last())
    } else {
        without_udp(s.drop_last()).push(s.last())
    }
}

/// The trackers of a torrent: those of the announce list, tier after tier, and the
/// main announce URL after them unless the list holds it already.
pub open spec fn trackers_of(announce: Option<Seq<char>>, list: Option<Seq<Vec<String>>>) -> Seq<Seq<char>> {
    match (announce, list) {
        (Some(a), None) => seq![a],
        (Some(a), Some(l)) => if flatten(l).contains(a) {
            flatten(l)
        } else {
            flatten(l).push(a)
        },
        (None, Some(l)) => flatten(l),
        (None, None) => Seq::empty(),
    }
}

/// Whether `s` starts with "udp://".
pub fn starts_with_udp(s: &str) -> (r: bool)
    ensures
        r == is_udp(s@),
{
    let n = s.unicode_len();
    if n < 6 {
        return false;
    }
    let prefix = ['u', 'd', 'p', ':', '/', '/'];
    let mut i: usize = 0;
    while i < 6
        invariant
            i <= 6 <= n,
            n == s@.len(),
            prefix@ == udp_prefix(),
            forall|k: int| 0 <= k < i ==> s@[k] == udp_prefix()[k],
        decreases 6 - i,
    {
        if s.get_char(i) != prefix[i] {
            assert(s@.subrange(0, 6)[i as int] != udp_prefix()[i as int]);
            return false;
        }
        i = i + 1;
    }
    assert(s@.subrange(0, 6) =~= udp_prefix());
    true
}

/// Appends the texts of `v` to `out`.
fn push_all_strings(out: &mut Vec<String>, v: &Vec<String>)
    ensures
        texts(final(out)@) == texts(old(out)@) + texts(v@),
{
    let mut i: usize = 0;
    while i < v.len()
        invariant
            i <= v@.len(),
            texts(out@) == texts(old(out)@) + texts(v@.subrange(0, i as int)),
        decreases v@.len() - i,
    {
        let ghost prev = out@;
        let c = v[i].clone();
        out.push(c);
        assert(texts(out@) =~= texts(prev).push(v@[i as int]@));
        assert(texts(v@.subrange(0, i + 1)) =~= texts(v@.subrange(0, i as int)).push(v@[i as int]@));
        i = i + 1;
        assert(texts(out@) =~= texts(old(out)@) + texts(v@.subrange(0, i as int)));
    }
    assert(v@.subrange(0, i as int) =~= v@);
}

/// Whether some string of `v` has the text of `s`.
fn contains_string(v: &Vec<String>, s: &String) -> (r: bool)
    ensures
        r == texts(v@).contains(s@),
{
    let mut i: usize = 0;
    while i < v.len()
        invariant
            i <= v@.len(),
            forall|k: int| 0 <= k < i ==> v@[k]@ != s@,
        decreases v@.len() - i,
    {
        if v[i] == *s {
            assert(texts(v@)[i as int] == s@);
            return true;
        }
        i = i + 1;
    }
    proof {
        let t = texts(v@);
        if t.contains(s@) {
            let k = choose|k: int| 0 <= k < t.len() && t[k] == s@;
            assert(v@[k]@ == s@);
        }
    }
    false
}

/// All tiers of an announce list, one after the other.
fn flatten_lists(l: &Vec<Vec<String>>) -> (r: Vec<String>)
    ensures
        texts(r@) == flatten(l@),
{
    let mut r: Vec<String> = Vec::new();
    let mut i: usize = 0;
    while i < l.len()
        invariant
            i <= l@.len(),
            texts(r@) == flatten(l@.subrange(0, i as int)),
        decreases l@.len() - i,
    {
        push_all_strings(&mut r, &l[i]);
        assert(l@.subrange(0, i + 1).drop_last() =~= l@.subrange(0, i as int));
        i = i + 1;
    }
    assert(l@.subrange(0, i as int) =~= l@);
    r
}

/// The trackers of a torrent, from its announce URL and its announce list.
pub fn all_trackers(announce: &Option<String>, announce_list: &Option<Vec<Vec<String>>>) -> (r: Vec<String>)
    ensures
        texts(r@) == trackers_of(
            match announce {
                Some(a) => Some(a@),
                None => None,
            },
            match announce_list {
                Some(l) => Some(l@),
                None => None,
            },
        ),
{
    match (announce, announce_list) {
        (Some(announce), None) => {
            let mut r: Vec<String> = Vec::new();
            r.push(announce.clone());
            assert(texts(r@) =~= seq![announce@]);
            r
        },
        (Some(announce), Some(list)) => {
            let mut h = flatten_lists(list);
            if !contains_string(&h, announce) {
                h.push(announce.clone());
                assert(texts(h@) =~= flatten(list@).push(announce@));
            }
            h
        },
        (None, Some(list)) => flatten_lists(list),
        (None, None) => Vec::new(),
    }
}

/// The trackers this client can announce to: all but the UDP ones, in order.
pub fn tcp_trackers(trackers: Vec<String>) -> (r: Vec<String>)
    ensures
        texts(r@) == without_udp(texts(trackers@)),
{
    let mut r: Vec<String> = Vec::new();
    let mut i: usize = 0;
    while i < trackers.len()
        invariant
            i <= trackers@.len(),
            texts(r@) == without_udp(texts(trackers@.subrange(0, i as int))),
        decreases trackers@.len() - i,
    {
        let t = &trackers[i];
        assert(texts(trackers@.subrange(0, i + 1)).drop_last() =~= texts(trackers@.subrange(0, i as int)));
        if !starts_with_udp(t.as_str()) {
            r.push(t.clone());
            assert(texts(r@) =~= without_udp(texts(trackers@.subrange(0, i as int))).push(t@));
        }
        i = i + 1;
    }
    assert(trackers@.subrange(0, i as int) =~= trackers@);
    r
}

/// Whether a byte stands for itself in a URL query: a letter, a digit or one of `.-_~`.
pub open spec fn is_unreserved(b: u8) -> bool {
    (48 <= b <= 57) || (97 <= b <= 122) || (65 <= b <= 90) || b == 46 || b == 45 || b == 95 || b
        == 126
}

/// The upper-case hexadecimal digit for `d`.
pub open spec fn hex_digit(d: u8) -> u8 {
    if d < 10 {
        (48 + d) as u8
    } else {
        (55 + d) as u8
    }
}

/// The percent-encoded form of `b`: unreserved bytes as they are, any other as `%XX`.
pub open spec fn url_encoded(b: Seq<u8>) -> Seq<u8>
    decreases b.len(),
{
    if b.len() == 0 {
        Seq::empty()
    } else {
        let x = b.last();
        url_encoded(b.drop_last()) + if is_unreserved(x) {
            seq![x]
        } else {
            seq![37u8, hex_digit(x / 16), hex_digit(x % 16)]
        }
    }
}

/// The decimal digits of `n`, most significant first.
pub open spec fn decimal(n: nat) -> Seq<u8>
    decreases n,
{
    if n < 10 {
        seq![(48 + n) as u8]
    } else {
        decimal(n / 10) + seq![(48 + n % 10) as u8]
    }
}

/// Every byte is ASCII.
pub open spec fn all_ascii(b: Seq<u8>) -> bool {
    forall|i: int| 0 <= i < b.len() ==> b[i] < 128
}

/// The characters that ASCII bytes stand for.
pub open spec fn ascii_chars(b: Seq<u8>) -> Seq<char> {
    b.map_values(|x: u8| x as char)
}

proof fn lemma_url_encoded_ascii(b: Seq<u8>)
    ensures
        all_ascii(url_encoded(b)),
    decreases b.len(),
{
    if b.len() > 0 {
        lemma_url_encoded_ascii(b.drop_last());
    }
}

proof fn lemma_decimal_ascii(n: nat)
    ensures
        all_ascii(decimal(n)),
    decreases n,
{
    if n >= 10 {
        lemma_decimal_ascii(n / 10);
    }
}

/// Relies on `String::from_utf8`: ASCII bytes are valid UTF-8, and each stands for
/// the character of the same code.
#[verifier::external_body]
fn ascii_string(b: Vec<u8>) -> (r: String)
    requires
        all_ascii(b@),
    ensures
        r@ == ascii_chars(b@),
{
    String::from_utf8(b).unwrap()
}

fn hex(d: u8) -> (r: u8)
    requires
        d < 16,
    ensures
        r == hex_digit(d),
{
    if d < 10 {
        48 + d
    } else {
        55 + d
    }
}

/// Appends the percent-encoded form of `content`.
fn push_url_encoded(out: &mut Vec<u8>, content: &[u8])
    ensures
        final(out)@ == old(out)@ + url_encoded(content@),
{
    let mut i: usize = 0;
    while i < content.len()
        invariant
            i <= content@.len(),
            out@ == old(out)@ + url_encoded(content@.subrange(0, i as int)),
        decreases content@.len() - i,
    {
        let x = content[i];
        assert(content@.subrange(0, i + 1).drop_last() =~= content@.subrange(0, i as int));
        if (48 <= x && x <= 57) || (97 <= x && x <= 122) || (65 <= x && x <= 90) || x == 46 || x
            == 45 || x == 95 || x == 126 {
            out.push(x);
        } else {
            out.push(37);
            out.push(hex(x / 16));
            out.push(hex(x % 16));
        }
        i = i + 1;
        assert(out@ =~= old(out)@ + url_encoded(content@.subrange(0, i as int)));
    }
    assert(content@.subrange(0, i as int) =~= content@);
}

/// Appends the decimal digits of `n`.
fn push_decimal(out: &mut Vec<u8>, n: u64)
    ensures
        final(out)@ == old(out)@ + decimal(n as nat),
    decreases n,
{
    if n >= 10 {
        push_decimal(out, n / 10);
    }
    out.push(48 + (n % 10) as u8);
    assert(out@ =~= old(out)@ + decimal(n as nat));
}

/// Appends the bytes of an ASCII text.
fn push_text(out: &mut Vec<u8>, text: &[u8])
    ensures
        final(out)@ == old(out)@ + text@,
{
    crate::bytes::push_all(out, text);
}

/// Percent-encodes `content` for a URL query.
pub fn url_encode_bytes(content: &[u8]) -> (r: String)
    ensures
        r@ == ascii_chars(url_encoded(content@)),
{
    let mut out: Vec<u8> = Vec::new();
    push_url_encoded(&mut out, content);
    proof {
        lemma_url_encoded_ascii(content@);
        assert(out@ =~= url_encoded(content@));
    }
    ascii_string(out)
}

/// The query of an announce: digest, identifier, port, nothing up or down yet,
/// compact peer lists, and the bytes left.
pub open spec fn announce_query(info_hash: Seq<u8>, peer_id: Seq<u8>, port: u16, left: u64) -> Seq<u8> {
    "?info_hash="@.map_values(|c: char| c as u8) + url_encoded(info_hash) + "&peer_id="@.map_values(
        |c: char| c as u8,
    ) + url_encoded(peer_id) + "&port="@.map_values(|c: char| c as u8) + decimal(port as nat)
        + "&uploaded=0&downloaded=0&compact=1&left="@.map_values(|c: char| c as u8) + decimal(
        left as nat,
    )
}

/// The announce URL for one tracker: its URL followed by the query.
pub fn build_tracker_url(tracker_url: &str, info_hash: &[u8; 20], peer_id: &[u8], port: u16, left: u64) -> (r: String)
    ensures
        r@ == tracker_url@ + ascii_chars(announce_query(info_hash@, peer_id@, port, left)),
{
    let mut q: Vec<u8> = Vec::new();
    let t1: [u8; 11] = [63, 105, 110, 102, 111, 95, 104, 97, 115, 104, 61];
    let t2: [u8; 9] = [38, 112, 101, 101, 114, 95, 105, 100, 61];
    let t3: [u8; 6] = [38, 112, 111, 114, 116, 61];
    let t4: [u8; 40] = [
        38, 117, 112, 108, 111, 97, 100, 101, 100, 61, 48, 38, 100, 111, 119, 110, 108, 111, 97,
        100, 101, 100, 61, 48, 38, 99, 111, 109, 112, 97, 99, 116, 61, 49, 38, 108, 101, 102, 116,
        61,
    ];
    push_text(&mut q, &t1);
    push_url_encoded(&mut q, info_hash);
    push_text(&mut q, &t2);
    push_url_encoded(&mut q, peer_id);
    push_text(&mut q, &t3);
    push_decimal(&mut q, port as u64);
    push_text(&mut q, &t4);
    push_decimal(&mut q, left);
    proof {
        reveal_strlit("?info_hash=");
        reveal_strlit("&peer_id=");
        reveal_strlit("&port=");
        reveal_strlit("&uploaded=0&downloaded=0&compact=1&left=");
        assert(t1@ =~= "?info_hash="@.map_values(|c: char| c as u8));
        assert(t2@ =~= "&peer_id="@.map_values(|c: char| c as u8));
        assert(t3@ =~= "&port="@.map_values(|c: char| c as u8));
        assert(t4@ =~= "&uploaded=0&downloaded=0&compact=1&left="@.map_values(|c: char| c as u8));
        assert(q@ =~= announce_query(info_hash@, peer_id@, port, left));
        lemma_url_encoded_ascii(info_hash@);
        lemma_url_encoded_ascii(peer_id@);
        lemma_decimal_ascii(port as nat);
        lemma_decimal_ascii(left as nat);
        assert(all_ascii(q@));
    }
    let query = ascii_string(q);
    let url = tracker_url.to_owned();
    url.concat(query.as_str())
}

/// The tracker's peer list could not be read.
#[derive(Debug, Clone, PartialEq, Eq)]
pub enum ErrorPeers {
    InvalidPeerList,
}

/// The addresses of a compact peer list: six bytes per IPv4 peer, then eighteen per
/// IPv6 peer, each an address followed by a big-endian port.
pub open spec fn compact_peers(peers: Seq<u8>, peers6: Seq<u8>) -> Seq<PeerAddr> {
    Seq::new(peers.len() / 6, |k: int| PeerAddr::V4(be_at(peers, 6 * k), be16_at(peers, 6 * k + 4)))
        + Seq::new(
        peers6.len() / 18,
        |k: int| PeerAddr::V6(be128_at(peers6, 18 * k), be16_at(peers6, 18 * k + 16)),
    )
}

/// The big-endian 16-bit number at `at`.
pub open spec fn be16_at(s: Seq<u8>, at: int) -> u16 {
    ((s[at] as u16) * 256 + s[at + 1] as u16) as u16
}

/// The big-endian 128-bit number at `at`.
pub open spec fn be128_at(s: Seq<u8>, at: int) -> u128 {
    ((be_at(s, at) as u128) * 0x1_0000_0000_0000_0000_0000_0000u128 + (be_at(s, at + 4) as u128)
        * 0x1_0000_0000_0000_0000u128 + (be_at(s, at + 8) as u128) * 0x1_0000_0000u128 + be_at(
        s,
        at + 12,
    ) as u128) as u128
}

fn read_u16_be(b: &[u8], at: usize) -> (r: u16)
    requires
        at + 2 <= b@.len(),
    ensures
        r == be16_at(b@, at as int),
{
    (b[at] as u16) * 256 + b[at + 1] as u16
}

fn read_u128_be(b: &[u8], at: usize) -> (r: u128)
    requires
        at + 16 <= b@.len(),
    ensures
        r == be128_at(b@, at as int),
{
    let n = b.len();
    let a = read_u32_be(b, at) as u128;
    let c = read_u32_be(b, at + 4) as u128;
    let d = read_u32_be(b, at + 8) as u128;
    let e = read_u32_be(b, at + 12) as u128;
    assert(a * 0x1_0000_0000_0000_0000_0000_0000u128 + c * 0x1_0000_0000_0000_0000u128 + d
        * 0x1_0000_0000u128 + e <= u128::MAX) by (nonlinear_arith)
        requires
            a <= u32::MAX,
            c <= u32::MAX,
            d <= u32::MAX,
            e <= u32::MAX,
    ;
    a * 0x1_0000_0000_0000_0000_0000_0000u128 + c * 0x1_0000_0000_0000_0000u128 + d
        * 0x1_0000_0000u128 + e
}

/// Reads the compact peer lists of a tracker's answer. Each list must be a whole
/// number of entries.
pub fn parse_compact_peers(peers: &[u8], peers6: &[u8]) -> (r: Result<Vec<PeerAddr>, ErrorPeers>)
    ensures
        r is Ok <==> (peers@.len() % 6 == 0 && peers6@.len() % 18 == 0),
        r matches Ok(v) ==> v@ == compact_peers(peers@, peers6@),
{
    let n4 = peers.len();
    let n6 = peers6.len();
    if n4 % 6 != 0 || n6 % 18 != 0 {
        return Err(ErrorPeers::InvalidPeerList);
    }
    let mut out: Vec<PeerAddr> = Vec::new();
    let mut k: usize = 0;
    while k < n4 / 6
        invariant
            n4 == peers@.len(),
            n4 % 6 == 0,
            k <= n4 / 6,
            out@ == compact_peers(peers@, peers6@).subrange(0, k as int),
        decreases n4 / 6 - k,
    {
        let at = 6 * k;
        out.push(PeerAddr::V4(read_u32_be(peers, at), read_u16_be(peers, at + 4)));
        k = k + 1;
        assert(out@ =~= compact_peers(peers@, peers6@).subrange(0, k as int));
    }
    let mut j: usize = 0;
    while j < n6 / 18
        invariant
            n4 == peers@.len(),
            n6 == peers6@.len(),
            n6 % 18 == 0,
            j <= n6 / 18,
            out@ == compact_peers(peers@, peers6@).subrange(0, n4 / 6 + j),
        decreases n6 / 18 - j,
    {
        let at = 18 * j;
        out.push(PeerAddr::V6(read_u128_be(peers6, at), read_u16_be(peers6, at + 16)));
        j = j + 1;
        assert(out@ =~= compact_peers(peers@, peers6@).subrange(0, n4 / 6 + j));
    }
    assert(out@ =~= compact_peers(peers@, peers6@));
    Ok(out)
}

} // verus!
