//! Choosing the address to listen on. Never defaults to 0.0.0.0.

use crate::text::{
    chars, debug_format, debug_text, decimal, decimal_is_digits, digit, ends_of, from_chars,
    is_blank, is_space, join, lossy_text, only_blank_texts_trim_to_nothing, split, split_chars,
    splitting_and_joining_agree, trim, trimmed, trimmed_end, trimmed_start,
    trimming_takes_the_white_space_around, utf8_lossy,
};
use vstd::prelude::*;
use vstd::string::*;

verus! {

/// How many seconds Tailscale may take to tell this machine's address.
pub const TAILSCALE_TIMEOUT_SECS: u64 = 5;

/// An IP address: the four octets of version 4 or the eight segments of version 6.
#[derive(Debug, Clone, Copy, PartialEq, Eq)]
pub enum IpAddr {
    V4([u8; 4]),
    V6([u16; 8]),
}

/// An address and a port to listen on; `scope_id` is 0 but for a scoped address
/// of version 6.
#[derive(Debug, Clone, Copy, PartialEq, Eq)]
pub struct SocketAddr {
    pub ip: IpAddr,
    pub port: u16,
    pub scope_id: u32,
}

/// Where the server ends up, and why it did not get the preferred address.
#[derive(Debug, PartialEq, Eq)]
pub struct Bind {
    pub addr: SocketAddr,
    pub warning: Option<String>,
}

/// The parts of an IP address as sequences.
pub enum Ip {
    V4(Seq<u8>),
    V6(Seq<u16>),
}

/// What a [`SocketAddr`] says.
pub struct Endpoint {
    pub ip: Ip,
    pub port: u16,
    pub scope_id: u32,
}

impl View for IpAddr {
    type V = Ip;

    open spec fn view(&self) -> Ip {
        match *self {
            IpAddr::V4(octets) => Ip::V4(octets@),
            IpAddr::V6(segments) => Ip::V6(segments@),
        }
    }
}

impl View for SocketAddr {
    type V = Endpoint;

    open spec fn view(&self) -> Endpoint {
        Endpoint { ip: self.ip@, port: self.port, scope_id: self.scope_id }
    }
}

/// The value of `c` as a digit in base `radix` (at most 16).
pub open spec fn digit_in(c: char, radix: nat) -> Option<nat> {
    let d = if '0' <= c <= '9' {
        c as int - '0' as int
    } else if 'a' <= c <= 'f' {
        c as int - 'a' as int + 10
    } else if 'A' <= c <= 'F' {
        c as int - 'A' as int + 10
    } else {
        16
    };
    if d < radix {
        Some(d as nat)
    } else {
        None
    }
}

/// The number that the digits `s` write in base `radix`; none where `s` is
/// empty or holds anything else.
pub open spec fn numeral(s: Seq<char>, radix: nat) -> Option<nat>
    decreases s.len(),
{
    if s.len() == 0 {
        None
    } else if s.len() == 1 {
        digit_in(s[0], radix)
    } else {
        match (numeral(s.drop_last(), radix), digit_in(s.last(), radix)) {
            (Some(v), Some(d)) => Some(v * radix + d),
            _ => None,
        }
    }
}

/// A decimal number up to 255 in at most three digits, without leading zeros.
pub open spec fn octet(s: Seq<char>) -> Option<u8> {
    match numeral(s, 10) {
        Some(v) => if v <= 255 && s.len() <= 3 && (s.len() == 1 || s[0] != '0') {
            Some(v as u8)
        } else {
            None
        },
        None => None,
    }
}

/// Four octets with dots between them.
pub open spec fn ipv4(s: Seq<char>) -> Option<Seq<u8>> {
    let p = split(s, '.');
    if p.len() == 4 && octet(p[0]) is Some && octet(p[1]) is Some && octet(p[2]) is Some && octet(
        p[3],
    ) is Some {
        Some(seq![octet(p[0])->0, octet(p[1])->0, octet(p[2])->0, octet(p[3])->0])
    } else {
        None
    }
}

/// One to four hexadecimal digits.
pub open spec fn segment_of(s: Seq<char>) -> Option<u16> {
    match numeral(s, 16) {
        Some(v) => if s.len() <= 4 {
            Some(v as u16)
        } else {
            None
        },
        None => None,
    }
}

/// Each piece as a segment.
pub open spec fn segments_of(pieces: Seq<Seq<char>>) -> Option<Seq<u16>>
    decreases pieces.len(),
{
    if pieces.len() == 0 {
        Some(Seq::empty())
    } else {
        match (segments_of(pieces.drop_last()), segment_of(pieces.last())) {
            (Some(before), Some(last)) => Some(before.push(last)),
            _ => None,
        }
    }
}

/// Each piece as a segment, where the last may be an address of version 4, which
/// counts for two.
pub open spec fn segments_and_v4(pieces: Seq<Seq<char>>) -> Option<Seq<u16>> {
    if pieces.len() == 0 {
        Some(Seq::empty())
    } else {
        match (segments_of(pieces.drop_last()), ipv4(pieces.last())) {
            (Some(before), Some(v4)) => Some(
                before.push((v4[0] * 256 + v4[1]) as u16).push((v4[2] * 256 + v4[3]) as u16),
            ),
            _ => segments_of(pieces),
        }
    }
}

/// The first place at or after `i` where `c` stands in `s`.
pub open spec fn find_from(s: Seq<char>, c: char, i: int) -> Option<int>
    decreases s.len() - i,
{
    if i < 0 || i >= s.len() {
        None
    } else if s[i] == c {
        Some(i)
    } else {
        find_from(s, c, i + 1)
    }
}

/// The first place at or after `i` where two colons stand in `s`.
pub open spec fn find_gap(s: Seq<char>, i: int) -> Option<int>
    decreases s.len() - i,
{
    if i < 0 || i + 1 >= s.len() {
        None
    } else if s[i] == ':' && s[i + 1] == ':' {
        Some(i)
    } else {
        find_gap(s, i + 1)
    }
}

/// What stands between `::` and an end of the text: nothing, or segments with
/// colons between them.
pub open spec fn before_gap(s: Seq<char>) -> Option<Seq<u16>> {
    if s.len() == 0 {
        Some(Seq::empty())
    } else {
        segments_of(split(s, ':'))
    }
}

/// As [`before_gap`], where the last may be an address of version 4.
pub open spec fn after_gap(s: Seq<char>) -> Option<Seq<u16>> {
    if s.len() == 0 {
        Some(Seq::empty())
    } else {
        segments_and_v4(split(s, ':'))
    }
}

/// Eight segments with colons between them, where `::` may once stand for one
/// zero segment or more, and the last two may be written as an address of
/// version 4.
pub open spec fn ipv6(s: Seq<char>) -> Option<Seq<u16>> {
    match find_gap(s, 0) {
        None => match segments_and_v4(split(s, ':')) {
            Some(all) => if all.len() == 8 {
                Some(all)
            } else {
                None
            },
            None => None,
        },
        Some(i) => match (before_gap(s.take(i)), after_gap(s.skip(i + 2))) {
            (Some(head), Some(tail)) => if head.len() + tail.len() <= 7 {
                Some(
                    head + Seq::new((8 - head.len() - tail.len()) as nat, |k: int| 0u16) + tail,
                )
            } else {
                None
            },
            _ => None,
        },
    }
}

/// A decimal number up to `max`.
pub open spec fn bounded(s: Seq<char>, max: nat) -> Option<nat> {
    match numeral(s, 10) {
        Some(v) => if v <= max {
            Some(v)
        } else {
            None
        },
        None => None,
    }
}

/// `ADDR:PORT` with an address of version 4.
pub open spec fn endpoint_v4(s: Seq<char>) -> Option<Endpoint> {
    match find_from(s, ':', 0) {
        None => None,
        Some(i) => match (ipv4(s.take(i)), bounded(s.skip(i + 1), 65535)) {
            (Some(octets), Some(port)) => Some(
                Endpoint { ip: Ip::V4(octets), port: port as u16, scope_id: 0 },
            ),
            _ => None,
        },
    }
}

/// An address of version 6, with `%` and a scope number behind it or not.
pub open spec fn scoped_ipv6(s: Seq<char>) -> Option<(Seq<u16>, u32)> {
    match find_from(s, '%', 0) {
        None => match ipv6(s) {
            Some(segments) => Some((segments, 0u32)),
            None => None,
        },
        Some(i) => match (ipv6(s.take(i)), bounded(s.skip(i + 1), 0xffff_ffff)) {
            (Some(segments), Some(scope)) => Some((segments, scope as u32)),
            _ => None,
        },
    }
}

/// `[ADDR]:PORT` with an address of version 6.
pub open spec fn endpoint_v6(s: Seq<char>) -> Option<Endpoint> {
    match find_from(s, ']', 0) {
        None => None,
        Some(j) => if s[0] != '[' || j + 1 >= s.len() || s[j + 1] != ':' {
            None
        } else {
            match (scoped_ipv6(s.subrange(1, j)), bounded(s.skip(j + 2), 65535)) {
                (Some((segments, scope_id)), Some(port)) => Some(
                    Endpoint { ip: Ip::V6(segments), port: port as u16, scope_id },
                ),
                _ => None,
            }
        },
    }
}

/// An address of either version on its own; port 0 lets the OS pick one.
pub open spec fn portless(s: Seq<char>) -> Option<Endpoint> {
    match ipv4(s) {
        Some(octets) => Some(Endpoint { ip: Ip::V4(octets), port: 0, scope_id: 0 }),
        None => match ipv6(s) {
            Some(segments) => Some(Endpoint { ip: Ip::V6(segments), port: 0, scope_id: 0 }),
            None => None,
        },
    }
}

/// What `--bind s` asks for: an address with a port, or one without.
pub open spec fn explicit_endpoint(s: Seq<char>) -> Option<Endpoint> {
    let t = trimmed(s);
    match endpoint_v4(t) {
        Some(e) => Some(e),
        None => match endpoint_v6(t) {
            Some(e) => Some(e),
            None => portless(t),
        },
    }
}

/// The number that the digits write, where it is at most `max`.
fn parse_numeral(s: &Vec<char>, radix: u64, max: u64) -> (r: Option<u64>)
    requires
        2 <= radix <= 16,
        max <= 0xffff_ffff,
    ensures
        match numeral(s@, radix as nat) {
            Some(v) => if v <= max {
                r == Some(v as u64)
            } else {
                r is None
            },
            None => r is None,
        },
{
    let mut value: u64 = 0;
    let mut over: bool = false;
    for i in 0..s.len()
        invariant
            2 <= radix <= 16,
            max <= 0xffff_ffff,
            value <= max,
            i == 0 ==> value == 0 && !over,
            i > 0 ==> numeral(s@.take(i as int), radix as nat) is Some,
            i > 0 && !over ==> numeral(s@.take(i as int), radix as nat) == Some(value as nat),
            i > 0 && over ==> numeral(s@.take(i as int), radix as nat)->0 > max,
    {
        assert(s@.take(i + 1).drop_last() == s@.take(i as int));
        let c = s[i];
        let d: u64 = if '0' <= c && c <= '9' {
            c as u64 - '0' as u64
        } else if 'a' <= c && c <= 'f' {
            c as u64 - 'a' as u64 + 10
        } else if 'A' <= c && c <= 'F' {
            c as u64 - 'A' as u64 + 10
        } else {
            16
        };
        if d >= radix {
            proof {
                numeral_of_prefix(s@, i + 1, radix as nat);
            }
            return None;
        }
        let ghost before = numeral(s@.take(i as int), radix as nat)->0;
        if !over {
            assert(value * radix <= max * 16) by (nonlinear_arith)
                requires
                    value <= max,
                    radix <= 16,
            ;
            if value * radix + d > max {
                over = true;
            } else {
                value = value * radix + d;
            }
        } else {
            assert(before * radix >= before) by (nonlinear_arith)
                requires
                    radix >= 2,
            ;
        }
    }
    assert(s@.take(s@.len() as int) == s@);
    if over || s.len() == 0 {
        None
    } else {
        Some(value)
    }
}

/// A text is a numeral only if each beginning of it is.
proof fn numeral_of_prefix(s: Seq<char>, n: int, radix: nat)
    requires
        0 < n <= s.len(),
        numeral(s.take(n), radix) is None,
    ensures
        numeral(s, radix) is None,
    decreases s.len() - n,
{
    if n == s.len() {
        assert(s.take(n) == s);
    } else {
        assert(s.take(n + 1).drop_last() == s.take(n));
        numeral_of_prefix(s, n + 1, radix);
    }
}

/// The characters from `from` to before `to`.
fn part(s: &Vec<char>, from: usize, to: usize) -> (r: Vec<char>)
    requires
        from <= to <= s@.len(),
    ensures
        r@ == s@.subrange(from as int, to as int),
{
    let mut r: Vec<char> = Vec::new();
    for i in from..to
        invariant
            from <= to <= s@.len(),
            r@ == s@.subrange(from as int, i as int),
    {
        r.push(s[i]);
        assert(s@.subrange(from as int, i + 1) =~= s@.subrange(from as int, i as int).push(
            s@[i as int],
        ));
    }
    r
}

/// The first place where `c` stands in `s`.
fn find(s: &Vec<char>, c: char) -> (r: Option<usize>)
    ensures
        match find_from(s@, c, 0) {
            Some(i) => r == Some(i as usize) && 0 <= i < s@.len() && s@[i] == c,
            None => r is None,
        },
{
    for i in 0..s.len()
        invariant
            find_from(s@, c, 0) == find_from(s@, c, i as int),
    {
        if s[i] == c {
            return Some(i);
        }
    }
    None
}

/// The first place where two colons stand in `s`.
fn find_colons(s: &Vec<char>) -> (r: Option<usize>)
    ensures
        match find_gap(s@, 0) {
            Some(i) => r == Some(i as usize) && 0 <= i && i + 1 < s@.len(),
            None => r is None,
        },
{
    let n = s.len();
    let mut i: usize = 0;
    while i < n && n - i > 1
        invariant
            n == s@.len(),
            i <= n,
            find_gap(s@, 0) == find_gap(s@, i as int),
        decreases n - i,
    {
        if s[i] == ':' && s[i + 1] == ':' {
            return Some(i);
        }
        i = i + 1;
    }
    None
}

fn parse_octet(s: &Vec<char>) -> (r: Option<u8>)
    ensures
        r == octet(s@),
{
    match parse_numeral(s, 10, 255) {
        Some(v) => if s.len() <= 3 && (s.len() == 1 || s[0] != '0') {
            Some(v as u8)
        } else {
            None
        },
        None => None,
    }
}

/// Whether two optional addresses are the same, part by part.
pub open spec fn same_v4(r: Option<[u8; 4]>, want: Option<Seq<u8>>) -> bool {
    match r {
        Some(octets) => want == Some(octets@),
        None => want is None,
    }
}

pub open spec fn same_v6(r: Option<[u16; 8]>, want: Option<Seq<u16>>) -> bool {
    match r {
        Some(segments) => want == Some(segments@),
        None => want is None,
    }
}

pub open spec fn same_endpoint(r: Option<SocketAddr>, want: Option<Endpoint>) -> bool {
    match r {
        Some(addr) => want == Some(addr@),
        None => want is None,
    }
}

/// Dotted decimal notation.
fn parse_ipv4(s: &Vec<char>) -> (r: Option<[u8; 4]>)
    ensures
        same_v4(r, ipv4(s@)),
{
    let p = split_chars(s, '.');
    let ghost pieces = split(s@, '.');
    assert(p@.map_values(|x: Vec<char>| x@) == pieces);
    assert(pieces.len() == p@.len());
    assert(forall|k: int| 0 <= k < p@.len() ==> pieces[k] == (#[trigger] p@[k])@);
    if p.len() != 4 {
        return None;
    }
    match (parse_octet(&p[0]), parse_octet(&p[1]), parse_octet(&p[2]), parse_octet(&p[3])) {
        (Some(a), Some(b), Some(c), Some(d)) => {
            let octets: [u8; 4] = [a, b, c, d];
            assert(octets@ =~= seq![a, b, c, d]);
            Some(octets)
        },
        _ => None,
    }
}

fn parse_segment(s: &Vec<char>) -> (r: Option<u16>)
    ensures
        r == segment_of(s@),
{
    if s.len() > 4 {
        return None;
    }
    proof {
        hex_fits(s@);
    }
    match parse_numeral(s, 16, 65535) {
        Some(v) => Some(v as u16),
        None => None,
    }
}

/// Four hexadecimal digits write no more than sixteen bits.
proof fn hex_fits(s: Seq<char>)
    requires
        s.len() <= 4,
    ensures
        numeral(s, 16) matches Some(v) ==> v <= 65535,
        s.len() <= 3 ==> (numeral(s, 16) matches Some(v) ==> v <= 4095),
        s.len() <= 2 ==> (numeral(s, 16) matches Some(v) ==> v <= 255),
        s.len() <= 1 ==> (numeral(s, 16) matches Some(v) ==> v <= 15),
    decreases s.len(),
{
    if s.len() > 0 {
        hex_fits(s.drop_last());
    }
}

/// The first `n` pieces, each as a segment.
fn parse_segments(pieces: &Vec<Vec<char>>, n: usize) -> (r: Option<Vec<u16>>)
    requires
        n <= pieces@.len(),
    ensures
        match segments_of(pieces@.map_values(|x: Vec<char>| x@).take(n as int)) {
            Some(want) => r matches Some(got) && got@ == want && got@.len() == n,
            None => r is None,
        },
{
    let ghost all = pieces@.map_values(|x: Vec<char>| x@).take(n as int);
    let mut r: Vec<u16> = Vec::new();
    for i in 0..n
        invariant
            n <= pieces@.len(),
            all == pieces@.map_values(|x: Vec<char>| x@).take(n as int),
            segments_of(all.take(i as int)) == Some(r@),
            r@.len() == i,
    {
        assert(all.take(i + 1).drop_last() == all.take(i as int));
        assert(all.take(i + 1).last() == pieces@[i as int]@);
        match parse_segment(&pieces[i]) {
            Some(v) => r.push(v),
            None => {
                proof {
                    segments_of_prefix(all, i + 1);
                }
                return None;
            },
        }
    }
    assert(all.take(n as int) == all);
    Some(r)
}

/// Pieces are segments only if the first ones are.
proof fn segments_of_prefix(pieces: Seq<Seq<char>>, n: int)
    requires
        0 <= n <= pieces.len(),
        segments_of(pieces.take(n)) is None,
    ensures
        segments_of(pieces) is None,
    decreases pieces.len() - n,
{
    if n == pieces.len() {
        assert(pieces.take(n) == pieces);
    } else {
        assert(pieces.take(n + 1).drop_last() == pieces.take(n));
        segments_of_prefix(pieces, n + 1);
    }
}

/// The pieces as segments, where the last may be an address of version 4.
fn parse_segments_and_v4(pieces: &Vec<Vec<char>>) -> (r: Option<Vec<u16>>)
    ensures
        match segments_and_v4(pieces@.map_values(|x: Vec<char>| x@)) {
            Some(want) => r matches Some(got) && got@ == want,
            None => r is None,
        },
{
    let ghost all = pieces@.map_values(|x: Vec<char>| x@);
    let n = pieces.len();
    assert(all.take(n as int) == all);
    if n == 0 {
        return Some(Vec::new());
    }
    assert(all.drop_last() == all.take(n - 1));
    assert(all.last() == pieces@[n - 1]@);
    if let Some(v4) = parse_ipv4(&pieces[n - 1]) {
        if let Some(mut before) = parse_segments(pieces, n - 1) {
            before.push(v4[0] as u16 * 256 + v4[1] as u16);
            before.push(v4[2] as u16 * 256 + v4[3] as u16);
            return Some(before);
        }
    }
    parse_segments(pieces, n)
}

/// The eight segments of `head`, zeros, and `tail`.
fn fill(head: &Vec<u16>, tail: &Vec<u16>) -> (r: [u16; 8])
    requires
        head@.len() + tail@.len() <= 8,
    ensures
        r@ == head@ + Seq::new((8 - head@.len() - tail@.len()) as nat, |k: int| 0u16) + tail@,
{
    let mut r: [u16; 8] = [0, 0, 0, 0, 0, 0, 0, 0];
    let ghost zeros = Seq::new(8, |k: int| 0u16);
    assert(r@ =~= zeros);
    let n = head.len();
    let m = tail.len();
    let mut i: usize = 0;
    while i < n
        invariant
            i <= n,
            n == head@.len(),
            n <= 8,
            zeros == Seq::new(8, |k: int| 0u16),
            r@ =~= head@.take(i as int) + zeros.skip(i as int),
        decreases n - i,
    {
        r[i] = head[i];
        i = i + 1;
    }
    let ghost filled = r@;
    let mut j: usize = 0;
    while j < m
        invariant
            j <= m,
            m == tail@.len(),
            n + m <= 8,
            n == head@.len(),
            zeros == Seq::new(8, |k: int| 0u16),
            filled.len() == 8,
            r@ =~= filled.take(8 - m) + tail@.take(j as int) + filled.skip(8 - m + j),
        decreases m - j,
    {
        r[8 - m + j] = tail[j];
        j = j + 1;
    }
    assert(r@ =~= head@ + Seq::new((8 - head@.len() - tail@.len()) as nat, |k: int| 0u16) + tail@);
    r
}

/// The segments in `s`, none where it is empty.
fn parse_before_gap(s: &Vec<char>) -> (r: Option<Vec<u16>>)
    ensures
        match before_gap(s@) {
            Some(want) => r matches Some(got) && got@ == want,
            None => r is None,
        },
{
    if s.len() == 0 {
        return Some(Vec::new());
    }
    let pieces = split_chars(s, ':');
    let ghost all = pieces@.map_values(|x: Vec<char>| x@);
    assert(all == split(s@, ':'));
    assert(all.take(pieces@.len() as int) == all);
    parse_segments(&pieces, pieces.len())
}

fn parse_after_gap(s: &Vec<char>) -> (r: Option<Vec<u16>>)
    ensures
        match after_gap(s@) {
            Some(want) => r matches Some(got) && got@ == want,
            None => r is None,
        },
{
    if s.len() == 0 {
        return Some(Vec::new());
    }
    parse_segments_and_v4(&split_chars(s, ':'))
}

fn parse_ipv6(s: &Vec<char>) -> (r: Option<[u16; 8]>)
    ensures
        same_v6(r, ipv6(s@)),
{
    let n = s.len();
    match find_colons(s) {
        None => {
            let all = match parse_segments_and_v4(&split_chars(s, ':')) {
                Some(all) => all,
                None => return None,
            };
            if all.len() != 8 {
                return None;
            }
            let none: Vec<u16> = Vec::new();
            let r = fill(&all, &none);
            assert(r@ =~= all@);
            Some(r)
        },
        Some(i) => {
            let before = part(s, 0, i);
            let after = part(s, i + 2, n);
            assert(before@ == s@.take(i as int));
            assert(after@ == s@.skip(i + 2));
            let head = match parse_before_gap(&before) {
                Some(head) => head,
                None => return None,
            };
            let tail = match parse_after_gap(&after) {
                Some(tail) => tail,
                None => return None,
            };
            if head.len() > 7 || tail.len() > 7 - head.len() {
                return None;
            }
            Some(fill(&head, &tail))
        },
    }
}

fn parse_endpoint_v4(s: &Vec<char>) -> (r: Option<SocketAddr>)
    ensures
        same_endpoint(r, endpoint_v4(s@)),
{
    let n = s.len();
    let i = match find(s, ':') {
        Some(i) => i,
        None => return None,
    };
    let before = part(s, 0, i);
    let after = part(s, i + 1, n);
    assert(before@ == s@.take(i as int));
    assert(after@ == s@.skip(i + 1));
    match (parse_ipv4(&before), parse_numeral(&after, 10, 65535)) {
        (Some(octets), Some(port)) => Some(
            SocketAddr { ip: IpAddr::V4(octets), port: port as u16, scope_id: 0 },
        ),
        _ => None,
    }
}

fn parse_scoped_ipv6(s: &Vec<char>) -> (r: Option<([u16; 8], u32)>)
    ensures
        match r {
            Some((segments, scope)) => scoped_ipv6(s@) == Some((segments@, scope)),
            None => scoped_ipv6(s@) is None,
        },
{
    let n = s.len();
    match find(s, '%') {
        None => match parse_ipv6(s) {
            Some(segments) => Some((segments, 0)),
            None => None,
        },
        Some(i) => {
            let before = part(s, 0, i);
            let after = part(s, i + 1, n);
            assert(before@ == s@.take(i as int));
            assert(after@ == s@.skip(i + 1));
            match (parse_ipv6(&before), parse_numeral(&after, 10, 0xffff_ffff)) {
                (Some(segments), Some(scope)) => Some((segments, scope as u32)),
                _ => None,
            }
        },
    }
}

fn parse_endpoint_v6(s: &Vec<char>) -> (r: Option<SocketAddr>)
    ensures
        same_endpoint(r, endpoint_v6(s@)),
{
    let n = s.len();
    let j = match find(s, ']') {
        Some(j) => j,
        None => return None,
    };
    if s[0] != '[' || n - j <= 1 || s[j + 1] != ':' {
        return None;
    }
    let inside = part(s, 1, j);
    let after = part(s, j + 2, n);
    assert(after@ == s@.skip(j + 2));
    match (parse_scoped_ipv6(&inside), parse_numeral(&after, 10, 65535)) {
        (Some((segments, scope_id)), Some(port)) => Some(
            SocketAddr { ip: IpAddr::V6(segments), port: port as u16, scope_id },
        ),
        _ => None,
    }
}

fn parse_portless(s: &Vec<char>) -> (r: Option<SocketAddr>)
    ensures
        same_endpoint(r, portless(s@)),
{
    if let Some(octets) = parse_ipv4(s) {
        return Some(SocketAddr { ip: IpAddr::V4(octets), port: 0, scope_id: 0 });
    }
    match parse_ipv6(s) {
        Some(segments) => Some(SocketAddr { ip: IpAddr::V6(segments), port: 0, scope_id: 0 }),
        None => None,
    }
}

/// The complaint about a `--bind` whose trimmed text shows as `shown`.
pub open spec fn invalid_bind_text(shown: Seq<char>) -> Seq<char> {
    "invalid --bind "@ + shown + ", expected ADDR:PORT"@
}

/// The complaint about a `--bind` that shows as `shown`.
pub fn invalid_bind(shown: &str) -> (r: String)
    ensures
        r@ == invalid_bind_text(shown@),
{
    let mut r: String = "invalid --bind ".to_owned();
    r.append(shown);
    r.append(", expected ADDR:PORT");
    r
}

/// The address that `--bind` gives: `ADDR:PORT`, or an address without a port,
/// for which the OS picks one.
pub fn parse_explicit(s: &str) -> (r: Result<SocketAddr, String>)
    ensures
        match explicit_endpoint(s@) {
            Some(want) => r matches Ok(addr) && addr@ == want,
            None => r matches Err(message) && message@ == invalid_bind_text(
                debug_text(trimmed(s@)),
            ),
        },
{
    let s = trim(s);
    let text = chars(s);
    if let Some(addr) = parse_endpoint_v4(&text) {
        return Ok(addr);
    }
    if let Some(addr) = parse_endpoint_v6(&text) {
        return Ok(addr);
    }
    match parse_portless(&text) {
        Some(addr) => Ok(addr),
        None => Err(invalid_bind(debug_format(s).as_str())),
    }
}

/// An address that others can reach the machine under.
pub open spec fn is_usable(octets: Seq<u8>) -> bool {
    &&& octets != seq![0u8, 0, 0, 0]
    &&& octets[0] != 127
}

/// A line with nothing but a usable address and white space in it.
pub open spec fn usable_line(line: Seq<char>) -> Option<Seq<u8>> {
    match ipv4(trimmed(line)) {
        Some(octets) => if is_usable(octets) {
            Some(octets)
        } else {
            None
        },
        None => None,
    }
}

/// The first usable address in the lines from `i` on.
pub open spec fn first_usable(lines: Seq<Seq<char>>, i: int) -> Option<Seq<u8>>
    decreases lines.len() - i,
{
    if i < 0 || i >= lines.len() {
        None
    } else if usable_line(lines[i]) is Some {
        usable_line(lines[i])
    } else {
        first_usable(lines, i + 1)
    }
}

/// The first usable address in the output of `tailscale ip -4`.
pub open spec fn tailscale_address(output: Seq<char>) -> Option<Seq<u8>> {
    first_usable(split(output, '\n'), 0)
}

fn is_reachable(octets: &[u8; 4]) -> (r: bool)
    ensures
        r == is_usable(octets@),
{
    let unspecified = octets[0] == 0 && octets[1] == 0 && octets[2] == 0 && octets[3] == 0;
    assert(unspecified == (octets@ =~= seq![0u8, 0, 0, 0]));
    !unspecified && octets[0] != 127
}

/// First usable IPv4 address in `tailscale ip -4` output.
pub fn first_tailscale_ip(output: &str) -> (r: Option<[u8; 4]>)
    ensures
        same_v4(r, tailscale_address(output@)),
{
    let lines = split_chars(&chars(output), '\n');
    let ghost all = split(output@, '\n');
    assert(lines@.map_values(|x: Vec<char>| x@) == all);
    for i in 0..lines.len()
        invariant
            all == split(output@, '\n'),
            lines@.map_values(|x: Vec<char>| x@) == all,
            first_usable(all, 0) == first_usable(all, i as int),
    {
        assert(all[i as int] == lines@[i as int]@);
        let line = from_chars(&lines[i]);
        if let Some(octets) = parse_ipv4(&chars(trim(line.as_str()))) {
            if is_reachable(&octets) {
                return Some(octets);
            }
        }
    }
    None
}

/// Where the server listens when no address was asked for.
pub open spec fn default_endpoint(tailscale: Option<Seq<char>>) -> Endpoint {
    let found = match tailscale {
        Some(output) => tailscale_address(output),
        None => None,
    };
    match found {
        Some(octets) => Endpoint { ip: Ip::V4(octets), port: 0, scope_id: 0 },
        None => Endpoint { ip: Ip::V4(seq![127u8, 0, 0, 1]), port: 0, scope_id: 0 },
    }
}

/// Why the server falls back to the machine itself.
pub open spec fn fallback_warning() -> Seq<char> {
    "could not detect a Tailscale IPv4 address (`tailscale ip -4`); falling back to 127.0.0.1"@
}

/// What is said about the choice of address, when none was asked for.
pub open spec fn default_warning(tailscale: Option<Seq<char>>) -> Option<Seq<char>> {
    if tailscale is Some && tailscale_address(tailscale->0) is Some {
        None
    } else {
        Some(fallback_warning())
    }
}

/// The address that is chosen and what is said about it; none where the one that was
/// asked for is no address.
pub open spec fn chosen(explicit: Option<Seq<char>>, tailscale: Option<Seq<char>>) -> Option<
    (Endpoint, Option<Seq<char>>),
> {
    match explicit {
        Some(s) => match explicit_endpoint(s) {
            Some(want) => Some((want, None)),
            None => None,
        },
        None => Some((default_endpoint(tailscale), default_warning(tailscale))),
    }
}

/// The view of a string that may be missing.
pub open spec fn text_of(s: Option<&str>) -> Option<Seq<char>> {
    match s {
        Some(s) => Some(s@),
        None => None,
    }
}

/// Pure choice of bind address. `tailscale` is the stdout of `tailscale ip -4`,
/// or `None` when it could not be run.
pub fn choose_bind(explicit: Option<&str>, tailscale: Option<&str>) -> (r: Result<Bind, String>)
    ensures
        match chosen(text_of(explicit), text_of(tailscale)) {
            Some((addr, warning)) => r matches Ok(bind) && bind.addr@ == addr && (bind.warning
                is Some <==> warning is Some) && (bind.warning matches Some(w) ==> w@
                == warning->0),
            None => r is Err,
        },
        match explicit {
            Some(s) => match explicit_endpoint(s@) {
                Some(want) => r matches Ok(bind) && bind.addr@ == want && bind.warning is None,
                None => r matches Err(message) && message@ == invalid_bind_text(
                    debug_text(trimmed(s@)),
                ),
            },
            None => {
                let output = match tailscale {
                    Some(output) => Some(output@),
                    None => None,
                };
                &&& r matches Ok(bind)
                &&& bind.addr@ == default_endpoint(output)
                &&& match default_warning(output) {
                    Some(text) => bind.warning matches Some(warning) && warning@ == text,
                    None => bind.warning is None,
                }
            },
        },
{
    if let Some(explicit) = explicit {
        return match parse_explicit(explicit) {
            Ok(addr) => Ok(Bind { addr, warning: None }),
            Err(message) => Err(message),
        };
    }
    if let Some(output) = tailscale {
        if let Some(octets) = first_tailscale_ip(output) {
            return Ok(
                Bind {
                    addr: SocketAddr { ip: IpAddr::V4(octets), port: 0, scope_id: 0 },
                    warning: None,
                },
            );
        }
    }
    let localhost: [u8; 4] = [127, 0, 0, 1];
    assert(localhost@ =~= seq![127u8, 0, 0, 1]);
    Ok(
        Bind {
            addr: SocketAddr { ip: IpAddr::V4(localhost), port: 0, scope_id: 0 },
            warning: Some(
                "could not detect a Tailscale IPv4 address (`tailscale ip -4`); falling back to 127.0.0.1".to_owned(),
            ),
        },
    )
}

/// What a finished run of `tailscale ip -4` printed, where it succeeded.
pub open spec fn printed(success: bool, stdout: Seq<u8>) -> Option<Seq<char>> {
    if success {
        Some(lossy_text(stdout))
    } else {
        None
    }
}

/// What a finished run of `tailscale ip -4` says: its output where it
/// succeeded, nothing where it failed.
pub fn tailscale_output(success: bool, stdout: &Vec<u8>) -> (r: Option<String>)
    ensures
        r is Some <==> printed(success, stdout@) is Some,
        r matches Some(output) ==> Some(output@) == printed(success, stdout@),
        r is Some == success,
        r matches Some(output) ==> output@ == lossy_text(stdout@),
{
    if success {
        Some(utf8_lossy(stdout.as_slice()))
    } else {
        None
    }
}

/// Without `--bind`, the server never listens on all interfaces, whatever
/// `tailscale` printed, and always leaves the port to the OS.
pub proof fn default_is_never_unspecified(tailscale: Option<Seq<char>>)
    ensures
        default_endpoint(tailscale).port == 0,
        default_endpoint(tailscale).ip matches Ip::V4(octets) && octets.len() == 4 && octets != seq![
            0u8,
            0,
            0,
            0,
        ],
{
    assert(seq![127u8, 0, 0, 1][0] != seq![0u8, 0, 0, 0][0]);
    if let Some(output) = tailscale {
        first_usable_is_usable(split(output, '\n'), 0);
    }
}

proof fn first_usable_is_usable(lines: Seq<Seq<char>>, i: int)
    ensures
        first_usable(lines, i) matches Some(octets) ==> is_usable(octets) && octets.len() == 4,
    decreases lines.len() - i,
{
    if 0 <= i < lines.len() && usable_line(lines[i]) is None {
        first_usable_is_usable(lines, i + 1);
    }
}

/// Dotted decimal notation of four octets.
pub open spec fn dotted(a: u8, b: u8, c: u8, d: u8) -> Seq<char> {
    decimal(a as nat).push('.') + decimal(b as nat).push('.') + decimal(c as nat).push('.')
        + decimal(d as nat)
}

/// Every IPv4 address, as it is usually written, is accepted for what it is,
/// and with a port behind it the port is used as given.
pub proof fn address_is_used_as_given(a: u8, b: u8, c: u8, d: u8, port: u16)
    ensures
        explicit_endpoint(dotted(a, b, c, d)) == Some(
            (Endpoint { ip: Ip::V4(seq![a, b, c, d]), port: 0, scope_id: 0 }),
        ),
        explicit_endpoint(dotted(a, b, c, d).push(':') + decimal(port as nat)) == Some(
            (Endpoint { ip: Ip::V4(seq![a, b, c, d]), port, scope_id: 0 }),
        ),
{
    let addr = dotted(a, b, c, d);
    dotted_is_ipv4(a, b, c, d);
    dotted_is_plain(a, b, c, d);
    numeral_of_decimal(port as nat);
    decimal_is_not_empty(port as nat);
    let with_port = addr.push(':') + decimal(port as nat);
    assert forall|i: int| 0 <= i < with_port.len() implies !is_space(#[trigger] with_port[i]) by {
        if i > addr.len() {
            decimal_is_digits(port as nat, i - addr.len() - 1);
        } else if i < addr.len() {
            assert(!is_space(addr[i]));
        }
    }
    plain_is_trimmed(addr);
    plain_is_trimmed(with_port);
    // Without a port there is no colon; with one, the first colon ends the address.
    find_nothing(addr, ':', 0);
    find_nothing(addr, ']', 0);
    assert forall|i: int| 0 <= i < addr.len() implies with_port[i] != ':' by {
        assert(with_port[i] == addr[i]);
    }
    find_first(with_port, ':', 0, addr.len() as int);
    assert(with_port.take(addr.len() as int) =~= addr);
    assert(with_port.skip(addr.len() as int + 1) =~= decimal(port as nat));
}

proof fn plain_is_trimmed(s: Seq<char>)
    requires
        forall|i: int| 0 <= i < s.len() ==> !is_space(#[trigger] s[i]),
    ensures
        trimmed(s) == s,
{
    assert(trimmed_end(s) == s);
    assert(trimmed_start(s) == s);
}

proof fn find_nothing(s: Seq<char>, c: char, i: int)
    requires
        0 <= i <= s.len(),
        forall|k: int| i <= k < s.len() ==> s[k] != c,
    ensures
        find_from(s, c, i) is None,
    decreases s.len() - i,
{
    if i < s.len() {
        find_nothing(s, c, i + 1);
    }
}

proof fn find_first(s: Seq<char>, c: char, i: int, at: int)
    requires
        0 <= i <= at < s.len(),
        s[at] == c,
        forall|k: int| i <= k < at ==> s[k] != c,
    ensures
        find_from(s, c, i) == Some(at),
    decreases at - i,
{
    if i < at {
        find_first(s, c, i + 1, at);
    }
}

proof fn numeral_of_decimal(n: nat)
    ensures
        numeral(decimal(n), 10) == Some(n),
    decreases n,
{
    if n >= 10 {
        numeral_of_decimal(n / 10);
        decimal_is_not_empty(n / 10);
        let s = decimal(n);
        assert(s.drop_last() =~= decimal(n / 10));
        assert(digit_in(s.last(), 10) == Some((n % 10) as nat));
    } else {
        assert(digit_in(digit(n), 10) == Some(n));
    }
}

proof fn decimal_is_not_empty(n: nat)
    ensures
        decimal(n).len() > 0,
{
}

/// Numbers up to 255 take at most three digits, and no more than one starts with a zero.
proof fn decimal_is_octet(n: u8)
    ensures
        octet(decimal(n as nat)) == Some(n),
{
    let m = n as nat;
    numeral_of_decimal(m);
    if m >= 10 {
        decimal_is_not_empty(m / 10);
        if m >= 100 {
            assert(decimal(m / 100) == seq![digit(m / 10 / 10)]);
            assert(decimal(m / 10) == decimal(m / 10 / 10).push(digit(m / 10 % 10)));
            assert(decimal(m)[0] == digit(m / 100));
        } else {
            assert(decimal(m / 10) == seq![digit(m / 10)]);
            assert(decimal(m)[0] == digit(m / 10));
        }
    }
}

/// A piece without the separator, behind one, is the last piece.
proof fn split_behind(s: Seq<char>, sep: char, y: Seq<char>)
    requires
        forall|i: int| 0 <= i < y.len() ==> y[i] != sep,
    ensures
        split(s.push(sep) + y, sep) == split(s, sep).push(y),
    decreases y.len(),
{
    let t = s.push(sep) + y;
    if y.len() == 0 {
        assert(t =~= s.push(sep));
        assert(t.drop_last() =~= s);
        assert(y =~= Seq::<char>::empty());
    } else {
        assert(t.drop_last() =~= s.push(sep) + y.drop_last());
        assert forall|i: int| 0 <= i < y.drop_last().len() implies y.drop_last()[i] != sep by {
            assert(y[i] != sep);
        }
        split_behind(s, sep, y.drop_last());
        let before = split(s, sep).push(y.drop_last());
        assert(before.drop_last() =~= split(s, sep));
        assert(y.drop_last().push(y.last()) =~= y);
    }
}

proof fn split_single(y: Seq<char>, sep: char)
    requires
        forall|i: int| 0 <= i < y.len() ==> y[i] != sep,
    ensures
        split(y, sep) == seq![y],
    decreases y.len(),
{
    if y.len() == 0 {
        assert(y =~= Seq::<char>::empty());
    } else {
        assert forall|i: int| 0 <= i < y.drop_last().len() implies y.drop_last()[i] != sep by {
            assert(y[i] != sep);
        }
        split_single(y.drop_last(), sep);
        assert(y.drop_last().push(y.last()) =~= y);
        assert(split(y, sep) =~= seq![y]);
    }
}

proof fn decimal_holds_no_dot(n: nat)
    ensures
        forall|i: int| 0 <= i < decimal(n).len() ==> decimal(n)[i] != '.',
{
    assert forall|i: int| 0 <= i < decimal(n).len() implies decimal(n)[i] != '.' by {
        decimal_is_digits(n, i);
    }
}

proof fn dotted_is_ipv4(a: u8, b: u8, c: u8, d: u8)
    ensures
        ipv4(dotted(a, b, c, d)) == Some(seq![a, b, c, d]),
{
    let (da, db, dc, dd) = (
        decimal(a as nat),
        decimal(b as nat),
        decimal(c as nat),
        decimal(d as nat),
    );
    decimal_holds_no_dot(a as nat);
    decimal_holds_no_dot(b as nat);
    decimal_holds_no_dot(c as nat);
    decimal_holds_no_dot(d as nat);
    decimal_is_octet(a);
    decimal_is_octet(b);
    decimal_is_octet(c);
    decimal_is_octet(d);
    split_single(da, '.');
    let s2 = da.push('.') + db;
    let s3 = s2.push('.') + dc;
    let s4 = s3.push('.') + dd;
    split_behind(da, '.', db);
    split_behind(s2, '.', dc);
    split_behind(s3, '.', dd);
    assert(dotted(a, b, c, d) =~= s4);
    assert(split(s4, '.') =~= seq![da, db, dc, dd]);
}

proof fn dotted_is_plain(a: u8, b: u8, c: u8, d: u8)
    ensures
        forall|i: int|
            0 <= i < dotted(a, b, c, d).len() ==> {
                let x = #[trigger] dotted(a, b, c, d)[i];
                x == '.' || '0' <= x <= '9'
            },
{
    let s = dotted(a, b, c, d);
    let (la, lb, lc) = (
        decimal(a as nat).len() as int,
        decimal(b as nat).len() as int,
        decimal(c as nat).len() as int,
    );
    assert forall|i: int| 0 <= i < s.len() implies {
        let x = #[trigger] s[i];
        x == '.' || '0' <= x <= '9'
    } by {
        if i < la {
            decimal_is_digits(a as nat, i);
        } else if la + 1 <= i < la + 1 + lb {
            decimal_is_digits(b as nat, i - la - 1);
        } else if la + lb + 2 <= i < la + lb + 2 + lc {
            decimal_is_digits(c as nat, i - la - lb - 2);
        } else if la + lb + lc + 3 <= i {
            decimal_is_digits(d as nat, i - la - lb - lc - 3);
        }
    }
}

/// A text is the address of four octets if and only if it is their dotted decimal
/// notation.
pub proof fn an_ipv4_address_is_dotted_decimal(s: Seq<char>, a: u8, b: u8, c: u8, d: u8)
    ensures
        ipv4(s) == Some(seq![a, b, c, d]) <==> s == dotted(a, b, c, d),
{
    if s == dotted(a, b, c, d) {
        dotted_is_ipv4(a, b, c, d);
    }
    if ipv4(s) == Some(seq![a, b, c, d]) {
        ipv4_is_dotted(s);
        let o = seq![a, b, c, d];
        assert(o[0] == a && o[1] == b && o[2] == c && o[3] == d);
    }
}

proof fn ipv4_is_dotted(s: Seq<char>)
    ensures
        ipv4(s) matches Some(o) ==> o.len() == 4 && s == dotted(o[0], o[1], o[2], o[3]),
{
    if let Some(o) = ipv4(s) {
        let p = split(s, '.');
        let dot = seq!['.'];
        splitting_and_joining_agree(s, '.');
        octet_is_decimal(p[0]);
        octet_is_decimal(p[1]);
        octet_is_decimal(p[2]);
        octet_is_decimal(p[3]);
        let p3 = p.drop_last();
        let p2 = p3.drop_last();
        let p1 = p2.drop_last();
        assert(join(p1, dot) == p[0]);
        assert(join(p2, dot) == p[0] + dot + p[1]);
        assert(join(p3, dot) == p[0] + dot + p[1] + dot + p[2]);
        assert(s == p[0] + dot + p[1] + dot + p[2] + dot + p[3]);
        assert(s =~= dotted(o[0], o[1], o[2], o[3]));
    }
}

proof fn octet_is_decimal(s: Seq<char>)
    ensures
        octet(s) matches Some(v) ==> s == decimal(v as nat),
{
    if octet(s) is Some {
        numeral_is_decimal(s);
    }
}

proof fn numeral_is_decimal(s: Seq<char>)
    requires
        s.len() == 1 || (s.len() > 1 && s[0] != '0'),
    ensures
        numeral(s, 10) matches Some(v) ==> s == decimal(v) && (s[0] != '0' ==> v > 0),
    decreases s.len(),
{
    if let Some(v) = numeral(s, 10) {
        if s.len() == 1 {
            assert(s =~= seq![s[0]]);
            assert(decimal(v) =~= s);
        } else {
            let before = s.drop_last();
            assert(before[0] == s[0]);
            numeral_is_decimal(before);
            let w = numeral(before, 10)->0;
            let d = digit_in(s.last(), 10)->0;
            assert(v == w * 10 + d);
            assert(v / 10 == w && v % 10 == d);
            assert(digit(d) == s.last());
            assert(decimal(v) =~= s);
        }
    }
}

/// What stands before the first line break is the first line.
proof fn split_front(first: Seq<char>, sep: char, rest: Seq<char>)
    requires
        forall|i: int| 0 <= i < first.len() ==> first[i] != sep,
    ensures
        split(first.push(sep) + rest, sep) == seq![first] + split(rest, sep),
    decreases rest.len(),
{
    let s = first.push(sep) + rest;
    split_single(first, sep);
    if rest.len() == 0 {
        assert(s =~= first.push(sep));
        assert(s.drop_last() =~= first);
        assert(split(s, sep) =~= seq![first] + split(rest, sep));
    } else {
        assert(s.drop_last() =~= first.push(sep) + rest.drop_last());
        split_front(first, sep, rest.drop_last());
        splitting_and_joining_agree(rest.drop_last(), sep);
        let tail = split(rest.drop_last(), sep);
        let before = seq![first] + tail;
        assert(before.drop_last() =~= seq![first] + tail.drop_last());
        assert(before.last() == tail.last());
        assert(split(s, sep) =~= seq![first] + split(rest, sep));
    }
}

proof fn first_usable_behind(first: Seq<char>, lines: Seq<Seq<char>>, i: int)
    requires
        0 <= i <= lines.len(),
    ensures
        first_usable(seq![first] + lines, i + 1) == first_usable(lines, i),
    decreases lines.len() - i,
{
    let all = seq![first] + lines;
    if i < lines.len() {
        assert(all[i + 1] == lines[i]);
        first_usable_behind(first, lines, i + 1);
    }
}

/// What the output says is what its first line says, where that holds a usable
/// address, and else what the rest says.
proof fn tailscale_line_by_line(first: Seq<char>, rest: Seq<char>)
    requires
        forall|i: int| 0 <= i < first.len() ==> first[i] != '\n',
    ensures
        tailscale_address(first) == usable_line(first),
        tailscale_address(first.push('\n') + rest) == if usable_line(first) is Some {
            usable_line(first)
        } else {
            tailscale_address(rest)
        },
{
    split_single(first, '\n');
    split_front(first, '\n', rest);
    let lines = split(rest, '\n');
    assert((seq![first] + lines)[0] == first);
    first_usable_behind(first, lines, 0);
    assert(first_usable(seq![first], 1) is None);
    assert(seq![first][0] == first);
}

/// The first line that holds an IPv4 address which is neither unspecified nor a
/// loopback address, with or without white space around it, says where the server
/// listens, on a port that the OS picks and without a warning, whatever follows.
pub proof fn the_tailscale_address_is_used(
    a: u8,
    b: u8,
    c: u8,
    d: u8,
    x: Seq<char>,
    y: Seq<char>,
    rest: Seq<char>,
)
    requires
        !(a == 0 && b == 0 && c == 0 && d == 0),
        a != 127,
        is_blank(x),
        is_blank(y),
        forall|i: int| 0 <= i < x.len() ==> x[i] != '\n',
        forall|i: int| 0 <= i < y.len() ==> y[i] != '\n',
    ensures
        ({
            let line = x + dotted(a, b, c, d) + y;
            let here = Endpoint { ip: Ip::V4(seq![a, b, c, d]), port: 0, scope_id: 0 };
            &&& default_endpoint(Some(line)) == here
            &&& default_endpoint(Some(line.push('\n') + rest)) == here
            &&& default_warning(Some(line)) is None
            &&& default_warning(Some(line.push('\n') + rest)) is None
        }),
{
    let addr = dotted(a, b, c, d);
    let line = x + addr + y;
    dotted_is_ipv4(a, b, c, d);
    dotted_is_plain(a, b, c, d);
    decimal_is_not_empty(a as nat);
    assert(!is_space(addr[0]));
    assert(!is_space(addr[addr.len() - 1]));
    trimming_takes_the_white_space_around(x, addr, y);
    assert forall|i: int| 0 <= i < line.len() implies line[i] != '\n' by {
        if x.len() <= i < x.len() + addr.len() {
            assert(line[i] == addr[i - x.len()]);
        }
    }
    let o = seq![a, b, c, d];
    let zero = seq![0u8, 0, 0, 0];
    assert(o[0] == a && o[1] == b && o[2] == c && o[3] == d);
    assert(zero[0] == 0 && zero[1] == 0 && zero[2] == 0 && zero[3] == 0);
    assert(o != zero);
    tailscale_line_by_line(line, rest);
}

/// A line that others cannot reach the machine by counts for nothing: one that
/// holds a character which no address has, and one with the unspecified address or
/// a loopback address.
pub proof fn other_lines_are_skipped(line: Seq<char>, rest: Seq<char>, b: u8, c: u8, d: u8)
    requires
        forall|i: int| 0 <= i < line.len() ==> line[i] != '\n',
        ({
            ||| exists|i: int|
                0 <= i < line.len() && !('0' <= #[trigger] line[i] <= '9') && line[i] != '.'
                    && !is_space(line[i])
            ||| is_blank(line)
            ||| line == dotted(0, 0, 0, 0)
            ||| line == dotted(127, b, c, d)
        }),
    ensures
        default_endpoint(Some(line.push('\n') + rest)) == default_endpoint(Some(rest)),
        default_warning(Some(line.push('\n') + rest)) == default_warning(Some(rest)),
        default_endpoint(Some(line)) == default_endpoint(None),
        default_warning(Some(line)) == default_warning(None),
{
    tailscale_line_by_line(line, rest);
    let t = trimmed(line);
    if line == dotted(0, 0, 0, 0) {
        dotted_is_ipv4(0, 0, 0, 0);
        dotted_is_plain(0, 0, 0, 0);
        plain_is_trimmed(line);
    } else if line == dotted(127, b, c, d) {
        dotted_is_ipv4(127, b, c, d);
        dotted_is_plain(127, b, c, d);
        plain_is_trimmed(line);
    } else if let Some(o) = ipv4(t) {
        ipv4_is_dotted(t);
        dotted_is_plain(o[0], o[1], o[2], o[3]);
        decimal_is_not_empty(o[0] as nat);
        only_blank_texts_trim_to_nothing(line);
        let (first, last) = ends_of(line);
        let core = line.subrange(first, last + 1);
        assert(line =~= line.take(first) + core + line.skip(last + 1));
        trimming_takes_the_white_space_around(line.take(first), core, line.skip(last + 1));
        let i = choose|i: int|
            0 <= i < line.len() && !('0' <= #[trigger] line[i] <= '9') && line[i] != '.'
                && !is_space(line[i]);
        if i < first {
            assert(is_space(line.take(first)[i]));
        } else if i > last {
            assert(is_space(line.skip(last + 1)[i - last - 1]));
        } else {
            assert(t[i - first] == line[i]);
        }
    }
}

/// Without an address from Tailscale the server listens on the machine itself, on a
/// port that the OS picks, and says so.
pub proof fn without_tailscale_the_machine_itself_is_used()
    ensures
        default_endpoint(None) == (Endpoint {
            ip: Ip::V4(seq![127u8, 0, 0, 1]),
            port: 0,
            scope_id: 0,
        }),
        default_warning(None) is Some,
{
}

/// White space around an address that was asked for does not count.
pub proof fn white_space_around_an_address_does_not_count(
    x: Seq<char>,
    s: Seq<char>,
    y: Seq<char>,
)
    requires
        is_blank(x),
        is_blank(y),
        s.len() > 0,
        !is_space(s[0]),
        !is_space(s.last()),
    ensures
        explicit_endpoint(x + s + y) == explicit_endpoint(s),
{
    trimming_takes_the_white_space_around(x, s, y);
    let none = Seq::<char>::empty();
    trimming_takes_the_white_space_around(none, s, none);
    assert(none + s + none =~= s);
}

/// A port beyond 65535 is refused.
pub proof fn a_port_beyond_the_last_is_refused(a: u8, b: u8, c: u8, d: u8, port: nat)
    requires
        port > 65535,
    ensures
        explicit_endpoint(dotted(a, b, c, d).push(':') + decimal(port)) is None,
{
    let addr = dotted(a, b, c, d);
    let s = addr.push(':') + decimal(port);
    dotted_is_plain(a, b, c, d);
    numeral_of_decimal(port);
    decimal_is_not_empty(port);
    decimal_is_not_empty(a as nat);
    assert forall|i: int| 0 <= i < s.len() implies {
        let x = #[trigger] s[i];
        x == '.' || x == ':' || '0' <= x <= '9'
    } by {
        if i > addr.len() {
            decimal_is_digits(port, i - addr.len() - 1);
        } else if i < addr.len() {
            assert(s[i] == addr[i]);
        }
    }
    plain_is_trimmed(s);
    assert forall|i: int| 0 <= i < addr.len() implies s[i] != ':' by {
        assert(s[i] == addr[i]);
    }
    find_first(s, ':', 0, addr.len() as int);
    assert(s.take(addr.len() as int) =~= addr);
    assert(s.skip(addr.len() as int + 1) =~= decimal(port));
    find_nothing(s, ']', 0);
    if let Some(o) = ipv4(s) {
        ipv4_is_dotted(s);
        dotted_is_plain(o[0], o[1], o[2], o[3]);
        assert(s[addr.len() as int] == ':');
    }
    assert forall|i: int| 0 <= i < s.len() && i != addr.len() implies s[i] != ':' by {
        if i > addr.len() {
            decimal_is_digits(port, i - addr.len() - 1);
            assert(s[i] == decimal(port)[i - addr.len() - 1]);
        }
    }
    // One colon makes no address of version 6.
    one_colon_is_no_ipv6(s, addr.len() as int);
}

proof fn one_colon_is_no_ipv6(s: Seq<char>, at: int)
    requires
        0 <= at < s.len(),
        s[at] == ':',
        forall|i: int| 0 <= i < s.len() && i != at ==> s[i] != ':',
    ensures
        ipv6(s) is None,
{
    no_gap(s, 0);
    let (x, y) = (s.take(at), s.skip(at + 1));
    assert(s =~= x.push(':') + y);
    assert forall|i: int| 0 <= i < x.len() implies x[i] != ':' by {
        assert(s[i] != ':');
    }
    assert forall|i: int| 0 <= i < y.len() implies y[i] != ':' by {
        assert(s[at + 1 + i] != ':');
    }
    split_behind(x, ':', y);
    split_single(x, ':');
    let p = split(s, ':');
    assert(p.len() == 2);
    segments_count(p);
    segments_count(p.drop_last());
}

proof fn no_gap(s: Seq<char>, i: int)
    requires
        0 <= i,
        forall|k: int| i <= k && k + 1 < s.len() ==> !(#[trigger] s[k] == ':' && s[k + 1] == ':'),
    ensures
        find_gap(s, i) is None,
    decreases s.len() - i,
{
    if i + 1 < s.len() {
        no_gap(s, i + 1);
    }
}

proof fn segments_count(p: Seq<Seq<char>>)
    ensures
        segments_of(p) matches Some(all) ==> all.len() == p.len(),
    decreases p.len(),
{
    if p.len() > 0 {
        segments_count(p.drop_last());
    }
}

/// An address that was asked for is used or refused, whatever Tailscale says, and
/// without a warning; without one, Tailscale decides.
pub proof fn what_was_asked_for_comes_first(
    s: Seq<char>,
    tailscale: Option<Seq<char>>,
    other: Option<Seq<char>>,
)
    ensures
        chosen(Some(s), tailscale) == chosen(Some(s), other),
        chosen(Some(s), tailscale) is Some <==> explicit_endpoint(s) is Some,
        chosen(Some(s), tailscale) matches Some((addr, warning)) ==> Some(addr) == explicit_endpoint(
            s,
        ) && warning is None,
        chosen(None, tailscale) == Some((default_endpoint(tailscale), default_warning(tailscale))),
{
}

/// The error for something that is no address shows it whole.
pub proof fn what_is_no_address_is_shown(shown: Seq<char>)
    ensures
        exists|before: Seq<char>, behind: Seq<char>|
            invalid_bind_text(shown) == #[trigger] (before + shown + behind) && before
                == "invalid --bind "@ && behind == ", expected ADDR:PORT"@,
{
    assert(invalid_bind_text(shown) == "invalid --bind "@ + shown + ", expected ADDR:PORT"@);
}

/// What the contracts say of an address is said of its own octets or segments, port
/// and scope.
pub proof fn an_address_shows_what_it_holds(addr: SocketAddr)
    ensures
        addr@.port == addr.port,
        addr@.scope_id == addr.scope_id,
        addr.ip matches IpAddr::V4(octets) ==> addr@.ip == Ip::V4(octets@),
        addr.ip matches IpAddr::V6(segments) ==> addr@.ip == Ip::V6(segments@),
{
}

/// The number that digits in a base stand for.
pub open spec fn value_in(s: Seq<char>, radix: nat) -> int
    decreases s.len(),
{
    if s.len() == 0 {
        0
    } else {
        let c = s.last() as int;
        value_in(s.drop_last(), radix) * radix + (if c <= '9' as int {
            c - '0' as int
        } else if c <= 'F' as int {
            c - 'A' as int + 10
        } else {
            c - 'a' as int + 10
        })
    }
}

/// Every row of decimal digits, and every row of hexadecimal digits in whatever case,
/// is read as the number it stands for, with zeros before it or not; nothing else is
/// read as a number.
pub proof fn digits_are_read_as_their_number(s: Seq<char>)
    ensures
        (s.len() > 0 && forall|i: int| 0 <= i < s.len() ==> '0' <= #[trigger] s[i] <= '9') ==> (
        numeral(s, 10) matches Some(v) && v == value_in(s, 10)),
        (s.len() > 0 && forall|i: int|
            0 <= i < s.len() ==> '0' <= #[trigger] s[i] <= '9' || 'a' <= s[i] <= 'f' || 'A' <= s[i]
                <= 'F') ==> (numeral(s, 16) matches Some(v) && v == value_in(s, 16)),
        numeral(s, 10) is Some ==> s.len() > 0 && forall|i: int|
            0 <= i < s.len() ==> '0' <= #[trigger] s[i] <= '9',
        numeral(s, 16) is Some ==> s.len() > 0 && forall|i: int|
            0 <= i < s.len() ==> '0' <= #[trigger] s[i] <= '9' || 'a' <= s[i] <= 'f' || 'A' <= s[i]
                <= 'F',
    decreases s.len(),
{
    if s.len() == 1 {
        assert(s.drop_last() =~= Seq::<char>::empty());
        assert(value_in(s.drop_last(), 10) == 0);
        assert(value_in(s.drop_last(), 16) == 0);
    } else if s.len() > 1 {
        let before = s.drop_last();
        digits_are_read_as_their_number(before);
        assert forall|i: int| 0 <= i < s.len() - 1 implies #[trigger] s[i] == before[i] by {}
        if forall|i: int| 0 <= i < s.len() ==> '0' <= #[trigger] s[i] <= '9' {
            assert forall|i: int| 0 <= i < before.len() implies '0' <= #[trigger] before[i]
                <= '9' by {
                assert(before[i] == s[i]);
            }
            assert('0' <= s[s.len() - 1] <= '9');
        }
        if forall|i: int|
            0 <= i < s.len() ==> '0' <= #[trigger] s[i] <= '9' || 'a' <= s[i] <= 'f' || 'A' <= s[i]
                <= 'F' {
            assert forall|i: int| 0 <= i < before.len() implies '0' <= #[trigger] before[i] <= '9'
                || 'a' <= before[i] <= 'f' || 'A' <= before[i] <= 'F' by {
                assert(before[i] == s[i]);
            }
            let last = s[s.len() - 1];
            assert('0' <= last <= '9' || 'a' <= last <= 'f' || 'A' <= last <= 'F');
        }
    }
}

/// A hexadecimal digit in lower case.
pub open spec fn hex_digit(d: nat) -> char {
    if d < 10 {
        ('0' as nat + d) as char
    } else {
        ('a' as nat + (d - 10)) as char
    }
}

/// `n` in hexadecimal, without leading zeros.
pub open spec fn hex(n: nat) -> Seq<char>
    decreases n,
{
    if n < 16 {
        seq![hex_digit(n)]
    } else {
        hex(n / 16).push(hex_digit(n % 16))
    }
}

/// Segments in hexadecimal with colons between them.
pub open spec fn colons(segments: Seq<u16>) -> Seq<char> {
    join(segments.map_values(|n: u16| hex(n as nat)), seq![':'])
}

/// A character of the hexadecimal notation with colons.
spec fn is_hex_char(c: char) -> bool {
    '0' <= c <= '9' || 'a' <= c <= 'f'
}

proof fn hex_is_segment(n: u16)
    ensures
        segment_of(hex(n as nat)) == Some(n),
        hex(n as nat).len() > 0,
        forall|i: int| 0 <= i < hex(n as nat).len() ==> is_hex_char(#[trigger] hex(n as nat)[i]),
{
    let m = n as nat;
    hex_is_numeral(m);
    reveal_with_fuel(hex, 5);
    assert(m / 16 / 16 / 16 / 16 == 0);
}

proof fn hex_is_numeral(n: nat)
    ensures
        numeral(hex(n), 16) == Some(n),
        hex(n).len() > 0,
        forall|i: int| 0 <= i < hex(n).len() ==> is_hex_char(#[trigger] hex(n)[i]),
    decreases n,
{
    let s = hex(n);
    if n >= 16 {
        hex_is_numeral(n / 16);
        assert(s.drop_last() =~= hex(n / 16));
        assert(digit_in(s.last(), 16) == Some((n % 16) as nat));
        assert forall|i: int| 0 <= i < s.len() implies is_hex_char(#[trigger] s[i]) by {
            if i < s.len() - 1 {
                assert(s[i] == hex(n / 16)[i]);
            }
        }
    } else {
        assert(digit_in(hex_digit(n), 16) == Some(n));
    }
}

/// What segments with colons between them look like, and what they are split into.
proof fn colons_read(segments: Seq<u16>)
    requires
        segments.len() > 0,
    ensures
        ({
            let t = colons(segments);
            let pieces = segments.map_values(|n: u16| hex(n as nat));
            &&& t.len() > 0
            &&& t[0] != ':'
            &&& t.last() != ':'
            &&& forall|k: int| 0 <= k < t.len() ==> is_hex_char(#[trigger] t[k]) || t[k] == ':'
            &&& forall|k: int| 0 <= k && k + 1 < t.len() ==> !(#[trigger] t[k] == ':' && t[k + 1]
                == ':')
            &&& split(t, ':') == pieces
            &&& segments_of(pieces) == Some(segments)
            &&& segments_and_v4(pieces) == Some(segments)
        }),
    decreases segments.len(),
{
    let pieces = segments.map_values(|n: u16| hex(n as nat));
    let t = colons(segments);
    let n = segments.last();
    let h = hex(n as nat);
    hex_is_segment(n);
    assert(pieces.last() == h);
    assert forall|i: int| 0 <= i < h.len() implies h[i] != ':' by {
        assert(is_hex_char(h[i]));
    }
    assert(is_hex_char(h[0]));
    assert(is_hex_char(h[h.len() - 1]));
    let before = segments.drop_last();
    assert(pieces.drop_last() =~= before.map_values(|n: u16| hex(n as nat)));
    assert(segments =~= before.push(n));
    if before.len() == 0 {
        assert(pieces =~= seq![h]);
        assert(t == h);
        split_single(h, ':');
        assert(segments_of(pieces.drop_last()) == Some(Seq::<u16>::empty()));
        assert(segments_of(pieces) == Some(Seq::<u16>::empty().push(n)));
        assert(Seq::<u16>::empty().push(n) =~= segments);
    } else {
        colons_read(before);
        let s = colons(before);
        assert(t == s + seq![':'] + h);
        assert(t =~= s.push(':') + h);
        split_behind(s, ':', h);
        assert(split(t, ':') =~= pieces);
        assert(t[0] == s[0]);
        assert forall|k: int| 0 <= k < t.len() implies is_hex_char(#[trigger] t[k]) || t[k]
            == ':' by {
            if k < s.len() {
                assert(t[k] == s[k]);
            } else if k > s.len() {
                assert(t[k] == h[k - s.len() - 1]);
            }
        }
        assert forall|k: int| 0 <= k && k + 1 < t.len() implies !(#[trigger] t[k] == ':' && t[k + 1]
            == ':') by {
            if k + 1 < s.len() {
                assert(t[k] == s[k] && t[k + 1] == s[k + 1]);
            } else if k + 1 == s.len() {
                assert(t[k] == s.last());
            } else {
                assert(t[k + 1] == h[k - s.len()]);
            }
        }
    }
    if let Some(o) = ipv4(h) {
        ipv4_is_dotted(h);
        let a = decimal(o[0] as nat);
        assert(h[a.len() as int] == '.');
        assert(is_hex_char(h[a.len() as int]));
    }
}

proof fn gap_is_first(s: Seq<char>, i: int, at: int)
    requires
        0 <= i <= at,
        at + 1 < s.len(),
        s[at] == ':',
        s[at + 1] == ':',
        forall|k: int| i <= k < at ==> !(#[trigger] s[k] == ':' && s[k + 1] == ':'),
    ensures
        find_gap(s, i) == Some(at),
    decreases at - i,
{
    if i < at {
        gap_is_first(s, i + 1, at);
    }
}

/// The text of an address of version 6: eight segments with colons between them, or
/// fewer with two colons in place of one zero segment or more.
pub open spec fn ipv6_text(head: Seq<u16>, tail: Option<Seq<u16>>) -> Seq<char> {
    match tail {
        None => colons(head),
        Some(tail) => colons(head) + seq![':', ':'] + colons(tail),
    }
}

/// The segments that such a text stands for.
pub open spec fn ipv6_segments(head: Seq<u16>, tail: Option<Seq<u16>>) -> Seq<u16> {
    match tail {
        None => head,
        Some(tail) => head + Seq::new((8 - head.len() - tail.len()) as nat, |k: int| 0u16) + tail,
    }
}

proof fn ipv6_text_reads(head: Seq<u16>, tail: Option<Seq<u16>>)
    requires
        tail is None ==> head.len() == 8,
        tail matches Some(tail) ==> head.len() + tail.len() <= 7,
    ensures
        ipv6(ipv6_text(head, tail)) == Some(ipv6_segments(head, tail)),
        ipv6_text(head, tail).len() > 0,
        forall|k: int|
            0 <= k < ipv6_text(head, tail).len() ==> is_hex_char(
                #[trigger] ipv6_text(head, tail)[k],
            ) || ipv6_text(head, tail)[k] == ':',
{
    let t = ipv6_text(head, tail);
    let none = Seq::<u16>::empty();
    assert(none.map_values(|n: u16| hex(n as nat)) =~= Seq::<Seq<char>>::empty());
    assert(colons(none) =~= Seq::<char>::empty());
    match tail {
        None => {
            colons_read(head);
            no_gap(t, 0);
        },
        Some(tail) => {
            let a = colons(head);
            let b = colons(tail);
            if head.len() > 0 {
                colons_read(head);
            } else {
                assert(head =~= none);
            }
            if tail.len() > 0 {
                colons_read(tail);
            } else {
                assert(tail =~= none);
            }
            let at = a.len() as int;
            assert(t[at] == ':' && t[at + 1] == ':');
            assert forall|k: int| 0 <= k < at implies !(#[trigger] t[k] == ':' && t[k + 1] == ':') by {
                if k + 1 < at {
                    assert(t[k] == a[k] && t[k + 1] == a[k + 1]);
                } else {
                    assert(t[k] == a.last());
                }
            }
            gap_is_first(t, 0, at);
            assert(t.take(at) =~= a);
            assert(t.skip(at + 2) =~= b);
            assert forall|k: int| 0 <= k < t.len() implies is_hex_char(#[trigger] t[k]) || t[k]
                == ':' by {
                if k < at {
                    assert(t[k] == a[k]);
                } else if k >= at + 2 {
                    assert(t[k] == b[k - at - 2]);
                }
            }
            assert(before_gap(a) == Some(head));
            assert(after_gap(b) == Some(tail));
        },
    }
}

/// Every address of version 6, written in full or with one gap, is accepted for what
/// it is; in brackets with a port behind it, the port is used as given, and so is a
/// scope behind a percent sign.
pub proof fn an_ipv6_address_is_used_as_given(
    head: Seq<u16>,
    tail: Option<Seq<u16>>,
    port: u16,
    scope: u32,
)
    requires
        tail is None ==> head.len() == 8,
        tail matches Some(tail) ==> head.len() + tail.len() <= 7,
    ensures
        ({
            let t = ipv6_text(head, tail);
            let ip = Ip::V6(ipv6_segments(head, tail));
            let p = decimal(port as nat);
            &&& explicit_endpoint(t) == Some((Endpoint { ip, port: 0, scope_id: 0 }))
            &&& explicit_endpoint(seq!['['] + t + seq![']', ':'] + p) == Some(
                (Endpoint { ip, port, scope_id: 0 }),
            )
            &&& explicit_endpoint(
                seq!['['] + (t.push('%') + decimal(scope as nat)) + seq![']', ':'] + p,
            ) == Some((Endpoint { ip, port, scope_id: scope }))
        }),
{
    let t = ipv6_text(head, tail);
    let scoped = t.push('%') + decimal(scope as nat);
    ipv6_text_reads(head, tail);
    assert forall|i: int| 0 <= i < t.len() implies {
        &&& !is_space(#[trigger] t[i])
        &&& t[i] != '.'
        &&& t[i] != ']'
        &&& t[i] != '%'
    } by {
        assert(is_hex_char(t[i]) || t[i] == ':');
    }
    plain_is_trimmed(t);
    no_dot_no_ipv4(t);
    if let Some(i) = find_from(t, ':', 0) {
        found_is_within(t, ':', 0);
        assert forall|k: int| 0 <= k < t.take(i).len() implies t.take(i)[k] != '.' by {
            assert(t.take(i)[k] == t[k]);
        }
        no_dot_no_ipv4(t.take(i));
    }
    find_nothing(t, ']', 0);
    find_nothing(t, '%', 0);
    assert(scoped_ipv6(t) == Some((ipv6_segments(head, tail), 0u32)));
    bracketed_is_read(t, port, ipv6_segments(head, tail), 0);
    numeral_of_decimal(scope as nat);
    decimal_is_not_empty(scope as nat);
    assert forall|i: int| 0 <= i < t.len() implies scoped[i] != '%' by {
        assert(scoped[i] == t[i]);
    }
    find_first(scoped, '%', 0, t.len() as int);
    assert(scoped.take(t.len() as int) =~= t);
    assert(scoped.skip(t.len() as int + 1) =~= decimal(scope as nat));
    assert(scoped_ipv6(scoped) == Some((ipv6_segments(head, tail), scope)));
    assert forall|i: int| 0 <= i < scoped.len() implies {
        &&& !is_space(#[trigger] scoped[i])
        &&& scoped[i] != '.'
        &&& scoped[i] != ']'
    } by {
        if i < t.len() {
            assert(scoped[i] == t[i]);
        } else if i > t.len() {
            decimal_is_digits(scope as nat, i - t.len() - 1);
            assert(scoped[i] == decimal(scope as nat)[i - t.len() - 1]);
        }
    }
    bracketed_is_read(scoped, port, ipv6_segments(head, tail), scope);
}

proof fn found_is_within(s: Seq<char>, c: char, i: int)
    ensures
        find_from(s, c, i) matches Some(at) ==> i <= at < s.len(),
    decreases s.len() - i,
{
    if 0 <= i < s.len() && s[i] != c {
        found_is_within(s, c, i + 1);
    }
}

proof fn no_dot_no_ipv4(s: Seq<char>)
    requires
        forall|i: int| 0 <= i < s.len() ==> s[i] != '.',
    ensures
        ipv4(s) is None,
{
    split_single(s, '.');
}

/// An address in brackets, with a port behind it.
proof fn bracketed_is_read(t: Seq<char>, port: u16, segments: Seq<u16>, scope_id: u32)
    requires
        t.len() > 0,
        scoped_ipv6(t) == Some((segments, scope_id)),
        forall|i: int|
            0 <= i < t.len() ==> !is_space(#[trigger] t[i]) && t[i] != '.' && t[i] != ']',
    ensures
        explicit_endpoint(seq!['['] + t + seq![']', ':'] + decimal(port as nat)) == Some(
            (Endpoint { ip: Ip::V6(segments), port, scope_id }),
        ),
{
    let p = decimal(port as nat);
    let s = seq!['['] + t + seq![']', ':'] + p;
    let j = t.len() as int + 1;
    numeral_of_decimal(port as nat);
    decimal_is_not_empty(port as nat);
    bracketed_is_plain(t, p, port);
    plain_is_trimmed(s);
    assert(endpoint_v4(s) is None) by {
        found_is_within(s, ':', 0);
        if let Some(i) = find_from(s, ':', 0) {
            assert forall|k: int| 0 <= k < s.take(i).len() implies s.take(i)[k] != '.' by {
                assert(s.take(i)[k] == s[k]);
            }
            no_dot_no_ipv4(s.take(i));
        }
    }
    assert(find_from(s, ']', 0) == Some(j)) by {
        assert(s[j] == ']');
        assert forall|i: int| 0 <= i < j implies s[i] != ']' by {
            if i > 0 {
                assert(s[i] == t[i - 1]);
            }
        }
        find_first(s, ']', 0, j);
    }
    assert(s[0] == '[' && s[j + 1] == ':');
    assert(s.subrange(1, j) =~= t);
    assert(s.skip(j + 2) =~= p);
    assert(bounded(p, 65535) == Some(port as nat));
    assert(endpoint_v6(s) == Some((Endpoint { ip: Ip::V6(segments), port, scope_id })));
}

proof fn bracketed_is_plain(t: Seq<char>, p: Seq<char>, port: u16)
    requires
        p == decimal(port as nat),
        forall|i: int|
            0 <= i < t.len() ==> !is_space(#[trigger] t[i]) && t[i] != '.' && t[i] != ']',
    ensures
        ({
            let s = seq!['['] + t + seq![']', ':'] + p;
            forall|i: int| 0 <= i < s.len() ==> !is_space(#[trigger] s[i]) && s[i] != '.'
        }),
{
    let s = seq!['['] + t + seq![']', ':'] + p;
    let j = t.len() as int + 1;
    assert forall|i: int| 0 <= i < s.len() implies !is_space(#[trigger] s[i]) && s[i] != '.' by {
        if i == 0 {
            assert(s[i] == '[');
        } else if i < j {
            assert(s[i] == t[i - 1]);
        } else if i == j {
            assert(s[i] == ']');
        } else if i == j + 1 {
            assert(s[i] == ':');
        } else {
            decimal_is_digits(port as nat, i - j - 2);
            assert(s[i] == p[i - j - 2]);
        }
    }
}

/// A run that failed says nothing, whatever it printed; one that succeeded says all
/// that it printed.
pub proof fn only_a_successful_run_counts(stdout: Seq<u8>)
    ensures
        printed(false, stdout) is None,
        printed(true, stdout) == Some(lossy_text(stdout)),
{
}

} // verus!
