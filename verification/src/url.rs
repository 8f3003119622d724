//! Rewriting the host of an `http://` or `https://` URL to an IP address.
//!
//! Chrome's DevTools HTTP server refuses requests whose `Host` header is a
//! name, so a URL such as `http://host.docker.internal:9322` is rewritten to
//! `http://192.168.65.254:9322` before it is handed to the MCP server. The DNS
//! lookup itself is I/O and is made by the caller: this module says which name
//! to look up (`resolution_lookup_target`) and how the URL reads once the first
//! address that the lookup gave back is known (`resolved_url`).
use vstd::prelude::*;
use crate::ids::is_hex;
use crate::text::{
    chars_range,
    append_chars, append_str, chars_of, find_char, first_index, is_first, lemma_first_none,
    lemma_first_unique, lemma_split_at_first, lemma_split_nonempty, lemma_split_without_sep, split_char,
    split_on, starts_with_chars, string_of,
};

verus! {

pub open spec fn http_prefix() -> Seq<char> {
    seq!['h', 't', 't', 'p', ':', '/', '/']
}

pub open spec fn https_prefix() -> Seq<char> {
    seq!['h', 't', 't', 'p', 's', ':', '/', '/']
}

pub open spec fn scheme_separator() -> Seq<char> {
    seq![':', '/', '/']
}

/// The scheme of an `http://` or `https://` URL and what follows `://`;
/// `None` for any other text.
pub open spec fn scheme_and_rest(url: Seq<char>) -> Option<(Seq<char>, Seq<char>)> {
    if url.len() >= 7 && url.take(7) == http_prefix() {
        Some((seq!['h', 't', 't', 'p'], url.skip(7)))
    } else if url.len() >= 8 && url.take(8) == https_prefix() {
        Some((seq!['h', 't', 't', 'p', 's'], url.skip(8)))
    } else {
        None
    }
}

/// `rest` split before its first `/`: the host (with its port) and the path.
pub open spec fn host_and_path(rest: Seq<char>) -> (Seq<char>, Seq<char>) {
    match first_index(rest, '/') {
        Some(i) => (rest.take(i), rest.skip(i)),
        None => (rest, Seq::<char>::empty()),
    }
}

/// The host name: the text before the first `:`.
pub open spec fn host_name(hostport: Seq<char>) -> Seq<char> {
    split_char(hostport, ':')[0]
}

/// `:` and the text between the first and the second `:`, when there is a `:`.
pub open spec fn port_suffix(hostport: Seq<char>) -> Seq<char> {
    if hostport.contains(':') {
        seq![':'] + split_char(hostport, ':')[1]
    } else {
        Seq::<char>::empty()
    }
}

/// What is looked up: the host with its port, port 80 when it has none.
pub open spec fn lookup_target(hostport: Seq<char>) -> Seq<char> {
    if hostport.contains(':') {
        hostport
    } else {
        hostport + seq![':', '8', '0']
    }
}

pub open spec fn is_digit(c: char) -> bool {
    48 <= (c as u32) <= 57
}

pub open spec fn decimal_value(p: Seq<char>) -> int
    decreases p.len(),
{
    if p.len() == 0 {
        0
    } else {
        decimal_value(p.drop_last()) * 10 + ((p.last() as u32) - 48)
    }
}

/// One to three decimal digits, no leading zero, at most 255: an octet as
/// the standard library's IPv4 parser accepts it.
pub open spec fn is_octet(p: Seq<char>) -> bool {
    &&& 1 <= p.len() <= 3
    &&& forall|i: int| 0 <= i < p.len() ==> is_digit(#[trigger] p[i])
    &&& (p.len() == 1 || p[0] != '0')
    &&& decimal_value(p) <= 255
}

/// Four octets separated by dots: an IPv4 address as the standard library's
/// `Ipv4Addr` parser accepts it.
pub open spec fn is_ipv4_literal(host: Seq<char>) -> bool {
    let parts = split_char(host, '.');
    &&& parts.len() == 4
    &&& forall|k: int| 0 <= k < 4 ==> is_octet(#[trigger] parts[k])
}

/// One to four hexadecimal digits: a group of an IPv6 address.
pub open spec fn is_hex_group(p: Seq<char>) -> bool {
    &&& 1 <= p.len() <= 4
    &&& forall|i: int| 0 <= i < p.len() ==> is_hex(#[trigger] p[i])
}

/// The number of 16-bit groups that the `:`-separated groups `s` write: each
/// hexadecimal group counts one; an IPv4 address, allowed only as the last
/// group when `v4_last`, counts two. `None` when `s` is not such a list.
pub open spec fn group_count(s: Seq<char>, v4_last: bool) -> Option<int> {
    if s.len() == 0 {
        Some(0)
    } else {
        let parts = split_char(s, ':');
        let n = parts.len() as int;
        if forall|k: int| 0 <= k < n - 1 ==> is_hex_group(#[trigger] parts[k]) {
            if is_hex_group(parts[n - 1]) {
                Some(n)
            } else if v4_last && is_ipv4_literal(parts[n - 1]) {
                Some(n + 1)
            } else {
                None
            }
        } else {
            None
        }
    }
}

/// `i` is the position of the first `::` in `s`.
pub open spec fn is_first_double_colon(s: Seq<char>, i: int) -> bool {
    &&& 0 <= i && i + 1 < s.len()
    &&& s[i] == ':' && s[i + 1] == ':'
    &&& forall|j: int| 0 <= j < i ==> !(s[j] == ':' && #[trigger] s[j + 1] == ':')
}

/// The position of the first `::` in `s`, if there is one.
pub open spec fn double_colon_index(s: Seq<char>) -> Option<int> {
    if exists|i: int| is_first_double_colon(s, i) {
        Some(choose|i: int| is_first_double_colon(s, i))
    } else {
        None
    }
}

/// An IPv6 address as the standard library's `Ipv6Addr` parser accepts it:
/// eight groups; or groups before and after one `::` that stands for the
/// missing ones, at most seven in all. An IPv4 address may end the address
/// and counts as two groups.
pub open spec fn is_ipv6_literal(s: Seq<char>) -> bool {
    match double_colon_index(s) {
        Some(i) => match (group_count(s.take(i), false), group_count(s.skip(i + 2), true)) {
            (Some(a), Some(b)) => a + b <= 7,
            _ => false,
        },
        None => group_count(s, true) == Some(8int),
    }
}

/// The text between `[` and `]` of a host written `[...]`, optionally
/// followed by `:` and a port.
pub open spec fn bracketed_host(hostport: Seq<char>) -> Option<Seq<char>> {
    if hostport.len() > 0 && hostport[0] == '[' {
        match first_index(hostport, ']') {
            Some(j) => if j + 1 == hostport.len() || hostport[j + 1] == ':' {
                Some(hostport.subrange(1, j))
            } else {
                None
            },
            None => None,
        }
    } else {
        None
    }
}

/// The host is already an IP address: an IPv4 address before any `:`, or
/// an IPv6 address in square brackets.
pub open spec fn is_ip_host(hostport: Seq<char>) -> bool {
    ||| is_ipv4_literal(host_name(hostport))
    ||| (bracketed_host(hostport) matches Some(h) && is_ipv6_literal(h))
}

/// The name to look up for `url`, or `None` when the URL is left as it is:
/// when it is neither `http://` nor `https://`, or its host is already an
/// IP address.
pub open spec fn resolution_target(url: Seq<char>) -> Option<Seq<char>> {
    match scheme_and_rest(url) {
        None => None,
        Some((_scheme, rest)) => {
            let hostport = host_and_path(rest).0;
            if is_ip_host(hostport) {
                None
            } else {
                Some(lookup_target(hostport))
            }
        },
    }
}

/// `url` with its host replaced by `ip`, the first address the lookup gave
/// back; `url` itself when nothing was looked up or the lookup gave nothing.
pub open spec fn resolved(url: Seq<char>, first_ip: Option<Seq<char>>) -> Seq<char> {
    match (resolution_target(url), scheme_and_rest(url), first_ip) {
        (Some(_), Some((scheme, rest)), Some(ip)) => {
            let (hostport, path) = host_and_path(rest);
            scheme + scheme_separator() + ip + port_suffix(hostport) + path
        },
        _ => url,
    }
}

pub open spec fn opt_view(o: Option<String>) -> Option<Seq<char>> {
    match o {
        Some(s) => Some(s@),
        None => None,
    }
}

/// A text that holds `sep` splits into at least two pieces.
pub proof fn lemma_split_two_when_contains(s: Seq<char>, sep: char)
    requires
        s.contains(sep),
    ensures
        split_char(s, sep).len() >= 2,
    decreases s.len(),
{
    lemma_split_nonempty(s.drop_last(), sep);
    if s.last() != sep {
        let j = choose|j: int| 0 <= j < s.len() && s[j] == sep;
        assert(s.drop_last()[j] == sep);
        lemma_split_two_when_contains(s.drop_last(), sep);
    }
}

/// The pieces of `url` that `scheme_and_rest` and `host_and_path` describe.
struct UrlParts {
    https: bool,
    hostport: Vec<char>,
    path: Vec<char>,
}

fn scheme_chars(https: bool) -> (r: Vec<char>)
    ensures
        https ==> r@ == seq!['h', 't', 't', 'p', 's'],
        !https ==> r@ == seq!['h', 't', 't', 'p'],
{
    let mut r: Vec<char> = Vec::new();
    r.push('h');
    r.push('t');
    r.push('t');
    r.push('p');
    if https {
        r.push('s');
    }
    r
}

fn split_url(v: &Vec<char>) -> (r: Option<UrlParts>)
    ensures
        match (r, scheme_and_rest(v@)) {
            (Some(p), Some((scheme, rest))) => {
                &&& p.hostport@ == host_and_path(rest).0
                &&& p.path@ == host_and_path(rest).1
                &&& (p.https ==> scheme == seq!['h', 't', 't', 'p', 's'])
                &&& (!p.https ==> scheme == seq!['h', 't', 't', 'p'])
            },
            (None, None) => true,
            _ => false,
        },
{
    let http = chars_of("http://");
    let https = chars_of("https://");
    proof {
        reveal_strlit("http://");
        reveal_strlit("https://");
        assert(http@ =~= http_prefix());
        assert(https@ =~= https_prefix());
    }
    let (is_https, skip) = if starts_with_chars(v, &http) {
        (false, 7usize)
    } else if starts_with_chars(v, &https) {
        (true, 8usize)
    } else {
        return None;
    };
    let mut rest: Vec<char> = Vec::new();
    let mut i: usize = skip;
    while i < v.len()
        invariant
            skip <= i <= v.len(),
            skip <= v.len(),
            rest@ == v@.subrange(skip as int, i as int),
        decreases v.len() - i,
    {
        rest.push(v[i]);
        assert(v@.subrange(skip as int, i as int).push(v@[i as int]) =~= v@.subrange(
            skip as int,
            i + 1,
        ));
        i += 1;
    }
    assert(rest@ =~= v@.skip(skip as int));
    match find_char(&rest, '/') {
        Some(k) => {
            let mut hostport: Vec<char> = Vec::new();
            let mut path: Vec<char> = Vec::new();
            let mut j: usize = 0;
            while j < rest.len()
                invariant
                    k < rest.len(),
                    j <= rest.len(),
                    j <= k ==> hostport@ == rest@.take(j as int) && path@.len() == 0,
                    j > k ==> hostport@ == rest@.take(k as int) && path@ == rest@.subrange(
                        k as int,
                        j as int,
                    ),
                decreases rest.len() - j,
            {
                if j < k {
                    hostport.push(rest[j]);
                    assert(rest@.take(j as int).push(rest@[j as int]) =~= rest@.take(j + 1));
                } else {
                    path.push(rest[j]);
                    assert(j == k ==> path@ =~= rest@.subrange(k as int, j + 1));
                    assert(j > k ==> rest@.subrange(k as int, j as int).push(rest@[j as int])
                        =~= rest@.subrange(k as int, j + 1));
                }
                j += 1;
            }
            assert(path@ =~= rest@.skip(k as int));
            Some(UrlParts { https: is_https, hostport, path })
        },
        None => Some(UrlParts { https: is_https, hostport: rest, path: Vec::new() }),
    }
}

/// Whether `p` is an octet (`is_octet`).
fn octet_ok(p: &Vec<char>) -> (b: bool)
    ensures
        b == is_octet(p@),
{
    if p.len() == 0 || p.len() > 3 {
        return false;
    }
    let mut val: u32 = 0;
    let mut i: usize = 0;
    while i < p.len()
        invariant
            1 <= p.len() <= 3,
            i <= p.len(),
            forall|j: int| 0 <= j < i ==> is_digit(#[trigger] p@[j]),
            val as int == decimal_value(p@.take(i as int)),
            i == 0 ==> val == 0,
            i == 1 ==> val <= 9,
            i == 2 ==> val <= 99,
            i == 3 ==> val <= 999,
        decreases p.len() - i,
    {
        let n = p[i] as u32;
        if n < 48 || n > 57 {
            return false;
        }
        assert(p@.take(i + 1).drop_last() =~= p@.take(i as int));
        val = val * 10 + (n - 48);
        i += 1;
    }
    assert(p@.take(p.len() as int) =~= p@);
    if p.len() > 1 && p[0] == '0' {
        return false;
    }
    val <= 255
}

/// Whether `host` is an IPv4 literal (`is_ipv4_literal`).
pub fn is_ipv4_host(host: &Vec<char>) -> (b: bool)
    ensures
        b == is_ipv4_literal(host@),
{
    let parts = split_on(host, '.');
    let ghost pv = parts@.map_values(|w: Vec<char>| w@);
    if parts.len() != 4 {
        return false;
    }
    let mut k: usize = 0;
    while k < 4
        invariant
            parts@.len() == 4,
            pv == parts@.map_values(|w: Vec<char>| w@),
            pv == split_char(host@, '.'),
            k <= 4,
            forall|j: int| 0 <= j < k ==> is_octet(#[trigger] pv[j]),
        decreases 4 - k,
    {
        if !octet_ok(&parts[k]) {
            assert(!is_octet(pv[k as int]));
            return false;
        }
        k += 1;
    }
    true
}

/// Whether `p` is a group of an IPv6 address (`is_hex_group`).
fn hex_group_ok(p: &Vec<char>) -> (b: bool)
    ensures
        b == is_hex_group(p@),
{
    if p.len() == 0 || p.len() > 4 {
        return false;
    }
    let mut i: usize = 0;
    while i < p.len()
        invariant
            i <= p.len(),
            forall|j: int| 0 <= j < i ==> is_hex(#[trigger] p@[j]),
        decreases p.len() - i,
    {
        let n = p[i] as u32;
        if !((48 <= n && n <= 57) || (97 <= n && n <= 102) || (65 <= n && n <= 70)) {
            assert(!is_hex(p@[i as int]));
            return false;
        }
        i += 1;
    }
    true
}

/// The number of groups of `s` (`group_count`), when it is at most 8;
/// `None` when `s` is no list of groups or writes more than 8.
fn groups_in(s: &Vec<char>, v4_last: bool) -> (r: Option<usize>)
    ensures
        match r {
            Some(c) => group_count(s@, v4_last) == Some(c as int) && c <= 9,
            None => match group_count(s@, v4_last) {
                Some(c) => c > 8,
                None => true,
            },
        },
{
    if s.len() == 0 {
        return Some(0);
    }
    let parts = split_on(s, ':');
    let ghost pv = parts@.map_values(|w: Vec<char>| w@);
    proof {
        lemma_split_nonempty(s@, ':');
    }
    let n = parts.len();
    if n > 8 {
        return None;
    }
    let mut k: usize = 0;
    while k + 1 < n
        invariant
            n == parts@.len(),
            1 <= n <= 8,
            pv == parts@.map_values(|w: Vec<char>| w@),
            pv == split_char(s@, ':'),
            k < n,
            forall|j: int| 0 <= j < k ==> is_hex_group(#[trigger] pv[j]),
        decreases n - k,
    {
        if !hex_group_ok(&parts[k]) {
            assert(!is_hex_group(pv[k as int]));
            return None;
        }
        k += 1;
    }
    if hex_group_ok(&parts[n - 1]) {
        Some(n)
    } else if v4_last && is_ipv4_host(&parts[n - 1]) {
        Some(n + 1)
    } else {
        None
    }
}

/// The position of the first `::` in `s`.
fn find_double_colon(s: &Vec<char>) -> (r: Option<usize>)
    ensures
        match r {
            Some(i) => double_colon_index(s@) == Some(i as int),
            None => double_colon_index(s@) is None,
        },
{
    let mut i: usize = 0;
    while i < s.len()
        invariant
            i <= s.len(),
            forall|j: int| 0 <= j < i && j + 1 < s@.len() ==> !(s@[j] == ':' && #[trigger] s@[j + 1] == ':'),
        decreases s.len() - i,
    {
        if i + 1 < s.len() && s[i] == ':' && s[i + 1] == ':' {
            proof {
                assert(is_first_double_colon(s@, i as int));
                let k = choose|k: int| is_first_double_colon(s@, k);
                if k < i {
                    assert(!(s@[k] == ':' && s@[k + 1] == ':'));
                } else if i < k {
                    assert(!(s@[i as int] == ':' && s@[i + 1] == ':'));
                }
            }
            return Some(i);
        }
        i += 1;
    }
    proof {
        if exists|k: int| is_first_double_colon(s@, k) {
            let k = choose|k: int| is_first_double_colon(s@, k);
            assert(!(s@[k] == ':' && s@[k + 1] == ':'));
        }
    }
    None
}

/// Whether `h` is an IPv6 address (`is_ipv6_literal`).
pub fn is_ipv6_host(h: &Vec<char>) -> (b: bool)
    ensures
        b == is_ipv6_literal(h@),
{
    match find_double_colon(h) {
        Some(i) => {
            let head = chars_range(h, 0, i);
            let tail = chars_range(h, i + 2, h.len());
            assert(head@ =~= h@.take(i as int));
            assert(tail@ =~= h@.skip(i + 2));
            match (groups_in(&head, false), groups_in(&tail, true)) {
                (Some(a), Some(b)) => a + b <= 7,
                _ => false,
            }
        },
        None => match groups_in(h, true) {
            Some(c) => c == 8,
            None => false,
        },
    }
}

/// Whether `hostport` names its host by an IP address (`is_ip_host`).
fn is_ip_hostport(hostport: &Vec<char>, name: &Vec<char>) -> (b: bool)
    requires
        name@ == host_name(hostport@),
    ensures
        b == is_ip_host(hostport@),
{
    if is_ipv4_host(name) {
        return true;
    }
    if hostport.len() == 0 || hostport[0] != '[' {
        return false;
    }
    match find_char(hostport, ']') {
        Some(j) => {
            if j + 1 == hostport.len() || hostport[j + 1] == ':' {
                let inner = chars_range(hostport, 1, j);
                is_ipv6_host(&inner)
            } else {
                false
            }
        },
        None => false,
    }
}

/// The host name and the lookup target of `hostport`, and the suffix that
/// carries its port into the rewritten URL.
fn host_pieces(hostport: &Vec<char>) -> (r: (Vec<char>, Vec<char>, Vec<char>))
    ensures
        r.0@ == host_name(hostport@),
        r.1@ == lookup_target(hostport@),
        r.2@ == port_suffix(hostport@),
{
    let pieces = split_on(hostport, ':');
    let ghost pv = pieces@.map_values(|w: Vec<char>| w@);
    proof {
        lemma_split_nonempty(hostport@, ':');
    }
    let name = pieces[0].clone();
    match find_char(hostport, ':') {
        Some(i) => {
            proof {
                assert(hostport@[i as int] == ':');
                assert(hostport@.contains(':'));
                lemma_split_two_when_contains(hostport@, ':');
            }
            let mut suffix: Vec<char> = Vec::new();
            suffix.push(':');
            let mut second = pieces[1].clone();
            suffix.append(&mut second);
            assert(suffix@ =~= seq![':'] + pv[1]);
            (name, hostport.clone(), suffix)
        },
        None => {
            assert(!hostport@.contains(':'));
            let mut target = hostport.clone();
            target.push(':');
            target.push('8');
            target.push('0');
            assert(target@ =~= hostport@ + seq![':', '8', '0']);
            (name, target, Vec::new())
        },
    }
}

/// The name to look up before `url` is handed on, or `None` when `url` is
/// kept as it is: when it is neither `http://` nor `https://`, or names its
/// host by an IP address already (IPv4, or IPv6 in square brackets). A host without a port is looked up on
/// port 80.
pub fn resolution_lookup_target(url: &str) -> (r: Option<String>)
    ensures
        opt_view(r) == resolution_target(url@),
{
    let v = chars_of(url);
    match split_url(&v) {
        None => None,
        Some(parts) => {
            let (name, target, _suffix) = host_pieces(&parts.hostport);
            if is_ip_hostport(&parts.hostport, &name) {
                None
            } else {
                Some(string_of(&target))
            }
        },
    }
}

/// `url` with its host name replaced by `first_ip`, the text of the first
/// address that the lookup of `resolution_lookup_target(url)` gave back. The
/// scheme, the port (the text between the first and the second `:` of the
/// host) and the path are kept. Where nothing was to be looked up, or the
/// lookup failed or gave no address (`first_ip` is `None`), `url` comes back
/// unchanged.
pub fn resolved_url(url: &str, first_ip: &Option<String>) -> (r: String)
    ensures
        r@ == resolved(url@, opt_view(*first_ip)),
{
    let v = chars_of(url);
    let kept = string_of(&v);
    match split_url(&v) {
        None => kept,
        Some(parts) => {
            let (name, _target, suffix) = host_pieces(&parts.hostport);
            if is_ip_hostport(&parts.hostport, &name) {
                return kept;
            }
            match first_ip {
                None => kept,
                Some(ip) => {
                    let scheme = scheme_chars(parts.https);
                    let mut out = string_of(&scheme);
                    append_str(&mut out, "://");
                    append_str(&mut out, ip.as_str());
                    append_chars(&mut out, &suffix);
                    append_chars(&mut out, &parts.path);
                    proof {
                        reveal_strlit("://");
                        assert("://"@ =~= scheme_separator());
                    }
                    out
                },
            }
        },
    }
}

} // verus!

verus! {

/// A text without `d` splits into pieces without `d`.
pub proof fn lemma_split_pieces_avoid(s: Seq<char>, c: char, d: char)
    requires
        forall|j: int| 0 <= j < s.len() ==> s[j] != d,
    ensures
        forall|k: int, j: int|
            0 <= k < split_char(s, c).len() && 0 <= j < split_char(s, c)[k].len() ==> #[trigger] split_char(
                s,
                c,
            )[k][j] != d,
    decreases s.len(),
{
    if s.len() > 0 {
        lemma_split_pieces_avoid(s.drop_last(), c, d);
        lemma_split_nonempty(s.drop_last(), c);
        let p = split_char(s.drop_last(), c);
        if s.last() != c {
            let q = p.update(p.len() - 1, p.last().push(s.last()));
            assert forall|k: int, j: int| 0 <= k < q.len() && 0 <= j < q[k].len() implies #[trigger] q[k][j]
                != d by {
                if k == p.len() - 1 && j == p.last().len() {
                    assert(q[k][j] == s.last());
                } else if k == p.len() - 1 {
                    assert(q[k][j] == p[k][j]);
                } else {
                    assert(q[k] == p[k]);
                }
            }
        } else {
            let q = p.push(Seq::<char>::empty());
            assert forall|k: int, j: int| 0 <= k < q.len() && 0 <= j < q[k].len() implies #[trigger] q[k][j]
                != d by {
                assert(k < p.len());
                assert(q[k] == p[k]);
            }
        }
    }
}

/// A text whose pieces avoid `d`, where `d` is not the separator, avoids `d`.
pub proof fn lemma_pieces_avoid_text_avoids(s: Seq<char>, c: char, d: char)
    requires
        c != d,
        forall|k: int, j: int|
            0 <= k < split_char(s, c).len() && 0 <= j < split_char(s, c)[k].len() ==> #[trigger] split_char(
                s,
                c,
            )[k][j] != d,
    ensures
        forall|j: int| 0 <= j < s.len() ==> s[j] != d,
    decreases s.len(),
{
    if s.len() > 0 {
        lemma_split_nonempty(s.drop_last(), c);
        let p = split_char(s.drop_last(), c);
        let q = split_char(s, c);
        if s.last() != c {
            assert forall|k: int, j: int| 0 <= k < p.len() && 0 <= j < p[k].len() implies #[trigger] p[k][j]
                != d by {
                if k == p.len() - 1 {
                    assert(q[k][j] == p[k][j]);
                } else {
                    assert(q[k] == p[k]);
                }
            }
            assert(q[p.len() - 1][p.last().len() as int] == s.last());
        } else {
            assert forall|k: int, j: int| 0 <= k < p.len() && 0 <= j < p[k].len() implies #[trigger] p[k][j]
                != d by {
                assert(q[k] == p[k]);
            }
        }
        lemma_pieces_avoid_text_avoids(s.drop_last(), c, d);
        assert forall|j: int| 0 <= j < s.len() implies s[j] != d by {
            if j < s.len() - 1 {
                assert(s[j] == s.drop_last()[j]);
            }
        }
    }
}

/// An IPv4 literal holds neither `/` nor `:`.
pub proof fn lemma_ipv4_has_no_slash_or_colon(ip: Seq<char>)
    requires
        is_ipv4_literal(ip),
    ensures
        forall|j: int| 0 <= j < ip.len() ==> ip[j] != '/' && ip[j] != ':',
{
    let parts = split_char(ip, '.');
    assert forall|k: int, j: int| 0 <= k < parts.len() && 0 <= j < parts[k].len() implies #[trigger] parts[k][j]
        != '/' by {
        assert(is_octet(parts[k]));
        assert(is_digit(parts[k][j]));
    }
    lemma_pieces_avoid_text_avoids(ip, '.', '/');
    assert forall|k: int, j: int| 0 <= k < parts.len() && 0 <= j < parts[k].len() implies #[trigger] parts[k][j]
        != ':' by {
        assert(is_octet(parts[k]));
        assert(is_digit(parts[k][j]));
    }
    lemma_pieces_avoid_text_avoids(ip, '.', ':');
}

/// A text that holds `c` has a first `c`.
pub proof fn lemma_first_exists(s: Seq<char>, c: char)
    requires
        s.contains(c),
    ensures
        first_index(s, c) is Some,
        is_first(s, c, first_index(s, c)->0),
    decreases s.len(),
{
    if s[0] == c {
        assert(is_first(s, c, 0));
        lemma_first_unique(s, c, 0);
    } else {
        let t = s.drop_first();
        let j = choose|j: int| 0 <= j < s.len() && s[j] == c;
        assert(t[j - 1] == c);
        lemma_first_exists(t, c);
        let i = first_index(t, c)->0;
        assert(is_first(s, c, i + 1)) by {
            assert forall|k: int| 0 <= k < i + 1 implies s[k] != c by {
                if k > 0 {
                    assert(s[k] == t[k - 1]);
                }
            }
        }
        lemma_first_unique(s, c, i + 1);
    }
}

/// The host of `rest` holds no `/`, and its path is empty or starts with `/`.
pub proof fn lemma_host_and_path_shape(rest: Seq<char>)
    ensures
        forall|j: int|
            0 <= j < host_and_path(rest).0.len() ==> host_and_path(rest).0[j] != '/',
        host_and_path(rest).1.len() == 0 || host_and_path(rest).1[0] == '/',
{
    if rest.contains('/') {
        lemma_first_exists(rest, '/');
    } else {
        if exists|i: int| is_first(rest, '/', i) {
            let i = choose|i: int| is_first(rest, '/', i);
            assert(rest.contains('/'));
        }
    }
}

/// Once its host is replaced by an IPv4 address, a URL needs no further
/// lookup: resolving is done once and for all.
pub proof fn lemma_resolved_url_needs_no_lookup(url: Seq<char>, ip: Seq<char>)
    requires
        is_ipv4_literal(ip),
    ensures
        resolution_target(resolved(url, Some(ip))) is None,
{
    match (resolution_target(url), scheme_and_rest(url)) {
        (Some(_), Some((scheme, rest))) => {
            let (hostport, path) = host_and_path(rest);
            let ps = port_suffix(hostport);
            let r = scheme + scheme_separator() + ip + ps + path;
            assert(resolved(url, Some(ip)) == r);
            let rest2 = ip + ps + path;
            if scheme == seq!['h', 't', 't', 'p'] {
                assert(r.take(7) =~= http_prefix());
                assert(r.skip(7) =~= rest2);
            } else {
                assert(r[4] == 's');
                assert(r.take(7) != http_prefix());
                assert(r.take(8) =~= https_prefix());
                assert(r.skip(8) =~= rest2);
            }
            assert(scheme_and_rest(r) == Some((scheme, rest2)));
            lemma_host_and_path_shape(rest);
            lemma_ipv4_has_no_slash_or_colon(ip);
            lemma_split_pieces_avoid(hostport, ':', '/');
            let hp2 = ip + ps;
            if hostport.contains(':') {
                lemma_split_two_when_contains(hostport, ':');
                let second = split_char(hostport, ':')[1];
                assert forall|j: int| 0 <= j < second.len() implies second[j] != '/' by {
                    assert(split_char(hostport, ':')[1][j] != '/');
                }
                assert(hp2 =~= ip.push(':') + second);
                lemma_split_at_first(ip, ':', second);
            } else {
                assert(hp2 =~= ip);
                lemma_split_without_sep(ip, ':');
            }
            assert(host_name(hp2) == ip);
            assert forall|j: int| 0 <= j < hp2.len() implies hp2[j] != '/' by {
                if j < ip.len() {
                    assert(hp2[j] == ip[j]);
                } else if j > ip.len() {
                    assert(hp2[j] == ps[j - ip.len()]);
                }
            }
            if path.len() > 0 {
                assert(is_first(rest2, '/', hp2.len() as int)) by {
                    assert(rest2 =~= hp2 + path);
                    assert forall|k: int| 0 <= k < hp2.len() implies rest2[k] != '/' by {
                        assert(rest2[k] == hp2[k]);
                    }
                }
                lemma_first_unique(rest2, '/', hp2.len() as int);
                assert(rest2.take(hp2.len() as int) =~= hp2);
            } else {
                assert(rest2 =~= hp2);
                lemma_first_none(rest2, '/');
            }
            assert(host_and_path(rest2).0 == hp2);
        },
        _ => {},
    }
}

} // verus!

verus! {

pub open spec fn scheme_name(https: bool) -> Seq<char> {
    if https {
        seq!['h', 't', 't', 'p', 's']
    } else {
        seq!['h', 't', 't', 'p']
    }
}

/// `scheme://HOSTPORT PATH` splits into its scheme, host and path.
proof fn lemma_url_splits(https: bool, hostport: Seq<char>, path: Seq<char>)
    requires
        forall|j: int| 0 <= j < hostport.len() ==> hostport[j] != '/',
        path.len() == 0 || path[0] == '/',
    ensures
        scheme_and_rest(scheme_name(https) + seq![':', '/', '/'] + hostport + path) == Some(
            (scheme_name(https), hostport + path),
        ),
        host_and_path(hostport + path) == (hostport, path),
{
    let url = scheme_name(https) + seq![':', '/', '/'] + hostport + path;
    let rest = hostport + path;
    if https {
        assert(url[4] == 's');
        assert(url.take(7) != http_prefix());
        assert(url.take(8) =~= https_prefix());
        assert(url.skip(8) =~= rest);
    } else {
        assert(url.take(7) =~= http_prefix());
        assert(url.skip(7) =~= rest);
    }
    if path.len() > 0 {
        assert(is_first(rest, '/', hostport.len() as int)) by {
            assert forall|k: int| 0 <= k < hostport.len() implies rest[k] != '/' by {
                assert(rest[k] == hostport[k]);
            }
        }
        lemma_first_unique(rest, '/', hostport.len() as int);
        assert(rest.take(hostport.len() as int) =~= hostport);
        assert(rest.skip(hostport.len() as int) =~= path);
    } else {
        assert(rest =~= hostport);
        lemma_first_none(rest, '/');
    }
}

/// A name with a character other than a digit or `.` is no IPv4 address.
proof fn lemma_name_not_ipv4(name: Seq<char>, j: int)
    requires
        0 <= j < name.len(),
        name[j] != '.',
        !is_digit(name[j]),
    ensures
        !is_ipv4_literal(name),
{
    if is_ipv4_literal(name) {
        let d = name[j];
        let parts = split_char(name, '.');
        assert forall|k: int, i: int| 0 <= k < parts.len() && 0 <= i < parts[k].len() implies #[trigger] parts[k][i]
            != d by {
            assert(is_octet(parts[k]));
            assert(is_digit(parts[k][i]));
        }
        lemma_pieces_avoid_text_avoids(name, '.', d);
        assert(name[j] != d);
    }
}

/// A host name and port is no IP address when the name holds a character
/// other than a digit or `.` and does not start with `[`.
proof fn lemma_hostport_not_ip(name: Seq<char>, rest: Seq<char>, j: int)
    requires
        0 <= j < name.len(),
        name[j] != '.',
        !is_digit(name[j]),
        name[0] != '[',
        forall|i: int| 0 <= i < name.len() ==> name[i] != ':',
        rest.len() == 0 || rest[0] == ':',
    ensures
        host_name(name + rest) == name,
        !is_ip_host(name + rest),
{
    let hp = name + rest;
    if rest.len() == 0 {
        assert(hp =~= name);
        lemma_split_without_sep(name, ':');
    } else {
        assert(hp =~= name.push(':') + rest.skip(1));
        lemma_split_at_first(name, ':', rest.skip(1));
    }
    lemma_name_not_ipv4(name, j);
    assert(hp[0] == name[0]);
}

/// Resolving `scheme://NAME:PORT/PATH`, where NAME is a host name (not an
/// IP address), looks up `NAME:PORT` and writes `scheme://IP:PORT/PATH`: the
/// scheme, the whole port text, whatever its length, and the path are kept;
/// only the name is replaced.
#[verifier::rlimit(60)]
pub proof fn lemma_resolved_url_keeps_port_and_path(
    https: bool,
    name: Seq<char>,
    port: Seq<char>,
    path: Seq<char>,
    ip: Seq<char>,
    j: int,
)
    requires
        0 <= j < name.len(),
        name[j] != '.',
        !is_digit(name[j]),
        name[0] != '[',
        forall|i: int| 0 <= i < name.len() ==> name[i] != ':' && name[i] != '/',
        forall|i: int| 0 <= i < port.len() ==> port[i] != ':' && port[i] != '/',
        path.len() == 0 || path[0] == '/',
    ensures
        resolution_target(scheme_name(https) + seq![':', '/', '/'] + name + seq![':'] + port + path)
            == Some(name + seq![':'] + port),
        resolved(scheme_name(https) + seq![':', '/', '/'] + name + seq![':'] + port + path, Some(ip))
            == scheme_name(https) + seq![':', '/', '/'] + ip + seq![':'] + port + path,
{
    let hp = name + seq![':'] + port;
    assert forall|i: int| 0 <= i < hp.len() implies hp[i] != '/' by {
        if i < name.len() {
            assert(hp[i] == name[i]);
        } else if i > name.len() {
            assert(hp[i] == port[i - name.len() - 1]);
        }
    }
    let url = scheme_name(https) + seq![':', '/', '/'] + name + seq![':'] + port + path;
    assert(url =~= scheme_name(https) + seq![':', '/', '/'] + hp + path);
    lemma_url_splits(https, hp, path);
    lemma_hostport_not_ip(name, seq![':'] + port, j);
    assert(hp =~= name + (seq![':'] + port));
    assert(hp[name.len() as int] == ':');
    assert(hp.contains(':'));
    assert(hp =~= name.push(':') + port);
    lemma_split_at_first(name, ':', port);
    lemma_split_without_sep(port, ':');
    assert(split_char(hp, ':')[1] == port);
    assert(port_suffix(hp) =~= seq![':'] + port);
}

/// Resolving `scheme://NAME/PATH`, where NAME is a host name without a port,
/// looks up `NAME:80` and writes `scheme://IP/PATH`, adding no port.
#[verifier::rlimit(60)]
pub proof fn lemma_resolved_url_without_port(
    https: bool,
    name: Seq<char>,
    path: Seq<char>,
    ip: Seq<char>,
    j: int,
)
    requires
        0 <= j < name.len(),
        name[j] != '.',
        !is_digit(name[j]),
        name[0] != '[',
        forall|i: int| 0 <= i < name.len() ==> name[i] != ':' && name[i] != '/',
        path.len() == 0 || path[0] == '/',
    ensures
        resolution_target(scheme_name(https) + seq![':', '/', '/'] + name + path) == Some(
            name + seq![':', '8', '0'],
        ),
        resolved(scheme_name(https) + seq![':', '/', '/'] + name + path, Some(ip)) == scheme_name(
            https,
        ) + seq![':', '/', '/'] + ip + path,
{
    lemma_url_splits(https, name, path);
    lemma_hostport_not_ip(name, Seq::<char>::empty(), j);
    assert(name + Seq::<char>::empty() =~= name);
    assert(!name.contains(':'));
    assert(port_suffix(name) =~= Seq::<char>::empty());
    assert(scheme_name(https) + seq![':', '/', '/'] + ip + Seq::<char>::empty() + path
        =~= scheme_name(https) + seq![':', '/', '/'] + ip + path);
}

} // verus!
