//! Parsers for the text that remote commands print: the listening sockets
//! of `ss -tulnp` / `netstat -tulnp`, the memory and disk sections of the
//! system statistics script, and the lines of `ps`.

use vstd::prelude::*;
use crate::hosts::opt_chars;
use crate::outside::{spec_lowercase, to_lowercase};
use crate::text::{
    match_at, contains, find, find_char, find_char_chars, find_chars, from_chars, is_ws, is_whitespace,
    lemma_find_from, lemma_rfind_char, lemma_split_char_len, lines, lines_chars, parse_u32_chars,
    parse_uint, rfind_char, rfind_char_chars, slice_range, split_char, split_char_chars, split_ws,
    split_ws_chars, split_str, split_str_chars, starts_with, starts_with_chars, strip_prefixes,
    strip_prefixes_chars, strip_suffix_char, strip_suffix_char_chars, to_chars, trim, trim_chars,
    parse_u64_chars, vv, all_digits, digits_value,
};

verus! {

/// A socket that listens for connections.
#[derive(Debug, Clone, PartialEq, Eq)]
pub struct ListeningPort {
    pub proto: String,
    pub local_address: String,
    pub port: u32,
    pub process: Option<String>,
    pub pid: Option<u32>,
}

pub struct PortSpec {
    pub proto: Seq<char>,
    pub local_address: Seq<char>,
    pub port: nat,
    pub process: Option<Seq<char>>,
    pub pid: Option<nat>,
}

impl DeepView for ListeningPort {
    type V = PortSpec;

    open spec fn deep_view(&self) -> PortSpec {
        PortSpec {
            proto: self.proto@,
            local_address: self.local_address@,
            port: self.port as nat,
            process: opt_chars(self.process),
            pid: match self.pid {
                Some(p) => Some(p as nat),
                None => None,
            },
        }
    }
}

pub open spec fn has_colon(s: Seq<char>) -> bool {
    find_char(s, ':') is Some
}

/// The first of `parts[i..]` that holds a colon.
pub open spec fn first_colon_from(parts: Seq<Seq<char>>, i: int) -> Option<int>
    decreases parts.len() - i,
{
    if i < 0 || i >= parts.len() {
        None
    } else if has_colon(parts[i]) {
        Some(i)
    } else {
        first_colon_from(parts, i + 1)
    }
}

/// A peer address of a listening socket: any host, any port (`0.0.0.0:*`,
/// `[::]:*`, `*:*`).
pub open spec fn is_wildcard_peer(s: Seq<char>) -> bool {
    s.len() >= 2 && s[s.len() - 1] == '*' && s[s.len() - 2] == ':'
}

/// Which column holds the local address: `ss` writes it fifth (after the
/// state and two queue sizes), `netstat` fourth with the peer address
/// (`host:*`) fifth. So the fifth when it has a colon and is not such a
/// peer following an address, else the fourth when it has a colon, else the
/// first later one with a colon.
pub open spec fn addr_column(parts: Seq<Seq<char>>) -> Option<int> {
    if parts.len() >= 5 && has_colon(parts[4]) && !(is_wildcard_peer(parts[4]) && has_colon(
        parts[3],
    )) {
        Some(4)
    } else if has_colon(parts[3]) {
        Some(3)
    } else {
        first_colon_from(parts, 3)
    }
}

/// The first white-space position at or after `i`.
pub open spec fn find_ws_from(s: Seq<char>, i: int) -> Option<int>
    decreases s.len() - i,
{
    if i < 0 || i >= s.len() {
        None
    } else if is_ws(s[i]) {
        Some(i)
    } else {
        find_ws_from(s, i + 1)
    }
}

pub open spec fn pid_marker() -> Seq<char> {
    seq!['p', 'i', 'd', '=']
}

pub open spec fn users_marker() -> Seq<char> {
    seq!['u', 's', 'e', 'r', 's', ':', '(', '(', '"']
}

/// Process name and pid of a line: `netstat` writes `pid/name`, `ss`
/// writes `users:(("name",pid=N,...))`.
pub open spec fn process_info(l: Seq<char>) -> (Option<Seq<char>>, Option<nat>) {
    match find_char(l, '/') {
        Some(pos) => {
            let words = split_ws(l.take(pos));
            if words.len() > 0 && parse_uint(words.last(), u32::MAX as nat) is Some {
                let after = l.skip(pos + 1);
                let name = match find_ws_from(after, 0) {
                    Some(sp) => after.take(sp),
                    None => after,
                };
                (Some(name), parse_uint(words.last(), u32::MAX as nat))
            } else {
                (None, None)
            }
        },
        None => match find(l, pid_marker()) {
            Some(idx) => {
                let pid_text = split_char(l.skip(idx + 4), ',')[0];
                let name = match find(l, users_marker()) {
                    Some(u) => {
                        let rest = l.skip(u + 9);
                        match find_char(rest, '"') {
                            Some(q) => Some(rest.take(q)),
                            None => None,
                        }
                    },
                    None => None,
                };
                (name, parse_uint(pid_text, u32::MAX as nat))
            },
            None => (None, None),
        },
    }
}

/// The listening socket one output line describes, if any, and if it
/// passes the port filter.
pub open spec fn parse_port_line(raw_line: Seq<char>, filter_port: Option<u32>) -> Option<PortSpec> {
    let l = trim(raw_line);
    if l.len() == 0 || starts_with(l, "Active"@) || starts_with(l, "Proto"@) || starts_with(
        l,
        "Netid"@,
    ) {
        None
    } else {
        let parts = split_ws(l);
        if parts.len() < 4 {
            None
        } else {
            let proto = spec_lowercase(parts[0]);
            let tcp = contains(proto, seq!['t', 'c', 'p']);
            let udp = contains(proto, seq!['u', 'd', 'p']);
            if !tcp && !udp {
                None
            } else {
                match addr_column(parts) {
                    None => None,
                    Some(ai) => {
                        let a = parts[ai];
                        match rfind_char(a, ':') {
                            None => None,
                            Some(lc) => match parse_uint(a.skip(lc + 1), u32::MAX as nat) {
                                None => None,
                                Some(port) => if filter_port matches Some(fp) && port != fp {
                                    None
                                } else {
                                    let info = process_info(l);
                                    Some(
                                        PortSpec {
                                            proto: if tcp {
                                                seq!['t', 'c', 'p']
                                            } else {
                                                seq!['u', 'd', 'p']
                                            },
                                            local_address: a.take(lc),
                                            port,
                                            process: info.0,
                                            pid: info.1,
                                        },
                                    )
                                },
                            },
                        }
                    },
                }
            }
        }
    }
}

/// The sockets of each line, in order.
pub open spec fn ports_of_lines(ls: Seq<Seq<char>>, filter_port: Option<u32>) -> Seq<PortSpec>
    decreases ls.len(),
{
    if ls.len() == 0 {
        Seq::empty()
    } else {
        let prev = ports_of_lines(ls.drop_last(), filter_port);
        match parse_port_line(ls.last(), filter_port) {
            Some(p) => prev.push(p),
            None => prev,
        }
    }
}

pub open spec fn same_socket(a: PortSpec, b: PortSpec) -> bool {
    a.proto == b.proto && a.port == b.port
}

/// The first socket of each (protocol, port) pair.
pub open spec fn dedup_ports(s: Seq<PortSpec>) -> Seq<PortSpec>
    decreases s.len(),
{
    if s.len() == 0 {
        Seq::empty()
    } else {
        let r = dedup_ports(s.drop_last());
        if exists|k: int| 0 <= k < r.len() && same_socket(#[trigger] r[k], s.last()) {
            r
        } else {
            r.push(s.last())
        }
    }
}

pub open spec fn spec_parse_listening_ports(raw: Seq<char>, filter_port: Option<u32>) -> Seq<
    PortSpec,
> {
    dedup_ports(ports_of_lines(lines(raw), filter_port))
}

fn has_colon_exec(s: &[char]) -> (r: bool)
    ensures
        r == has_colon(s@),
{
    find_char_chars(s, ':').is_some()
}

fn addr_column_exec(parts: &Vec<Vec<char>>) -> (r: Option<usize>)
    requires
        parts@.len() >= 4,
    ensures
        match r {
            Some(i) => addr_column(vv(parts@)) == Some(i as int) && i < parts@.len(),
            None => addr_column(vv(parts@)) is None,
        },
{
    let ghost ps = vv(parts@);
    assert(ps[3] == parts@[3]@);
    let third = has_colon_exec(parts[3].as_slice());
    if parts.len() >= 5 && has_colon_exec(parts[4].as_slice()) {
        assert(ps[4] == parts@[4]@);
        let f = &parts[4];
        let n = f.len();
        let peer = n >= 2 && f[n - 1] == '*' && f[n - 2] == ':';
        if !(peer && third) {
            return Some(4);
        }
    }
    if third {
        return Some(3);
    }
    let mut i: usize = 3;
    while i < parts.len()
        invariant
            3 <= i <= parts@.len(),
            ps == vv(parts@),
            addr_column(ps) == first_colon_from(ps, 3),
            first_colon_from(ps, 3) == first_colon_from(ps, i as int),
        decreases parts.len() - i,
    {
        assert(ps[i as int] == parts@[i as int]@);
        if has_colon_exec(parts[i].as_slice()) {
            return Some(i);
        }
        i = i + 1;
    }
    None
}

fn find_ws_exec(s: &[char]) -> (r: Option<usize>)
    ensures
        match r {
            Some(k) => find_ws_from(s@, 0) == Some(k as int) && k < s@.len(),
            None => find_ws_from(s@, 0) is None,
        },
{
    let mut i: usize = 0;
    while i < s.len()
        invariant
            i <= s@.len(),
            find_ws_from(s@, 0) == find_ws_from(s@, i as int),
        decreases s.len() - i,
    {
        if is_whitespace(s[i]) {
            return Some(i);
        }
        i = i + 1;
    }
    None
}

fn process_info_exec(l: &[char]) -> (r: (Option<String>, Option<u32>))
    ensures
        opt_chars(r.0) == process_info(l@).0,
        match r.1 {
            Some(p) => process_info(l@).1 == Some(p as nat),
            None => process_info(l@).1 is None,
        },
{
    match find_char_chars(l, '/') {
        Some(pos) => {
            proof {
                lemma_find_from(l@, seq!['/'], 0);
                assert(match_at(l@, seq!['/'], pos as int));
            }
            let head = slice_range(l, 0, pos);
            assert(head@ =~= l@.take(pos as int));
            let words = split_ws_chars(head.as_slice());
            if words.len() == 0 {
                return (None, None);
            }
            assert(vv(words@).last() == words@[words@.len() - 1]@);
            match parse_u32_chars(words[words.len() - 1].as_slice()) {
                Some(pid) => {
                    let after = slice_range(l, pos + 1, l.len());
                    assert(after@ =~= l@.skip(pos + 1));
                    let name = match find_ws_exec(after.as_slice()) {
                        Some(sp) => {
                            let n = slice_range(after.as_slice(), 0, sp);
                            assert(n@ =~= after@.take(sp as int));
                            n
                        },
                        None => after,
                    };
                    (Some(from_chars(name.as_slice())), Some(pid))
                },
                None => (None, None),
            }
        },
        None => {
            let pm: Vec<char> = vec!['p', 'i', 'd', '='];
            assert(pm@ =~= pid_marker());
            match find_chars(l, pm.as_slice()) {
                Some(idx) => {
                    proof {
                        lemma_find_from(l@, pid_marker(), 0);
                        assert(match_at(l@, pid_marker(), idx as int));
                        assert(pid_marker().len() == 4);
                        assert(idx + 4 <= l@.len());
                        assert(l@.len() == l.len());
                    }
                    let rest = slice_range(l, idx + 4, l.len());
                    assert(rest@ =~= l@.skip(idx + 4));
                    let pieces = split_char_chars(rest.as_slice(), ',');
                    proof {
                        lemma_split_char_len(rest@, ',');
                    }
                    assert(vv(pieces@)[0] == pieces@[0]@);
                    let pid = parse_u32_chars(pieces[0].as_slice());
                    let um: Vec<char> = vec!['u', 's', 'e', 'r', 's', ':', '(', '(', '"'];
                    assert(um@ =~= users_marker());
                    let name = match find_chars(l, um.as_slice()) {
                        Some(u) => {
                            proof {
                                lemma_find_from(l@, users_marker(), 0);
                                assert(match_at(l@, users_marker(), u as int));
                                assert(users_marker().len() == 9);
                            }
                            let tail = slice_range(l, u + 9, l.len());
                            assert(tail@ =~= l@.skip(u + 9));
                            match find_char_chars(tail.as_slice(), '"') {
                                Some(q) => {
                                    proof {
                                        lemma_find_from(tail@, seq!['"'], 0);
                                    }
                                    let n = slice_range(tail.as_slice(), 0, q);
                                    assert(n@ =~= tail@.take(q as int));
                                    Some(from_chars(n.as_slice()))
                                },
                                None => None,
                            }
                        },
                        None => None,
                    };
                    (name, pid)
                },
                None => (None, None),
            }
        },
    }
}

fn parse_port_line_exec(raw_line: &[char], filter_port: Option<u32>) -> (r: Option<ListeningPort>)
    ensures
        match r {
            Some(p) => parse_port_line(raw_line@, filter_port) == Some(p.deep_view()),
            None => parse_port_line(raw_line@, filter_port) is None,
        },
{
    let l = trim_chars(raw_line);
    let active = to_chars("Active");
    let proto_word = to_chars("Proto");
    let netid = to_chars("Netid");
    if l.len() == 0 || starts_with_chars(l.as_slice(), active.as_slice()) || starts_with_chars(
        l.as_slice(),
        proto_word.as_slice(),
    ) || starts_with_chars(l.as_slice(), netid.as_slice()) {
        return None;
    }
    let parts = split_ws_chars(l.as_slice());
    if parts.len() < 4 {
        return None;
    }
    let ghost ps = vv(parts@);
    assert(ps[0] == parts@[0]@);
    let first = from_chars(parts[0].as_slice());
    let proto_lower = to_lowercase(first.as_str());
    let pl = to_chars(proto_lower.as_str());
    let tcp_word: Vec<char> = vec!['t', 'c', 'p'];
    let udp_word: Vec<char> = vec!['u', 'd', 'p'];
    assert(tcp_word@ =~= seq!['t', 'c', 'p']);
    assert(udp_word@ =~= seq!['u', 'd', 'p']);
    let tcp = find_chars(pl.as_slice(), tcp_word.as_slice()).is_some();
    let udp = find_chars(pl.as_slice(), udp_word.as_slice()).is_some();
    if !tcp && !udp {
        return None;
    }
    let ai = match addr_column_exec(&parts) {
        Some(i) => i,
        None => {
            return None;
        },
    };
    assert(ps[ai as int] == parts@[ai as int]@);
    let a = parts[ai].as_slice();
    let lc = match rfind_char_chars(a, ':') {
        Some(k) => k,
        None => {
            return None;
        },
    };
    proof {
        lemma_rfind_char(a@, ':');
        assert(lc < a@.len());
    }
    let port_text = slice_range(a, lc + 1, a.len());
    assert(port_text@ =~= a@.skip(lc + 1));
    let port = match parse_u32_chars(port_text.as_slice()) {
        Some(p) => p,
        None => {
            return None;
        },
    };
    match filter_port {
        Some(fp) => {
            if port != fp {
                return None;
            }
        },
        None => {},
    }
    let addr = slice_range(a, 0, lc);
    assert(addr@ =~= a@.take(lc as int));
    let info = process_info_exec(l.as_slice());
    let proto_out = if tcp {
        from_chars(tcp_word.as_slice())
    } else {
        from_chars(udp_word.as_slice())
    };
    Some(
        ListeningPort {
            proto: proto_out,
            local_address: from_chars(addr.as_slice()),
            port,
            process: info.0,
            pid: info.1,
        },
    )
}

fn copy_port(p: &ListeningPort) -> (r: ListeningPort)
    ensures
        r.deep_view() == p.deep_view(),
{
    ListeningPort {
        proto: p.proto.clone(),
        local_address: p.local_address.clone(),
        port: p.port,
        process: match &p.process {
            Some(s) => Some(s.clone()),
            None => None,
        },
        pid: p.pid,
    }
}

fn seen_socket(r: &Vec<ListeningPort>, p: &ListeningPort) -> (b: bool)
    ensures
        b == exists|k: int|
            0 <= k < r.deep_view().len() && same_socket(#[trigger] r.deep_view()[k], p.deep_view()),
{
    let pc = to_chars(p.proto.as_str());
    let mut i: usize = 0;
    while i < r.len()
        invariant
            i <= r@.len(),
            pc@ == p.proto@,
            forall|k: int| 0 <= k < i ==> !same_socket(#[trigger] r.deep_view()[k], p.deep_view()),
        decreases r.len() - i,
    {
        let qc = to_chars(r[i].proto.as_str());
        if r[i].port == p.port && crate::text::chars_eq(qc.as_slice(), pc.as_slice()) {
            assert(same_socket(r.deep_view()[i as int], p.deep_view()));
            return true;
        }
        i = i + 1;
    }
    false
}

/// The listening sockets in `ss` or `netstat` output, each (protocol, port)
/// once, optionally only those on `filter_port`.
pub fn parse_listening_ports(raw_output: &str, filter_port: Option<u32>) -> (r: Vec<ListeningPort>)
    ensures
        r.deep_view() == spec_parse_listening_ports(raw_output@, filter_port),
{
    let cs = to_chars(raw_output);
    let ls = lines_chars(cs.as_slice());
    let ghost l = vv(ls@);
    let mut found: Vec<ListeningPort> = Vec::new();
    let mut i: usize = 0;
    assert(l.take(0) =~= Seq::<Seq<char>>::empty());
    assert(found.deep_view() =~= Seq::<PortSpec>::empty());
    while i < ls.len()
        invariant
            l == vv(ls@),
            i <= l.len(),
            found.deep_view() == ports_of_lines(l.take(i as int), filter_port),
        decreases ls.len() - i,
    {
        assert(l.take(i + 1).drop_last() =~= l.take(i as int));
        assert(l.take(i + 1).last() == ls@[i as int]@);
        match parse_port_line_exec(ls[i].as_slice(), filter_port) {
            Some(p) => {
                let ghost before = found.deep_view();
                found.push(p);
                assert(found.deep_view() =~= before.push(p.deep_view()));
            },
            None => {},
        }
        i = i + 1;
    }
    assert(l.take(l.len() as int) =~= l);
    let ghost all = found.deep_view();
    let mut result: Vec<ListeningPort> = Vec::new();
    let mut j: usize = 0;
    assert(all.take(0) =~= Seq::<PortSpec>::empty());
    assert(result.deep_view() =~= Seq::<PortSpec>::empty());
    while j < found.len()
        invariant
            all == found.deep_view(),
            j <= all.len(),
            result.deep_view() == dedup_ports(all.take(j as int)),
        decreases found.len() - j,
    {
        assert(all.take(j + 1).drop_last() =~= all.take(j as int));
        assert(all.take(j + 1).last() == found@[j as int].deep_view());
        if !seen_socket(&result, &found[j]) {
            let ghost before = result.deep_view();
            let p = copy_port(&found[j]);
            result.push(p);
            assert(result.deep_view() =~= before.push(found@[j as int].deep_view()));
        }
        j = j + 1;
    }
    assert(all.take(all.len() as int) =~= all);
    result
}

/// What every parsed socket satisfies: a protocol of `tcp` or `udp`, and
/// the filter's port when there is a filter.
pub open spec fn port_ok(p: PortSpec, filter_port: Option<u32>) -> bool {
    (p.proto == seq!['t', 'c', 'p'] || p.proto == seq!['u', 'd', 'p']) && (filter_port matches Some(
        fp,
    ) ==> p.port == fp)
}

pub proof fn lemma_parse_port_line_ok(line: Seq<char>, filter_port: Option<u32>)
    ensures
        parse_port_line(line, filter_port) matches Some(p) ==> port_ok(p, filter_port),
{
}

pub proof fn lemma_ports_of_lines_ok(ls: Seq<Seq<char>>, filter_port: Option<u32>)
    ensures
        forall|k: int|
            0 <= k < ports_of_lines(ls, filter_port).len() ==> port_ok(
                #[trigger] ports_of_lines(ls, filter_port)[k],
                filter_port,
            ),
    decreases ls.len(),
{
    if ls.len() > 0 {
        let prev = ports_of_lines(ls.drop_last(), filter_port);
        lemma_ports_of_lines_ok(ls.drop_last(), filter_port);
        lemma_parse_port_line_ok(ls.last(), filter_port);
        assert forall|k: int| 0 <= k < ports_of_lines(ls, filter_port).len() implies port_ok(
            #[trigger] ports_of_lines(ls, filter_port)[k],
            filter_port,
        ) by {
            if k < prev.len() {
                assert(ports_of_lines(ls, filter_port)[k] == prev[k]);
            }
        }
    }
}

pub proof fn lemma_dedup_ports(s: Seq<PortSpec>)
    ensures
        forall|i: int, j: int|
            0 <= i < j < dedup_ports(s).len() ==> !same_socket(
                #[trigger] dedup_ports(s)[i],
                #[trigger] dedup_ports(s)[j],
            ),
        forall|k: int|
            0 <= k < dedup_ports(s).len() ==> exists|m: int|
                0 <= m < s.len() && #[trigger] dedup_ports(s)[k] == s[m],
    decreases s.len(),
{
    if s.len() > 0 {
        let init = s.drop_last();
        lemma_dedup_ports(init);
        let r = dedup_ports(init);
        assert forall|k: int| 0 <= k < dedup_ports(s).len() implies exists|m: int|
            0 <= m < s.len() && #[trigger] dedup_ports(s)[k] == s[m] by {
            if k < r.len() {
                assert(dedup_ports(s)[k] == r[k]);
                let m = choose|m: int| 0 <= m < init.len() && r[k] == init[m];
                assert(s[m] == init[m]);
            } else {
                assert(dedup_ports(s)[k] == s[s.len() - 1]);
            }
        }
    }
}

/// Each (protocol, port) pair occurs at most once in the parsed sockets.
pub proof fn law_listening_ports_unique(raw: Seq<char>, filter_port: Option<u32>)
    ensures
        forall|i: int, j: int|
            0 <= i < j < spec_parse_listening_ports(raw, filter_port).len() ==> !same_socket(
                #[trigger] spec_parse_listening_ports(raw, filter_port)[i],
                #[trigger] spec_parse_listening_ports(raw, filter_port)[j],
            ),
{
    lemma_dedup_ports(ports_of_lines(lines(raw), filter_port));
}

/// Every parsed socket is `tcp` or `udp`, and on the filter's port when a
/// filter is given.
pub proof fn law_listening_ports_filtered(raw: Seq<char>, filter_port: Option<u32>)
    ensures
        forall|k: int|
            0 <= k < spec_parse_listening_ports(raw, filter_port).len() ==> port_ok(
                #[trigger] spec_parse_listening_ports(raw, filter_port)[k],
                filter_port,
            ),
{
    let all = ports_of_lines(lines(raw), filter_port);
    lemma_ports_of_lines_ok(lines(raw), filter_port);
    lemma_dedup_ports(all);
    assert forall|k: int| 0 <= k < dedup_ports(all).len() implies port_ok(
        #[trigger] dedup_ports(all)[k],
        filter_port,
    ) by {
        let m = choose|m: int| 0 <= m < all.len() && dedup_ports(all)[k] == all[m];
        assert(port_ok(all[m], filter_port));
    }
}

/// A listening line whose address column is an address, a colon and a
/// port number gives that port and that address, whatever colons the
/// address itself holds (an IPv6 address such as `::` or `[::]`): the port
/// is what follows the last colon.
pub proof fn law_port_follows_the_last_colon(line: Seq<char>, addr: Seq<char>, digits: Seq<char>)
    requires
        ({
            let l = trim(line);
            let parts = split_ws(l);
            &&& l.len() > 0
            &&& !starts_with(l, "Active"@) && !starts_with(l, "Proto"@) && !starts_with(l, "Netid"@)
            &&& parts.len() >= 4
            &&& (contains(spec_lowercase(parts[0]), seq!['t', 'c', 'p']) || contains(
                spec_lowercase(parts[0]),
                seq!['u', 'd', 'p'],
            ))
            &&& addr_column(parts) matches Some(ai) && 0 <= ai < parts.len() && parts[ai] == addr
                + seq![':'] + digits
        }),
        digits.len() > 0,
        all_digits(digits),
        digits_value(digits) <= u32::MAX,
    ensures
        parse_port_line(line, None) matches Some(p) && p.local_address == addr && p.port
            == digits_value(digits),
{
    let a = addr + seq![':'] + digits;
    lemma_rfind_char(a, ':');
    assert(a[addr.len() as int] == ':');
    assert forall|j: int| addr.len() < j < a.len() implies a[j] != ':' by {
        assert(a[j] == digits[j - addr.len() - 1]);
        assert(crate::text::is_digit(digits[j - addr.len() - 1]));
    }
    assert(rfind_char(a, ':') == Some(addr.len() as int));
    assert(a.skip(addr.len() as int + 1) =~= digits);
    assert(a.take(addr.len() as int) =~= addr);
    assert(digits[0] != '+') by {
        assert(crate::text::is_digit(digits[0]));
    }
}

/// The sockets of `s` on port `p`, in order.
pub open spec fn on_port(s: Seq<PortSpec>, p: u32) -> Seq<PortSpec>
    decreases s.len(),
{
    if s.len() == 0 {
        Seq::empty()
    } else if s.last().port == p {
        on_port(s.drop_last(), p).push(s.last())
    } else {
        on_port(s.drop_last(), p)
    }
}

proof fn lemma_port_line_filter(line: Seq<char>, p: u32)
    ensures
        parse_port_line(line, Some(p)) == (match parse_port_line(line, None) {
            Some(e) => if e.port == p {
                Some(e)
            } else {
                None
            },
            None => None,
        }),
{
}

proof fn lemma_ports_of_lines_filter(ls: Seq<Seq<char>>, p: u32)
    ensures
        ports_of_lines(ls, Some(p)) == on_port(ports_of_lines(ls, None), p),
    decreases ls.len(),
{
    if ls.len() > 0 {
        lemma_ports_of_lines_filter(ls.drop_last(), p);
        lemma_port_line_filter(ls.last(), p);
        let all = ports_of_lines(ls, None);
        let prev = ports_of_lines(ls.drop_last(), None);
        match parse_port_line(ls.last(), None) {
            Some(e) => {
                assert(all.drop_last() =~= prev);
            },
            None => {},
        }
    }
}

proof fn lemma_on_port_members(s: Seq<PortSpec>, p: u32)
    ensures
        forall|k: int|
            0 <= k < on_port(s, p).len() ==> (#[trigger] on_port(s, p)[k]).port == p && exists|m: int|
                0 <= m < s.len() && s[m] == on_port(s, p)[k],
        forall|m: int|
            0 <= m < s.len() && (#[trigger] s[m]).port == p ==> exists|k: int|
                0 <= k < on_port(s, p).len() && on_port(s, p)[k] == s[m],
    decreases s.len(),
{
    if s.len() > 0 {
        let init = s.drop_last();
        lemma_on_port_members(init, p);
        let q = on_port(init, p);
        let r = on_port(s, p);
        assert forall|k: int| 0 <= k < r.len() implies (#[trigger] r[k]).port == p && exists|m: int|
            0 <= m < s.len() && s[m] == r[k] by {
            if k < q.len() {
                assert(r[k] == q[k]);
                let m = choose|m: int| 0 <= m < init.len() && init[m] == q[k];
                assert(s[m] == init[m]);
            } else {
                assert(r[k] == s[s.len() - 1]);
            }
        }
        assert forall|m: int| 0 <= m < s.len() && (#[trigger] s[m]).port == p implies exists|k: int|
            0 <= k < r.len() && r[k] == s[m] by {
            if m < init.len() {
                assert(init[m] == s[m]);
                let k = choose|k: int| 0 <= k < q.len() && q[k] == init[m];
                assert(r[k] == q[k]);
            } else {
                assert(r[r.len() - 1] == s[m]);
            }
        }
    }
}

proof fn lemma_dedup_on_port(s: Seq<PortSpec>, p: u32)
    ensures
        dedup_ports(on_port(s, p)) == on_port(dedup_ports(s), p),
    decreases s.len(),
{
    if s.len() > 0 {
        let init = s.drop_last();
        let x = s.last();
        lemma_dedup_on_port(init, p);
        let r = dedup_ports(init);
        let rp = on_port(r, p);
        lemma_on_port_members(r, p);
        if x.port == p {
            assert(on_port(s, p).drop_last() =~= on_port(init, p));
            let seen = exists|k: int| 0 <= k < r.len() && same_socket(#[trigger] r[k], x);
            let seen_p = exists|k: int| 0 <= k < rp.len() && same_socket(#[trigger] rp[k], x);
            if seen {
                let k = choose|k: int| 0 <= k < r.len() && same_socket(#[trigger] r[k], x);
                let j = choose|j: int| 0 <= j < rp.len() && rp[j] == r[k];
                assert(same_socket(rp[j], x));
            }
            if seen_p {
                let j = choose|j: int| 0 <= j < rp.len() && same_socket(#[trigger] rp[j], x);
                let m = choose|m: int| 0 <= m < r.len() && r[m] == rp[j];
                assert(same_socket(r[m], x));
            }
            assert(seen == seen_p);
            if !seen {
                assert(dedup_ports(s) == r.push(x));
                assert(dedup_ports(s).drop_last() =~= r);
            }
        } else {
            if !(exists|k: int| 0 <= k < r.len() && same_socket(#[trigger] r[k], x)) {
                assert(dedup_ports(s).drop_last() =~= r);
            }
        }
    }
}

/// Filtering the listening sockets by port gives the sockets found without
/// a filter that are on that port, in the same order: the first line for
/// each (protocol, port) pair wins either way.
pub proof fn law_port_filter_is_a_filter(raw: Seq<char>, p: u32)
    ensures
        spec_parse_listening_ports(raw, Some(p)) == on_port(spec_parse_listening_ports(raw, None), p),
{
    lemma_ports_of_lines_filter(lines(raw), p);
    lemma_dedup_on_port(ports_of_lines(lines(raw), None), p);
}

// ---------------------------------------------------------------------------
// System statistics: memory and disk sections
// ---------------------------------------------------------------------------

/// Memory figures in kB.
#[derive(Debug, Clone, PartialEq, Eq)]
pub struct MemoryStats {
    pub total_kb: u64,
    pub free_kb: u64,
    pub available_kb: Option<u64>,
    pub used_kb: u64,
}

pub struct MemSpec {
    pub total: nat,
    pub free: nat,
    pub available: Option<nat>,
    pub used: nat,
}

pub open spec fn opt_nat(o: Option<u64>) -> Option<nat> {
    match o {
        Some(v) => Some(v as nat),
        None => None,
    }
}

impl DeepView for MemoryStats {
    type V = MemSpec;

    open spec fn deep_view(&self) -> MemSpec {
        MemSpec {
            total: self.total_kb as nat,
            free: self.free_kb as nat,
            available: opt_nat(self.available_kb),
            used: self.used_kb as nat,
        }
    }
}

/// One mounted file system, sizes in kB.
#[derive(Debug, Clone, PartialEq, Eq)]
pub struct DiskStats {
    pub filesystem: String,
    pub size_kb: u64,
    pub used_kb: u64,
    pub available_kb: u64,
    pub use_percent: u32,
    pub mount_point: String,
}

pub struct DiskSpec {
    pub filesystem: Seq<char>,
    pub size: nat,
    pub used: nat,
    pub available: nat,
    pub use_percent: nat,
    pub mount_point: Seq<char>,
}

impl DeepView for DiskStats {
    type V = DiskSpec;

    open spec fn deep_view(&self) -> DiskSpec {
        DiskSpec {
            filesystem: self.filesystem@,
            size: self.size_kb as nat,
            used: self.used_kb as nat,
            available: self.available_kb as nat,
            use_percent: self.use_percent as nat,
            mount_point: self.mount_point@,
        }
    }
}

/// The second word of a `/proc/meminfo` line as a number.
pub open spec fn meminfo_value(t: Seq<char>) -> Option<nat> {
    let ws = split_ws(t);
    if ws.len() > 1 {
        parse_uint(ws[1], u64::MAX as nat)
    } else {
        None
    }
}

/// The value of the last `/proc/meminfo` line that starts with `key`.
pub open spec fn meminfo_field(ls: Seq<Seq<char>>, key: Seq<char>) -> Option<nat>
    decreases ls.len(),
{
    if ls.len() == 0 {
        None
    } else if starts_with(trim(ls.last()), key) {
        meminfo_value(trim(ls.last()))
    } else {
        meminfo_field(ls.drop_last(), key)
    }
}

/// A `Mem:` line of `free -k`: total, used and free, and available when
/// the line has seven columns.
pub open spec fn free_line_step(m: MemSpec, line: Seq<char>) -> MemSpec {
    let ps = split_ws(line);
    if ps.len() >= 4 && starts_with(ps[0], "Mem:"@) {
        match (
            parse_uint(ps[1], u64::MAX as nat),
            parse_uint(ps[2], u64::MAX as nat),
            parse_uint(ps[3], u64::MAX as nat),
        ) {
            (Some(t), Some(u), Some(f)) => MemSpec {
                total: t,
                free: f,
                used: u,
                available: if ps.len() >= 7 {
                    parse_uint(ps[6], u64::MAX as nat)
                } else {
                    m.available
                },
            },
            _ => m,
        }
    } else {
        m
    }
}

pub open spec fn free_lines(ls: Seq<Seq<char>>, m: MemSpec) -> MemSpec
    decreases ls.len(),
{
    if ls.len() == 0 {
        m
    } else {
        free_line_step(free_lines(ls.drop_last(), m), ls.last())
    }
}

pub open spec fn sat_sub(a: nat, b: nat) -> nat {
    if a >= b {
        (a - b) as nat
    } else {
        0
    }
}

/// A memory section read in `/proc/meminfo` form when it has both
/// `MemTotal:` and `MemFree:` (used is total less available, or less free
/// when there is no `MemAvailable:`), else in `free -k` form over `m`.
pub open spec fn apply_memory(content: Seq<char>, m: MemSpec) -> MemSpec {
    let ls = lines(content);
    match (meminfo_field(ls, "MemTotal:"@), meminfo_field(ls, "MemFree:"@)) {
        (Some(t), Some(f)) => {
            let a = meminfo_field(ls, "MemAvailable:"@);
            MemSpec {
                total: t,
                free: f,
                available: a,
                used: sat_sub(
                    t,
                    match a {
                        Some(x) => x,
                        None => f,
                    },
                ),
            }
        },
        _ => free_lines(ls, m),
    }
}

/// A line of `df -kP`: pseudo file systems (`tmpfs`, `devtmpfs`, `udev`,
/// loop devices), the header and short or unparsable lines give nothing.
pub open spec fn disk_of_line(line: Seq<char>) -> Option<DiskSpec> {
    let t = trim(line);
    if t.len() == 0 || starts_with(t, "Filesystem"@) {
        None
    } else {
        let ps = split_ws(t);
        if ps.len() < 6 {
            None
        } else {
            let fs = ps[0];
            if fs == "tmpfs"@ || fs == "devtmpfs"@ || fs == "udev"@ || starts_with(fs, "/dev/loop"@) {
                None
            } else {
                match (
                    parse_uint(ps[1], u64::MAX as nat),
                    parse_uint(ps[2], u64::MAX as nat),
                    parse_uint(ps[3], u64::MAX as nat),
                ) {
                    (Some(size), Some(used), Some(avail)) => Some(
                        DiskSpec {
                            filesystem: fs,
                            size,
                            used,
                            available: avail,
                            use_percent: match parse_uint(
                                strip_suffix_char(ps[4], '%'),
                                u32::MAX as nat,
                            ) {
                                Some(p) => p,
                                None => 0,
                            },
                            mount_point: ps[5],
                        },
                    ),
                    _ => None,
                }
            }
        }
    }
}

pub open spec fn disks_of_lines(ls: Seq<Seq<char>>) -> Seq<DiskSpec>
    decreases ls.len(),
{
    if ls.len() == 0 {
        Seq::empty()
    } else {
        let prev = disks_of_lines(ls.drop_last());
        match disk_of_line(ls.last()) {
            Some(d) => prev.push(d),
            None => prev,
        }
    }
}

/// The disks of a run of `df` lines are the disks of its first part
/// followed by those of the rest: every line that describes a filesystem
/// adds its own entry, after the earlier ones.
pub proof fn law_disks_of_joined_lines(a: Seq<Seq<char>>, b: Seq<Seq<char>>)
    ensures
        disks_of_lines(a + b) == disks_of_lines(a) + disks_of_lines(b),
    decreases b.len(),
{
    if b.len() == 0 {
        assert(a + b =~= a);
        assert(disks_of_lines(a) + Seq::<DiskSpec>::empty() =~= disks_of_lines(a));
    } else {
        law_disks_of_joined_lines(a, b.drop_last());
        assert((a + b).drop_last() =~= a + b.drop_last());
        assert((a + b).last() == b.last());
        match disk_of_line(b.last()) {
            Some(d) => {
                assert(disks_of_lines(a) + disks_of_lines(b.drop_last()).push(d) =~= (disks_of_lines(a)
                    + disks_of_lines(b.drop_last())).push(d));
            },
            None => {},
        }
    }
}

/// One `df` line gives one disk when it describes a filesystem, else none.
pub proof fn law_disks_of_one_line(x: Seq<char>)
    ensures
        disks_of_lines(seq![x]) == match disk_of_line(x) {
            Some(d) => seq![d],
            None => Seq::<DiskSpec>::empty(),
        },
{
    assert(seq![x].drop_last() =~= Seq::<Seq<char>>::empty());
    assert(disks_of_lines(Seq::<Seq<char>>::empty()) == Seq::<DiskSpec>::empty());
    assert(seq![x].last() == x);
    match disk_of_line(x) {
        Some(d) => {
            assert(Seq::<DiskSpec>::empty().push(d) =~= seq![d]);
        },
        None => {},
    }
}

fn meminfo_field_exec(ls: &Vec<Vec<char>>, key: &[char]) -> (r: Option<u64>)
    ensures
        opt_nat(r) == meminfo_field(vv(ls@), key@),
{
    let ghost l = vv(ls@);
    let mut r: Option<u64> = None;
    let mut i: usize = 0;
    assert(l.take(0) =~= Seq::<Seq<char>>::empty());
    while i < ls.len()
        invariant
            l == vv(ls@),
            i <= l.len(),
            opt_nat(r) == meminfo_field(l.take(i as int), key@),
        decreases ls.len() - i,
    {
        assert(l.take(i + 1).drop_last() =~= l.take(i as int));
        assert(l.take(i + 1).last() == ls@[i as int]@);
        let t = trim_chars(ls[i].as_slice());
        if starts_with_chars(t.as_slice(), key) {
            let ws = split_ws_chars(t.as_slice());
            if ws.len() > 1 {
                assert(vv(ws@)[1] == ws@[1]@);
                r = parse_u64_chars(ws[1].as_slice());
            } else {
                r = None;
            }
        }
        i = i + 1;
    }
    assert(l.take(l.len() as int) =~= l);
    r
}

fn free_line_exec(m: &mut MemoryStats, line: &[char])
    ensures
        final(m).deep_view() == free_line_step(old(m).deep_view(), line@),
{
    let ps = split_ws_chars(line);
    let mem_word = to_chars("Mem:");
    if ps.len() >= 4 && starts_with_chars(ps[0].as_slice(), mem_word.as_slice()) {
        assert(vv(ps@)[0] == ps@[0]@);
        assert(vv(ps@)[1] == ps@[1]@);
        assert(vv(ps@)[2] == ps@[2]@);
        assert(vv(ps@)[3] == ps@[3]@);
        let t = parse_u64_chars(ps[1].as_slice());
        let u = parse_u64_chars(ps[2].as_slice());
        let f = parse_u64_chars(ps[3].as_slice());
        match (t, u, f) {
            (Some(t), Some(u), Some(f)) => {
                m.total_kb = t;
                m.free_kb = f;
                m.used_kb = u;
                if ps.len() >= 7 {
                    assert(vv(ps@)[6] == ps@[6]@);
                    m.available_kb = parse_u64_chars(ps[6].as_slice());
                }
            },
            _ => {},
        }
    }
}

/// Applies one memory section to `memory`.
pub fn apply_memory_section(content: &str, memory: &mut MemoryStats)
    ensures
        final(memory).deep_view() == apply_memory(content@, old(memory).deep_view()),
{
    let cs = to_chars(content);
    let ls = lines_chars(cs.as_slice());
    let ghost l = vv(ls@);
    let total = meminfo_field_exec(&ls, to_chars("MemTotal:").as_slice());
    let free = meminfo_field_exec(&ls, to_chars("MemFree:").as_slice());
    match (total, free) {
        (Some(t), Some(f)) => {
            let avail = meminfo_field_exec(&ls, to_chars("MemAvailable:").as_slice());
            let base = match avail {
                Some(x) => x,
                None => f,
            };
            memory.total_kb = t;
            memory.free_kb = f;
            memory.available_kb = avail;
            memory.used_kb = t.saturating_sub(base);
        },
        _ => {
            let ghost start = memory.deep_view();
            let mut i: usize = 0;
            assert(l.take(0) =~= Seq::<Seq<char>>::empty());
            while i < ls.len()
                invariant
                    l == vv(ls@),
                    i <= l.len(),
                    memory.deep_view() == free_lines(l.take(i as int), start),
                decreases ls.len() - i,
            {
                assert(l.take(i + 1).drop_last() =~= l.take(i as int));
                assert(l.take(i + 1).last() == ls@[i as int]@);
                free_line_exec(memory, ls[i].as_slice());
                i = i + 1;
            }
            assert(l.take(l.len() as int) =~= l);
        },
    }
}

fn disk_of_line_exec(line: &[char]) -> (r: Option<DiskStats>)
    ensures
        match r {
            Some(d) => disk_of_line(line@) == Some(d.deep_view()),
            None => disk_of_line(line@) is None,
        },
{
    let t = trim_chars(line);
    if t.len() == 0 || starts_with_chars(t.as_slice(), to_chars("Filesystem").as_slice()) {
        return None;
    }
    let ps = split_ws_chars(t.as_slice());
    if ps.len() < 6 {
        return None;
    }
    let ghost p = vv(ps@);
    assert(p[0] == ps@[0]@);
    assert(p[1] == ps@[1]@);
    assert(p[2] == ps@[2]@);
    assert(p[3] == ps@[3]@);
    assert(p[4] == ps@[4]@);
    assert(p[5] == ps@[5]@);
    let fs = ps[0].as_slice();
    if crate::text::chars_eq(fs, to_chars("tmpfs").as_slice()) || crate::text::chars_eq(
        fs,
        to_chars("devtmpfs").as_slice(),
    ) || crate::text::chars_eq(fs, to_chars("udev").as_slice()) || starts_with_chars(
        fs,
        to_chars("/dev/loop").as_slice(),
    ) {
        return None;
    }
    let size = parse_u64_chars(ps[1].as_slice());
    let used = parse_u64_chars(ps[2].as_slice());
    let avail = parse_u64_chars(ps[3].as_slice());
    match (size, used, avail) {
        (Some(size), Some(used), Some(avail)) => {
            let pct_text = strip_suffix_char_chars(ps[4].as_slice(), '%');
            let pct = match parse_u32_chars(pct_text.as_slice()) {
                Some(v) => v,
                None => 0,
            };
            Some(
                DiskStats {
                    filesystem: from_chars(fs),
                    size_kb: size,
                    used_kb: used,
                    available_kb: avail,
                    use_percent: pct,
                    mount_point: from_chars(ps[5].as_slice()),
                },
            )
        },
        _ => None,
    }
}

/// The file systems of one disk section.
pub fn parse_disk_section(content: &str) -> (r: Vec<DiskStats>)
    ensures
        r.deep_view() == disks_of_lines(lines(content@)),
{
    let cs = to_chars(content);
    let ls = lines_chars(cs.as_slice());
    let ghost l = vv(ls@);
    let mut r: Vec<DiskStats> = Vec::new();
    let mut i: usize = 0;
    assert(l.take(0) =~= Seq::<Seq<char>>::empty());
    assert(r.deep_view() =~= Seq::<DiskSpec>::empty());
    while i < ls.len()
        invariant
            l == vv(ls@),
            i <= l.len(),
            r.deep_view() == disks_of_lines(l.take(i as int)),
        decreases ls.len() - i,
    {
        assert(l.take(i + 1).drop_last() =~= l.take(i as int));
        assert(l.take(i + 1).last() == ls@[i as int]@);
        match disk_of_line_exec(ls[i].as_slice()) {
            Some(d) => {
                let ghost before = r.deep_view();
                r.push(d);
                assert(r.deep_view() =~= before.push(d.deep_view()));
            },
            None => {},
        }
        i = i + 1;
    }
    assert(l.take(l.len() as int) =~= l);
    r
}

/// What the statistics script's output gives apart from the load averages
/// (which are floating-point numbers and parsed by the caller): the first
/// line of each load section, the memory figures and the file systems.
#[derive(Debug, Clone)]
pub struct StatsSections {
    pub load_lines: Vec<String>,
    pub memory: MemoryStats,
    pub disks: Vec<DiskStats>,
}

pub struct StatsSpec {
    pub load_lines: Seq<Seq<char>>,
    pub memory: MemSpec,
    pub disks: Seq<DiskSpec>,
}

impl DeepView for StatsSections {
    type V = StatsSpec;

    open spec fn deep_view(&self) -> StatsSpec {
        StatsSpec {
            load_lines: self.load_lines.deep_view(),
            memory: self.memory.deep_view(),
            disks: self.disks.deep_view(),
        }
    }
}

/// One `=== NAME ===` section applied to what the earlier ones gave.
pub open spec fn section_step(acc: StatsSpec, part: Seq<char>) -> StatsSpec {
    if starts_with(part, "LOAD ===\n"@) {
        let ls = lines(strip_prefixes(part, "LOAD ===\n"@));
        if ls.len() > 0 {
            StatsSpec { load_lines: acc.load_lines.push(ls[0]), ..acc }
        } else {
            acc
        }
    } else if starts_with(part, "MEM ===\n"@) {
        StatsSpec { memory: apply_memory(strip_prefixes(part, "MEM ===\n"@), acc.memory), ..acc }
    } else if starts_with(part, "DISK ===\n"@) {
        StatsSpec {
            disks: acc.disks + disks_of_lines(lines(strip_prefixes(part, "DISK ===\n"@))),
            ..acc
        }
    } else {
        acc
    }
}

pub open spec fn sections_fold(parts: Seq<Seq<char>>) -> StatsSpec
    decreases parts.len(),
{
    if parts.len() == 0 {
        StatsSpec {
            load_lines: Seq::empty(),
            memory: MemSpec { total: 0, free: 0, available: None, used: 0 },
            disks: Seq::empty(),
        }
    } else {
        section_step(sections_fold(parts.drop_last()), parts.last())
    }
}

/// The output split at each `=== `, every piece read in turn.
pub open spec fn spec_stats_sections(raw: Seq<char>) -> StatsSpec {
    sections_fold(split_str(raw, "=== "@))
}

fn section_step_exec(acc: &mut StatsSections, part: &[char])
    ensures
        final(acc).deep_view() == section_step(old(acc).deep_view(), part@),
{
    let load = to_chars("LOAD ===\n");
    let mem = to_chars("MEM ===\n");
    let disk = to_chars("DISK ===\n");
    if starts_with_chars(part, load.as_slice()) {
        let content = strip_prefixes_chars(part, load.as_slice());
        let ls = lines_chars(content.as_slice());
        if ls.len() > 0 {
            assert(vv(ls@)[0] == ls@[0]@);
            let ghost before = acc.load_lines.deep_view();
            acc.load_lines.push(from_chars(ls[0].as_slice()));
            assert(acc.load_lines.deep_view() =~= before.push(ls@[0]@));
        }
    } else if starts_with_chars(part, mem.as_slice()) {
        let content = strip_prefixes_chars(part, mem.as_slice());
        let text = from_chars(content.as_slice());
        apply_memory_section(text.as_str(), &mut acc.memory);
    } else if starts_with_chars(part, disk.as_slice()) {
        let content = strip_prefixes_chars(part, disk.as_slice());
        let text = from_chars(content.as_slice());
        let mut found = parse_disk_section(text.as_str());
        let ghost before = acc.disks.deep_view();
        let ghost added = found.deep_view();
        acc.disks.append(&mut found);
        assert(acc.disks.deep_view() =~= before + added);
    }
}

/// Reads the statistics script's output section by section.
pub fn parse_stats_sections(raw_output: &str) -> (r: StatsSections)
    ensures
        r.deep_view() == spec_stats_sections(raw_output@),
{
    let cs = to_chars(raw_output);
    let sep = to_chars("=== ");
    proof {
        reveal_strlit("=== ");
    }
    let parts = split_str_chars(cs.as_slice(), sep.as_slice());
    let ghost p = vv(parts@);
    let mut acc = StatsSections {
        load_lines: Vec::new(),
        memory: MemoryStats { total_kb: 0, free_kb: 0, available_kb: None, used_kb: 0 },
        disks: Vec::new(),
    };
    let mut i: usize = 0;
    assert(p.take(0) =~= Seq::<Seq<char>>::empty());
    assert(acc.load_lines.deep_view() =~= Seq::<Seq<char>>::empty());
    assert(acc.disks.deep_view() =~= Seq::<DiskSpec>::empty());
    assert(acc.deep_view() == sections_fold(p.take(0)));
    while i < parts.len()
        invariant
            p == vv(parts@),
            i <= p.len(),
            acc.deep_view() == sections_fold(p.take(i as int)),
        decreases parts.len() - i,
    {
        assert(p.take(i + 1).drop_last() =~= p.take(i as int));
        assert(p.take(i + 1).last() == parts@[i as int]@);
        section_step_exec(&mut acc, parts[i].as_slice());
        i = i + 1;
    }
    assert(p.take(p.len() as int) =~= p);
    acc
}

} // verus!
