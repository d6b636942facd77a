//! Network checks: the sockets in `/proc/net/{tcp,tcp6,udp,udp6}` against
//! the sockets that processes hold and the listeners that `ss` reports.
use vstd::prelude::*;
use std::collections::HashSet;
use crate::findings::{Finding, FindingView, mk, views, finding_if, lemma_views_push, extend_findings};
use crate::text::{
    chars_of, line_spans, token_spans, lines, tokens, span_view, spans_ok, starts_with,
    starts_with_in, ends_with, ends_with_in, string_of, push_str, push_dec, dec, find, find_in,
    parse_hex_u16, parse_hex_u16_in, parse_hex_u32, parse_hex_u32_in, parse_u16, parse_u16_in,
    owned, str_eq, occurs_at,
};

verus! {

// ---------------------------------------------------------------------------
// Reading /proc/net tables
// ---------------------------------------------------------------------------

/// The name of a TCP state code of `/proc/net/tcp`; other codes stay as
/// they are.
pub open spec fn tcp_state_name(code: Seq<char>) -> Seq<char> {
    if code == "01"@ {
        "ESTABLISHED"@
    } else if code == "0A"@ {
        "LISTEN"@
    } else if code == "02"@ {
        "SYN_SENT"@
    } else if code == "03"@ {
        "SYN_RECV"@
    } else if code == "06"@ {
        "TIME_WAIT"@
    } else if code == "07"@ {
        "CLOSE"@
    } else if code == "08"@ {
        "CLOSE_WAIT"@
    } else {
        code
    }
}

/// The name of a TCP state code.
pub fn tcp_state(code: &str) -> (r: String)
    ensures
        r@ == tcp_state_name(code@),
{
    if str_eq(code, "01") {
        owned("ESTABLISHED")
    } else if str_eq(code, "0A") {
        owned("LISTEN")
    } else if str_eq(code, "02") {
        owned("SYN_SENT")
    } else if str_eq(code, "03") {
        owned("SYN_RECV")
    } else if str_eq(code, "06") {
        owned("TIME_WAIT")
    } else if str_eq(code, "07") {
        owned("CLOSE")
    } else if str_eq(code, "08") {
        owned("CLOSE_WAIT")
    } else {
        owned(code)
    }
}

/// Dotted-quad writing of an IPv4 address stored as a little-endian `u32`
/// (the lowest byte first).
pub open spec fn ipv4_text(raw: u32) -> Seq<char> {
    dec((raw % 256) as nat) + "."@ + dec(((raw / 256) % 256) as nat) + "."@ + dec(
        ((raw / 65536) % 256) as nat,
    ) + "."@ + dec((raw / 16777216) as nat)
}

/// Address and port of a `/proc/net` address field `IP:PORT` (both in
/// hexadecimal): the port is 0 when it is not a 16-bit hexadecimal number;
/// an 8-digit IP is written as a dotted quad, any other stays as it is.
/// A field without `:` is kept whole, with port 0.
#[verifier::opaque]
pub open spec fn addr_parts(s: Seq<char>) -> (Seq<char>, u16) {
    match find(s, ":"@) {
        None => (s, 0),
        Some(i) => {
            let ip = s.take(i);
            let port = match parse_hex_u16(s.skip(i + 1)) {
                Some(p) => p,
                None => 0,
            };
            if ip.len() == 8 && parse_hex_u32(ip) is Some {
                (ipv4_text(parse_hex_u32(ip).unwrap()), port)
            } else {
                (ip, port)
            }
        },
    }
}

fn push_ipv4(out: &mut String, raw: u32)
    ensures
        final(out)@ == old(out)@ + ipv4_text(raw),
{
    push_dec(out, (raw % 256) as u64);
    push_str(out, ".");
    push_dec(out, ((raw / 256) % 256) as u64);
    push_str(out, ".");
    push_dec(out, ((raw / 65536) % 256) as u64);
    push_str(out, ".");
    push_dec(out, (raw / 16777216) as u64);
}

fn addr_in(v: &Vec<char>, lo: usize, hi: usize) -> (r: (String, u16))
    requires
        lo <= hi <= v@.len(),
    ensures
        (r.0@, r.1) == addr_parts(v@.subrange(lo as int, hi as int)),
{
    reveal(addr_parts);
    let ghost s = v@.subrange(lo as int, hi as int);
    let colon = chars_of(":");
    assert(colon@.len() == 1) by {
        reveal_strlit(":");
    }
    match find_in(v, lo, hi, &colon) {
        None => (string_of(v, lo, hi), 0),
        Some(i) => {
            assert(find(s, ":"@) == Some(i as int));
            assert(occurs_at(s, colon@, i as int));
            let cut = lo + i;
            let ghost ip = s.take(i as int);
            assert(ip == v@.subrange(lo as int, cut as int));
            assert(s.skip(i + 1) == v@.subrange(cut + 1, hi as int));
            let port = match parse_hex_u16_in(v, cut + 1, hi) {
                Some(p) => p,
                None => 0,
            };
            assert(port == match parse_hex_u16(s.skip(i + 1)) {
                Some(p) => p,
                None => 0,
            });
            let raw = if i == 8 {
                parse_hex_u32_in(v, lo, cut)
            } else {
                None
            };
            assert(ip.len() == i);
            match raw {
                Some(x) => {
                    assert(ip.len() == 8 && parse_hex_u32(ip) == Some(x));
                    let mut text = String::new();
                    push_ipv4(&mut text, x);
                    (text, port)
                },
                None => {
                    assert(!(ip.len() == 8 && parse_hex_u32(ip) is Some));
                    (string_of(v, lo, cut), port)
                },
            }
        },
    }
}

/// Address and port of a `/proc/net` address field (see `addr_parts`).
pub fn parse_addr(s: &str) -> (r: (String, u16))
    ensures
        (r.0@, r.1) == addr_parts(s@),
{
    let v = chars_of(s);
    assert(v@.subrange(0, v@.len() as int) == v@);
    addr_in(&v, 0, v.len())
}

/// A socket of a `/proc/net` table.
pub struct Sock {
    pub table: String,
    pub local_ip: String,
    pub local_port: u16,
    pub remote_ip: String,
    pub remote_port: u16,
    pub state: String,
    pub inode: String,
}

/// The contents of a `Sock`.
pub struct SockView {
    pub table: Seq<char>,
    pub local_ip: Seq<char>,
    pub local_port: u16,
    pub remote_ip: Seq<char>,
    pub remote_port: u16,
    pub state: Seq<char>,
    pub inode: Seq<char>,
}

impl View for Sock {
    type V = SockView;

    open spec fn view(&self) -> SockView {
        SockView {
            table: self.table@,
            local_ip: self.local_ip@,
            local_port: self.local_port,
            remote_ip: self.remote_ip@,
            remote_port: self.remote_port,
            state: self.state@,
            inode: self.inode@,
        }
    }
}

/// The contents of a list of sockets.
pub open spec fn sock_views(v: Seq<Sock>) -> Seq<SockView> {
    v.map_values(|s: Sock| s@)
}

/// The socket that a line of a `/proc/net` table describes: lines of fewer
/// than ten tokens describe none. The state of a TCP table (its name starts
/// with `tcp`) is named; other tables keep the raw code.
#[verifier::opaque]
pub open spec fn sock_of_line(table: Seq<char>, l: Seq<char>) -> Option<SockView> {
    let t = tokens(l);
    if t.len() < 10 {
        None
    } else {
        Some(
            SockView {
                table,
                local_ip: addr_parts(t[1]).0,
                local_port: addr_parts(t[1]).1,
                remote_ip: addr_parts(t[2]).0,
                remote_port: addr_parts(t[2]).1,
                state: if starts_with(table, "tcp"@) {
                    tcp_state_name(t[3])
                } else {
                    t[3]
                },
                inode: t[9],
            },
        )
    }
}

/// The sockets that the lines describe, in order.
pub open spec fn socks_of_lines(table: Seq<char>, ls: Seq<Seq<char>>) -> Seq<SockView>
    decreases ls.len(),
{
    if ls.len() == 0 {
        seq![]
    } else {
        socks_of_lines(table, ls.drop_last()) + match sock_of_line(table, ls.last()) {
            Some(s) => seq![s],
            None => seq![],
        }
    }
}

/// The sockets of a `/proc/net` table's text; its first line is a header.
pub open spec fn table_socks(table: Seq<char>, data: Seq<char>) -> Seq<SockView> {
    if lines(data).len() == 0 {
        seq![]
    } else {
        socks_of_lines(table, lines(data).skip(1))
    }
}

fn sock_of_span(table: &str, is_tcp: bool, v: &Vec<char>, lo: usize, hi: usize) -> (r: Option<
    Sock,
>)
    requires
        lo <= hi <= v@.len(),
        is_tcp == starts_with(table@, "tcp"@),
    ensures
        match r {
            Some(s) => sock_of_line(table@, v@.subrange(lo as int, hi as int)) == Some(s@),
            None => sock_of_line(table@, v@.subrange(lo as int, hi as int)) is None,
        },
{
    reveal(sock_of_line);
    let toks = token_spans(&v, lo, hi);
    let ghost t = span_view(v@, toks@);
    if toks.len() < 10 {
        return None;
    }
    let (a1, b1) = toks[1];
    let (a2, b2) = toks[2];
    let (a3, b3) = toks[3];
    let (a9, b9) = toks[9];
    let (lip, lport) = addr_in(&v, a1, b1);
    let (rip, rport) = addr_in(&v, a2, b2);
    let code = string_of(&v, a3, b3);
    let state = if is_tcp {
        tcp_state(code.as_str())
    } else {
        code
    };
    let s = Sock {
        table: owned(table),
        local_ip: lip,
        local_port: lport,
        remote_ip: rip,
        remote_port: rport,
        state,
        inode: string_of(&v, a9, b9),
    };
    assert(t[1] == v@.subrange(a1 as int, b1 as int));
    assert(t[2] == v@.subrange(a2 as int, b2 as int));
    assert(t[3] == v@.subrange(a3 as int, b3 as int));
    assert(t[9] == v@.subrange(a9 as int, b9 as int));
    Some(s)
}

/// The sockets of a `/proc/net/<table>` text, in order (see `sock_of_line`).
pub fn parse_table(table: &str, data: &str) -> (r: Vec<Sock>)
    ensures
        sock_views(r@) == table_socks(table@, data@),
{
    let v = chars_of(data);
    let ls = line_spans(&v);
    let ghost all = lines(data@);
    let tv = chars_of(table);
    assert(tv@.subrange(0, tv@.len() as int) == tv@);
    let is_tcp = starts_with_in(&tv, 0, tv.len(), &chars_of("tcp"));
    let mut r: Vec<Sock> = Vec::new();
    if ls.len() == 0 {
        assert(sock_views(r@) =~= Seq::<SockView>::empty());
        return r;
    }
    let ghost body = all.skip(1);
    let mut i: usize = 1;
    assert(body.take(0) =~= Seq::<Seq<char>>::empty());
    assert(sock_views(r@) =~= Seq::<SockView>::empty());
    while i < ls.len()
        invariant
            1 <= i <= ls@.len(),
            spans_ok(v@, ls@),
            span_view(v@, ls@) == all,
            all == lines(data@),
            body == all.skip(1),
            is_tcp == starts_with(table@, "tcp"@),
            sock_views(r@) == socks_of_lines(table@, body.take(i - 1)),
        decreases ls@.len() - i,
    {
        let (lo, hi) = ls[i];
        assert(body.take(i as int).drop_last() == body.take(i - 1));
        assert(body.take(i as int).last() == v@.subrange(lo as int, hi as int));
        let ghost before = r@;
        match sock_of_span(table, is_tcp, &v, lo, hi) {
            Some(sock) => {
                r.push(sock);
                assert(sock_views(r@) =~= sock_views(before).push(sock@));
            },
            None => {},
        }
        i = i + 1;
    }
    assert(body.take(ls@.len() - 1) == body);
    r
}

/// The inode of a socket from the target of a `/proc/<pid>/fd/*` link:
/// the text between `socket:[` and a final `]`.
pub open spec fn inode_of_link(t: Seq<char>) -> Option<Seq<char>> {
    if starts_with(t, "socket:["@) && ends_with(t.skip(8), "]"@) {
        Some(t.skip(8).drop_last())
    } else {
        None
    }
}

/// The inode of a socket from the target of a file descriptor link.
pub fn socket_inode(target: &str) -> (r: Option<String>)
    ensures
        match r {
            Some(s) => inode_of_link(target@) == Some(s@),
            None => inode_of_link(target@) is None,
        },
{
    let v = chars_of(target);
    let n = v.len();
    assert(v@.subrange(0, n as int) == v@);
    let pre = chars_of("socket:[");
    assert(pre@.len() == 8) by {
        reveal_strlit("socket:[");
    }
    if !starts_with_in(&v, 0, n, &pre) {
        return None;
    }
    assert(v@.skip(8) == v@.subrange(8, n as int));
    if !ends_with_in(&v, 8, n, &chars_of("]")) {
        return None;
    }
    assert("]"@.len() == 1) by {
        reveal_strlit("]");
    }
    assert(v@.skip(8).drop_last() == v@.subrange(8, n - 1));
    Some(string_of(&v, 8, n - 1))
}

/// The listening ports in the output of `ss -lntuH`: in each line of at
/// least five tokens, the part of the fifth token after its last `:` (all
/// of it when it has none), read as `u16`.
pub open spec fn ss_port_of_line(l: Seq<char>) -> Option<u16> {
    let t = tokens(l);
    if t.len() < 5 {
        None
    } else {
        parse_u16(last_field(t[4]))
    }
}

/// What follows the last `:` of `s`, or `s` when it has none (as
/// `rsplit(':').next()`).
pub open spec fn last_field(s: Seq<char>) -> Seq<char>
    decreases s.len(),
{
    if s.len() == 0 {
        s
    } else if s.last() == ':' {
        seq![]
    } else {
        last_field(s.drop_last()).push(s.last())
    }
}

fn last_field_start(v: &Vec<char>, lo: usize, hi: usize) -> (k: usize)
    requires
        lo <= hi <= v@.len(),
    ensures
        lo <= k <= hi,
        v@.subrange(k as int, hi as int) == last_field(v@.subrange(lo as int, hi as int)),
{
    let mut k = hi;
    while k > lo && v[k - 1] != ':'
        invariant
            lo <= k <= hi <= v@.len(),
            last_field(v@.subrange(lo as int, hi as int)) == last_field(v@.subrange(lo as int, k as int))
                + v@.subrange(k as int, hi as int),
        decreases k - lo,
    {
        let ghost s = v@.subrange(lo as int, k as int);
        assert(s.drop_last() == v@.subrange(lo as int, k - 1));
        assert(v@.subrange(k - 1, hi as int) == seq![v@[k - 1]] + v@.subrange(k as int, hi as int));
        assert(last_field(s) == last_field(s.drop_last()).push(s.last()));
        assert(last_field(s.drop_last()).push(s.last()) + v@.subrange(k as int, hi as int)
            =~= last_field(s.drop_last()) + v@.subrange(k - 1, hi as int));
        k = k - 1;
    }
    assert(last_field(v@.subrange(lo as int, k as int)) =~= Seq::<char>::empty());
    assert(Seq::<char>::empty() + v@.subrange(k as int, hi as int) =~= v@.subrange(k as int, hi as int));
    k
}

/// Some line of the `ss` output gives the port.
pub open spec fn ss_has_port(out: Seq<char>, p: u16) -> bool {
    exists|i: int| 0 <= i < lines(out).len() && ss_port_of_line(#[trigger] lines(out)[i]) == Some(p)
}

/// The ports that the first `n` lines give, each once, in the order of
/// first appearance.
pub open spec fn ports_of_lines(ls: Seq<Seq<char>>, n: int) -> Seq<u16>
    decreases n,
{
    if n <= 0 {
        seq![]
    } else {
        let prev = ports_of_lines(ls, n - 1);
        match ss_port_of_line(ls[n - 1]) {
            Some(p) => if prev.contains(p) {
                prev
            } else {
                prev.push(p)
            },
            None => prev,
        }
    }
}

/// The listening ports of an `ss -lntuH` output, each once, in order.
pub open spec fn ss_ports(out: Seq<char>) -> Seq<u16> {
    ports_of_lines(lines(out), lines(out).len() as int)
}

/// The listening ports in the output of `ss -lntuH`, each once, in order.
pub fn parse_ss_ports(out: &str) -> (r: Vec<u16>)
    ensures
        r@ == ss_ports(out@),
        r@.no_duplicates(),
        forall|p: u16| #[trigger] r@.contains(p) <==> ss_has_port(out@, p),
{
    broadcast use vstd::std_specs::hash::group_hash_axioms;

    let v = chars_of(out);
    let ls = line_spans(&v);
    let ghost all = lines(out@);
    let mut r: Vec<u16> = Vec::new();
    let mut seen: HashSet<u16> = HashSet::new();
    let mut i: usize = 0;
    while i < ls.len()
        invariant
            i <= ls@.len(),
            spans_ok(v@, ls@),
            span_view(v@, ls@) == all,
            all == lines(out@),
            r@.no_duplicates(),
            forall|x: u16| #[trigger] seen@.contains(x) <==> r@.contains(x),
            forall|p: u16| #[trigger] r@.contains(p) <==> exists|k: int| 0 <= k < i && ss_port_of_line(#[trigger] all[k]) == Some(p),
            r@ == ports_of_lines(all, i as int),
        decreases ls@.len() - i,
    {
        let (lo, hi) = ls[i];
        let toks = token_spans(&v, lo, hi);
        let ghost t = span_view(v@, toks@);
        let mut got: Option<u16> = None;
        if toks.len() >= 5 {
            let (a, b) = toks[4];
            let k = last_field_start(&v, a, b);
            got = parse_u16_in(&v, k, b);
        }
        assert(got == ss_port_of_line(all[i as int]));
        let ghost before = r@;
        if let Some(p) = got {
            if !seen.contains(&p) {
                seen.insert(p);
                r.push(p);
                proof {
                    assert forall|x: u16| #[trigger] r@.contains(x) <==> (before.contains(x) || x == p) by {
                        if r@.contains(x) {
                            let k = choose|k: int| 0 <= k < r@.len() && r@[k] == x;
                            if k < before.len() {
                                assert(before[k] == x);
                            }
                        }
                        if before.contains(x) {
                            let k = choose|k: int| 0 <= k < before.len() && before[k] == x;
                            assert(r@[k] == x);
                        }
                        if x == p {
                            assert(r@[before.len() as int] == p);
                        }
                    }
                    assert(r@.no_duplicates()) by {
                        assert forall|a: int, b: int| 0 <= a < r@.len() && 0 <= b < r@.len() && a != b implies r@[a] != r@[b] by {
                            if a == before.len() {
                                assert(before.contains(r@[b]));
                            } else if b == before.len() {
                                assert(before.contains(r@[a]));
                            }
                        }
                    }
                }
            }
        }
        proof {
            assert forall|x: u16| #[trigger] r@.contains(x) <==> exists|k: int| 0 <= k < i + 1 && ss_port_of_line(#[trigger] all[k]) == Some(x) by {
                if exists|k: int| 0 <= k < i + 1 && ss_port_of_line(#[trigger] all[k]) == Some(x) {
                    let k = choose|k: int| 0 <= k < i + 1 && ss_port_of_line(#[trigger] all[k]) == Some(x);
                    if k == i {
                        assert(got == Some(x));
                    }
                }
            }
        }
        i = i + 1;
    }
    r
}


// ---------------------------------------------------------------------------
// What the network checks report
// ---------------------------------------------------------------------------

/// Ports that malware and teaching backdoors often use.
pub open spec fn is_sus_port(p: u16) -> bool {
    p == 4444 || p == 31337 || p == 12345 || p == 6666 || p == 6667 || p == 1337
}

fn sus_port(p: u16) -> (b: bool)
    ensures
        b == is_sus_port(p),
{
    p == 4444 || p == 31337 || p == 12345 || p == 6666 || p == 6667 || p == 1337
}

/// A listening TCP socket.
pub open spec fn is_listener(s: SockView) -> bool {
    starts_with(s.table, "tcp"@) && s.state == "LISTEN"@
}

/// The listening TCP sockets among the first `n`, in order.
pub open spec fn listeners(socks: Seq<SockView>, n: int) -> Seq<SockView>
    decreases n,
{
    if n <= 0 {
        seq![]
    } else {
        listeners(socks, n - 1) + if is_listener(socks[n - 1]) {
            seq![socks[n - 1]]
        } else {
            seq![]
        }
    }
}

/// The socket inodes that the first `n` link targets point at, in order.
pub open spec fn held_inodes(targets: Seq<Seq<char>>, n: int) -> Seq<Seq<char>>
    decreases n,
{
    if n <= 0 {
        seq![]
    } else {
        held_inodes(targets, n - 1) + match inode_of_link(targets[n - 1]) {
            Some(x) => seq![x],
            None => seq![],
        }
    }
}

/// Some file descriptor link points at the socket inode.
pub open spec fn has_holder(targets: Seq<Seq<char>>, inode: Seq<char>) -> bool {
    held_inodes(targets, targets.len() as int).contains(inode)
}

/// What one listening socket gives: a high finding when no process holds
/// it, a medium one when its port is suspicious.
pub open spec fn listener_findings(s: SockView, targets: Seq<Seq<char>>) -> Seq<FindingView> {
    let port = dec(s.local_port as nat);
    finding_if(
        !has_holder(targets, s.inode),
        mk(
            "network"@,
            "high"@,
            "orphan listening socket on port "@ + port,
            s.local_ip + ":"@ + port + " inode="@ + s.inode + " — no process fd points at it"@,
            seq!["port:"@ + port, "inode:"@ + s.inode],
            Some(180),
        ),
    ) + finding_if(
        is_sus_port(s.local_port),
        mk(
            "network"@,
            "medium"@,
            "listener on sketchy port "@ + port,
            "port shows up a lot in malware / teaching backdoors"@,
            seq!["port:"@ + port],
            Some(80),
        ),
    )
}

/// What the first `n` listening sockets give.
pub open spec fn all_listener_findings(ls: Seq<SockView>, targets: Seq<Seq<char>>, n: int) -> Seq<
    FindingView,
>
    decreases n,
{
    if n <= 0 {
        seq![]
    } else {
        all_listener_findings(ls, targets, n - 1) + listener_findings(ls[n - 1], targets)
    }
}

/// The local ports of the first `n` listening sockets, each once, in the
/// order of first appearance.
pub open spec fn listen_ports(ls: Seq<SockView>, n: int) -> Seq<u16>
    decreases n,
{
    if n <= 0 {
        seq![]
    } else {
        let prev = listen_ports(ls, n - 1);
        if prev.contains(ls[n - 1].local_port) {
            prev
        } else {
            prev.push(ls[n - 1].local_port)
        }
    }
}

/// Findings for the first `n` ports of `/proc/net` that `ss` lacks.
pub open spec fn proc_only_findings(pp: Seq<u16>, sp: Seq<u16>, n: int) -> Seq<FindingView>
    decreases n,
{
    if n <= 0 {
        seq![]
    } else {
        let port = dec(pp[n - 1] as nat);
        proc_only_findings(pp, sp, n - 1) + finding_if(
            !sp.contains(pp[n - 1]),
            mk(
                "network"@,
                "medium"@,
                "port "@ + port + " in /proc/net but not in ss"@,
                "kernel table and ss disagree"@,
                seq!["port:"@ + port],
                Some(100),
            ),
        )
    }
}

/// Findings for the first `n` ports of `ss` that `/proc/net` lacks.
pub open spec fn ss_only_findings(pp: Seq<u16>, sp: Seq<u16>, n: int) -> Seq<FindingView>
    decreases n,
{
    if n <= 0 {
        seq![]
    } else {
        let port = dec(sp[n - 1] as nat);
        ss_only_findings(pp, sp, n - 1) + finding_if(
            !pp.contains(sp[n - 1]),
            mk(
                "network"@,
                "low"@,
                "port "@ + port + " in ss but not in /proc/net tcp(6)"@,
                "might just be ipv6/raw parsing differences — check manually"@,
                seq!["port:"@ + port],
                Some(30),
            ),
        )
    }
}

/// The finding for an established connection to a suspicious port.
pub open spec fn established_finding(s: SockView) -> FindingView {
    let rport = dec(s.remote_port as nat);
    mk(
        "network"@,
        "medium"@,
        "established conn to suspicious remote port "@ + rport,
        s.local_ip + ":"@ + dec(s.local_port as nat) + " -> "@ + s.remote_ip + ":"@ + rport,
        seq!["remote:"@ + s.remote_ip + ":"@ + rport],
        Some(80),
    )
}

/// Findings for the first `n` sockets.
pub open spec fn established_findings(socks: Seq<SockView>, n: int) -> Seq<FindingView>
    decreases n,
{
    if n <= 0 {
        seq![]
    } else {
        established_findings(socks, n - 1) + finding_if(
            socks[n - 1].state == "ESTABLISHED"@ && is_sus_port(socks[n - 1].remote_port),
            established_finding(socks[n - 1]),
        )
    }
}

/// Everything the network checks read. Text that could not be read is empty.
pub struct NetInputs {
    pub tcp: String,
    pub tcp6: String,
    pub udp: String,
    pub udp6: String,
    /// The targets of the links under `/proc/<pid>/fd`.
    pub fd_targets: Vec<String>,
    /// The output of `ss -lntuH`.
    pub ss_output: String,
}

/// The sockets of the four tables, in the order tcp, tcp6, udp, udp6.
pub open spec fn all_socks(inp: NetInputs) -> Seq<SockView> {
    table_socks("tcp"@, inp.tcp@) + table_socks("tcp6"@, inp.tcp6@) + table_socks(
        "udp"@,
        inp.udp@,
    ) + table_socks("udp6"@, inp.udp6@)
}

/// All network findings: listening sockets, ports that `/proc/net` and
/// `ss` disagree on, then established connections.
pub open spec fn network_findings(inp: NetInputs) -> Seq<FindingView> {
    let socks = all_socks(inp);
    let ls = listeners(socks, socks.len() as int);
    let targets = crate::text::string_views(inp.fd_targets@);
    let pp = listen_ports(ls, ls.len() as int);
    let sp = ss_ports(inp.ss_output@);
    all_listener_findings(ls, targets, ls.len() as int) + proc_only_findings(pp, sp, pp.len() as int)
        + ss_only_findings(pp, sp, sp.len() as int) + established_findings(
        socks,
        socks.len() as int,
    )
}

fn listeners_exec(socks: &Vec<Sock>) -> (r: Vec<&Sock>)
    ensures
        r@.map_values(|s: &Sock| s@) == listeners(sock_views(socks@), socks@.len() as int),
{
    let ghost sv = sock_views(socks@);
    let mut r: Vec<&Sock> = Vec::new();
    let mut i: usize = 0;
    let tcp = chars_of("tcp");
    assert(r@.map_values(|s: &Sock| s@) =~= Seq::<SockView>::empty());
    while i < socks.len()
        invariant
            i <= socks@.len(),
            sv == sock_views(socks@),
            tcp@ == "tcp"@,
            r@.map_values(|s: &Sock| s@) == listeners(sv, i as int),
        decreases socks@.len() - i,
    {
        let s = &socks[i];
        assert(sv[i as int] == s@);
        let tv = chars_of(s.table.as_str());
        assert(tv@.subrange(0, tv@.len() as int) == tv@);
        let ghost before = r@;
        if starts_with_in(&tv, 0, tv.len(), &tcp) && str_eq(s.state.as_str(), "LISTEN") {
            r.push(s);
            assert(r@.map_values(|s: &Sock| s@) =~= before.map_values(|s: &Sock| s@).push(s@));
        } else {
            assert(listeners(sv, i + 1) =~= listeners(sv, i as int));
        }
        i = i + 1;
    }
    r
}

fn has_holder_exec(inodes: &Vec<String>, inode: &String) -> (b: bool)
    ensures
        b == crate::text::string_views(inodes@).contains(inode@),
{
    let ghost iv = crate::text::string_views(inodes@);
    let mut k: usize = 0;
    while k < inodes.len()
        invariant
            k <= inodes@.len(),
            iv == crate::text::string_views(inodes@),
            forall|j: int| 0 <= j < k ==> #[trigger] iv[j] != inode@,
        decreases inodes@.len() - k,
    {
        if inodes[k] == *inode {
            assert(iv[k as int] == inode@);
            return true;
        }
        k = k + 1;
    }
    false
}

/// The socket inodes that the links point at, in order.
fn holder_inodes(targets: &Vec<String>) -> (r: Vec<String>)
    ensures
        crate::text::string_views(r@) == held_inodes(
            crate::text::string_views(targets@),
            targets@.len() as int,
        ),
{
    let ghost tv = crate::text::string_views(targets@);
    let mut r: Vec<String> = Vec::new();
    let mut i: usize = 0;
    assert(crate::text::string_views(r@) =~= Seq::<Seq<char>>::empty());
    while i < targets.len()
        invariant
            i <= targets@.len(),
            tv == crate::text::string_views(targets@),
            crate::text::string_views(r@) == held_inodes(tv, i as int),
        decreases targets@.len() - i,
    {
        let got = socket_inode(targets[i].as_str());
        assert(tv[i as int] == targets@[i as int]@);
        let ghost before = r@;
        if let Some(inode) = got {
            r.push(inode);
            assert(crate::text::string_views(r@) =~= crate::text::string_views(before).push(
                inode_of_link(tv[i as int]).unwrap(),
            ));
        } else {
            assert(held_inodes(tv, i + 1) =~= held_inodes(tv, i as int));
        }
        i = i + 1;
    }
    r
}

fn listener_findings_exec(s: &Sock, inodes: &Vec<String>, targets: Ghost<Seq<Seq<char>>>) -> (r: Vec<Finding>)
    requires
        crate::text::string_views(inodes@) == held_inodes(targets@, targets@.len() as int),
    ensures
        views(r@) == listener_findings(s@, targets@),
{
    let mut r: Vec<Finding> = Vec::new();
    assert(views(r@) =~= Seq::<FindingView>::empty());
    let port = dec_text(s.local_port);
    if !has_holder_exec(inodes, &s.inode) {
        let mut detail = owned(s.local_ip.as_str());
        push_str(&mut detail, ":");
        push_str(&mut detail, port.as_str());
        push_str(&mut detail, " inode=");
        push_str(&mut detail, s.inode.as_str());
        push_str(&mut detail, " — no process fd points at it");
        let f = Finding::new(
            "network",
            "high",
            crate::text::cat("orphan listening socket on port ", port.as_str()).as_str(),
            detail.as_str(),
        ).ioc(crate::text::cat("port:", port.as_str()).as_str()).ioc(
            crate::text::cat("inode:", s.inode.as_str()).as_str(),
        ).with_score(180);
        proof {
            assert(f@.iocs =~= seq!["port:"@ + port@, "inode:"@ + s.inode@]);
            lemma_views_push(r@, f);
        }
        r.push(f);
    }
    if sus_port(s.local_port) {
        let f = Finding::new(
            "network",
            "medium",
            crate::text::cat("listener on sketchy port ", port.as_str()).as_str(),
            "port shows up a lot in malware / teaching backdoors",
        ).ioc(crate::text::cat("port:", port.as_str()).as_str()).with_score(80);
        proof {
            assert(f@.iocs =~= seq!["port:"@ + port@]);
            lemma_views_push(r@, f);
        }
        r.push(f);
    }
    r
}

fn dec_text(p: u16) -> (r: String)
    ensures
        r@ == dec(p as nat),
{
    crate::text::dec_string(p as u64)
}

fn has_port(v: &Vec<u16>, p: u16) -> (b: bool)
    ensures
        b == v@.contains(p),
{
    let mut i: usize = 0;
    while i < v.len()
        invariant
            i <= v@.len(),
            forall|k: int| 0 <= k < i ==> v@[k] != p,
        decreases v@.len() - i,
    {
        if v[i] == p {
            assert(v@[i as int] == p);
            return true;
        }
        i = i + 1;
    }
    false
}

/// The network checks on what was read.
pub fn run(inp: &NetInputs) -> (r: Vec<Finding>)
    ensures
        views(r@) == network_findings(*inp),
{
    let mut socks = parse_table("tcp", inp.tcp.as_str());
    let mut more = parse_table("tcp6", inp.tcp6.as_str());
    socks.append(&mut more);
    let mut more = parse_table("udp", inp.udp.as_str());
    socks.append(&mut more);
    let mut more = parse_table("udp6", inp.udp6.as_str());
    socks.append(&mut more);
    let ghost sv = sock_views(socks@);
    assert(sv =~= all_socks(*inp));
    let ls = listeners_exec(&socks);
    let ghost lv = ls@.map_values(|s: &Sock| s@);
    let ghost targets = crate::text::string_views(inp.fd_targets@);
    let inodes = holder_inodes(&inp.fd_targets);
    let mut r: Vec<Finding> = Vec::new();
    assert(views(r@) =~= Seq::<FindingView>::empty());
    let mut i: usize = 0;
    while i < ls.len()
        invariant
            i <= ls@.len(),
            lv == ls@.map_values(|s: &Sock| s@),
            crate::text::string_views(inodes@) == held_inodes(targets, targets.len() as int),
            views(r@) == all_listener_findings(lv, targets, i as int),
        decreases ls@.len() - i,
    {
        let more = listener_findings_exec(ls[i], &inodes, Ghost(targets));
        assert(lv[i as int] == ls@[i as int]@);
        extend_findings(&mut r, more);
        i = i + 1;
    }
    let mut pp: Vec<u16> = Vec::new();
    let mut i: usize = 0;
    while i < ls.len()
        invariant
            i <= ls@.len(),
            lv == ls@.map_values(|s: &Sock| s@),
            pp@ == listen_ports(lv, i as int),
        decreases ls@.len() - i,
    {
        let p = ls[i].local_port;
        assert(lv[i as int].local_port == p);
        if !has_port(&pp, p) {
            pp.push(p);
        }
        i = i + 1;
    }
    let sp = parse_ss_ports(inp.ss_output.as_str());
    let mut i: usize = 0;
    let ghost base = views(r@);
    while i < pp.len()
        invariant
            i <= pp@.len(),
            views(r@) == base + proc_only_findings(pp@, sp@, i as int),
        decreases pp@.len() - i,
    {
        let p = pp[i];
        if !has_port(&sp, p) {
            let port = dec_text(p);
            let mut title = owned("port ");
            push_str(&mut title, port.as_str());
            push_str(&mut title, " in /proc/net but not in ss");
            let f = Finding::new("network", "medium", title.as_str(), "kernel table and ss disagree")
                .ioc(crate::text::cat("port:", port.as_str()).as_str()).with_score(100);
            proof {
                assert(f@.iocs =~= seq!["port:"@ + port@]);
                lemma_views_push(r@, f);
            }
            r.push(f);
        }
        i = i + 1;
    }
    let mut i: usize = 0;
    let ghost base = views(r@);
    while i < sp.len()
        invariant
            i <= sp@.len(),
            views(r@) == base + ss_only_findings(pp@, sp@, i as int),
        decreases sp@.len() - i,
    {
        let p = sp[i];
        if !has_port(&pp, p) {
            let port = dec_text(p);
            let mut title = owned("port ");
            push_str(&mut title, port.as_str());
            push_str(&mut title, " in ss but not in /proc/net tcp(6)");
            let f = Finding::new(
                "network",
                "low",
                title.as_str(),
                "might just be ipv6/raw parsing differences — check manually",
            ).ioc(crate::text::cat("port:", port.as_str()).as_str()).with_score(30);
            proof {
                assert(f@.iocs =~= seq!["port:"@ + port@]);
                lemma_views_push(r@, f);
            }
            r.push(f);
        }
        i = i + 1;
    }
    let mut i: usize = 0;
    let ghost base = views(r@);
    while i < socks.len()
        invariant
            i <= socks@.len(),
            sv == sock_views(socks@),
            views(r@) == base + established_findings(sv, i as int),
        decreases socks@.len() - i,
    {
        let s = &socks[i];
        assert(sv[i as int] == s@);
        if str_eq(s.state.as_str(), "ESTABLISHED") && sus_port(s.remote_port) {
            let rport = dec_text(s.remote_port);
            let mut detail = owned(s.local_ip.as_str());
            push_str(&mut detail, ":");
            push_dec(&mut detail, s.local_port as u64);
            push_str(&mut detail, " -> ");
            push_str(&mut detail, s.remote_ip.as_str());
            push_str(&mut detail, ":");
            push_str(&mut detail, rport.as_str());
            let mut ioc = owned("remote:");
            push_str(&mut ioc, s.remote_ip.as_str());
            push_str(&mut ioc, ":");
            push_str(&mut ioc, rport.as_str());
            let f = Finding::new(
                "network",
                "medium",
                crate::text::cat("established conn to suspicious remote port ", rport.as_str()).as_str(),
                detail.as_str(),
            ).ioc(ioc.as_str()).with_score(80);
            proof {
                assert(f@.iocs =~= seq![ioc@]);
                lemma_views_push(r@, f);
            }
            r.push(f);
        }
        i = i + 1;
    }
    r
}


// ---------------------------------------------------------------------------
// Laws of the network checks
// ---------------------------------------------------------------------------

/// When `/proc/net` and `ss` list the same listening ports, the two views
/// raise no disagreement.
pub proof fn law_agreeing_port_views_are_quiet(pp: Seq<u16>, sp: Seq<u16>)
    requires
        forall|p: u16| pp.contains(p) <==> sp.contains(p),
    ensures
        proc_only_findings(pp, sp, pp.len() as int) == Seq::<FindingView>::empty(),
        ss_only_findings(pp, sp, sp.len() as int) == Seq::<FindingView>::empty(),
{
    lemma_no_proc_only(pp, sp, pp.len() as int);
    lemma_no_ss_only(pp, sp, sp.len() as int);
}

proof fn lemma_no_proc_only(pp: Seq<u16>, sp: Seq<u16>, n: int)
    requires
        0 <= n <= pp.len(),
        forall|p: u16| pp.contains(p) <==> sp.contains(p),
    ensures
        proc_only_findings(pp, sp, n) == Seq::<FindingView>::empty(),
    decreases n,
{
    if n > 0 {
        lemma_no_proc_only(pp, sp, n - 1);
        assert(pp.contains(pp[n - 1]));
        assert(proc_only_findings(pp, sp, n) =~= Seq::<FindingView>::empty());
    }
}

proof fn lemma_no_ss_only(pp: Seq<u16>, sp: Seq<u16>, n: int)
    requires
        0 <= n <= sp.len(),
        forall|p: u16| pp.contains(p) <==> sp.contains(p),
    ensures
        ss_only_findings(pp, sp, n) == Seq::<FindingView>::empty(),
    decreases n,
{
    if n > 0 {
        lemma_no_ss_only(pp, sp, n - 1);
        assert(sp.contains(sp[n - 1]));
        assert(ss_only_findings(pp, sp, n) =~= Seq::<FindingView>::empty());
    }
}

/// Every socket of a table whose name starts with `tcp` (so `tcp6` as well
/// as `tcp`) and whose state is `LISTEN` is a listener, and its port is one
/// of the listening ports compared with `ss`.
pub proof fn law_tcp_and_tcp6_listeners_count(socks: Seq<SockView>, i: int)
    requires
        0 <= i < socks.len(),
        starts_with(socks[i].table, "tcp"@),
        socks[i].state == "LISTEN"@,
    ensures
        listeners(socks, socks.len() as int).contains(socks[i]),
        listen_ports(
            listeners(socks, socks.len() as int),
            listeners(socks, socks.len() as int).len() as int,
        ).contains(socks[i].local_port),
{
    lemma_listener_kept(socks, i, socks.len() as int);
    let ls = listeners(socks, socks.len() as int);
    let k = choose|k: int| 0 <= k < ls.len() && ls[k] == socks[i];
    lemma_listen_ports_has(ls, k, ls.len() as int);
}

proof fn lemma_listener_kept(socks: Seq<SockView>, i: int, n: int)
    requires
        0 <= i < n <= socks.len(),
        starts_with(socks[i].table, "tcp"@),
        socks[i].state == "LISTEN"@,
    ensures
        listeners(socks, n).contains(socks[i]),
    decreases n,
{
    if i < n - 1 {
        lemma_listener_kept(socks, i, n - 1);
        let k = choose|k: int| 0 <= k < listeners(socks, n - 1).len() && #[trigger] listeners(socks, n - 1)[k] == socks[i];
        assert(listeners(socks, n)[k] == socks[i]);
    } else {
        let l = listeners(socks, n);
        assert(l[l.len() - 1] == socks[i]);
    }
}

proof fn lemma_listen_ports_has(ls: Seq<SockView>, k: int, n: int)
    requires
        0 <= k < n <= ls.len(),
    ensures
        listen_ports(ls, n).contains(ls[k].local_port),
    decreases n,
{
    if k < n - 1 {
        lemma_listen_ports_has(ls, k, n - 1);
        let prev = listen_ports(ls, n - 1);
        let j = choose|j: int| 0 <= j < prev.len() && prev[j] == ls[k].local_port;
        if !prev.contains(ls[n - 1].local_port) {
            assert(listen_ports(ls, n)[j] == ls[k].local_port);
        }
    } else {
        let prev = listen_ports(ls, n - 1);
        if !prev.contains(ls[n - 1].local_port) {
            let l = listen_ports(ls, n);
            assert(l[l.len() - 1] == ls[k].local_port);
        }
    }
}

proof fn lemma_listen_ports_only(ls: Seq<SockView>, n: int, p: u16)
    requires
        0 <= n <= ls.len(),
        listen_ports(ls, n).contains(p),
    ensures
        exists|k: int| 0 <= k < n && (#[trigger] ls[k]).local_port == p,
    decreases n,
{
    if n > 0 {
        let prev = listen_ports(ls, n - 1);
        if prev.contains(p) {
            lemma_listen_ports_only(ls, n - 1, p);
            let k = choose|k: int| 0 <= k < n - 1 && (#[trigger] ls[k]).local_port == p;
            assert(ls[k].local_port == p);
        } else {
            assert(ls[n - 1].local_port == p);
        }
    }
}

proof fn lemma_all_listen(socks: Seq<SockView>, n: int)
    requires
        0 <= n <= socks.len(),
        forall|i: int| 0 <= i < socks.len() ==> is_listener(#[trigger] socks[i]),
    ensures
        listeners(socks, n) == socks.take(n),
    decreases n,
{
    if n > 0 {
        lemma_all_listen(socks, n - 1);
        assert(socks.take(n) =~= socks.take(n - 1).push(socks[n - 1]));
    }
}

proof fn lemma_held_quiet(ls: Seq<SockView>, targets: Seq<Seq<char>>, n: int)
    requires
        0 <= n <= ls.len(),
        forall|i: int| 0 <= i < ls.len() ==> has_holder(targets, (#[trigger] ls[i]).inode)
            && !is_sus_port(ls[i].local_port),
    ensures
        all_listener_findings(ls, targets, n) == Seq::<FindingView>::empty(),
    decreases n,
{
    if n > 0 {
        lemma_held_quiet(ls, targets, n - 1);
        assert(has_holder(targets, ls[n - 1].inode));
        assert(all_listener_findings(ls, targets, n) =~= Seq::<FindingView>::empty());
    }
}

proof fn lemma_no_established(socks: Seq<SockView>, n: int)
    requires
        0 <= n <= socks.len(),
        forall|i: int| 0 <= i < socks.len() ==> (#[trigger] socks[i]).state == "LISTEN"@,
    ensures
        established_findings(socks, n) == Seq::<FindingView>::empty(),
    decreases n,
{
    if n > 0 {
        lemma_no_established(socks, n - 1);
        reveal_strlit("LISTEN");
        reveal_strlit("ESTABLISHED");
        assert(socks[n - 1].state == "LISTEN"@);
        assert("LISTEN"@.len() != "ESTABLISHED"@.len());
        assert(socks[n - 1].state != "ESTABLISHED"@);
        assert(established_findings(socks, n) =~= Seq::<FindingView>::empty());
    }
}

/// When every socket is a `tcp` or `tcp6` listener that some process holds,
/// on a port that is not suspicious, and `ss` reports exactly their ports,
/// the network checks report nothing.
pub proof fn law_held_listeners_seen_by_ss_are_quiet(inp: NetInputs)
    requires
        forall|i: int|
            0 <= i < all_socks(inp).len() ==> starts_with((#[trigger] all_socks(inp)[i]).table, "tcp"@)
                && all_socks(inp)[i].state == "LISTEN"@ && has_holder(
                crate::text::string_views(inp.fd_targets@),
                all_socks(inp)[i].inode,
            ) && !is_sus_port(all_socks(inp)[i].local_port),
        forall|p: u16|
            (exists|i: int| 0 <= i < all_socks(inp).len() && (#[trigger] all_socks(inp)[i]).local_port == p)
                <==> ss_ports(inp.ss_output@).contains(p),
    ensures
        network_findings(inp) == Seq::<FindingView>::empty(),
{
    let socks = all_socks(inp);
    let n = socks.len() as int;
    let targets = crate::text::string_views(inp.fd_targets@);
    assert forall|i: int| 0 <= i < socks.len() implies is_listener(#[trigger] socks[i]) by {
        assert(starts_with(socks[i].table, "tcp"@));
    }
    lemma_all_listen(socks, n);
    assert(socks.take(n) == socks);
    let ls = listeners(socks, n);
    lemma_held_quiet(ls, targets, ls.len() as int);
    let pp = listen_ports(ls, ls.len() as int);
    let sp = ss_ports(inp.ss_output@);
    assert forall|p: u16| pp.contains(p) <==> sp.contains(p) by {
        if pp.contains(p) {
            lemma_listen_ports_only(ls, ls.len() as int, p);
            let k = choose|k: int| 0 <= k < ls.len() && (#[trigger] ls[k]).local_port == p;
            assert(socks[k].local_port == p);
        }
        if sp.contains(p) {
            let k = choose|k: int| 0 <= k < socks.len() && (#[trigger] socks[k]).local_port == p;
            lemma_listen_ports_has(ls, k, ls.len() as int);
        }
    }
    law_agreeing_port_views_are_quiet(pp, sp);
    lemma_no_established(socks, n);
    assert(network_findings(inp) =~= Seq::<FindingView>::empty());
}

} // verus!
