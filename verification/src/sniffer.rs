//! The port scanner: its command line, how the ports are shared out among
//! the scanning threads, and the ordering of what they found.

use vstd::prelude::*;

use crate::text::{decimal_text, digit_char, digits_text};

verus! {

broadcast use vstd::seq_lib::to_multiset_insert;

/// The highest port number.
pub const MAX_PORT: u16 = 65535;

/// The thread count when the command line gives none.
pub const DEFAULT_THREADS: u16 = 4;

/// An IP address: four octets, or eight 16-bit groups.
#[derive(Debug, Clone, Copy, PartialEq, Eq)]
pub enum IpAddress {
    V4([u8; 4]),
    V6([u16; 8]),
}

/// What the command line asks for: an address and a number of threads.
#[derive(Debug, Clone, Copy)]
pub struct Arguments {
    pub ipaddr: IpAddress,
    pub threads: u16,
}

// ---------------------------------------------------------------------------
// Decimal thread counts
// ---------------------------------------------------------------------------

pub open spec fn is_digit(c: char) -> bool {
    '0' <= c && c <= '9'
}

pub open spec fn all_digits(s: Seq<char>) -> bool {
    forall|i: int| 0 <= i < s.len() ==> is_digit(#[trigger] s[i])
}

/// The value of a string of decimal digits.
pub open spec fn digits_value(s: Seq<char>) -> int
    decreases s.len(),
{
    if s.len() == 0 {
        0
    } else {
        digits_value(s.drop_last()) * 10 + (s.last() as int - 48)
    }
}

/// The text after an optional leading `+`.
pub open spec fn unsigned_digits(s: Seq<char>) -> Seq<char> {
    if s.len() > 0 && s[0] == '+' {
        s.drop_first()
    } else {
        s
    }
}

/// What `str::parse::<u16>` gives: an optional `+` followed by one or more
/// ASCII digits whose value is at most 65535; nothing else parses.
pub open spec fn u16_of_text(s: Seq<char>) -> Option<u16> {
    let d = unsigned_digits(s);
    if d.len() > 0 && all_digits(d) && digits_value(d) <= 65535 {
        Some(digits_value(d) as u16)
    } else {
        None
    }
}

proof fn lemma_digits_value_nonneg(s: Seq<char>)
    requires
        all_digits(s),
    ensures
        digits_value(s) >= 0,
    decreases s.len(),
{
    if s.len() > 0 {
        lemma_digits_value_nonneg(s.drop_last());
    }
}

proof fn lemma_digits_text_value(n: nat)
    ensures
        digits_text(n).len() >= 1,
        all_digits(digits_text(n)),
        digits_value(digits_text(n)) == n,
        digits_text(n)[0] != '+',
    decreases n,
{
    let d = (n % 10) as int;
    assert((digit_char(d) as int) == 48 + d);
    if n >= 10 {
        lemma_digits_text_value(n / 10);
        let s = digits_text(n / 10);
        let t = digits_text(n);
        assert(t == s.push(digit_char(d)));
        assert(t.drop_last() =~= s);
        assert(t.last() == digit_char(d));
        assert(digits_value(t) == digits_value(s) * 10 + d);
        assert((n / 10) * 10 + n % 10 == n);
        assert forall|i: int| 0 <= i < t.len() implies is_digit(#[trigger] t[i]) by {
            if i < s.len() {
                assert(t[i] == s[i]);
            }
        }
    } else {
        assert((digit_char(n as int) as int) == 48 + n);
        assert(digits_text(n).drop_last() =~= Seq::<char>::empty());
        assert(digits_value(Seq::<char>::empty()) == 0);
        assert(digits_value(digits_text(n)) == n);
    }
}

/// Parsing reads back every decimal numeral: the text of `n` written in
/// decimal parses as `n`, for every `u16`.
pub proof fn lemma_parse_reads_decimal(n: u16)
    ensures
        u16_of_text(decimal_text(n as int)) == Some(n),
{
    lemma_digits_text_value(n as nat);
    assert(unsigned_digits(decimal_text(n as int)) == decimal_text(n as int));
}

/// Appending a digit multiplies the value by ten and adds the digit; one
/// digit alone is worth its own value.
pub proof fn lemma_digit_values(s: Seq<char>, d: int)
    requires
        0 <= d < 10,
    ensures
        digits_value(s.push(digit_char(d))) == 10 * digits_value(s) + d,
        digits_value(seq![digit_char(d)]) == d,
{
    assert((digit_char(d) as int) == 48 + d);
    assert(s.push(digit_char(d)).drop_last() =~= s);
    assert(seq![digit_char(d)].drop_last() =~= Seq::<char>::empty());
    assert(digits_value(Seq::<char>::empty()) == 0);
    assert(seq![digit_char(d)].last() == digit_char(d));
}

/// Parses a decimal `u16` as `str::parse` does.
pub fn parse_u16(s: &str) -> (r: Option<u16>)
    ensures
        r == u16_of_text(s@),
{
    let n = s.unicode_len();
    let start: usize = if n > 0 && s.get_char(0) == '+' {
        1
    } else {
        0
    };
    let ghost d = unsigned_digits(s@);
    assert(d =~= s@.subrange(start as int, n as int));
    if start >= n {
        return None;
    }
    let mut value: u32 = 0;
    let mut i: usize = start;
    while i < n
        invariant
            n == s@.len(),
            start <= i <= n,
            d == s@.subrange(start as int, n as int),
            d == unsigned_digits(s@),
            all_digits(s@.subrange(start as int, i as int)),
            value as int == if digits_value(s@.subrange(start as int, i as int)) < 65536 {
                digits_value(s@.subrange(start as int, i as int))
            } else {
                65536
            },
        decreases n - i,
    {
        let c = s.get_char(i);
        let ghost pre = s@.subrange(start as int, i as int);
        let ghost cur = s@.subrange(start as int, i + 1);
        assert(cur.drop_last() =~= pre);
        if c < '0' || c > '9' {
            assert(d[i - start] == c);
            assert(!is_digit(d[i - start]));
            assert(!all_digits(d));
            return None;
        }
        proof {
            lemma_digits_value_nonneg(pre);
        }
        let digit = (c as u32) - 48;
        let next = value * 10 + digit;
        value = if next > 65536 {
            65536
        } else {
            next
        };
        i = i + 1;
        assert(cur.last() == c);
        assert(all_digits(cur)) by {
            assert forall|j: int| 0 <= j < cur.len() implies is_digit(#[trigger] cur[j]) by {
                if j < pre.len() {
                    assert(cur[j] == pre[j]);
                }
            }
        }
    }
    assert(s@.subrange(start as int, n as int) == d);
    if value > 65535 {
        None
    } else {
        Some(value as u16)
    }
}

// ---------------------------------------------------------------------------
// The command line
// ---------------------------------------------------------------------------

/// Whether two strings hold the same characters.
fn same_text(a: &str, b: &str) -> (r: bool)
    ensures
        r == (a@ == b@),
{
    let n = a.unicode_len();
    if n != b.unicode_len() {
        return false;
    }
    let mut i: usize = 0;
    while i < n
        invariant
            n == a@.len(),
            n == b@.len(),
            i <= n,
            forall|j: int| 0 <= j < i ==> a@[j] == b@[j],
        decreases n - i,
    {
        if a.get_char(i) != b.get_char(i) {
            return false;
        }
        i = i + 1;
    }
    assert(a@ =~= b@);
    true
}

/// What the command line `args` (program name first) asks for, where
/// `parsed_ip` is what parsing `args[1]` as an IP address gave (`None` where
/// it is not one, or where there is no `args[1]`).
pub open spec fn arguments_of(args: Seq<Seq<char>>, parsed_ip: Option<IpAddress>) -> Result<
    (IpAddress, u16),
    Seq<char>,
> {
    if args.len() < 2 {
        Err("not enough arguments"@)
    } else if args.len() == 2 && (args[1] == "-h"@ || args[1] == "--help"@) {
        Err("help"@)
    } else if args.len() > 3 {
        Err("too many arguments"@)
    } else if parsed_ip is None {
        Err("invalid ip address"@)
    } else if args.len() == 3 {
        match u16_of_text(args[2]) {
            Some(t) => Ok((parsed_ip.unwrap(), t)),
            None => Err("invalid number of threads"@),
        }
    } else {
        Ok((parsed_ip.unwrap(), DEFAULT_THREADS))
    }
}

pub open spec fn texts(args: Seq<String>) -> Seq<Seq<char>> {
    args.map_values(|s: String| s@)
}

impl Arguments {
    /// Reads the command line: `<program> <ip> [threads]`, or `-h`/`--help`
    /// alone. The thread count defaults to 4.
    pub fn new(args: &[String], parsed_ip: Option<IpAddress>) -> (r: Result<Arguments, &'static str>)
        ensures
            match arguments_of(texts(args@), parsed_ip) {
                Ok((ip, t)) => r matches Ok(a) && a.ipaddr == ip && a.threads == t,
                Err(msg) => r matches Err(e) && e@ == msg,
            },
    {
        let ghost ts = texts(args@);
        let n = args.len();
        if n < 2 {
            return Err("not enough arguments");
        }
        assert(ts[1] == args@[1]@);
        if n == 2 && (same_text(args[1].as_str(), "-h") || same_text(args[1].as_str(), "--help")) {
            return Err("help");
        }
        if n > 3 {
            return Err("too many arguments");
        }
        let ipaddr = match parsed_ip {
            Some(ip) => ip,
            None => {
                return Err("invalid ip address");
            },
        };
        let threads = if n == 3 {
            assert(ts[2] == args@[2]@);
            match parse_u16(args[2].as_str()) {
                Some(t) => t,
                None => {
                    return Err("invalid number of threads");
                },
            }
        } else {
            DEFAULT_THREADS
        };
        Ok(Arguments { ipaddr, threads })
    }
}

// ---------------------------------------------------------------------------
// Sharing out the ports
// ---------------------------------------------------------------------------

/// The number of scanning threads: as asked, but at least one.
pub fn thread_count(threads: u16) -> (r: u16)
    ensures
        r == if threads == 0 {
            1
        } else {
            threads
        },
{
    if threads < 1 {
        1
    } else {
        threads
    }
}

/// A thread that starts at `start` and steps by `step` tries port `p`.
pub open spec fn scanned_by(start: int, step: int, p: int) -> bool {
    &&& start <= p <= 65535
    &&& (p - start) % step == 0
}

proof fn lemma_scan_member(start: int, step: int, len: int, p: int)
    requires
        step >= 1,
        0 <= start,
        0 <= p <= 65535,
        len >= 1,
        start + len * step > 65535,
    ensures
        (exists|k: int| 0 <= k < len && p == start + #[trigger] (k * step)) <==> scanned_by(
            start,
            step,
            p,
        ),
{
    if exists|k: int| 0 <= k < len && p == start + #[trigger] (k * step) {
        let k = choose|k: int| 0 <= k < len && p == start + #[trigger] (k * step);
        vstd::arithmetic::div_mod::lemma_mod_multiples_basic(k, step);
        assert(0 <= k * step) by (nonlinear_arith)
            requires
                0 <= k,
                1 <= step,
        ;
    }
    if scanned_by(start, step, p) {
        let k = (p - start) / step;
        vstd::arithmetic::div_mod::lemma_fundamental_div_mod(p - start, step);
        assert(p == start + k * step) by (nonlinear_arith)
            requires
                p - start == step * k + 0,
        ;
        assert(0 <= k && k < len) by (nonlinear_arith)
            requires
                p == start + k * step,
                start <= p,
                p <= 65535,
                start + len * step > 65535,
                step >= 1,
        ;
    }
}

/// The ports one thread tries: from `start_port` up in steps of `step`, as
/// far as port 65535.
pub fn scan_ports(start_port: u16, step: u16) -> (r: Vec<u16>)
    requires
        step >= 1,
    ensures
        r@.len() >= 1,
        forall|k: int| 0 <= k < r@.len() ==> r@[k] == start_port + #[trigger] (k * step),
        start_port + r@.len() * step > 65535,
        forall|p: u16| r@.contains(p) <==> scanned_by(start_port as int, step as int, p as int),
{
    let mut out: Vec<u16> = Vec::new();
    let mut port: u16 = start_port;
    assert(out@.len() * step == 0) by (nonlinear_arith)
        requires
            out@.len() == 0,
    ;
    loop
        invariant_except_break
            step >= 1,
            port == start_port + out@.len() * step,
            forall|k: int| 0 <= k < out@.len() ==> out@[k] == start_port + #[trigger] (k * step),
        ensures
            step >= 1,
            out@.len() >= 1,
            forall|k: int| 0 <= k < out@.len() ==> out@[k] == start_port + #[trigger] (k * step),
            start_port + out@.len() * step > 65535,
        decreases 65536 - port,
    {
        let ghost len = out@.len();
        out.push(port);
        assert(out@[len as int] == start_port + len * step);
        assert(port + step == start_port + (len + 1) * step) by (nonlinear_arith)
            requires
                port == start_port + len * step,
        ;
        let next_port: u32 = port as u32 + step as u32;
        if next_port > 65535 {
            break;
        }
        port = next_port as u16;
    }
    assert forall|p: u16| out@.contains(p) <==> scanned_by(
        start_port as int,
        step as int,
        p as int,
    ) by {
        lemma_scan_member(start_port as int, step as int, out@.len() as int, p as int);
        if out@.contains(p) {
            let k = choose|k: int| 0 <= k < out@.len() && out@[k] == p;
            assert(out@[k] == start_port + k * step);
        }
        if exists|k: int| 0 <= k < out@.len() && p == start_port + #[trigger] (k * step) {
            let k = choose|k: int| 0 <= k < out@.len() && p == start_port + #[trigger] (k * step);
            assert(out@[k] == p);
        }
    }
    out
}

/// With `n` threads, thread `i` (counting from 0) starts at port `i + 1` and
/// steps by `n`: every port from 1 to 65535 is tried by exactly one thread,
/// the one numbered `(p - 1) % n`, and port 0 by none.
pub proof fn lemma_threads_share_ports(n: int, p: int)
    requires
        n >= 1,
        0 <= p <= 65535,
    ensures
        p >= 1 ==> scanned_by((p - 1) % n + 1, n, p),
        forall|i: int| 0 <= i < n && #[trigger] scanned_by(i + 1, n, p) ==> p >= 1 && i == (p - 1) % n,
{
    if p >= 1 {
        let q = (p - 1) / n;
        let r = (p - 1) % n;
        vstd::arithmetic::div_mod::lemma_fundamental_div_mod(p - 1, n);
        assert(0 <= r < n);
        assert(q >= 0) by (nonlinear_arith)
            requires
                p - 1 >= 0,
                n >= 1,
                q == (p - 1) / n,
        ;
        assert(n * q >= 0) by (nonlinear_arith)
            requires
                q >= 0,
                n >= 1,
        ;
        assert(p - (r + 1) == q * n) by (nonlinear_arith)
            requires
                p - 1 == n * q + r,
        ;
        vstd::arithmetic::div_mod::lemma_mod_multiples_basic(q, n);
    }
    assert forall|i: int| 0 <= i < n && #[trigger] scanned_by(i + 1, n, p) implies p >= 1 && i == (
    p - 1) % n by {
        let m = (p - i - 1) / n;
        vstd::arithmetic::div_mod::lemma_fundamental_div_mod(p - i - 1, n);
        assert(p - 1 == m * n + i) by (nonlinear_arith)
            requires
                p - i - 1 == n * m + 0,
        ;
        vstd::arithmetic::div_mod::lemma_fundamental_div_mod_converse(p - 1, n, m, i);
    }
}

// ---------------------------------------------------------------------------
// Ordering the open ports
// ---------------------------------------------------------------------------

pub open spec fn ascending(s: Seq<u16>) -> bool {
    forall|i: int, j: int| 0 <= i < j < s.len() ==> s[i] <= s[j]
}

/// The ports in ascending order: the same ports, each as often.
pub fn sort_ports(ports: &Vec<u16>) -> (r: Vec<u16>)
    ensures
        ascending(r@),
        r@.to_multiset() == ports@.to_multiset(),
{
    let mut out: Vec<u16> = Vec::new();
    let n = ports.len();
    assert(ports@.take(0) =~= Seq::<u16>::empty());
    assert(out@ =~= Seq::<u16>::empty());
    for i in 0..n
        invariant
            n == ports@.len(),
            ascending(out@),
            out@.to_multiset() == ports@.take(i as int).to_multiset(),
    {
        let x = ports[i];
        let m = out.len();
        let mut pos: usize = 0;
        while pos < m && out[pos] <= x
            invariant
                m == out@.len(),
                pos <= m,
                forall|j: int| 0 <= j < pos ==> out@[j] <= x,
            decreases m - pos,
        {
            pos = pos + 1;
        }
        let ghost before = out@;
        out.insert(pos, x);
        proof {
            assert(ports@.take(i + 1) =~= ports@.take(i as int).push(x));
            vstd::seq_lib::to_multiset_build(ports@.take(i as int), x);
            assert forall|a: int, b: int| 0 <= a < b < out@.len() implies out@[a] <= out@[b] by {
                if b < pos {
                } else if b == pos {
                    assert(out@[a] == before[a]);
                } else if a < pos {
                    assert(out@[b] == before[b - 1]);
                } else if a == pos {
                    assert(out@[b] == before[b - 1]);
                    assert(pos < m);
                    assert(before[pos as int] > x);
                } else {
                    assert(out@[a] == before[a - 1]);
                    assert(out@[b] == before[b - 1]);
                }
            }
        }
    }
    assert(ports@.take(n as int) =~= ports@);
    out
}

} // verus!
